//! Laying out a picture of the board at any point of a replay: one shaded,
//! numbered box per cell, one line per wall, and a marker on each agent.
//! The crate describes the picture as plain data; turning it into an image
//! format is the caller's affair.

use vstd::prelude::*;

use vstd::arithmetic::div_mod::lemma_fundamental_div_mod_converse;

use crate::board::{grid_bounded, grid_shaped, gview, walls_wf, BoardSpec, Input, MAX_N};
use crate::sim::{
    compute_score_details, details_post, lemma_run_wf, start_state, Output, SimDetails,
};

verus! {

/// One cell of the picture: a 20-unit box at `(x, y)`, filled red with
/// opacity `alpha_mil` (thousandths), and the cell's number `value` written
/// at its centre.
#[derive(Clone, Copy, PartialEq, Eq, Structural, Debug)]
pub struct CellBox {
    pub x: i32,
    pub y: i32,
    pub w: i32,
    pub h: i32,
    pub alpha_mil: i32,
    pub value: i32,
}

/// One wall of the picture: a line segment between two corners.
#[derive(Clone, Copy, PartialEq, Eq, Structural, Debug)]
pub struct WallLine {
    pub x1: i32,
    pub y1: i32,
    pub x2: i32,
    pub y2: i32,
}

/// The centre point at which an agent's letter is written.
#[derive(Clone, Copy, PartialEq, Eq, Structural, Debug)]
pub struct AgentMark {
    pub x: i32,
    pub y: i32,
}

/// A full picture of one board state.
#[derive(PartialEq, Eq, Debug)]
pub struct Scene {
    pub width: i32,
    pub height: i32,
    /// One box per cell, row-major: cell `(i, j)` at index `i * n + j`.
    pub cells: Vec<CellBox>,
    /// One vertical line per set vertical wall, rows outermost.
    pub vlines: Vec<WallLine>,
    /// One horizontal line per set horizontal wall, row gaps outermost.
    pub hlines: Vec<WallLine>,
    /// Agent T's marker.
    pub mark_t: AgentMark,
    /// Agent A's marker.
    pub mark_a: AgentMark,
}

/// Fill opacity of a cell holding `v`, in thousandths: interpolated from
/// 200 (value 0) towards 1000 (the largest value `maxv`), rounded down.
pub open spec fn spec_alpha_mil(v: int, maxv: int) -> int {
    200 + (800 * v) / maxv
}

/// The box drawn for cell `(i, j)` of grid `g` on an `n`-sized board.
pub open spec fn spec_cell(n: int, g: Seq<Seq<i32>>, i: int, j: int) -> CellBox {
    CellBox {
        x: (20 * j) as i32,
        y: (20 * i) as i32,
        w: 20,
        h: 20,
        alpha_mil: spec_alpha_mil(g[i][j] as int, n * n) as i32,
        value: g[i][j],
    }
}

/// The line drawn for the vertical wall between cells `(i, j)` and
/// `(i, j + 1)`.
pub open spec fn vline_at(i: int, j: int) -> WallLine {
    WallLine {
        x1: (20 * (j + 1)) as i32,
        y1: (20 * i) as i32,
        x2: (20 * (j + 1)) as i32,
        y2: (20 * i + 20) as i32,
    }
}

/// The line drawn for the horizontal wall between cells `(i, j)` and
/// `(i + 1, j)`.
pub open spec fn hline_at(i: int, j: int) -> WallLine {
    WallLine {
        x1: (20 * j) as i32,
        y1: (20 * (i + 1)) as i32,
        x2: (20 * j + 20) as i32,
        y2: (20 * (i + 1)) as i32,
    }
}

/// The marker drawn for an agent standing at `p`: the centre of its cell.
pub open spec fn spec_mark(p: (int, int)) -> AgentMark {
    AgentMark { x: (p.1 * 20 + 10) as i32, y: (p.0 * 20 + 10) as i32 }
}

/// Lines for the vertical walls of row `i` with column index below `j`, in
/// column order.
pub open spec fn vrow_upto(b: BoardSpec, i: int, j: int) -> Seq<WallLine>
    decreases j,
{
    if j <= 0 {
        Seq::empty()
    } else {
        let pre = vrow_upto(b, i, j - 1);
        if b.vs[i][j - 1] {
            pre.push(vline_at(i, j - 1))
        } else {
            pre
        }
    }
}

/// Lines for all vertical walls of the rows below `i`, row-major.
pub open spec fn vwalls_upto(b: BoardSpec, i: int) -> Seq<WallLine>
    decreases i,
{
    if i <= 0 {
        Seq::empty()
    } else {
        vwalls_upto(b, i - 1) + vrow_upto(b, i - 1, b.n - 1)
    }
}

/// Lines for the horizontal walls of row gap `i` with column index below
/// `j`, in column order.
pub open spec fn hrow_upto(b: BoardSpec, i: int, j: int) -> Seq<WallLine>
    decreases j,
{
    if j <= 0 {
        Seq::empty()
    } else {
        let pre = hrow_upto(b, i, j - 1);
        if b.hs[i][j - 1] {
            pre.push(hline_at(i, j - 1))
        } else {
            pre
        }
    }
}

/// Lines for all horizontal walls of the row gaps below `i`, row-major.
pub open spec fn hwalls_upto(b: BoardSpec, i: int) -> Seq<WallLine>
    decreases i,
{
    if i <= 0 {
        Seq::empty()
    } else {
        hwalls_upto(b, i - 1) + hrow_upto(b, i - 1, b.n)
    }
}

/// Everything `render_scene` promises about the picture of a state.
pub open spec fn scene_post(inp: Input, sim: SimDetails, sc: Scene) -> bool {
    let b = inp.bspec();
    let g = gview(sim.grid);
    &&& sc.width == 20 * b.n
    &&& sc.height == 20 * b.n
    &&& sc.cells@.len() == b.n * b.n
    &&& (forall|t: int|
        0 <= t < b.n * b.n ==> #[trigger] sc.cells@[t] == spec_cell(b.n, g, t / b.n, t % b.n))
    &&& sc.vlines@ == vwalls_upto(b, b.n)
    &&& sc.hlines@ == hwalls_upto(b, b.n - 1)
    &&& sc.mark_t == spec_mark((sim.p1.0 as int, sim.p1.1 as int))
    &&& sc.mark_a == spec_mark((sim.p2.0 as int, sim.p2.1 as int))
}

proof fn lemma_add_push<T>(a: Seq<T>, s: Seq<T>, x: T)
    ensures
        (a + s).push(x) == a + s.push(x),
{
    assert((a + s).push(x) =~= a + s.push(x));
}

/// Lays out the picture of the state `sim`: every cell as a shaded numbered
/// box, every set wall as a line, and the two agents' markers.
pub fn render_scene(input: &Input, sim: &SimDetails) -> (sc: Scene)
    requires
        walls_wf(input.bspec()),
        input.n <= MAX_N,
        grid_shaped(input.n as int, gview(sim.grid)),
        grid_bounded(input.n as int, gview(sim.grid)),
        sim.p1.0 < input.n,
        sim.p1.1 < input.n,
        sim.p2.0 < input.n,
        sim.p2.1 < input.n,
    ensures
        scene_post(*input, *sim, sc),
{
    let ghost b = input.bspec();
    let ghost g = gview(sim.grid);
    let n = input.n;
    proof {
        assert(1 <= (n as int) * (n as int) <= 1000000) by (nonlinear_arith)
            requires
                1 <= n <= 1000,
        ;
    }
    let maxv: i32 = (n * n) as i32;
    let width: i32 = (n as i32) * 20;

    let mut cells: Vec<CellBox> = Vec::new();
    let mut i: usize = 0;
    while i < n
        invariant
            b == input.bspec(),
            g == gview(sim.grid),
            n == input.n,
            1 <= n <= MAX_N,
            grid_shaped(b.n, g),
            grid_bounded(b.n, g),
            maxv == b.n * b.n,
            1 <= maxv <= 1000000,
            i <= n,
            cells@.len() == i * (n as int),
            forall|t: int|
                0 <= t < cells@.len() ==> #[trigger] cells@[t] == spec_cell(
                    b.n,
                    g,
                    t / b.n,
                    t % b.n,
                ),
        decreases n - i,
    {
        let mut j: usize = 0;
        while j < n
            invariant
                b == input.bspec(),
                g == gview(sim.grid),
                n == input.n,
                1 <= n <= MAX_N,
                grid_shaped(b.n, g),
                grid_bounded(b.n, g),
                maxv == b.n * b.n,
            1 <= maxv <= 1000000,
                i < n,
                j <= n,
                cells@.len() == i * (n as int) + j,
                forall|t: int|
                    0 <= t < cells@.len() ==> #[trigger] cells@[t] == spec_cell(
                        b.n,
                        g,
                        t / b.n,
                        t % b.n,
                    ),
            decreases n - j,
        {
            proof {
                assert(forall|u: int| 0 <= u < b.n ==> (#[trigger] sim.grid@[u])@ == g[u]);
            }
            let v = sim.grid[i][j];
            let alpha: i32 = 200 + (800 * v) / maxv;
            let cb = CellBox {
                x: (j as i32) * 20,
                y: (i as i32) * 20,
                w: 20,
                h: 20,
                alpha_mil: alpha,
                value: v,
            };
            proof {
                lemma_fundamental_div_mod_converse(
                    (i as int) * b.n + (j as int),
                    b.n,
                    i as int,
                    j as int,
                );
                assert(cb == spec_cell(b.n, g, i as int, j as int));
            }
            cells.push(cb);
            j = j + 1;
        }
        proof {
            assert(((i as int) + 1) * (n as int) == (i as int) * (n as int) + (n as int))
                by (nonlinear_arith);
        }
        i = i + 1;
    }

    let mut vlines: Vec<WallLine> = Vec::new();
    let mut i: usize = 0;
    while i < n
        invariant
            b == input.bspec(),
            n == input.n,
            1 <= n <= MAX_N,
            walls_wf(b),
            i <= n,
            vlines@ == vwalls_upto(b, i as int),
        decreases n - i,
    {
        let mut j: usize = 0;
        proof {
            assert(vwalls_upto(b, i as int) + Seq::<WallLine>::empty() =~= vwalls_upto(
                b,
                i as int,
            ));
        }
        while j < n - 1
            invariant
                b == input.bspec(),
                n == input.n,
                1 <= n <= MAX_N,
                walls_wf(b),
                i < n,
                j <= n - 1,
                vlines@ == vwalls_upto(b, i as int) + vrow_upto(b, i as int, j as int),
            decreases n - 1 - j,
        {
            proof {
                assert(forall|u: int| 0 <= u < b.n ==> (#[trigger] input.vs@[u])@ == b.vs[u]);
            }
            if input.vs[i][j] {
                let x: i32 = ((j + 1) as i32) * 20;
                let y: i32 = (i as i32) * 20;
                vlines.push(WallLine { x1: x, y1: y, x2: x, y2: y + 20 });
                proof {
                    lemma_add_push(
                        vwalls_upto(b, i as int),
                        vrow_upto(b, i as int, j as int),
                        vline_at(i as int, j as int),
                    );
                }
            }
            j = j + 1;
        }
        i = i + 1;
    }

    let mut hlines: Vec<WallLine> = Vec::new();
    let mut i: usize = 0;
    while i < n - 1
        invariant
            b == input.bspec(),
            n == input.n,
            1 <= n <= MAX_N,
            walls_wf(b),
            i <= n - 1,
            hlines@ == hwalls_upto(b, i as int),
        decreases n - 1 - i,
    {
        let mut j: usize = 0;
        proof {
            assert(hwalls_upto(b, i as int) + Seq::<WallLine>::empty() =~= hwalls_upto(
                b,
                i as int,
            ));
        }
        while j < n
            invariant
                b == input.bspec(),
                n == input.n,
                1 <= n <= MAX_N,
                walls_wf(b),
                i < n - 1,
                j <= n,
                hlines@ == hwalls_upto(b, i as int) + hrow_upto(b, i as int, j as int),
            decreases n - j,
        {
            proof {
                assert(forall|u: int| 0 <= u < b.n - 1 ==> (#[trigger] input.hs@[u])@ == b.hs[u]);
            }
            if input.hs[i][j] {
                let x: i32 = (j as i32) * 20;
                let y: i32 = ((i + 1) as i32) * 20;
                hlines.push(WallLine { x1: x, y1: y, x2: x + 20, y2: y });
                proof {
                    lemma_add_push(
                        hwalls_upto(b, i as int),
                        hrow_upto(b, i as int, j as int),
                        hline_at(i as int, j as int),
                    );
                }
            }
            j = j + 1;
        }
        i = i + 1;
    }

    let mark_t = AgentMark { x: (sim.p1.1 as i32) * 20 + 10, y: (sim.p1.0 as i32) * 20 + 10 };
    let mark_a = AgentMark { x: (sim.p2.1 as i32) * 20 + 10, y: (sim.p2.0 as i32) * 20 + 10 };
    Scene { width, height: width, cells, vlines, hlines, mark_t, mark_a }
}

/// A rendered frame: the replay's report and the picture of its state.
pub struct VisResult {
    pub sim: SimDetails,
    pub scene: Scene,
}

/// Everything `vis` promises: the replay report of the prefix of length
/// `min(turn, len)` and the picture of the state that prefix reaches.
pub open spec fn vis_post(inp: Input, outp: Output, turn: int, r: VisResult) -> bool {
    let k = if turn <= outp.out@.len() {
        turn
    } else {
        outp.out@.len() as int
    };
    &&& details_post(inp, outp.start, outp.out@, k, r.sim)
    &&& scene_post(inp, r.sim, r.scene)
}

/// Replays the first `min(turn, len)` actions of the solution and lays out
/// the picture of the state reached; the report of that prefix (roughness
/// pair and first failure, if any) comes along with it.
pub fn vis(input: &Input, output: &Output, turn: usize) -> (r: VisResult)
    requires
        input.wf(),
        input.n <= MAX_N,
        output.start.0 < input.n,
        output.start.1 < input.n,
        output.start.2 < input.n,
        output.start.3 < input.n,
    ensures
        vis_post(*input, *output, turn as int, r),
{
    let len = output.out.len();
    let k = if turn < len {
        turn
    } else {
        len
    };
    let sim = compute_score_details(input, output.start, &output.out, k);
    proof {
        let b = input.bspec();
        if output.out@.len() <= 4 * b.n * b.n {
            lemma_run_wf(b, start_state(*input, output.start), output.out@, k as int);
        }
    }
    let scene = render_scene(input, &sim);
    VisResult { sim, scene }
}

/// Rendering is a pure function of board, solution and turn: any two results
/// that `vis` may return for the same arguments agree on the report and on
/// every element of the picture.
pub proof fn lemma_vis_deterministic(
    inp: Input,
    outp: Output,
    turn: int,
    r1: VisResult,
    r2: VisResult,
)
    requires
        vis_post(inp, outp, turn, r1),
        vis_post(inp, outp, turn, r2),
    ensures
        r1.sim.before == r2.sim.before,
        r1.sim.after == r2.sim.after,
        r1.sim.err == r2.sim.err,
        gview(r1.sim.grid) == gview(r2.sim.grid),
        r1.sim.p1 == r2.sim.p1,
        r1.sim.p2 == r2.sim.p2,
        r1.scene.width == r2.scene.width,
        r1.scene.height == r2.scene.height,
        r1.scene.cells@ == r2.scene.cells@,
        r1.scene.vlines@ == r2.scene.vlines@,
        r1.scene.hlines@ == r2.scene.hlines@,
        r1.scene.mark_t == r2.scene.mark_t,
        r1.scene.mark_a == r2.scene.mark_a,
{
    assert(r1.scene.cells@ =~= r2.scene.cells@);
}

} // verus!
