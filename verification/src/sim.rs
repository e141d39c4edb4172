//! Replaying a solution: two agents walk the board, optionally swapping the
//! numbers under them, and the replay stops at the first illegal move.

use vstd::prelude::*;

use crate::board::{
    can_move, di, dj, grid_bounded, grid_shaped, gview, spec_can_move, walls_wf, BoardSpec, Dir,
    Input, MAX_N,
};
use crate::rough::{compute_diff, spec_rough};

verus! {

/// One action of a solution: whether to swap the two numbers under the
/// agents, then an optional move for agent T and one for agent A.
pub type Action = (bool, Option<Dir>, Option<Dir>);

/// A simulation state as mathematical values: the grid of numbers and the
/// two agents' positions.
pub ghost struct GState {
    pub g: Seq<Seq<i32>>,
    pub p1: (int, int),
    pub p2: (int, int),
}

/// Position `p` lies on an `n` x `n` board.
pub open spec fn pos_in(n: int, p: (int, int)) -> bool {
    &&& 0 <= p.0 < n
    &&& 0 <= p.1 < n
}

/// The state is shaped for board `b` and both agents stand on it.
pub open spec fn gstate_wf(b: BoardSpec, st: GState) -> bool {
    &&& grid_shaped(b.n, st.g)
    &&& grid_bounded(b.n, st.g)
    &&& pos_in(b.n, st.p1)
    &&& pos_in(b.n, st.p2)
}

/// Grid `g` with the cell at `p` overwritten by `v`.
pub open spec fn grid_set(g: Seq<Seq<i32>>, p: (int, int), v: i32) -> Seq<Seq<i32>> {
    g.update(p.0, g[p.0].update(p.1, v))
}

/// Grid `g` with the values at `p1` and `p2` exchanged (a no-op when the
/// positions coincide).
pub open spec fn spec_swap(g: Seq<Seq<i32>>, p1: (int, int), p2: (int, int)) -> Seq<Seq<i32>> {
    let v1 = g[p1.0][p1.1];
    let v2 = g[p2.0][p2.1];
    grid_set(grid_set(g, p1, v2), p2, v1)
}

/// One action applied to a state: first the swap, then agent T's move, then
/// agent A's move.  The second component reports the first illegal move, as
/// the offending agent (`true` for A) and the attempted direction; the state
/// returned is the one reached just before that move.
pub open spec fn spec_step(b: BoardSpec, st: GState, act: Action) -> (GState, Option<(bool, Dir)>) {
    let g1 = if act.0 {
        spec_swap(st.g, st.p1, st.p2)
    } else {
        st.g
    };
    let s1 = GState { g: g1, p1: st.p1, p2: st.p2 };
    match act.1 {
        Option::Some(d1) => {
            if !spec_can_move(b, st.p1.0, st.p1.1, d1) {
                (s1, Option::Some((false, d1)))
            } else {
                spec_step_second(
                    b,
                    GState { g: g1, p1: (st.p1.0 + di(d1), st.p1.1 + dj(d1)), p2: st.p2 },
                    act.2,
                )
            }
        },
        Option::None => spec_step_second(b, s1, act.2),
    }
}

/// Agent A's half of an action.
pub open spec fn spec_step_second(b: BoardSpec, st: GState, m2: Option<Dir>) -> (
    GState,
    Option<(bool, Dir)>,
) {
    match m2 {
        Option::Some(d2) => {
            if !spec_can_move(b, st.p2.0, st.p2.1, d2) {
                (st, Option::Some((true, d2)))
            } else {
                (
                    GState { g: st.g, p1: st.p1, p2: (st.p2.0 + di(d2), st.p2.1 + dj(d2)) },
                    Option::None,
                )
            }
        },
        Option::None => (st, Option::None),
    }
}

/// The first `k` actions of `acts` replayed from `st0`: the state reached
/// and the first illegal move, if any.  After an illegal move the state
/// freezes; later actions are not applied.
pub open spec fn spec_run(b: BoardSpec, st0: GState, acts: Seq<Action>, k: int) -> (
    GState,
    Option<(bool, Dir)>,
)
    decreases k,
{
    if k <= 0 {
        (st0, Option::None)
    } else {
        let prev = spec_run(b, st0, acts, k - 1);
        if prev.1 is Some {
            prev
        } else {
            spec_step(b, prev.0, acts[k - 1])
        }
    }
}

proof fn lemma_grid_set_wf(n: int, g: Seq<Seq<i32>>, p: (int, int), v: i32)
    requires
        grid_shaped(n, g),
        grid_bounded(n, g),
        pos_in(n, p),
        0 <= v <= n * n,
    ensures
        grid_shaped(n, grid_set(g, p, v)),
        grid_bounded(n, grid_set(g, p, v)),
{
    let g2 = grid_set(g, p, v);
    assert forall|i: int| 0 <= i < n implies (#[trigger] g2[i]).len() == n by {}
    assert forall|i: int, j: int| 0 <= i < n && 0 <= j < n implies 0 <= #[trigger] g2[i][j] <= n
        * n by {}
}

/// Swapping two cells preserves shape and value bounds.
proof fn lemma_swap_wf(n: int, g: Seq<Seq<i32>>, p1: (int, int), p2: (int, int))
    requires
        grid_shaped(n, g),
        grid_bounded(n, g),
        pos_in(n, p1),
        pos_in(n, p2),
    ensures
        grid_shaped(n, spec_swap(g, p1, p2)),
        grid_bounded(n, spec_swap(g, p1, p2)),
{
    let v1 = g[p1.0][p1.1];
    let v2 = g[p2.0][p2.1];
    lemma_grid_set_wf(n, g, p1, v2);
    lemma_grid_set_wf(n, grid_set(g, p1, v2), p2, v1);
}

proof fn lemma_step_wf(b: BoardSpec, st: GState, act: Action)
    requires
        walls_wf(b),
        gstate_wf(b, st),
    ensures
        gstate_wf(b, spec_step(b, st, act).0),
{
    if act.0 {
        lemma_swap_wf(b.n, st.g, st.p1, st.p2);
    }
}

/// Every prefix of a replay leaves a well-shaped state with both agents on
/// the board.
pub proof fn lemma_run_wf(b: BoardSpec, st0: GState, acts: Seq<Action>, k: int)
    requires
        walls_wf(b),
        gstate_wf(b, st0),
        0 <= k,
    ensures
        gstate_wf(b, spec_run(b, st0, acts, k).0),
    decreases k,
{
    if k > 0 {
        lemma_run_wf(b, st0, acts, k - 1);
        let prev = spec_run(b, st0, acts, k - 1);
        if prev.1 is None {
            lemma_step_wf(b, prev.0, acts[k - 1]);
        }
    }
}

/// Once a replay has failed, running further actions changes nothing.
pub proof fn lemma_run_fault_persists(b: BoardSpec, st0: GState, acts: Seq<Action>, k1: int, k2: int)
    requires
        0 <= k1 <= k2,
        spec_run(b, st0, acts, k1).1 is Some,
    ensures
        spec_run(b, st0, acts, k2) == spec_run(b, st0, acts, k1),
    decreases k2 - k1,
{
    if k2 > k1 {
        lemma_run_fault_persists(b, st0, acts, k1, k2 - 1);
    }
}

proof fn lemma_run_subrange(b: BoardSpec, st0: GState, acts: Seq<Action>, k: int, k2: int)
    requires
        0 <= k <= k2 <= acts.len(),
    ensures
        spec_run(b, st0, acts.subrange(0, k2), k) == spec_run(b, st0, acts, k),
    decreases k,
{
    if k > 0 {
        lemma_run_subrange(b, st0, acts, k - 1, k2);
        assert(acts.subrange(0, k2)[k - 1] == acts[k - 1]);
    }
}

/// Prefix consistency: when the first `k2` actions replay without an illegal
/// move, so does every shorter prefix, and replaying the `k2`-long prefix
/// while stopping the bookkeeping after `k1` actions yields exactly the state
/// of replaying only `k1` actions.
pub proof fn lemma_prefix_consistency(
    b: BoardSpec,
    st0: GState,
    acts: Seq<Action>,
    k1: int,
    k2: int,
)
    requires
        0 <= k1 <= k2 <= acts.len(),
        spec_run(b, st0, acts, k2).1 is None,
    ensures
        spec_run(b, st0, acts, k1).1 is None,
        spec_run(b, st0, acts.subrange(0, k2), k1) == spec_run(b, st0, acts, k1),
{
    if spec_run(b, st0, acts, k1).1 is Some {
        lemma_run_fault_persists(b, st0, acts, k1, k2);
    }
    lemma_run_subrange(b, st0, acts, k1, k2);
}

/// Why a replay was rejected.
#[derive(Clone, Copy, PartialEq, Eq, Structural, Debug)]
pub enum SimError {
    /// The solution holds more than `4 * n * n` actions.
    TooManyActions,
    /// The named agent (`by_a` false: T, true: A) attempted an illegal move.
    InvalidMove { by_a: bool, dir: Dir },
}

impl SimError {
    /// The diagnostic text for this failure, word for word as the judge
    /// reports it.
    pub open spec fn spec_message(self) -> Seq<char> {
        match self {
            SimError::TooManyActions => "Too many actions"@,
            SimError::InvalidMove { by_a, dir } => match (by_a, dir) {
                (false, Dir::U) => "Invalid move by T: U"@,
                (false, Dir::D) => "Invalid move by T: D"@,
                (false, Dir::L) => "Invalid move by T: L"@,
                (false, Dir::R) => "Invalid move by T: R"@,
                (true, Dir::U) => "Invalid move by A: U"@,
                (true, Dir::D) => "Invalid move by A: D"@,
                (true, Dir::L) => "Invalid move by A: L"@,
                (true, Dir::R) => "Invalid move by A: R"@,
            },
        }
    }

    /// Renders the diagnostic.
    pub fn message(&self) -> (m: &'static str)
        ensures
            m@ == self.spec_message(),
    {
        match *self {
            SimError::TooManyActions => "Too many actions",
            SimError::InvalidMove { by_a: false, dir: Dir::U } => "Invalid move by T: U",
            SimError::InvalidMove { by_a: false, dir: Dir::D } => "Invalid move by T: D",
            SimError::InvalidMove { by_a: false, dir: Dir::L } => "Invalid move by T: L",
            SimError::InvalidMove { by_a: false, dir: Dir::R } => "Invalid move by T: R",
            SimError::InvalidMove { by_a: true, dir: Dir::U } => "Invalid move by A: U",
            SimError::InvalidMove { by_a: true, dir: Dir::D } => "Invalid move by A: D",
            SimError::InvalidMove { by_a: true, dir: Dir::L } => "Invalid move by A: L",
            SimError::InvalidMove { by_a: true, dir: Dir::R } => "Invalid move by A: R",
        }
    }
}

/// The illegal-move report of a replay, as a `SimError`.
pub open spec fn fault_err(f: Option<(bool, Dir)>) -> Option<SimError> {
    match f {
        Option::Some(fd) => Option::Some(SimError::InvalidMove { by_a: fd.0, dir: fd.1 }),
        Option::None => Option::None,
    }
}

/// A solution: the two agents' starting cells `(t_row, t_col, a_row, a_col)`
/// and the action sequence.
#[derive(PartialEq, Eq, Debug)]
pub struct Output {
    pub start: (usize, usize, usize, usize),
    pub out: Vec<Action>,
}

/// What a replay reports: the roughness of the board before and after, the
/// failure (if any), and the final grid and agent positions.
pub struct SimDetails {
    pub before: i64,
    pub after: i64,
    pub err: Option<SimError>,
    pub grid: Vec<Vec<i32>>,
    pub p1: (usize, usize),
    pub p2: (usize, usize),
}

/// The starting state of a replay of `inp` from `start`.
pub open spec fn start_state(inp: Input, start: (usize, usize, usize, usize)) -> GState {
    GState {
        g: gview(inp.a),
        p1: (start.0 as int, start.1 as int),
        p2: (start.2 as int, start.3 as int),
    }
}

/// Everything `compute_score_details` promises: an over-long solution is
/// rejected untouched; otherwise the result mirrors `spec_run` on the first
/// `k` actions, and `before`/`after` are the roughness of the initial and of
/// the reached grid.
pub open spec fn details_post(
    inp: Input,
    start: (usize, usize, usize, usize),
    acts: Seq<Action>,
    k: int,
    r: SimDetails,
) -> bool {
    let b = inp.bspec();
    let before = spec_rough(b, gview(inp.a));
    if acts.len() > 4 * b.n * b.n {
        &&& r.err == Option::Some(SimError::TooManyActions)
        &&& gview(r.grid) == gview(inp.a)
        &&& r.p1 == (start.0, start.1)
        &&& r.p2 == (start.2, start.3)
        &&& r.before == before
        &&& r.after == before
    } else {
        let run = spec_run(b, start_state(inp, start), acts, k);
        &&& r.err == fault_err(run.1)
        &&& gview(r.grid) == run.0.g
        &&& (r.p1.0 as int, r.p1.1 as int) == run.0.p1
        &&& (r.p2.0 as int, r.p2.1 as int) == run.0.p2
        &&& r.before == before
        &&& r.after == spec_rough(b, run.0.g)
    }
}

/// A fresh copy of one grid row.
fn copy_row(row: &Vec<i32>) -> (r: Vec<i32>)
    ensures
        r@ == row@,
{
    let mut r: Vec<i32> = Vec::new();
    let mut j: usize = 0;
    while j < row.len()
        invariant
            j <= row@.len(),
            r@.len() == j,
            forall|t: int| 0 <= t < j ==> r@[t] == row@[t],
        decreases row@.len() - j,
    {
        r.push(row[j]);
        j = j + 1;
    }
    proof {
        assert(r@ =~= row@);
    }
    r
}

/// A fresh copy of a grid; every replay works on its own copy.
pub fn copy_grid(a: &Vec<Vec<i32>>) -> (r: Vec<Vec<i32>>)
    ensures
        gview(r) == gview(*a),
{
    let mut r: Vec<Vec<i32>> = Vec::new();
    let mut i: usize = 0;
    while i < a.len()
        invariant
            i <= a@.len(),
            r@.len() == i,
            forall|t: int| 0 <= t < i ==> (#[trigger] r@[t])@ == a@[t]@,
        decreases a@.len() - i,
    {
        let row = copy_row(&a[i]);
        r.push(row);
        i = i + 1;
    }
    proof {
        assert(gview(r) =~= gview(*a));
    }
    r
}

/// Overwrites the cell `(i, j)` of grid `a` with `v`.
fn set_cell(a: &mut Vec<Vec<i32>>, i: usize, j: usize, v: i32)
    requires
        i < old(a)@.len(),
        j < old(a)@[i as int]@.len(),
    ensures
        gview(*final(a)) == grid_set(gview(*old(a)), (i as int, j as int), v),
{
    let mut row = a.remove(i);
    row[j] = v;
    a.insert(i, row);
    proof {
        assert(gview(*a) =~= grid_set(gview(*old(a)), (i as int, j as int), v));
    }
}

/// One step from `p` in direction `d`; the caller has established that the
/// target stays on the board.
fn step_pos(n: usize, p: (usize, usize), d: Dir) -> (q: (usize, usize))
    requires
        p.0 < n,
        p.1 < n,
        0 <= p.0 as int + di(d) < n,
        0 <= p.1 as int + dj(d) < n,
    ensures
        q.0 as int == p.0 as int + di(d),
        q.1 as int == p.1 as int + dj(d),
{
    match d {
        Dir::U => (p.0 - 1, p.1),
        Dir::D => (p.0 + 1, p.1),
        Dir::L => (p.0, p.1 - 1),
        Dir::R => (p.0, p.1 + 1),
    }
}

/// Replays the first `k` actions of a solution against the board of `input`,
/// after rejecting any solution longer than `4 * n * n` actions.  Returns the
/// roughness before and after, the first failure (if any), and the grid and
/// agent positions reached just before that failure (or at the end of the
/// prefix).
pub fn compute_score_details(
    input: &Input,
    start: (usize, usize, usize, usize),
    actions: &Vec<Action>,
    k: usize,
) -> (r: SimDetails)
    requires
        input.wf(),
        input.n <= MAX_N,
        start.0 < input.n,
        start.1 < input.n,
        start.2 < input.n,
        start.3 < input.n,
        k <= actions@.len(),
    ensures
        details_post(*input, start, actions@, k as int, r),
{
    let ghost b = input.bspec();
    let ghost acts = actions@;
    let ghost st0 = start_state(*input, start);
    let n = input.n;
    proof {
        assert(4 * (n as int) * (n as int) <= 4000000) by (nonlinear_arith)
            requires
                1 <= n <= 1000,
        ;
    }
    let before = compute_diff(input, &input.a);
    let mut grid = copy_grid(&input.a);
    if actions.len() > 4 * n * n {
        return SimDetails {
            before,
            after: before,
            err: Some(SimError::TooManyActions),
            grid,
            p1: (start.0, start.1),
            p2: (start.2, start.3),
        };
    }
    let mut p1 = (start.0, start.1);
    let mut p2 = (start.2, start.3);
    let mut t: usize = 0;
    while t < k
        invariant
            walls_wf(b),
            b == input.bspec(),
            acts == actions@,
            st0 == start_state(*input, start),
            n == input.n,
            1 <= n <= MAX_N,
            t <= k <= acts.len(),
            acts.len() <= 4 * b.n * b.n,
            before == spec_rough(b, gview(input.a)),
            spec_run(b, st0, acts, t as int).1 is None,
            gview(grid) == spec_run(b, st0, acts, t as int).0.g,
            (p1.0 as int, p1.1 as int) == spec_run(b, st0, acts, t as int).0.p1,
            (p2.0 as int, p2.1 as int) == spec_run(b, st0, acts, t as int).0.p2,
            grid_shaped(b.n, gview(grid)),
            grid_bounded(b.n, gview(grid)),
            p1.0 < n && p1.1 < n && p2.0 < n && p2.1 < n,
        decreases k - t,
    {
        let ghost prev = spec_run(b, st0, acts, t as int).0;
        let act = actions[t];
        let (do_swap, m1, m2) = act;
        if do_swap {
            proof {
                assert(forall|u: int| 0 <= u < b.n ==> (#[trigger] grid@[u])@ == gview(grid)[u]);
            }
            let v1 = grid[p1.0][p1.1];
            let v2 = grid[p2.0][p2.1];
            set_cell(&mut grid, p1.0, p1.1, v2);
            proof {
                lemma_grid_set_wf(b.n, prev.g, (p1.0 as int, p1.1 as int), v2);
                assert(forall|u: int| 0 <= u < b.n ==> (#[trigger] grid@[u])@ == gview(grid)[u]);
            }
            set_cell(&mut grid, p2.0, p2.1, v1);
            proof {
                lemma_grid_set_wf(
                    b.n,
                    grid_set(prev.g, (p1.0 as int, p1.1 as int), v2),
                    (p2.0 as int, p2.1 as int),
                    v1,
                );
                assert(gview(grid) == spec_swap(prev.g, prev.p1, prev.p2));
            }
        }
        let ghost s1 = GState {
            g: if do_swap {
                spec_swap(prev.g, prev.p1, prev.p2)
            } else {
                prev.g
            },
            p1: prev.p1,
            p2: prev.p2,
        };
        proof {
            assert(gview(grid) == s1.g);
            assert(grid_shaped(b.n, s1.g) && grid_bounded(b.n, s1.g));
        }
        if let Some(d1) = m1 {
            let legal = can_move(n, &input.hs, &input.vs, p1.0, p1.1, d1);
            if !legal {
                proof {
                    assert(spec_step(b, prev, act) == (s1, Option::Some((false, d1))));
                    assert(spec_run(b, st0, acts, t as int + 1) == (
                        s1,
                        Option::Some((false, d1)),
                    ));
                    lemma_run_fault_persists(b, st0, acts, t as int + 1, k as int);
                }
                let after = compute_diff(input, &grid);
                return SimDetails {
                    before,
                    after,
                    err: Some(SimError::InvalidMove { by_a: false, dir: d1 }),
                    grid,
                    p1,
                    p2,
                };
            }
            p1 = step_pos(n, p1, d1);
        }
        let ghost s2 = GState {
            g: s1.g,
            p1: (p1.0 as int, p1.1 as int),
            p2: prev.p2,
        };
        if let Some(d2) = m2 {
            let legal = can_move(n, &input.hs, &input.vs, p2.0, p2.1, d2);
            if !legal {
                proof {
                    assert(spec_step(b, prev, act) == (s2, Option::Some((true, d2))));
                    assert(spec_run(b, st0, acts, t as int + 1) == (s2, Option::Some((true, d2))));
                    lemma_run_fault_persists(b, st0, acts, t as int + 1, k as int);
                }
                let after = compute_diff(input, &grid);
                return SimDetails {
                    before,
                    after,
                    err: Some(SimError::InvalidMove { by_a: true, dir: d2 }),
                    grid,
                    p1,
                    p2,
                };
            }
            p2 = step_pos(n, p2, d2);
        }
        proof {
            let s3 = GState { g: s1.g, p1: (p1.0 as int, p1.1 as int), p2: (p2.0 as int, p2.1 as int) };
            assert(spec_step(b, prev, act) == (s3, Option::None::<(bool, Dir)>));
            assert(spec_run(b, st0, acts, t as int + 1) == (s3, Option::None::<(bool, Dir)>));
        }
        t = t + 1;
    }
    let after = compute_diff(input, &grid);
    SimDetails { before, after, err: None, grid, p1, p2 }
}

} // verus!
