//! The board: size, cell values, wall layout, and the move-legality oracle.

use vstd::prelude::*;

verus! {

/// Largest board size the judge accepts; keeps every coordinate and every
/// roughness sum comfortably inside the machine integer types.
pub const MAX_N: usize = 1000;

/// A move direction for one of the two agents.
#[derive(Clone, Copy, PartialEq, Eq, Structural, Debug)]
pub enum Dir {
    U,
    D,
    L,
    R,
}

/// Row offset of one step in direction `d`.
pub open spec fn di(d: Dir) -> int {
    match d {
        Dir::U => -1,
        Dir::D => 1,
        Dir::L => 0,
        Dir::R => 0,
    }
}

/// Column offset of one step in direction `d`.
pub open spec fn dj(d: Dir) -> int {
    match d {
        Dir::U => 0,
        Dir::D => 0,
        Dir::L => -1,
        Dir::R => 1,
    }
}

/// Board size and wall layout as mathematical values.
pub ghost struct BoardSpec {
    pub n: int,
    /// `hs[i][j]` is true iff a wall blocks movement between cells `(i, j)`
    /// and `(i + 1, j)`; row gaps `i` run over `0 .. n - 1`.
    pub hs: Seq<Seq<bool>>,
    /// `vs[i][j]` is true iff a wall blocks movement between cells `(i, j)`
    /// and `(i, j + 1)`; rows `i` run over `0 .. n`.
    pub vs: Seq<Seq<bool>>,
}

/// Mathematical view of a wall grid.
pub open spec fn wview(w: Vec<Vec<bool>>) -> Seq<Seq<bool>> {
    Seq::new(w@.len(), |i: int| w@[i]@)
}

/// Mathematical view of a value grid.
pub open spec fn gview(g: Vec<Vec<i32>>) -> Seq<Seq<i32>> {
    Seq::new(g@.len(), |i: int| g@[i]@)
}

/// The wall grids have the documented shapes: `vs` holds `n` rows of `n - 1`
/// flags, `hs` holds `n - 1` rows of `n` flags.
pub open spec fn walls_wf(b: BoardSpec) -> bool {
    &&& 1 <= b.n
    &&& b.vs.len() == b.n
    &&& (forall|i: int| 0 <= i < b.n ==> (#[trigger] b.vs[i]).len() == b.n - 1)
    &&& b.hs.len() == b.n - 1
    &&& (forall|i: int| 0 <= i < b.n - 1 ==> (#[trigger] b.hs[i]).len() == b.n)
}

/// `g` is an `n` x `n` grid.
pub open spec fn grid_shaped(n: int, g: Seq<Seq<i32>>) -> bool {
    &&& g.len() == n
    &&& (forall|i: int| 0 <= i < n ==> (#[trigger] g[i]).len() == n)
}

/// Every cell value lies in `0 ..= n * n`; the puzzle writes the numbers
/// `1 ..= n * n` on the cells, and the bound keeps every squared difference
/// summable in an `i64`.
pub open spec fn grid_bounded(n: int, g: Seq<Seq<i32>>) -> bool {
    forall|i: int, j: int|
        0 <= i < n && 0 <= j < n ==> 0 <= #[trigger] g[i][j] <= n * n
}

/// No wall flag is set anywhere.
pub open spec fn no_walls(b: BoardSpec) -> bool {
    &&& (forall|i: int, j: int|
        0 <= i < b.n && 0 <= j < b.n - 1 ==> !(#[trigger] b.vs[i][j]))
    &&& (forall|i: int, j: int|
        0 <= i < b.n - 1 && 0 <= j < b.n ==> !(#[trigger] b.hs[i][j]))
}

/// A parsed puzzle instance: a case label `ty`, the board size `n`, the
/// `n` x `n` grid `a` of cell values, and the wall layout (`vs` vertical
/// walls inside a row, `hs` horizontal walls between rows).
pub struct Input {
    pub ty: u64,
    pub n: usize,
    pub a: Vec<Vec<i32>>,
    pub vs: Vec<Vec<bool>>,
    pub hs: Vec<Vec<bool>>,
}

impl Input {
    /// The board size and wall layout of this instance.
    pub open spec fn bspec(self) -> BoardSpec {
        BoardSpec { n: self.n as int, hs: wview(self.hs), vs: wview(self.vs) }
    }

    /// Walls and grid have the documented shapes and the values are in range.
    pub open spec fn wf(self) -> bool {
        &&& walls_wf(self.bspec())
        &&& grid_shaped(self.n as int, gview(self.a))
        &&& grid_bounded(self.n as int, gview(self.a))
    }
}

/// A move from `(i, j)` in direction `d` is legal iff the target cell lies on
/// the board and the wall flag between the two cells is clear: for horizontal
/// moves `vs[i][min(j, j')]`, for vertical moves `hs[min(i, i')][j]`.
pub open spec fn spec_can_move(b: BoardSpec, i: int, j: int, d: Dir) -> bool {
    let i2 = i + di(d);
    let j2 = j + dj(d);
    &&& 0 <= i2 < b.n
    &&& 0 <= j2 < b.n
    &&& (if di(d) == 0 {
        !b.vs[i][if j <= j2 { j } else { j2 }]
    } else {
        !b.hs[if i <= i2 { i } else { i2 }][j]
    })
}

/// Decides whether the agent standing at `(i, j)` may move one step in
/// direction `dir` on an `n` x `n` board with walls `h` (horizontal) and
/// `v` (vertical).
pub fn can_move(
    n: usize,
    h: &Vec<Vec<bool>>,
    v: &Vec<Vec<bool>>,
    i: usize,
    j: usize,
    dir: Dir,
) -> (legal: bool)
    requires
        walls_wf(BoardSpec { n: n as int, hs: wview(*h), vs: wview(*v) }),
        i < n,
        j < n,
    ensures
        legal == spec_can_move(
            BoardSpec { n: n as int, hs: wview(*h), vs: wview(*v) },
            i as int,
            j as int,
            dir,
        ),
{
    proof {
        let b = BoardSpec { n: n as int, hs: wview(*h), vs: wview(*v) };
        assert(forall|t: int| 0 <= t < b.n - 1 ==> (#[trigger] h@[t]@) == b.hs[t]);
        assert(forall|t: int| 0 <= t < b.n ==> (#[trigger] v@[t]@) == b.vs[t]);
    }
    match dir {
        Dir::U => {
            if i == 0 {
                false
            } else {
                !h[i - 1][j]
            }
        },
        Dir::D => {
            if i + 1 >= n {
                false
            } else {
                !h[i][j]
            }
        },
        Dir::L => {
            if j == 0 {
                false
            } else {
                !v[i][j - 1]
            }
        },
        Dir::R => {
            if j + 1 >= n {
                false
            } else {
                !v[i][j]
            }
        },
    }
}

/// On a fully open board (no walls) of size at least 2, a move is legal
/// exactly when it stays in bounds.
pub proof fn lemma_can_move_open(b: BoardSpec, i: int, j: int, d: Dir)
    requires
        walls_wf(b),
        no_walls(b),
        b.n >= 2,
        0 <= i < b.n,
        0 <= j < b.n,
    ensures
        spec_can_move(b, i, j, d) <==> (0 <= i + di(d) < b.n && 0 <= j + dj(d) < b.n),
{
    let i2 = i + di(d);
    let j2 = j + dj(d);
    if 0 <= i2 < b.n && 0 <= j2 < b.n {
        match d {
            Dir::U => {
                assert(!b.hs[i2][j]);
            },
            Dir::D => {
                assert(!b.hs[i][j]);
            },
            Dir::L => {
                assert(!b.vs[i][j2]);
            },
            Dir::R => {
                assert(!b.vs[i][j]);
            },
        }
    }
}

} // verus!
