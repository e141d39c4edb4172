//! Roughness of a grid: the sum of squared value differences over all
//! orthogonally adjacent, unwalled cell pairs, each pair counted once.

use vstd::prelude::*;

use crate::board::{
    can_move, di, dj, grid_bounded, grid_shaped, gview, spec_can_move, walls_wf, BoardSpec, Dir,
    Input, MAX_N,
};

verus! {

/// The square of `x`.
pub open spec fn sq(x: int) -> int {
    x * x
}

/// Contribution of the pair probed from cell `(i, j)` in direction `d`:
/// the squared difference when the move is legal, otherwise nothing.
pub open spec fn pair_term(b: BoardSpec, g: Seq<Seq<i32>>, i: int, j: int, d: Dir) -> int {
    if spec_can_move(b, i, j, d) {
        sq(g[i][j] - g[i + di(d)][j + dj(d)])
    } else {
        0
    }
}

/// Contribution of cell `(i, j)`: only the Down and Right neighbours are
/// probed, so every unwalled adjacent pair is counted exactly once.
pub open spec fn cell_term(b: BoardSpec, g: Seq<Seq<i32>>, i: int, j: int) -> int {
    pair_term(b, g, i, j, Dir::D) + pair_term(b, g, i, j, Dir::R)
}

/// Sum of the cell terms of row `i` over columns `0 .. j`.
pub open spec fn row_upto(b: BoardSpec, g: Seq<Seq<i32>>, i: int, j: int) -> int
    decreases j,
{
    if j <= 0 {
        0
    } else {
        row_upto(b, g, i, j - 1) + cell_term(b, g, i, j - 1)
    }
}

/// Sum of the full row sums of rows `0 .. i`.
pub open spec fn rows_upto(b: BoardSpec, g: Seq<Seq<i32>>, i: int) -> int
    decreases i,
{
    if i <= 0 {
        0
    } else {
        rows_upto(b, g, i - 1) + row_upto(b, g, i - 1, b.n)
    }
}

/// Roughness of grid `g` on the board `b`.
pub open spec fn spec_rough(b: BoardSpec, g: Seq<Seq<i32>>) -> int {
    rows_upto(b, g, b.n)
}

/// Every unwalled adjacent pair of `g` (probed Down and Right, which reach
/// each pair exactly once) holds equal values.
pub open spec fn spec_smooth(b: BoardSpec, g: Seq<Seq<i32>>) -> bool {
    forall|i: int, j: int, d: Dir|
        0 <= i < b.n && 0 <= j < b.n && (d == Dir::D || d == Dir::R) && #[trigger] spec_can_move(
            b,
            i,
            j,
            d,
        ) ==> g[i][j] == g[i + di(d)][j + dj(d)]
}

proof fn lemma_sq_nonneg(x: int)
    ensures
        sq(x) >= 0,
{
    assert(x * x >= 0) by (nonlinear_arith);
}

proof fn lemma_sq_zero(x: int)
    requires
        sq(x) == 0,
    ensures
        x == 0,
{
    assert(x * x == 0 ==> x == 0) by (nonlinear_arith);
}

proof fn lemma_sq_bound(x: int, m: int)
    requires
        -m <= x <= m,
        0 <= m,
    ensures
        sq(x) <= m * m,
{
    assert(x * x <= m * m) by (nonlinear_arith)
        requires
            -m <= x <= m,
            0 <= m,
    ;
}

proof fn lemma_pair_term_bounds(b: BoardSpec, g: Seq<Seq<i32>>, i: int, j: int, d: Dir)
    requires
        walls_wf(b),
        grid_shaped(b.n, g),
        grid_bounded(b.n, g),
        0 <= i < b.n,
        0 <= j < b.n,
    ensures
        0 <= pair_term(b, g, i, j, d) <= sq(b.n * b.n),
{
    assert(0 <= b.n * b.n) by (nonlinear_arith)
        requires
            b.n >= 1,
    ;
    if spec_can_move(b, i, j, d) {
        let x = g[i][j] - g[i + di(d)][j + dj(d)];
        lemma_sq_nonneg(x);
        lemma_sq_bound(x, b.n * b.n);
    } else {
        lemma_sq_nonneg(0);
    }
}

proof fn lemma_cell_term_bounds(b: BoardSpec, g: Seq<Seq<i32>>, i: int, j: int)
    requires
        walls_wf(b),
        grid_shaped(b.n, g),
        grid_bounded(b.n, g),
        0 <= i < b.n,
        0 <= j < b.n,
    ensures
        0 <= cell_term(b, g, i, j) <= 2 * sq(b.n * b.n),
{
    lemma_pair_term_bounds(b, g, i, j, Dir::D);
    lemma_pair_term_bounds(b, g, i, j, Dir::R);
}

proof fn lemma_row_upto_bounds(b: BoardSpec, g: Seq<Seq<i32>>, i: int, j: int)
    requires
        walls_wf(b),
        grid_shaped(b.n, g),
        grid_bounded(b.n, g),
        0 <= i < b.n,
        0 <= j <= b.n,
    ensures
        0 <= row_upto(b, g, i, j) <= j * (2 * sq(b.n * b.n)),
    decreases j,
{
    if j > 0 {
        lemma_row_upto_bounds(b, g, i, j - 1);
        lemma_cell_term_bounds(b, g, i, j - 1);
        assert((j - 1) * (2 * sq(b.n * b.n)) + 2 * sq(b.n * b.n) == j * (2 * sq(b.n * b.n)))
            by (nonlinear_arith);
    }
}

proof fn lemma_rows_upto_bounds(b: BoardSpec, g: Seq<Seq<i32>>, i: int)
    requires
        walls_wf(b),
        grid_shaped(b.n, g),
        grid_bounded(b.n, g),
        0 <= i <= b.n,
    ensures
        0 <= rows_upto(b, g, i) <= i * b.n * (2 * sq(b.n * b.n)),
    decreases i,
{
    if i > 0 {
        lemma_rows_upto_bounds(b, g, i - 1);
        lemma_row_upto_bounds(b, g, i - 1, b.n);
        assert((i - 1) * b.n * (2 * sq(b.n * b.n)) + b.n * (2 * sq(b.n * b.n)) == i * b.n * (2
            * sq(b.n * b.n))) by (nonlinear_arith);
    }
}

/// Roughness is never negative.
pub proof fn lemma_rough_nonneg(b: BoardSpec, g: Seq<Seq<i32>>)
    requires
        walls_wf(b),
        grid_shaped(b.n, g),
        grid_bounded(b.n, g),
    ensures
        spec_rough(b, g) >= 0,
{
    lemma_rows_upto_bounds(b, g, b.n);
}

proof fn lemma_row_upto_zero_iff(b: BoardSpec, g: Seq<Seq<i32>>, i: int, j: int)
    requires
        walls_wf(b),
        grid_shaped(b.n, g),
        grid_bounded(b.n, g),
        0 <= i < b.n,
        0 <= j <= b.n,
    ensures
        row_upto(b, g, i, j) == 0 <==> (forall|j2: int|
            0 <= j2 < j ==> #[trigger] cell_term(b, g, i, j2) == 0),
    decreases j,
{
    if j > 0 {
        lemma_row_upto_zero_iff(b, g, i, j - 1);
        lemma_row_upto_bounds(b, g, i, j - 1);
        lemma_cell_term_bounds(b, g, i, j - 1);
    }
}

proof fn lemma_rows_upto_zero_iff(b: BoardSpec, g: Seq<Seq<i32>>, i: int)
    requires
        walls_wf(b),
        grid_shaped(b.n, g),
        grid_bounded(b.n, g),
        0 <= i <= b.n,
    ensures
        rows_upto(b, g, i) == 0 <==> (forall|i2: int, j2: int|
            0 <= i2 < i && 0 <= j2 < b.n ==> #[trigger] cell_term(b, g, i2, j2) == 0),
    decreases i,
{
    if i > 0 {
        lemma_rows_upto_zero_iff(b, g, i - 1);
        lemma_rows_upto_bounds(b, g, i - 1);
        lemma_row_upto_bounds(b, g, i - 1, b.n);
        lemma_row_upto_zero_iff(b, g, i - 1, b.n);
    }
}

/// Roughness is zero exactly when every unwalled adjacent pair holds equal
/// values.
pub proof fn lemma_rough_zero_iff(b: BoardSpec, g: Seq<Seq<i32>>)
    requires
        walls_wf(b),
        grid_shaped(b.n, g),
        grid_bounded(b.n, g),
    ensures
        spec_rough(b, g) == 0 <==> spec_smooth(b, g),
{
    lemma_rows_upto_zero_iff(b, g, b.n);
    if spec_rough(b, g) == 0 {
        assert forall|i: int, j: int, d: Dir|
            0 <= i < b.n && 0 <= j < b.n && (d == Dir::D || d == Dir::R)
                && #[trigger] spec_can_move(b, i, j, d) implies g[i][j] == g[i + di(d)][j + dj(
            d,
        )] by {
            assert(cell_term(b, g, i, j) == 0);
            lemma_pair_term_bounds(b, g, i, j, Dir::D);
            lemma_pair_term_bounds(b, g, i, j, Dir::R);
            assert(pair_term(b, g, i, j, d) == 0);
            lemma_sq_zero(g[i][j] - g[i + di(d)][j + dj(d)]);
        }
    }
    if spec_smooth(b, g) {
        assert forall|i2: int, j2: int|
            0 <= i2 < b.n && 0 <= j2 < b.n implies #[trigger] cell_term(b, g, i2, j2) == 0 by {
            assert(sq(0) == 0);
            if spec_can_move(b, i2, j2, Dir::D) {
                assert(g[i2][j2] == g[i2 + 1][j2]);
                assert(pair_term(b, g, i2, j2, Dir::D) == sq(0));
            }
            if spec_can_move(b, i2, j2, Dir::R) {
                assert(g[i2][j2] == g[i2][j2 + 1]);
                assert(pair_term(b, g, i2, j2, Dir::R) == sq(0));
            }
        }
    }
}

/// Computes the roughness of grid `a` on the board of `input`: for every cell
/// the squared difference with its Down neighbour and with its Right
/// neighbour, counted when the corresponding move is legal.
pub fn compute_diff(input: &Input, a: &Vec<Vec<i32>>) -> (diff: i64)
    requires
        walls_wf(input.bspec()),
        input.n <= MAX_N,
        grid_shaped(input.n as int, gview(*a)),
        grid_bounded(input.n as int, gview(*a)),
    ensures
        diff == spec_rough(input.bspec(), gview(*a)),
        diff >= 0,
{
    let ghost b = input.bspec();
    let ghost g = gview(*a);
    let n = input.n;
    proof {
        assert(forall|t: int| 0 <= t < b.n ==> (#[trigger] a@[t]@) == g[t]);
        assert(2 * sq(b.n * b.n) <= 2000000000000) by (nonlinear_arith)
            requires
                1 <= b.n <= 1000,
        ;
        lemma_rough_nonneg(b, g);
    }
    let mut diff: i64 = 0;
    let mut i: usize = 0;
    while i < n
        invariant
            walls_wf(b),
            grid_shaped(b.n, g),
            grid_bounded(b.n, g),
            b == input.bspec(),
            g == gview(*a),
            n == input.n,
            1 <= n <= MAX_N,
            i <= n,
            diff == rows_upto(b, g, i as int),
        decreases n - i,
    {
        let mut j: usize = 0;
        while j < n
            invariant
                walls_wf(b),
                grid_shaped(b.n, g),
                grid_bounded(b.n, g),
                b == input.bspec(),
                g == gview(*a),
                n == input.n,
                1 <= n <= MAX_N,
                i < n,
                j <= n,
                diff == rows_upto(b, g, i as int) + row_upto(b, g, i as int, j as int),
            decreases n - j,
        {
            proof {
                assert(forall|t: int| 0 <= t < b.n ==> (#[trigger] a@[t]@) == g[t]);
                lemma_rows_upto_bounds(b, g, i as int);
                lemma_row_upto_bounds(b, g, i as int, j as int);
                lemma_cell_term_bounds(b, g, i as int, j as int);
                let m: int = b.n * b.n;
                assert(0 <= m && m <= 1000000) by (nonlinear_arith)
                    requires
                        1 <= b.n <= 1000,
                        m == b.n * b.n,
                ;
                assert(sq(m) == m * m);
                assert(0 <= m * m && m * m <= 1000000000000) by (nonlinear_arith)
                    requires
                        0 <= m <= 1000000,
                ;
                let x: int = 2 * sq(m);
                let ab: int = (i as int) * b.n;
                assert(0 <= ab && ab <= 1000000) by (nonlinear_arith)
                    requires
                        0 <= (i as int),
                        (i as int) < b.n,
                        b.n <= 1000,
                        ab == (i as int) * b.n,
                ;
                assert(ab * x <= 2000000000000000000) by (nonlinear_arith)
                    requires
                        0 <= ab <= 1000000,
                        0 <= x <= 2000000000000,
                ;
                assert((j as int) * x <= 2000000000000000) by (nonlinear_arith)
                    requires
                        0 <= (j as int) <= 1000,
                        0 <= x <= 2000000000000,
                ;
                assert(rows_upto(b, g, i as int) <= ab * x);
                assert(row_upto(b, g, i as int, j as int) <= (j as int) * x);
            }
            let mut t: i64 = 0;
            if can_move(n, &input.hs, &input.vs, i, j, Dir::D) {
                let d: i64 = a[i][j] as i64 - a[i + 1][j] as i64;
                proof {
                    assert(b.n * b.n <= 1000000) by (nonlinear_arith)
                        requires
                            1 <= b.n <= 1000,
                    ;
                    lemma_sq_bound(d as int, 1000000);
                    lemma_sq_nonneg(d as int);
                }
                t = t + d * d;
                proof {
                    assert(t == pair_term(b, g, i as int, j as int, Dir::D));
                }
            }
            if can_move(n, &input.hs, &input.vs, i, j, Dir::R) {
                let d: i64 = a[i][j] as i64 - a[i][j + 1] as i64;
                proof {
                    assert(b.n * b.n <= 1000000) by (nonlinear_arith)
                        requires
                            1 <= b.n <= 1000,
                    ;
                    lemma_sq_bound(d as int, 1000000);
                    lemma_sq_nonneg(d as int);
                    lemma_pair_term_bounds(b, g, i as int, j as int, Dir::D);
                }
                t = t + d * d;
            }
            proof {
                assert(t == cell_term(b, g, i as int, j as int));
                assert(0 <= t <= 2000000000000);
                assert(rows_upto(b, g, i as int) <= 2000000000000000000);
                assert(row_upto(b, g, i as int, j as int) <= 2000000000000000);
            }
            diff = diff + t;
            j = j + 1;
        }
        i = i + 1;
    }
    diff
}

} // verus!
