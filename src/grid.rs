use vstd::prelude::*;
use vstd::arithmetic::div_mod::{
    lemma_fundamental_div_mod,
    lemma_fundamental_div_mod_converse_div,
    lemma_fundamental_div_mod_converse_mod,
};
use crate::viewport::FIXED_ONE;

verus! {

// A grid of pointy-top hexagons of size `s` (centre to corner) puts rows 3/2 s apart and
// columns sqrt(3) s apart, odd rows shifted by half a column. Sizes are fixed point, as in
// `viewport`: `size` stands for `s = size / 65536` pixels.
/// `n` columns, sqrt(3) s apart, span at least `width` pixels:
/// `n sqrt(3) size >= width 65536`, that is `3 n^2 size^2 >= width^2 65536^2`.
pub open spec fn columns_cover(n: int, width: int, size: int) -> bool {
    3 * (n * n) * (size * size) >= (width * width) * (FIXED_ONE * FIXED_ONE)
}

/// `n` is `ceil(width / (sqrt(3) s))`: the fewest columns that span `width`.
pub open spec fn is_column_count(n: int, width: int, size: int) -> bool {
    &&& n >= 0
    &&& columns_cover(n, width, size)
    &&& (n == 0 || !columns_cover(n - 1, width, size))
}

/// The number of columns that span `width` pixels, `ceil(width / (sqrt(3) s))`.
pub open spec fn hex_columns(width: u32, size: u32) -> int {
    choose|n: int| is_column_count(n, width as int, size as int)
}

/// The number of rows that span `height` pixels, `ceil(height / (3/2 s))`.
pub open spec fn hex_rows(height: u32, size: u32) -> int {
    (2 * FIXED_ONE * height + 3 * size - 1) / (3 * size)
}

/// One hexagon of the grid: its row and column, negative in the overflow margin above and to
/// the left, and whether its row is odd, which shifts it right by half a column.
#[derive(Clone, Copy, PartialEq, Eq, Structural, Debug)]
pub struct GridCell {
    pub row: i32,
    pub col: i32,
    pub staggered: bool,
}

/// The cell at position `k` of a grid listed row by row, `span` cells to a row, whose first
/// row and column are both `-overflow`.
pub open spec fn cell_at(k: int, span: int, overflow: int) -> GridCell {
    let row = k / span - overflow;
    let col = k % span - overflow;
    GridCell { row: row as i32, col: col as i32, staggered: row % 2 != 0 }
}

/// The cells of the grid over a `width` by `height` container, row by row, from row and column
/// `-overflow` up to `overflow` past the counts that span the container.
pub open spec fn grid_spec(width: u32, height: u32, size: u32, overflow: usize) -> Seq<GridCell> {
    let span = hex_columns(width, size) + 2 * overflow;
    let rows = hex_rows(height, size) + 2 * overflow;
    Seq::new((rows * span) as nat, |k: int| cell_at(k, span, overflow as int))
}

proof fn lemma_square_monotone(a: int, b: int)
    requires
        0 <= a <= b,
    ensures
        a * a <= b * b,
{
    assert(a * a <= b * b) by (nonlinear_arith)
        requires 0 <= a <= b;
}

proof fn lemma_column_count_unique(a: int, b: int, width: int, size: int)
    requires
        is_column_count(a, width, size),
        is_column_count(b, width, size),
    ensures
        a == b,
{
    if a < b {
        lemma_square_monotone(a, b - 1);
        assert(3 * (a * a) * (size * size) <= 3 * ((b - 1) * (b - 1)) * (size * size))
            by (nonlinear_arith)
            requires a * a <= (b - 1) * (b - 1);
    } else if b < a {
        lemma_square_monotone(b, a - 1);
        assert(3 * (b * b) * (size * size) <= 3 * ((a - 1) * (a - 1)) * (size * size))
            by (nonlinear_arith)
            requires b * b <= (a - 1) * (a - 1);
    }
}

/// For `d > 0`: `m d >= a` exactly when `m >= ceil(a / d)`.
proof fn lemma_ceil_div(m: int, a: int, d: int)
    requires
        d > 0,
        a >= 0,
    ensures
        m * d >= a <==> m >= (a + d - 1) / d,
{
    let c = (a + d - 1) / d;
    lemma_fundamental_div_mod(a + d - 1, d);
    let r = (a + d - 1) % d;
    assert(a + d - 1 == d * c + r);
    if m >= c {
        assert(m * d >= a) by (nonlinear_arith)
            requires m >= c, d > 0, a + d - 1 == d * c + r, r < d;
    } else {
        assert(m * d < a) by (nonlinear_arith)
            requires m <= c - 1, d > 0, a + d - 1 == d * c + r, r >= 0;
    }
}

/// The least `n` with `n * n >= q`.
fn ceil_sqrt(q: u128) -> (n: u64)
    requires
        q <= 0x1_0000_0000_0000_0000_0000_0000,
    ensures
        (n as int) * (n as int) >= q,
        n == 0 || (n - 1) * (n - 1) < q,
{
    if q == 0 {
        return 0;
    }
    let mut lo: u64 = 0;
    let mut hi: u64 = 0x1_0000_0000_0000;
    assert((hi as int) * (hi as int) == 0x1_0000_0000_0000_0000_0000_0000) by (nonlinear_arith)
        requires hi == 0x1_0000_0000_0000;
    while hi - lo > 1
        invariant
            lo < hi <= 0x1_0000_0000_0000,
            (lo as int) * (lo as int) < q,
            (hi as int) * (hi as int) >= q,
        decreases hi - lo,
    {
        let mid: u64 = lo + (hi - lo) / 2;
        assert((mid as int) * (mid as int) <= 0x1_0000_0000_0000_0000_0000_0000) by (nonlinear_arith)
            requires 0 <= mid <= 0x1_0000_0000_0000;
        if (mid as u128) * (mid as u128) >= q {
            hi = mid;
        } else {
            lo = mid;
        }
    }
    hi
}

/// The number of columns that span `width` pixels.
fn column_count(width: u32, size: u32) -> (n: u64)
    requires
        size > 0,
    ensures
        n == hex_columns(width, size),
        n <= 0x1_0000_0000_0000,
{
    let w: u128 = width as u128;
    let s: u128 = size as u128;
    assert(w * w <= 0xffff_ffff * 0xffff_ffff) by (nonlinear_arith)
        requires w <= 0xffff_ffff;
    assert(s * s <= 0xffff_ffff * 0xffff_ffff) by (nonlinear_arith)
        requires s <= 0xffff_ffff;
    assert(s * s >= 1) by (nonlinear_arith)
        requires s >= 1;
    let a: u128 = w * w * 0x1_0000_0000;
    let d: u128 = 3 * (s * s);
    let q: u128 = (a + d - 1) / d;
    assert(q <= a) by {
        vstd::arithmetic::div_mod::lemma_div_is_ordered_by_denominator((a + d - 1) as int, 1, d as int);
        assert((a + d - 1) / 1 == a + d - 1);
        if q > a {
            lemma_ceil_div(q as int - 1, a as int, d as int);
            assert((q as int - 1) * d >= a) by (nonlinear_arith)
                requires q as int - 1 >= a, d >= 3;
        }
    }
    let n = ceil_sqrt(q);
    proof {
        let ni = n as int;
        lemma_ceil_div(ni * ni, a as int, d as int);
        assert(columns_cover(ni, width as int, size as int) <==> (ni * ni) * d >= a) by (nonlinear_arith)
            requires d == 3 * (s * s), a == w * w * 0x1_0000_0000, w == width, s == size, FIXED_ONE == 65536;
        if ni > 0 {
            lemma_ceil_div((ni - 1) * (ni - 1), a as int, d as int);
            assert(columns_cover(ni - 1, width as int, size as int) <==> ((ni - 1) * (ni - 1)) * d >= a)
                by (nonlinear_arith)
                requires d == 3 * (s * s), a == w * w * 0x1_0000_0000, w == width, s == size, FIXED_ONE == 65536;
        }
        assert(is_column_count(ni, width as int, size as int));
        let c = hex_columns(width, size);
        assert(is_column_count(c, width as int, size as int));
        lemma_column_count_unique(c, ni, width as int, size as int);
        if ni > 0x1_0000_0000_0000 {
            assert((ni - 1) * (ni - 1) >= 0x1_0000_0000_0000 * 0x1_0000_0000_0000) by (nonlinear_arith)
                requires ni - 1 >= 0x1_0000_0000_0000;
        }
    }
    n
}

/// The number of rows that span `height` pixels.
fn row_count(height: u32, size: u32) -> (n: u64)
    requires
        size > 0,
    ensures
        n == hex_rows(height, size),
{
    let h: u64 = height as u64;
    let s: u64 = size as u64;
    assert(131072 * h <= 131072 * 0xffff_ffff) by (nonlinear_arith)
        requires h <= 0xffff_ffff;
    let num: u64 = 131072 * h + 3 * s - 1;
    let den: u64 = 3 * s;
    num / den
}

/// How many columns and rows the grid over a `width` by `height` container has on each side
/// of the origin: the counts that span the container, each plus `overflow`.
pub fn grid_dimensions(width: u32, height: u32, size: u32, overflow: usize) -> (r: (u128, u128))
    requires
        size > 0,
    ensures
        r.0 == hex_columns(width, size) + overflow,
        r.1 == hex_rows(height, size) + overflow,
{
    let c = column_count(width, size);
    let h = row_count(height, size);
    (c as u128 + overflow as u128, h as u128 + overflow as u128)
}

/// `a % 2` is the same for `a - b` and `a + b`.
proof fn lemma_parity_of_difference(a: int, b: int)
    ensures
        (a - b) % 2 == (a + b) % 2,
{
    lemma_fundamental_div_mod(a - b, 2);
    let q = (a - b) / 2;
    let r = (a - b) % 2;
    assert(a + b == (q + b) * 2 + r);
    lemma_fundamental_div_mod_converse_mod(a + b, 2, q + b, r);
}

/// The centres of a pointy-top hexagon grid over a `width` by `height` container with hexagons
/// of fixed-point size `size`, as cells listed row by row: rows from `-overflow` up to (not
/// including) the rows that span the height plus `overflow`, and within each row the columns
/// likewise. The same arguments always give the same cells in the same order.
pub fn generate_grid_centers(width: u32, height: u32, size: u32, overflow: usize) -> (r: Vec<GridCell>)
    requires
        size > 0,
        hex_columns(width, size) + 2 * overflow <= i32::MAX,
        hex_rows(height, size) + 2 * overflow <= i32::MAX,
        (hex_columns(width, size) + 2 * overflow) * (hex_rows(height, size) + 2 * overflow)
            <= usize::MAX,
    ensures
        r@ == grid_spec(width, height, size, overflow),
{
    let columns = column_count(width, size);
    let rows = row_count(height, size);
    let span: u64 = columns + 2 * (overflow as u64);
    let nrows: u64 = rows + 2 * (overflow as u64);
    let o: i64 = overflow as i64;
    let ghost total = (nrows as int) * (span as int);
    assert(2 * o <= span);
    let mut centers: Vec<GridCell> = Vec::new();
    let mut i: u64 = 0;
    while i < nrows
        invariant
            span == hex_columns(width, size) + 2 * overflow,
            nrows == hex_rows(height, size) + 2 * overflow,
            span <= i32::MAX,
            nrows <= i32::MAX,
            o == overflow,
            2 * o <= nrows,
            2 * o <= span,
            total == (nrows as int) * (span as int),
            i <= nrows,
            centers@.len() == (i as int) * (span as int),
            forall|k: int|
                0 <= k < centers@.len() ==> #[trigger] centers@[k] == cell_at(k, span as int, o as int),
        decreases nrows - i,
    {
        let row: i32 = (i as i64 - o) as i32;
        let staggered: bool = (i + overflow as u64) % 2 == 1;
        proof {
            lemma_parity_of_difference(i as int, o as int);
        }
        let mut j: u64 = 0;
        while j < span
            invariant
                span == hex_columns(width, size) + 2 * overflow,
                nrows == hex_rows(height, size) + 2 * overflow,
                span <= i32::MAX,
                nrows <= i32::MAX,
                o == overflow,
                2 * o <= nrows,
                2 * o <= span,
                i < nrows,
                row == i - o,
                staggered == ((i - o) % 2 != 0),
                j <= span,
                centers@.len() == (i as int) * (span as int) + j,
                forall|k: int|
                    0 <= k < centers@.len() ==> #[trigger] centers@[k] == cell_at(k, span as int, o as int),
            decreases span - j,
        {
            let col: i32 = (j as i64 - o) as i32;
            proof {
                let k = (i as int) * (span as int) + j;
                assert(k == i * span + j);
                lemma_fundamental_div_mod_converse_div(k, span as int, i as int, j as int);
                lemma_fundamental_div_mod_converse_mod(k, span as int, i as int, j as int);
            }
            centers.push(GridCell { row, col, staggered });
            j = j + 1;
        }
        assert((i as int) * (span as int) + span == (i + 1) * (span as int)) by (nonlinear_arith);
        i = i + 1;
    }
    assert(centers@ =~= grid_spec(width, height, size, overflow));
    centers
}

/// The cells come in row-major order, fixed by the arguments alone: the first is at row and
/// column `-overflow`, shifted by half a column exactly when `overflow` is odd, and of two cells
/// the earlier has the smaller row, or the same row and the smaller column.
pub proof fn lemma_grid_row_major(width: u32, height: u32, size: u32, overflow: usize)
    requires
        size > 0,
        hex_columns(width, size) + 2 * overflow <= i32::MAX,
        hex_rows(height, size) + 2 * overflow <= i32::MAX,
    ensures
        grid_spec(width, height, size, overflow).len() > 0 ==> {
            &&& grid_spec(width, height, size, overflow)[0].row == -overflow
            &&& grid_spec(width, height, size, overflow)[0].col == -overflow
            &&& grid_spec(width, height, size, overflow)[0].staggered == (overflow % 2 == 1)
        },
        forall|a: int, b: int|
            0 <= a < b < grid_spec(width, height, size, overflow).len() ==> {
                let ca = #[trigger] grid_spec(width, height, size, overflow)[a];
                let cb = #[trigger] grid_spec(width, height, size, overflow)[b];
                ca.row < cb.row || (ca.row == cb.row && ca.col < cb.col)
            },
{
    let g = grid_spec(width, height, size, overflow);
    let span = hex_columns(width, size) + 2 * overflow;
    let rows = hex_rows(height, size) + 2 * overflow;
    let o = overflow as int;
    let c = hex_columns(width, size);
    assert(is_column_count(c, width as int, size as int)) by {
        let w = width as int;
        let s = size as int;
        // a witness: enough columns to cover any width
        let n = w * 65536;
        assert(columns_cover(n, w, s)) by (nonlinear_arith)
            requires n == w * 65536, s >= 1, w >= 0, FIXED_ONE == 65536;
        lemma_least_cover_exists(n, w, s);
    }
    assert(rows >= 0) by {
        vstd::arithmetic::div_mod::lemma_div_pos_is_pos(
            (2 * FIXED_ONE * height + 3 * size - 1) as int,
            (3 * size) as int,
        );
    }
    if g.len() > 0 {
        assert(span > 0) by (nonlinear_arith)
            requires (rows * span) > 0, rows >= 0;
        lemma_fundamental_div_mod_converse_div(0, span, 0, 0);
        lemma_fundamental_div_mod_converse_mod(0, span, 0, 0);
        lemma_parity_of_difference(0, o);
    }
    assert forall|a: int, b: int| 0 <= a < b < g.len() implies {
        let ca = #[trigger] g[a];
        let cb = #[trigger] g[b];
        ca.row < cb.row || (ca.row == cb.row && ca.col < cb.col)
    } by {
        assert(span > 0) by (nonlinear_arith)
            requires (rows * span) > b, b > 0, rows >= 0;
        lemma_fundamental_div_mod(a, span);
        lemma_fundamental_div_mod(b, span);
        vstd::arithmetic::div_mod::lemma_div_is_ordered(a, b, span);
        let qa = a / span;
        let qb = b / span;
        assert(qb * span < rows * span) by (nonlinear_arith)
            requires b == span * qb + b % span, b % span >= 0, b < rows * span;
        assert(qb < rows) by (nonlinear_arith)
            requires qb * span < rows * span, span > 0;
        assert(qa >= 0) by {
            vstd::arithmetic::div_mod::lemma_div_pos_is_pos(a, span);
        }
    }
}

/// Two grids asked for with the same arguments are the same cells in the same order:
/// `generate_grid_centers` returns `grid_spec` of its arguments and nothing else.
pub proof fn lemma_grid_deterministic(
    width: u32,
    height: u32,
    size: u32,
    overflow: usize,
    first: Seq<GridCell>,
    second: Seq<GridCell>,
)
    requires
        first == grid_spec(width, height, size, overflow),
        second == grid_spec(width, height, size, overflow),
    ensures
        first.len() == second.len(),
        forall|k: int| 0 <= k < first.len() ==> #[trigger] first[k] == second[k],
{
}

/// Some count of columns is the least that covers `width`, once `n` columns cover it.
proof fn lemma_least_cover_exists(n: int, width: int, size: int)
    requires
        n >= 0,
        columns_cover(n, width, size),
    ensures
        exists|m: int| is_column_count(m, width, size),
    decreases n,
{
    if n == 0 || !columns_cover(n - 1, width, size) {
        assert(is_column_count(n, width, size));
    } else {
        lemma_least_cover_exists(n - 1, width, size);
    }
}

} // verus!
