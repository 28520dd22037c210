//! Grid layout: partition a terminal rectangle into an approximately square
//! grid of panes, `rows = ceil(sqrt(n))` and `cols = ceil(n / rows)`, row-major,
//! truncated to the pane count.

use vstd::arithmetic::div_mod::{
    lemma_div_is_ordered, lemma_div_multiples_vanish, lemma_div_pos_is_pos,
    lemma_fundamental_div_mod, lemma_fundamental_div_mod_converse, lemma_mod_bound,
};
use vstd::arithmetic::mul::lemma_mul_inequality;
use vstd::prelude::*;

verus! {

/// A rectangle of terminal cells.
#[derive(Clone, Copy, PartialEq, Eq, Structural, Debug)]
pub struct Rect {
    pub x: u16,
    pub y: u16,
    pub width: u16,
    pub height: u16,
}

impl Rect {
    /// The right and bottom edges stay within the terminal's coordinate space.
    pub open spec fn wf(&self) -> bool {
        self.x + self.width <= 0xFFFF && self.y + self.height <= 0xFFFF
    }
}

/// Helper for `spec_ceil_sqrt`: the least `q >= r` with `q * q >= n`.
pub open spec fn ceil_sqrt_from(n: nat, r: nat) -> nat
    decreases n - r,
{
    if r * r >= n || r >= n {
        r
    } else {
        ceil_sqrt_from(n, r + 1)
    }
}

/// The least `r` with `r * r >= n`.
pub open spec fn spec_ceil_sqrt(n: nat) -> nat {
    ceil_sqrt_from(n, 0)
}

/// `ceil(n / d)`, and 0 for an empty divisor.
pub open spec fn spec_ceil_div(n: nat, d: nat) -> nat {
    if d == 0 {
        0
    } else {
        (((n + d - 1) as int) / (d as int)) as nat
    }
}

/// Where band `i` of `parts` equal-as-possible bands of `total` cells starts.
/// Consecutive bands abut and the last ends at `total`, so the bands tile.
pub open spec fn band_start(total: int, parts: int, i: int) -> int {
    i * total / parts
}

/// The `k`-th rectangle (row-major) of a `rows` x `cols` grid over `area`.
pub open spec fn spec_cell(area: Rect, rows: int, cols: int, k: int) -> Rect {
    let i = k / cols;
    let j = k % cols;
    Rect {
        x: (area.x + band_start(area.width as int, cols, j)) as u16,
        y: (area.y + band_start(area.height as int, rows, i)) as u16,
        width: (band_start(area.width as int, cols, j + 1) - band_start(
            area.width as int,
            cols,
            j,
        )) as u16,
        height: (band_start(area.height as int, rows, i + 1) - band_start(
            area.height as int,
            rows,
            i,
        )) as u16,
    }
}

/// Band starts do not decrease.
pub proof fn lemma_band_monotone(total: int, parts: int, i1: int, i2: int)
    requires
        0 <= total,
        1 <= parts,
        i1 <= i2,
    ensures
        band_start(total, parts, i1) <= band_start(total, parts, i2),
{
    lemma_mul_inequality(i1, i2, total);
    lemma_div_is_ordered(i1 * total, i2 * total, parts);
}

/// The first band starts at 0 and the one-past-last start is `total`.
pub proof fn lemma_band_ends(total: int, parts: int)
    requires
        0 <= total,
        1 <= parts,
    ensures
        band_start(total, parts, 0) == 0,
        band_start(total, parts, parts) == total,
{
    assert(parts * total == total * parts) by (nonlinear_arith);
    lemma_div_multiples_vanish(total, parts);
}

/// Every band start lies in `[0, total]`.
pub proof fn lemma_band_in_range(total: int, parts: int, i: int)
    requires
        0 <= total,
        1 <= parts,
        0 <= i <= parts,
    ensures
        0 <= band_start(total, parts, i) <= total,
{
    lemma_band_monotone(total, parts, 0, i);
    lemma_band_monotone(total, parts, i, parts);
    lemma_band_ends(total, parts);
}

/// Tiling law: the cells of a full `rows` x `cols` grid over `area` exactly
/// tile it. For the cell in row `i` and column `j`: the leftmost column starts
/// at the left edge and the rightmost ends at the right edge; horizontally
/// adjacent cells abut; the top row starts at the top edge and the bottom row
/// ends at the bottom edge; vertically adjacent cells abut; and every cell
/// lies inside `area`. `create_layout` returns the first `n` of these cells in
/// row-major order, so its rectangles tile `area` exactly whenever
/// `n == rows * cols`; trailing cells of the last row are discarded otherwise.
pub proof fn lemma_grid_tiling(area: Rect, rows: int, cols: int, i: int, j: int)
    requires
        area.wf(),
        1 <= rows,
        1 <= cols,
        0 <= i < rows,
        0 <= j < cols,
    ensures
        ({
            let c = spec_cell(area, rows, cols, i * cols + j);
            &&& (j == 0 ==> c.x == area.x)
            &&& (i == 0 ==> c.y == area.y)
            &&& (j == cols - 1 ==> c.x + c.width == area.x + area.width)
            &&& (i == rows - 1 ==> c.y + c.height == area.y + area.height)
            &&& (j < cols - 1 ==> c.x + c.width == spec_cell(area, rows, cols, i * cols + j + 1).x)
            &&& (i < rows - 1 ==> c.y + c.height == spec_cell(area, rows, cols, (i + 1) * cols + j).y)
            &&& area.x <= c.x && c.x + c.width <= area.x + area.width
            &&& area.y <= c.y && c.y + c.height <= area.y + area.height
        }),
{
    let w = area.width as int;
    let h = area.height as int;
    let k = i * cols + j;
    lemma_fundamental_div_mod_converse(k, cols, i, j);
    lemma_band_in_range(w, cols, j);
    lemma_band_in_range(w, cols, j + 1);
    lemma_band_in_range(h, rows, i);
    lemma_band_in_range(h, rows, i + 1);
    lemma_band_monotone(w, cols, j, j + 1);
    lemma_band_monotone(h, rows, i, i + 1);
    lemma_band_ends(w, cols);
    lemma_band_ends(h, rows);
    if j < cols - 1 {
        lemma_fundamental_div_mod_converse(k + 1, cols, i, j + 1);
        lemma_band_in_range(w, cols, j + 2);
        lemma_band_in_range(h, rows, i + 1);
    }
    if i < rows - 1 {
        assert((i + 1) * cols == i * cols + cols) by (nonlinear_arith);
        lemma_fundamental_div_mod_converse((i + 1) * cols + j, cols, i + 1, j);
        lemma_band_in_range(h, rows, i + 2);
    }
}

proof fn lemma_ceil_sqrt_from_props(n: nat, r: nat)
    requires
        r <= n,
    ensures
        r <= ceil_sqrt_from(n, r) <= n,
        n > 0 ==> ceil_sqrt_from(n, r) * ceil_sqrt_from(n, r) >= n,
    decreases n - r,
{
    if r * r >= n || r >= n {
        if n > 0 && !(r * r >= n) {
            assert(r == n);
            assert(n * n >= n) by (nonlinear_arith)
                requires
                    n >= 1,
            ;
        }
    } else {
        lemma_ceil_sqrt_from_props(n, r + 1);
    }
}

/// The grid shape for `n` panes: at least one row and one column, and at
/// least `n` cells.
pub proof fn lemma_grid_shape(n: nat)
    requires
        1 <= n,
    ensures
        ({
            let rows = spec_ceil_sqrt(n);
            let cols = spec_ceil_div(n, rows);
            &&& 1 <= rows <= n
            &&& 1 <= cols
            &&& rows * cols >= n
        }),
{
    lemma_ceil_sqrt_from_props(n, 0);
    let rows = spec_ceil_sqrt(n);
    assert(rows >= 1) by (nonlinear_arith)
        requires
            rows * rows >= n,
            n >= 1,
    ;
    let ro = rows as int;
    let x = n + ro - 1;
    let c = x / ro;
    lemma_fundamental_div_mod(x, ro);
    lemma_mod_bound(x, ro);
    assert(ro * c >= n);
    assert(c >= 1) by {
        lemma_div_is_ordered(ro, x, ro);
        vstd::arithmetic::div_mod::lemma_div_by_self(ro);
    };
    assert(rows * spec_ceil_div(n, rows) == ro * c) by (nonlinear_arith)
        requires
            rows == ro,
            spec_ceil_div(n, rows) == c,
    ;
}

/// Exact-tiling law for the grid `create_layout` produces: with
/// `rows = ceil(sqrt(n))` and `cols = ceil(n / rows)`, every cell lies inside
/// `area`; the leftmost column starts at the left edge, the rightmost ends at
/// the right edge, the top row starts at the top edge, the bottom row ends at
/// the bottom edge, and neighbouring cells abut exactly, horizontally and
/// vertically — so the full grid tiles `area`, and `create_layout`'s first
/// `n` cells tile it whenever `n == rows * cols`.
pub proof fn lemma_create_layout_tiles(area: Rect, n: nat, k: int)
    requires
        area.wf(),
        1 <= n,
        0 <= k < n,
    ensures
        ({
            let rows = spec_ceil_sqrt(n) as int;
            let cols = spec_ceil_div(n, spec_ceil_sqrt(n)) as int;
            let c = spec_cell(area, rows, cols, k);
            &&& area.x <= c.x && c.x + c.width <= area.x + area.width
            &&& area.y <= c.y && c.y + c.height <= area.y + area.height
            &&& (k % cols == 0 ==> c.x == area.x)
            &&& (k % cols == cols - 1 ==> c.x + c.width == area.x + area.width)
            &&& (k / cols == 0 ==> c.y == area.y)
            &&& (k / cols == rows - 1 ==> c.y + c.height == area.y + area.height)
            &&& (k % cols < cols - 1 ==> c.x + c.width == spec_cell(area, rows, cols, k + 1).x)
            &&& (k / cols < rows - 1 ==> c.y + c.height == spec_cell(area, rows, cols, k + cols).y)
        }),
{
    lemma_grid_shape(n);
    let rows = spec_ceil_sqrt(n) as int;
    let cols = spec_ceil_div(n, spec_ceil_sqrt(n)) as int;
    let i = k / cols;
    let j = k % cols;
    lemma_fundamental_div_mod(k, cols);
    lemma_mod_bound(k, cols);
    lemma_div_pos_is_pos(k, cols);
    assert(cols * i == i * cols) by (nonlinear_arith);
    assert(i < rows) by {
        if i >= rows {
            lemma_mul_inequality(rows, i, cols);
            assert(rows * cols <= i * cols);
        }
    };
    lemma_grid_tiling(area, rows, cols, i, j);
    assert(i * cols + j == k);
    if i < rows - 1 {
        assert((i + 1) * cols + j == k + cols) by (nonlinear_arith)
            requires
                i * cols + j == k,
        ;
    }
}

fn ceil_sqrt(n: usize) -> (r: usize)
    ensures
        r as nat == spec_ceil_sqrt(n as nat),
        r * r >= n,
        r <= n,
        n > 0 ==> r >= 1,
{
    let mut r: usize = 0;
    loop
        invariant
            r <= n,
            spec_ceil_sqrt(n as nat) == ceil_sqrt_from(n as nat, r as nat),
        ensures
            r <= n,
            r * r >= n,
            spec_ceil_sqrt(n as nat) == r as nat,
        decreases n - r,
    {
        let sq = r.checked_mul(r);
        let done = match sq {
            Some(s) => s >= n,
            None => true,
        };
        if done {
            proof {
                assert(r * r >= n);
            }
            break ;
        }
        proof {
            assert(r * r < n);
            if r >= 1 {
                assert(r <= r * r) by (nonlinear_arith)
                    requires
                        1 <= r,
                ;
            }
            assert(r < n);
        }
        r = r + 1;
    }
    r
}

/// Grid dimensions for `n` panes: `rows = ceil(sqrt(n))`, `cols = ceil(n / rows)`.
/// The grid has at least `n` cells.
pub fn grid_dims(window_count: usize) -> (dims: (usize, usize))
    requires
        window_count >= 1,
    ensures
        dims.0 as nat == spec_ceil_sqrt(window_count as nat),
        dims.1 as nat == spec_ceil_div(window_count as nat, dims.0 as nat),
        1 <= dims.0 <= window_count,
        1 <= dims.1 <= window_count,
        dims.0 * dims.1 >= window_count,
{
    let rows = ceil_sqrt(window_count);
    let q = window_count / rows;
    let m = window_count % rows;
    proof {
        if m > 0 {
            vstd::arithmetic::div_mod::lemma_div_is_strictly_smaller(
                window_count as int,
                rows as int,
            );
        }
    }
    let cols = if m > 0 {
        q + 1
    } else {
        q
    };
    proof {
        let n = window_count as int;
        let ro = rows as int;
        let qi = n / ro;
        let mi = n % ro;
        lemma_fundamental_div_mod(n, ro);
        lemma_div_pos_is_pos(n, ro);
        assert(qi <= qi * ro) by (nonlinear_arith)
            requires
                0 <= qi,
                1 <= ro,
        ;
        assert(ro * qi == qi * ro) by (nonlinear_arith);
        if m > 0 {
            assert((qi + 1) * ro == ro * qi + ro) by (nonlinear_arith);
            lemma_fundamental_div_mod_converse(n + ro - 1, ro, qi + 1, mi - 1);
            assert(rows * cols == (qi + 1) * ro) by (nonlinear_arith)
                requires
                    rows == ro,
                    cols == qi + 1,
            ;
        } else {
            lemma_fundamental_div_mod_converse(n + ro - 1, ro, qi, ro - 1);
            assert(rows * cols == qi * ro) by (nonlinear_arith)
                requires
                    rows == ro,
                    cols == qi,
            ;
            assert(ro * 0 == 0) by (nonlinear_arith);
        }
    }
    (rows, cols)
}

/// One band boundary, computed exactly as `band_start` states it.
fn band(total: u16, parts: usize, i: usize) -> (r: u16)
    requires
        1 <= parts <= 0xFFFF_FFFFusize,
        i <= parts,
    ensures
        r as int == band_start(total as int, parts as int, i as int),
        r <= total,
{
    proof {
        assert((i as int) * (total as int) <= 0xFFFF_FFFFint * 0xFFFFint) by (nonlinear_arith)
            requires
                0 <= i as int <= 0xFFFF_FFFFint,
                0 <= total as int <= 0xFFFFint,
        ;
        lemma_band_in_range(total as int, parts as int, i as int);
    }
    ((i as u64) * (total as u64) / (parts as u64)) as u16
}

/// Split `area` into an approximately square grid and return the first
/// `window_count` cells in row-major order; cells of the last row past the
/// count are discarded. With no panes the list is empty.
pub fn create_layout(area: Rect, window_count: usize) -> (r: Vec<Rect>)
    requires
        area.wf(),
        window_count <= 0xFFFF_FFFFusize,
    ensures
        r@.len() == window_count,
        window_count >= 1 ==> {
            let rows = spec_ceil_sqrt(window_count as nat) as int;
            let cols = spec_ceil_div(window_count as nat, rows as nat) as int;
            forall|k: int| 0 <= k < window_count ==> r@[k] == spec_cell(area, rows, cols, k)
        },
{
    let mut rects: Vec<Rect> = Vec::new();
    if window_count == 0 {
        return rects;
    }
    let (rows, cols) = grid_dims(window_count);
    let mut i: usize = 0;
    while i < rows
        invariant
            area.wf(),
            1 <= rows <= window_count <= 0xFFFF_FFFFusize,
            1 <= cols <= window_count,
            rows as nat == spec_ceil_sqrt(window_count as nat),
            cols as nat == spec_ceil_div(window_count as nat, rows as nat),
            rows * cols >= window_count,
            i <= rows,
            rects@.len() == if i * cols < window_count {
                i * cols
            } else {
                window_count as int
            },
            forall|k: int|
                0 <= k < rects@.len() ==> rects@[k] == spec_cell(area, rows as int, cols as int, k),
        decreases rows - i,
    {
        let mut j: usize = 0;
        while j < cols
            invariant
                area.wf(),
                1 <= rows <= window_count <= 0xFFFF_FFFFusize,
                1 <= cols <= window_count,
                rows * cols >= window_count,
                i < rows,
                j <= cols,
                rects@.len() == if i * cols + j < window_count {
                    i * cols + j
                } else {
                    window_count as int
                },
                forall|k: int|
                    0 <= k < rects@.len() ==> rects@[k] == spec_cell(
                        area,
                        rows as int,
                        cols as int,
                        k,
                    ),
            decreases cols - j,
        {
            if rects.len() < window_count {
                let x = band(area.width, cols, j);
                let x_next = band(area.width, cols, j + 1);
                let y = band(area.height, rows, i);
                let y_next = band(area.height, rows, i + 1);
                proof {
                    lemma_band_monotone(area.width as int, cols as int, j as int, j + 1);
                    lemma_band_monotone(area.height as int, rows as int, i as int, i + 1);
                    lemma_band_in_range(area.width as int, cols as int, j as int);
                    lemma_band_in_range(area.height as int, rows as int, i as int);
                    lemma_fundamental_div_mod_converse(
                        i as int * cols as int + j as int,
                        cols as int,
                        i as int,
                        j as int,
                    );
                }
                let cell = Rect { x: area.x + x, y: area.y + y, width: x_next - x, height: y_next - y };
                rects.push(cell);
            }
            j = j + 1;
        }
        i = i + 1;
        proof {
            assert(i as int * cols as int == (i - 1) * cols + cols) by (nonlinear_arith);
        }
    }
    proof {
        assert(rows as int * cols as int == rows * cols);
    }
    rects
}

} // verus!
