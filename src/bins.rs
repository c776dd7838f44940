//! The hex-bin universe of a square field and the assignment of pixels to bins.
use crate::hex::{FractionalHex, Hex, ROUND_LIMIT};
use crate::layout::{Layout, Point, SQRT_3_DEN, SQRT_3_NUM, SUBPIXELS};
use vstd::arithmetic::div_mod::lemma_fundamental_div_mod_converse;
use vstd::prelude::*;

verus! {

/// Largest field width whose pixel count fits a `u32` bin counter.
pub const MAX_WIDTH: usize = 65535;

/// `a / b` rounded up, for `a >= 0` and `b > 0`.
pub open spec fn ceil_div(a: int, b: int) -> int {
    (a + b - 1) / b
}

/// Row shift of column `q` between axial and offset coordinates: `floor((q + 1) / 2)`.
pub open spec fn column_offset(q: int) -> int {
    (q + 1) / 2
}

/// A rectangle of offset coordinates, as axial cells: column `q` in `[left, right)`
/// holds the cells `(q, r)` with `r + column_offset(q)` in `[top, bottom)`.
#[derive(Debug, Clone, Copy, PartialEq, Eq, Structural)]
pub struct BinGrid {
    pub left: i32,
    pub right: i32,
    pub top: i32,
    pub bottom: i32,
}

impl BinGrid {
    /// Columns from `-1` on, and bounds within `ROUND_LIMIT`.
    pub open spec fn wf(self) -> bool {
        &&& -1 <= self.left <= self.right <= ROUND_LIMIT
        &&& -ROUND_LIMIT <= self.top <= self.bottom <= ROUND_LIMIT
    }

    /// Number of cells per column.
    pub open spec fn rows(self) -> int {
        self.bottom - self.top
    }

    /// Number of cells in the grid.
    pub open spec fn bin_count(self) -> int {
        (self.right - self.left) * self.rows()
    }

    /// Whether cell `(q, r)` belongs to the grid.
    pub open spec fn contains(self, q: int, r: int) -> bool {
        &&& self.left <= q < self.right
        &&& self.top <= r + column_offset(q) < self.bottom
    }

    /// Arena index of cell `(q, r)`: column-major within the rectangle.
    pub open spec fn index_of(self, q: int, r: int) -> int {
        (q - self.left) * self.rows() + (r + column_offset(q) - self.top)
    }

    /// The grid that covers a `width` by `width` field under `layout`, padded by one
    /// hex: `width / (size * 1.5)` columns and `width / (size * sqrt3)` rows, each
    /// rounded up, plus one.
    pub open spec fn spec_covering(width: int, layout: Layout) -> BinGrid {
        let s = SUBPIXELS as int;
        let sx = layout.size.x as int;
        BinGrid {
            left: -1i32,
            right: (ceil_div(2 * width * s, 3 * sx) + 1) as i32,
            top: 0,
            bottom: (ceil_div(width * s * SQRT_3_DEN, sx * SQRT_3_NUM) + 1) as i32,
        }
    }

    /// See `spec_covering`.
    pub fn covering(width: usize, layout: &Layout) -> (g: BinGrid)
        requires
            layout.wf(),
            width <= MAX_WIDTH,
        ensures
            g == BinGrid::spec_covering(width as int, *layout),
            g.wf(),
            0 <= g.bin_count() <= 0x10_0000_0000_0000,
    {
        let s: u128 = SUBPIXELS as u128;
        let sx: u128 = layout.size.x as u128;
        let w: u128 = width as u128;
        let cols_den: u128 = 3 * sx;
        let cols: u128 = (2 * w * s + cols_den - 1) / cols_den;
        let rows_den: u128 = sx * SQRT_3_NUM as u128;
        proof {
            assert(w * s * SQRT_3_DEN <= 0x1_0000 * 0x100 * SQRT_3_DEN) by (nonlinear_arith)
                requires w <= 0x1_0000, s == 256;
        }
        let rows: u128 = (w * s * SQRT_3_DEN as u128 + rows_den - 1) / rows_den;
        proof {
            let (wi, si, cd, rd) = (w as int, s as int, cols_den as int, rows_den as int);
            let a: int = 2 * wi * si + cd - 1;
            assert(cols as int == a / cd);
            assert(a <= 0x200_0000 + cd);
            assert(cols <= 0x200_0001) by (nonlinear_arith)
                requires cols == a / cd, cd >= 3, a <= 0x200_0000 + cd, a >= 0;
            let b: int = wi * si * SQRT_3_DEN + rd - 1;
            assert(rows as int == b / rd);
            assert(rd >= SQRT_3_NUM) by (nonlinear_arith)
                requires rd == sx * SQRT_3_NUM, sx >= 1;
            assert(rows <= 0x100_0001) by (nonlinear_arith)
                requires rows == b / rd, rd >= SQRT_3_NUM, b >= 0,
                    b <= 0x100_0000 * SQRT_3_DEN + rd, SQRT_3_DEN < SQRT_3_NUM;
            assert((cols + 2) * (rows + 1) <= 0x10_0000_0000_0000) by (nonlinear_arith)
                requires cols <= 0x200_0001, rows <= 0x100_0001, cols >= 0, rows >= 0;
        }
        BinGrid { left: -1, right: cols as i32 + 1, top: 0, bottom: rows as i32 + 1 }
    }

    /// Number of cells in the grid.
    pub fn len(&self) -> (n: u64)
        requires
            self.wf(),
        ensures
            n == self.bin_count(),
    {
        proof {
            assert(0 <= self.bin_count() <= 0x8000_0000 * 0x8000_0000) by (nonlinear_arith)
                requires 0 <= self.right - self.left <= 0x8000_0000,
                    0 <= self.bottom - self.top <= 0x8000_0000,
                    self.bin_count() == (self.right - self.left) * (self.bottom - self.top);
        }
        (self.right as i64 - self.left as i64) as u64 * (self.bottom as i64 - self.top as i64) as u64
    }

    /// The arena index of `h` when the grid holds it.
    pub fn bin_index(&self, h: &Hex) -> (b: Option<usize>)
        requires
            self.wf(),
            0 <= self.bin_count() <= usize::MAX,
        ensures
            b == (if self.contains(h.q as int, h.r as int) {
                Some(self.index_of(h.q as int, h.r as int) as usize)
            } else {
                None
            }),
            b matches Some(i) ==> i < self.bin_count(),
    {
        if h.q < self.left || h.q >= self.right {
            return None;
        }
        let off: i64 = ((h.q as i64 + 1) as u64 / 2) as i64;
        let row: i64 = h.r as i64 + off;
        if row < self.top as i64 || row >= self.bottom as i64 {
            return None;
        }
        let col: u64 = (h.q as i64 - self.left as i64) as u64;
        let rows: u64 = (self.bottom as i64 - self.top as i64) as u64;
        let within: u64 = (row - self.top as i64) as u64;
        proof {
            assert(col + 1 <= self.right - self.left);
            assert(col * rows + within < (col + 1) * rows) by (nonlinear_arith)
                requires within < rows;
            assert((col + 1) * rows <= (self.right - self.left) * rows) by (nonlinear_arith)
                requires col + 1 <= self.right - self.left, rows >= 0;
        }
        Some((col * rows + within) as usize)
    }
}

} // verus!

verus! {

/// The fixed-point position of the pixel with flat index `i` in a field of `width`.
pub open spec fn pixel_point(width: int, i: int) -> Point {
    Point { x: ((i % width) * SUBPIXELS) as i32, y: ((i / width) * SUBPIXELS) as i32 }
}

/// The cell that the pixel-space point `p` rounds to, when rounding can represent it.
pub open spec fn point_cell(layout: Layout, p: Point) -> Option<(int, int, int)> {
    let (q, r, d) = layout.point_hex_coords(p);
    let f = FractionalHex { q: q as i128, r: r as i128, s: (-q - r) as i128, den: d as i128 };
    if f.in_round_range() {
        Some(f.rounded())
    } else {
        None
    }
}

/// The bin of pixel `i`: the arena index of its cell, if the grid holds that cell.
pub open spec fn pixel_bin(grid: BinGrid, layout: Layout, width: int, i: int) -> Option<usize> {
    match point_cell(layout, pixel_point(width, i)) {
        Some((q, r, s)) => if grid.contains(q, r) {
            Some(grid.index_of(q, r) as usize)
        } else {
            None
        },
        None => None,
    }
}

/// Number of entries of `s` that are `Some(b)`.
pub open spec fn count_bin(s: Seq<Option<usize>>, b: usize) -> nat
    decreases s.len(),
{
    if s.len() == 0 {
        0
    } else {
        count_bin(s.drop_last(), b) + if s.last() == Some(b) { 1nat } else { 0nat }
    }
}

/// Number of entries of `s` that are `Some`.
pub open spec fn assigned(s: Seq<Option<usize>>) -> nat
    decreases s.len(),
{
    if s.len() == 0 {
        0
    } else {
        assigned(s.drop_last()) + if s.last() is Some { 1nat } else { 0nat }
    }
}

/// Sum of a sequence of counters.
pub open spec fn sum_counts(c: Seq<u32>) -> nat
    decreases c.len(),
{
    if c.len() == 0 {
        0
    } else {
        sum_counts(c.drop_last()) + c.last() as nat
    }
}

/// The bin universe of one aggregation pass, the bin of every pixel, and the number
/// of pixels that each bin received.
pub struct HexBins {
    pub grid: BinGrid,
    pub pixel_bins: Vec<Option<usize>>,
    pub counts: Vec<u32>,
}

impl HexBins {
    /// Every assigned bin exists, and each counter holds the number of pixels that
    /// were assigned to its bin.
    pub open spec fn consistent(self) -> bool {
        &&& self.counts@.len() == self.grid.bin_count()
        &&& self.counts@.len() <= usize::MAX
        &&& forall|i: int|
            0 <= i < self.pixel_bins@.len() ==> (#[trigger] self.pixel_bins@[i] matches Some(b)
                ==> b < self.counts@.len())
        &&& forall|b: int|
            0 <= b < self.counts@.len() ==> #[trigger] self.counts@[b] == count_bin(
                self.pixel_bins@,
                b as usize,
            )
    }
}

proof fn lemma_count_bin_push(s: Seq<Option<usize>>, x: Option<usize>, b: usize)
    ensures
        count_bin(s.push(x), b) == count_bin(s, b) + if x == Some(b) { 1nat } else { 0nat },
        assigned(s.push(x)) == assigned(s) + if x is Some { 1nat } else { 0nat },
{
    assert(s.push(x).drop_last() == s);
}

proof fn lemma_count_bin_bound(s: Seq<Option<usize>>, b: usize)
    ensures
        count_bin(s, b) <= s.len(),
    decreases s.len(),
{
    if s.len() > 0 {
        lemma_count_bin_bound(s.drop_last(), b);
    }
}

/// The cell of a pixel-space point, when rounding can represent it.
fn cell_at(layout: &Layout, p: &Point) -> (c: Option<Hex>)
    requires
        layout.wf(),
    ensures
        c matches Some(h) ==> h.wf() && point_cell(*layout, *p) == Some(
            (h.q as int, h.r as int, h.s as int),
        ),
        c is None ==> point_cell(*layout, *p) is None,
{
    let f = Hex::from_point(layout, p);
    if f.fits_rounding() {
        Some(f.round())
    } else {
        None
    }
}

/// Pre-sizes the bin universe for a `width` by `width` field, then assigns every
/// pixel, in row-major order, to the bin of the cell its position rounds to.
pub fn hex_bins(width: usize, layout: &Layout) -> (res: HexBins)
    requires
        layout.wf(),
        width <= MAX_WIDTH,
        BinGrid::spec_covering(width as int, *layout).bin_count() <= usize::MAX,
    ensures
        res.grid == BinGrid::spec_covering(width as int, *layout),
        res.consistent(),
        res.pixel_bins@.len() == width * width,
        forall|i: int|
            0 <= i < width * width ==> #[trigger] res.pixel_bins@[i] == pixel_bin(
                res.grid,
                *layout,
                width as int,
                i,
            ),
{
    let grid = BinGrid::covering(width, layout);
    let n_bins: usize = grid.len() as usize;
    proof {
        assert(width * width <= MAX_WIDTH * MAX_WIDTH) by (nonlinear_arith)
            requires width <= MAX_WIDTH;
    }
    let n: usize = width * width;
    let mut counts: Vec<u32> = vec![0u32; n_bins];
    let mut pixel_bins: Vec<Option<usize>> = Vec::with_capacity(n);
    let mut i: usize = 0;
    while i < n
        invariant
            grid == BinGrid::spec_covering(width as int, *layout),
            grid.wf(),
            n_bins == grid.bin_count(),
            n == width * width,
            n <= u32::MAX,
            layout.wf(),
            width <= MAX_WIDTH,
            i <= n,
            pixel_bins@.len() == i,
            counts@.len() == n_bins,
            forall|j: int| 0 <= j < i ==> #[trigger] pixel_bins@[j] == pixel_bin(grid, *layout, width as int, j),
            forall|j: int|
                0 <= j < i ==> (#[trigger] pixel_bins@[j] matches Some(b) ==> b < n_bins),
            forall|b: int| 0 <= b < n_bins ==> #[trigger] counts@[b] == count_bin(pixel_bins@, b as usize),
        decreases n - i,
    {
        let x: usize = i % width;
        let y: usize = i / width;
        proof {
            assert(y < width) by (nonlinear_arith)
                requires y == i / width, i < width * width, width > 0;
        }
        let p = Point::pixel(x as i32, y as i32);
        let bin = match cell_at(layout, &p) {
            Some(h) => grid.bin_index(&h),
            None => None,
        };
        proof {
            lemma_count_bin_bound(pixel_bins@, bin.unwrap_or(0));
            assert forall|b: int| 0 <= b < n_bins implies #[trigger] count_bin(pixel_bins@.push(bin), b as usize)
                == count_bin(pixel_bins@, b as usize) + if bin == Some(b as usize) { 1nat } else { 0nat } by {
                lemma_count_bin_push(pixel_bins@, bin, b as usize);
            }
        }
        if let Some(b) = bin {
            let c = counts[b];
            counts.set(b, c + 1);
        }
        pixel_bins.push(bin);
        i += 1;
    }
    HexBins { grid, pixel_bins, counts }
}

} // verus!

verus! {

/// `count_bin(s, 0) + ... + count_bin(s, n - 1)`.
pub open spec fn bins_total(s: Seq<Option<usize>>, n: nat) -> nat
    decreases n,
{
    if n == 0 {
        0
    } else {
        bins_total(s, (n - 1) as nat) + count_bin(s, (n - 1) as usize)
    }
}

/// Aggregation conserves pixels: the counters of all bins (empty ones add nothing)
/// sum to the number of pixels that found a bin, which is at most the number of
/// pixels; the sum equals the number of pixels exactly when every pixel found one.
pub proof fn lemma_counts_conserve_pixels(bins: HexBins)
    requires
        bins.consistent(),
    ensures
        sum_counts(bins.counts@) == assigned(bins.pixel_bins@),
        assigned(bins.pixel_bins@) <= bins.pixel_bins@.len(),
        sum_counts(bins.counts@) == bins.pixel_bins@.len() <==> forall|i: int|
            0 <= i < bins.pixel_bins@.len() ==> #[trigger] bins.pixel_bins@[i] is Some,
{
    let s = bins.pixel_bins@;
    let c = bins.counts@;
    lemma_sum_is_total(s, c);
    lemma_total_is_assigned(s, c.len());
    lemma_assigned_bound(s);
}

proof fn lemma_sum_is_total(s: Seq<Option<usize>>, c: Seq<u32>)
    requires
        forall|b: int| 0 <= b < c.len() ==> #[trigger] c[b] == count_bin(s, b as usize),
    ensures
        sum_counts(c) == bins_total(s, c.len()),
    decreases c.len(),
{
    if c.len() > 0 {
        let c0 = c.drop_last();
        assert forall|b: int| 0 <= b < c0.len() implies #[trigger] c0[b] == count_bin(s, b as usize) by {
            assert(c0[b] == c[b]);
        }
        lemma_sum_is_total(s, c0);
        assert(c.last() == c[c.len() - 1]);
    }
}

proof fn lemma_total_push(s: Seq<Option<usize>>, x: Option<usize>, n: nat)
    requires
        n <= usize::MAX,
    ensures
        bins_total(s.push(x), n) == bins_total(s, n) + if (x matches Some(b) && b < n) { 1nat } else { 0nat },
    decreases n,
{
    if n > 0 {
        lemma_total_push(s, x, (n - 1) as nat);
        lemma_count_bin_push(s, x, (n - 1) as usize);
    }
}

proof fn lemma_total_is_assigned(s: Seq<Option<usize>>, n: nat)
    requires
        n <= usize::MAX,
        forall|i: int| 0 <= i < s.len() ==> (#[trigger] s[i] matches Some(b) ==> b < n),
    ensures
        bins_total(s, n) == assigned(s),
    decreases s.len(),
{
    if s.len() == 0 {
        lemma_total_empty(s, n);
    } else {
        let s0 = s.drop_last();
        assert forall|i: int| 0 <= i < s0.len() implies (#[trigger] s0[i] matches Some(b) ==> b < n) by {
            assert(s0[i] == s[i]);
        }
        lemma_total_is_assigned(s0, n);
        assert(s0.push(s.last()) == s);
        lemma_total_push(s0, s.last(), n);
        lemma_count_bin_push(s0, s.last(), 0);
        assert(s.last() == s[s.len() - 1]);
    }
}

proof fn lemma_total_empty(s: Seq<Option<usize>>, n: nat)
    requires
        s.len() == 0,
    ensures
        bins_total(s, n) == 0,
    decreases n,
{
    if n > 0 {
        lemma_total_empty(s, (n - 1) as nat);
    }
}

proof fn lemma_assigned_bound(s: Seq<Option<usize>>)
    ensures
        assigned(s) <= s.len(),
        assigned(s) == s.len() <==> forall|i: int| 0 <= i < s.len() ==> #[trigger] s[i] is Some,
    decreases s.len(),
{
    if s.len() > 0 {
        let s0 = s.drop_last();
        lemma_assigned_bound(s0);
        assert(s.last() == s[s.len() - 1]);
        if assigned(s) == s.len() {
            assert forall|i: int| 0 <= i < s.len() implies #[trigger] s[i] is Some by {
                if i < s.len() - 1 {
                    assert(s0[i] == s[i]);
                }
            }
        }
        if forall|i: int| 0 <= i < s.len() ==> #[trigger] s[i] is Some {
            assert forall|i: int| 0 <= i < s0.len() implies #[trigger] s0[i] is Some by {
                assert(s0[i] == s[i]);
            }
        }
    }
}

} // verus!

verus! {

/// A bin that some pixel was assigned to has a positive count, so the mean painted
/// back onto that pixel is defined.
pub proof fn lemma_assigned_bin_nonempty(bins: HexBins, i: int)
    requires
        bins.consistent(),
        0 <= i < bins.pixel_bins@.len(),
        bins.pixel_bins@[i] is Some,
    ensures
        bins.counts@[bins.pixel_bins@[i]->0 as int] >= 1,
{
    let b = bins.pixel_bins@[i]->0;
    lemma_count_positive(bins.pixel_bins@, i, b);
}

proof fn lemma_count_positive(s: Seq<Option<usize>>, i: int, b: usize)
    requires
        0 <= i < s.len(),
        s[i] == Some(b),
    ensures
        count_bin(s, b) >= 1,
    decreases s.len(),
{
    if i < s.len() - 1 {
        assert(s.drop_last()[i] == s[i]);
        lemma_count_positive(s.drop_last(), i, b);
    }
}

} // verus!

verus! {

impl HexBins {
    /// The paint-back pass: pixel `i` takes the value of its bin in `per_bin`, and
    /// `fill` when it has no bin.
    pub fn paint_back<T: Copy>(&self, per_bin: &Vec<T>, fill: T) -> (r: Vec<T>)
        requires
            self.consistent(),
            per_bin@.len() == self.counts@.len(),
        ensures
            r@.len() == self.pixel_bins@.len(),
            forall|i: int|
                0 <= i < r@.len() ==> #[trigger] r@[i] == match self.pixel_bins@[i] {
                    Some(b) => per_bin@[b as int],
                    None => fill,
                },
    {
        let n = self.pixel_bins.len();
        let mut out: Vec<T> = Vec::with_capacity(n);
        let mut i: usize = 0;
        while i < n
            invariant
                self.consistent(),
                per_bin@.len() == self.counts@.len(),
                n == self.pixel_bins@.len(),
                i <= n,
                out@.len() == i,
                forall|j: int|
                    0 <= j < i ==> #[trigger] out@[j] == match self.pixel_bins@[j] {
                        Some(b) => per_bin@[b as int],
                        None => fill,
                    },
            decreases n - i,
        {
            let v = match self.pixel_bins[i] {
                Some(b) => per_bin[b],
                None => fill,
            };
            out.push(v);
            i += 1;
        }
        out
    }
}

} // verus!

verus! {

/// The arena holds one bin per cell: distinct cells of the grid have distinct
/// indices, and every index lies below the number of cells.
pub proof fn lemma_index_one_to_one(g: BinGrid, q1: int, r1: int, q2: int, r2: int)
    requires
        g.wf(),
        g.contains(q1, r1),
        g.contains(q2, r2),
    ensures
        0 <= g.index_of(q1, r1) < g.bin_count(),
        g.index_of(q1, r1) == g.index_of(q2, r2) ==> q1 == q2 && r1 == r2,
{
    let rows = g.rows();
    let (c1, k1) = (q1 - g.left, r1 + column_offset(q1) - g.top);
    let (c2, k2) = (q2 - g.left, r2 + column_offset(q2) - g.top);
    assert(0 <= c1 * rows + k1 < g.bin_count()) by (nonlinear_arith)
        requires 0 <= c1 < g.right - g.left, 0 <= k1 < rows, g.bin_count() == (g.right - g.left) * rows;
    if g.index_of(q1, r1) == g.index_of(q2, r2) {
        lemma_fundamental_div_mod_converse(c1 * rows + k1, rows, c1, k1);
        lemma_fundamental_div_mod_converse(c2 * rows + k2, rows, c2, k2);
    }
}

} // verus!
