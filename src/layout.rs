//! Orientation and layout: the maps between pixel space and hex space.
use crate::hex::{abs, FractionalHex, Hex};
use vstd::arithmetic::mul::{
    lemma_mul_is_associative, lemma_mul_is_commutative, lemma_mul_is_distributive_add,
    lemma_mul_is_distributive_add_other_way,
};
use vstd::prelude::*;

verus! {

/// Sub-pixel resolution of a `Point`: coordinates count `1 / SUBPIXELS` of a pixel.
pub const SUBPIXELS: i32 = 256;

/// Bound on the magnitude of an orientation coefficient or denominator.
pub const COEFF_LIMIT: i64 = 0x8000_0000_0000;

/// Numerator of the rational square root of three used by the canonical orientations.
pub const SQRT_3_NUM: i64 = 21650635094611;

/// Denominator of the rational square root of three (`1.73205080756888`).
pub const SQRT_3_DEN: i64 = 12500000000000;

/// The hex basis: forward coefficients `f0..f3` over `f_den` (hex to pixel), inverse
/// coefficients `b0..b3` over `b_den` (pixel to hex), and the angle of the first
/// corner in twelfths of a turn.
#[derive(Debug, Clone, Copy, PartialEq, Eq, Structural)]
pub struct Orientation {
    pub f0: i64,
    pub f1: i64,
    pub f2: i64,
    pub f3: i64,
    pub f_den: i64,
    pub b0: i64,
    pub b1: i64,
    pub b2: i64,
    pub b3: i64,
    pub b_den: i64,
    pub start_angle_twelfths: i64,
}

/// Whether `c` is a valid coefficient.
pub open spec fn coeff_ok(c: i64) -> bool {
    -COEFF_LIMIT <= c <= COEFF_LIMIT
}

fn in_coeff_range(c: i64) -> (b: bool)
    ensures
        b == coeff_ok(c),
{
    -COEFF_LIMIT <= c && c <= COEFF_LIMIT
}

proof fn lemma_coeff_product(a: int, b: int)
    requires
        abs(a) <= COEFF_LIMIT,
        abs(b) <= COEFF_LIMIT,
    ensures
        abs(a * b) <= COEFF_LIMIT * COEFF_LIMIT,
{
    assert(abs(a * b) <= COEFF_LIMIT * COEFF_LIMIT) by (nonlinear_arith)
        requires abs(a) <= COEFF_LIMIT, abs(b) <= COEFF_LIMIT;
}

impl Orientation {
    /// Bounded coefficients, positive denominators, and an inverse matrix that undoes
    /// the forward one exactly.
    pub open spec fn wf(self) -> bool {
        &&& 0 < self.f_den <= COEFF_LIMIT
        &&& 0 < self.b_den <= COEFF_LIMIT
        &&& coeff_ok(self.f0) && coeff_ok(self.f1) && coeff_ok(self.f2) && coeff_ok(self.f3)
        &&& coeff_ok(self.b0) && coeff_ok(self.b1) && coeff_ok(self.b2) && coeff_ok(self.b3)
        &&& self.b0 * self.f0 + self.b1 * self.f2 == self.b_den * self.f_den
        &&& self.b0 * self.f1 + self.b1 * self.f3 == 0
        &&& self.b2 * self.f0 + self.b3 * self.f2 == 0
        &&& self.b2 * self.f1 + self.b3 * self.f3 == self.b_den * self.f_den
    }

    /// Whether the orientation is well formed; see `wf`.
    pub fn is_well_formed(&self) -> (b: bool)
        ensures
            b == self.wf(),
    {
        if !(0 < self.f_den && self.f_den <= COEFF_LIMIT && 0 < self.b_den && self.b_den <= COEFF_LIMIT) {
            return false;
        }
        if !(in_coeff_range(self.f0) && in_coeff_range(self.f1) && in_coeff_range(self.f2)
            && in_coeff_range(self.f3)) {
            return false;
        }
        if !(in_coeff_range(self.b0) && in_coeff_range(self.b1) && in_coeff_range(self.b2)
            && in_coeff_range(self.b3)) {
            return false;
        }
        let (f0, f1, f2, f3) = (self.f0 as i128, self.f1 as i128, self.f2 as i128, self.f3 as i128);
        let (b0, b1, b2, b3) = (self.b0 as i128, self.b1 as i128, self.b2 as i128, self.b3 as i128);
        proof {
            lemma_coeff_product(self.b_den as int, self.f_den as int);
        }
        let unit: i128 = self.b_den as i128 * self.f_den as i128;
        proof {
            lemma_coeff_product(b0 as int, f0 as int);
            lemma_coeff_product(b1 as int, f2 as int);
            lemma_coeff_product(b0 as int, f1 as int);
            lemma_coeff_product(b1 as int, f3 as int);
            lemma_coeff_product(b2 as int, f0 as int);
            lemma_coeff_product(b3 as int, f2 as int);
            lemma_coeff_product(b2 as int, f1 as int);
            lemma_coeff_product(b3 as int, f3 as int);
        }
        b0 * f0 + b1 * f2 == unit && b0 * f1 + b1 * f3 == 0 && b2 * f0 + b3 * f2 == 0 && b2 * f1
            + b3 * f3 == unit
    }

    /// The flat-topped orientation.
    pub open spec fn spec_flat() -> Orientation {
        Orientation {
            f0: (3 * SQRT_3_DEN) as i64,
            f1: 0,
            f2: SQRT_3_NUM,
            f3: (2 * SQRT_3_NUM) as i64,
            f_den: (2 * SQRT_3_DEN) as i64,
            b0: (2 * SQRT_3_NUM) as i64,
            b1: 0,
            b2: (-SQRT_3_NUM) as i64,
            b3: (3 * SQRT_3_DEN) as i64,
            b_den: (3 * SQRT_3_NUM) as i64,
            start_angle_twelfths: 0,
        }
    }

    /// The pointy-topped orientation.
    pub open spec fn spec_pointy() -> Orientation {
        Orientation {
            f0: (2 * SQRT_3_NUM) as i64,
            f1: SQRT_3_NUM,
            f2: 0,
            f3: (3 * SQRT_3_DEN) as i64,
            f_den: (2 * SQRT_3_DEN) as i64,
            b0: (3 * SQRT_3_DEN) as i64,
            b1: (-SQRT_3_NUM) as i64,
            b2: 0,
            b3: (2 * SQRT_3_NUM) as i64,
            b_den: (3 * SQRT_3_NUM) as i64,
            start_angle_twelfths: 1,
        }
    }

    /// Flat-topped hexes: forward `[[3/2, 0], [sqrt3/2, sqrt3]]`, inverse
    /// `[[2/3, 0], [-1/3, 1/sqrt3]]`.
    pub fn flat() -> (o: Orientation)
        ensures
            o.wf(),
            o.f0 * 2 == 3 * o.f_den && o.f1 == 0,
            o.f2 * 2 * SQRT_3_DEN == SQRT_3_NUM * o.f_den,
            o.f3 * SQRT_3_DEN == SQRT_3_NUM * o.f_den,
            o.b0 * 3 == 2 * o.b_den && o.b1 == 0 && o.b2 * 3 == -o.b_den,
            o.b3 * SQRT_3_NUM == SQRT_3_DEN * o.b_den,
            o.start_angle_twelfths == 0,
            o == Orientation::spec_flat(),
    {
        Orientation {
            f0: 3 * SQRT_3_DEN,
            f1: 0,
            f2: SQRT_3_NUM,
            f3: 2 * SQRT_3_NUM,
            f_den: 2 * SQRT_3_DEN,
            b0: 2 * SQRT_3_NUM,
            b1: 0,
            b2: -SQRT_3_NUM,
            b3: 3 * SQRT_3_DEN,
            b_den: 3 * SQRT_3_NUM,
            start_angle_twelfths: 0,
        }
    }

    /// Pointy-topped hexes: forward `[[sqrt3, sqrt3/2], [0, 3/2]]`, inverse
    /// `[[1/sqrt3, -1/3], [0, 2/3]]`.
    pub fn pointy() -> (o: Orientation)
        ensures
            o.wf(),
            o.f0 * SQRT_3_DEN == SQRT_3_NUM * o.f_den,
            o.f1 * 2 * SQRT_3_DEN == SQRT_3_NUM * o.f_den,
            o.f2 == 0 && o.f3 * 2 == 3 * o.f_den,
            o.b0 * SQRT_3_NUM == SQRT_3_DEN * o.b_den,
            o.b1 * 3 == -o.b_den && o.b2 == 0 && o.b3 * 3 == 2 * o.b_den,
            o.start_angle_twelfths == 1,
            o == Orientation::spec_pointy(),
    {
        Orientation {
            f0: 2 * SQRT_3_NUM,
            f1: SQRT_3_NUM,
            f2: 0,
            f3: 3 * SQRT_3_DEN,
            f_den: 2 * SQRT_3_DEN,
            b0: 3 * SQRT_3_DEN,
            b1: -SQRT_3_NUM,
            b2: 0,
            b3: 2 * SQRT_3_NUM,
            b_den: 3 * SQRT_3_NUM,
            start_angle_twelfths: 1,
        }
    }
}

/// A point of pixel space in fixed point: `(x / SUBPIXELS, y / SUBPIXELS)` pixels.
#[derive(Debug, Clone, Copy, PartialEq, Eq, Structural)]
pub struct Point {
    pub x: i32,
    pub y: i32,
}

/// A point of pixel space held exactly: `(x / den, y / den)` pixels.
#[derive(Debug, Clone, Copy, PartialEq, Eq, Structural)]
pub struct FractionalPoint {
    pub x: i128,
    pub y: i128,
    pub den: i128,
}

impl Point {
    /// The centre of pixel `(x, y)`'s grid position, that is the point `(x, y)`.
    pub fn pixel(x: i32, y: i32) -> (p: Point)
        requires
            i32::MIN <= x * SUBPIXELS <= i32::MAX,
            i32::MIN <= y * SUBPIXELS <= i32::MAX,
        ensures
            p.x == x * SUBPIXELS,
            p.y == y * SUBPIXELS,
    {
        Point { x: x * SUBPIXELS, y: y * SUBPIXELS }
    }
}

/// Orientation, hex radius per axis and origin offset, all in pixel space.
#[derive(Debug, Clone, Copy, PartialEq, Eq, Structural)]
pub struct Layout {
    pub orientation: Orientation,
    pub size: Point,
    pub origin: Point,
}

impl Layout {
    /// A well-formed orientation and a strictly positive size on both axes.
    pub open spec fn wf(self) -> bool {
        &&& self.orientation.wf()
        &&& self.size.x > 0
        &&& self.size.y > 0
    }

    /// A flat-topped layout.
    pub fn new(size: Point, origin: Point) -> (l: Layout)
        requires
            size.x > 0,
            size.y > 0,
        ensures
            l.wf(),
            l.orientation == Orientation::spec_flat(),
            l.size == size,
            l.origin == origin,
    {
        Layout { orientation: Orientation::flat(), size, origin }
    }

    /// A layout with the given orientation.
    pub fn with_orientation(orientation: Orientation, size: Point, origin: Point) -> (l: Layout)
        requires
            orientation.wf(),
            size.x > 0,
            size.y > 0,
        ensures
            l.wf(),
            l.orientation == orientation,
            l.size == size,
            l.origin == origin,
    {
        Layout { orientation, size, origin }
    }

    /// Hex coordinates `(q, r, den)` of the pixel-space point `(x / d, y / d)`:
    /// offset by the origin, divided by the size, then mapped by the inverse matrix.
    pub open spec fn hex_coords(self, x: int, y: int, d: int) -> (int, int, int) {
        let o = self.orientation;
        let s = SUBPIXELS as int;
        let (sx, sy) = (self.size.x as int, self.size.y as int);
        let dx = x * s - self.origin.x * d;
        let dy = y * s - self.origin.y * d;
        (
            o.b0 * dx * sy + o.b1 * dy * sx,
            o.b2 * dx * sy + o.b3 * dy * sx,
            o.b_den * d * sx * sy,
        )
    }

    /// Hex coordinates `(q, r, den)` of a fixed-point `Point`.
    pub open spec fn point_hex_coords(self, p: Point) -> (int, int, int) {
        let o = self.orientation;
        let (sx, sy) = (self.size.x as int, self.size.y as int);
        let dx = p.x - self.origin.x;
        let dy = p.y - self.origin.y;
        (o.b0 * dx * sy + o.b1 * dy * sx, o.b2 * dx * sy + o.b3 * dy * sx, o.b_den * sx * sy)
    }

    /// Pixel-space centre `(x, y, den)` of cell `(q, r)`: the forward matrix, scaled by
    /// the size and offset by the origin.
    pub open spec fn center_coords(self, q: int, r: int) -> (int, int, int) {
        let o = self.orientation;
        (
            (o.f0 * q + o.f1 * r) * self.size.x + self.origin.x * o.f_den,
            (o.f2 * q + o.f3 * r) * self.size.y + self.origin.y * o.f_den,
            o.f_den * SUBPIXELS,
        )
    }
}

} // verus!

verus! {

/// `|a * b * c| <= 2^110` for a coefficient, a coordinate difference and a size.
proof fn lemma_triple_bound(a: int, b: int, c: int)
    requires
        abs(a) <= COEFF_LIMIT,
        abs(b) <= 0x1_0000_0000,
        0 < c <= 0x8000_0000,
    ensures
        abs(a * b) <= 0x8000_0000_0000_0000_0000,
        abs(a * b * c) <= 0x4000_0000_0000_0000_0000_0000_0000,
{
    assert(abs(a * b) <= COEFF_LIMIT * 0x1_0000_0000) by (nonlinear_arith)
        requires abs(a) <= COEFF_LIMIT, abs(b) <= 0x1_0000_0000;
    assert(abs(a * b * c) <= COEFF_LIMIT * 0x1_0000_0000 * 0x8000_0000) by (nonlinear_arith)
        requires abs(a * b) <= COEFF_LIMIT * 0x1_0000_0000, 0 < c <= 0x8000_0000;
}

impl Hex {
    /// Fractional hex coordinates of a pixel-space point under `layout`.
    pub fn from_point(layout: &Layout, point: &Point) -> (f: FractionalHex)
        requires
            layout.wf(),
        ensures
            f.wf(),
            (f.q as int, f.r as int, f.den as int) == layout.point_hex_coords(*point),
    {
        let o = &layout.orientation;
        let dx: i128 = point.x as i128 - layout.origin.x as i128;
        let dy: i128 = point.y as i128 - layout.origin.y as i128;
        let sx: i128 = layout.size.x as i128;
        let sy: i128 = layout.size.y as i128;
        proof {
            lemma_triple_bound(o.b0 as int, dx as int, sy as int);
            lemma_triple_bound(o.b1 as int, dy as int, sx as int);
            lemma_triple_bound(o.b2 as int, dx as int, sy as int);
            lemma_triple_bound(o.b3 as int, dy as int, sx as int);
            assert(0 < sx * sy <= 0x4000_0000_0000_0000) by (nonlinear_arith)
                requires 0 < sx <= 0x8000_0000, 0 < sy <= 0x8000_0000;
            assert(0 < o.b_den * (sx * sy) <= COEFF_LIMIT * 0x4000_0000_0000_0000) by (nonlinear_arith)
                requires 0 < o.b_den <= COEFF_LIMIT, 0 < sx * sy <= 0x4000_0000_0000_0000;
            assert(0 < o.b_den * sx <= COEFF_LIMIT * 0x8000_0000) by (nonlinear_arith)
                requires 0 < o.b_den <= COEFF_LIMIT, 0 < sx <= 0x8000_0000;
            assert(o.b_den * (sx * sy) == o.b_den * sx * sy) by (nonlinear_arith);
        }
        let q: i128 = o.b0 as i128 * dx * sy + o.b1 as i128 * dy * sx;
        let r: i128 = o.b2 as i128 * dx * sy + o.b3 as i128 * dy * sx;
        let den: i128 = o.b_den as i128 * sx * sy;
        FractionalHex::new(q, r, den)
    }
}

} // verus!

verus! {

impl Point {
    /// The exact pixel-space centre of `hex` under `layout`.
    pub fn from_hex(layout: &Layout, hex: &Hex) -> (p: FractionalPoint)
        requires
            layout.wf(),
        ensures
            (p.x as int, p.y as int, p.den as int) == layout.center_coords(hex.q as int, hex.r as int),
            p.den > 0,
    {
        let o = &layout.orientation;
        let q: i128 = hex.q as i128;
        let r: i128 = hex.r as i128;
        let sx: i128 = layout.size.x as i128;
        let sy: i128 = layout.size.y as i128;
        proof {
            lemma_axis_bound(o.f0 as int, o.f1 as int, q as int, r as int, sx as int, layout.origin.x as int, o.f_den as int);
            lemma_axis_bound(o.f2 as int, o.f3 as int, q as int, r as int, sy as int, layout.origin.y as int, o.f_den as int);
            assert(o.f_den * SUBPIXELS <= COEFF_LIMIT * 256) by (nonlinear_arith)
                requires o.f_den <= COEFF_LIMIT, SUBPIXELS == 256;
        }
        let x: i128 = (o.f0 as i128 * q + o.f1 as i128 * r) * sx + layout.origin.x as i128 * o.f_den as i128;
        let y: i128 = (o.f2 as i128 * q + o.f3 as i128 * r) * sy + layout.origin.y as i128 * o.f_den as i128;
        let den: i128 = o.f_den as i128 * SUBPIXELS as i128;
        FractionalPoint { x, y, den }
    }
}

proof fn lemma_axis_bound(a: int, b: int, q: int, r: int, s: int, origin: int, d: int)
    requires
        abs(a) <= COEFF_LIMIT,
        abs(b) <= COEFF_LIMIT,
        abs(q) <= 0x8000_0000,
        abs(r) <= 0x8000_0000,
        0 < s <= 0x8000_0000,
        abs(origin) <= 0x8000_0000,
        0 < d <= COEFF_LIMIT,
    ensures
        abs(a * q) <= COEFF_LIMIT * 0x8000_0000,
        abs(b * r) <= COEFF_LIMIT * 0x8000_0000,
        abs((a * q + b * r) * s) <= 0x4000_0000_0000_0000_0000_0000_0000,
        abs(origin * d) <= COEFF_LIMIT * 0x8000_0000,
{
    assert(abs(a * q) <= COEFF_LIMIT * 0x8000_0000) by (nonlinear_arith)
        requires abs(a) <= COEFF_LIMIT, abs(q) <= 0x8000_0000;
    assert(abs(b * r) <= COEFF_LIMIT * 0x8000_0000) by (nonlinear_arith)
        requires abs(b) <= COEFF_LIMIT, abs(r) <= 0x8000_0000;
    let t = a * q + b * r;
    assert(abs(t * s) <= 2 * COEFF_LIMIT * 0x8000_0000 * 0x8000_0000) by (nonlinear_arith)
        requires abs(t) <= 2 * COEFF_LIMIT * 0x8000_0000, 0 < s <= 0x8000_0000;
    assert(abs(origin * d) <= COEFF_LIMIT * 0x8000_0000) by (nonlinear_arith)
        requires abs(origin) <= 0x8000_0000, 0 < d <= COEFF_LIMIT;
}

} // verus!

verus! {

proof fn lemma_row_identity(c0: int, c1: int, a: int, b: int, sx: int, sy: int, s: int)
    ensures
        c0 * (a * sx * s) * sy + c1 * (b * sy * s) * sx == (c0 * a + c1 * b) * (sx * sy * s),
{
    let k = sx * sy * s;
    lemma_mul_is_associative(c0, a * sx * s, sy);
    lemma_mul_is_associative(a * sx, s, sy);
    lemma_mul_is_associative(a, sx, s * sy);
    lemma_mul_is_commutative(s, sy);
    lemma_mul_is_associative(sx, sy, s);
    lemma_mul_is_associative(c0, a, k);
    assert(c0 * (a * sx * s) * sy == (c0 * a) * k);
    lemma_mul_is_associative(c1, b * sy * s, sx);
    lemma_mul_is_associative(b * sy, s, sx);
    lemma_mul_is_associative(b, sy, s * sx);
    lemma_mul_is_commutative(s, sx);
    lemma_mul_is_associative(sy, sx, s);
    lemma_mul_is_commutative(sx, sy);
    lemma_mul_is_associative(c1, b, k);
    assert(c1 * (b * sy * s) * sx == (c1 * b) * k);
    lemma_mul_is_distributive_add_other_way(k, c0 * a, c1 * b);
}

proof fn lemma_distribute(c0: int, c1: int, f0: int, f1: int, f2: int, f3: int, q: int, r: int)
    ensures
        c0 * (f0 * q + f1 * r) + c1 * (f2 * q + f3 * r) == (c0 * f0 + c1 * f2) * q + (c0 * f1 + c1 * f3) * r,
{
    lemma_mul_is_distributive_add(c0, f0 * q, f1 * r);
    lemma_mul_is_distributive_add(c1, f2 * q, f3 * r);
    lemma_mul_is_associative(c0, f0, q);
    lemma_mul_is_associative(c0, f1, r);
    lemma_mul_is_associative(c1, f2, q);
    lemma_mul_is_associative(c1, f3, r);
    lemma_mul_is_distributive_add_other_way(q, c0 * f0, c1 * f2);
    lemma_mul_is_distributive_add_other_way(r, c0 * f1, c1 * f3);
}

/// Pixel-to-hex undoes hex-to-pixel exactly: the hex coordinates of the centre of
/// cell `(q, r)` are `(q, r)`.
pub proof fn lemma_center_maps_back(layout: Layout, q: int, r: int)
    requires
        layout.wf(),
    ensures
        ({
            let (x, y, d) = layout.center_coords(q, r);
            let (hq, hr, hd) = layout.hex_coords(x, y, d);
            hd > 0 && hq == q * hd && hr == r * hd
        }),
{
    let o = layout.orientation;
    let s = SUBPIXELS as int;
    let (sx, sy) = (layout.size.x as int, layout.size.y as int);
    let (ox, oy) = (layout.origin.x as int, layout.origin.y as int);
    let (fd, bd) = (o.f_den as int, o.b_den as int);
    let a = o.f0 * q + o.f1 * r;
    let b = o.f2 * q + o.f3 * r;
    let (x, y, d) = layout.center_coords(q, r);
    assert(x == a * sx + ox * fd && y == b * sy + oy * fd && d == fd * s);
    let dx = x * s - ox * d;
    let dy = y * s - oy * d;
    assert(dx == a * sx * s) by (nonlinear_arith)
        requires dx == x * s - ox * d, x == a * sx + ox * fd, d == fd * s;
    assert(dy == b * sy * s) by (nonlinear_arith)
        requires dy == y * s - oy * d, y == b * sy + oy * fd, d == fd * s;
    let k = sx * sy * s;
    let (hq, hr, hd) = layout.hex_coords(x, y, d);
    lemma_row_identity(o.b0 as int, o.b1 as int, a, b, sx, sy, s);
    lemma_row_identity(o.b2 as int, o.b3 as int, a, b, sx, sy, s);
    lemma_distribute(o.b0 as int, o.b1 as int, o.f0 as int, o.f1 as int, o.f2 as int, o.f3 as int, q, r);
    lemma_distribute(o.b2 as int, o.b3 as int, o.f0 as int, o.f1 as int, o.f2 as int, o.f3 as int, q, r);
    assert(hd == bd * fd * k) by (nonlinear_arith)
        requires hd == bd * d * sx * sy, d == fd * s, k == sx * sy * s;
    assert(hq == q * hd) by (nonlinear_arith)
        requires hq == (bd * fd * q) * k, hd == bd * fd * k;
    assert(hr == r * hd) by (nonlinear_arith)
        requires hr == (bd * fd * r) * k, hd == bd * fd * k;
    assert(hd > 0) by (nonlinear_arith)
        requires hd == bd * fd * k, bd > 0, fd > 0, k == sx * sy * s, sx > 0, sy > 0, s > 0;
}

} // verus!
