//! Cube coordinates of hexagonal cells.
use vstd::arithmetic::div_mod::lemma_fundamental_div_mod_converse;
use vstd::prelude::*;

verus! {

/// A hexagonal cell in cube coordinates; `s` is always `-q - r`.
#[derive(Debug, Clone, Copy, PartialEq, Eq, PartialOrd, Ord, Hash, Structural)]
pub struct Hex {
    pub q: i32,
    pub r: i32,
    pub s: i32,
}

/// Whether `-q - r` is an `i32`, so that `(q, r)` names a representable cell.
pub open spec fn cube_fits(q: int, r: int) -> bool {
    i32::MIN <= -q - r <= i32::MAX
}

impl Hex {
    /// The zero-sum invariant of cube coordinates.
    pub open spec fn wf(self) -> bool {
        self.q + self.r + self.s == 0
    }

    /// The cell with axial coordinates `(q, r)`.
    pub fn new(q: i32, r: i32) -> (h: Hex)
        requires
            cube_fits(q as int, r as int),
        ensures
            h.q == q,
            h.r == r,
            h.s == -q - r,
            h.wf(),
    {
        let s = -(q as i64) - (r as i64);
        Hex { q, r, s: s as i32 }
    }

    /// The cell one step away in `direction`.
    pub fn neighbor(&self, direction: Direction) -> (h: Hex)
        requires
            self.wf(),
            cube_fits(self.q + direction.dq(), self.r + direction.dr()),
            i32::MIN <= self.q + direction.dq() <= i32::MAX,
            i32::MIN <= self.r + direction.dr() <= i32::MAX,
        ensures
            h.q == self.q + direction.dq(),
            h.r == self.r + direction.dr(),
            h.wf(),
    {
        let step = Hex::from_direction(direction);
        self.add(step)
    }

    /// The unit step that `direction` names.
    pub fn from_direction(direction: Direction) -> (h: Hex)
        ensures
            h.q == direction.dq(),
            h.r == direction.dr(),
            h.wf(),
    {
        match direction {
            Direction::North => Hex::new(1, 0),
            Direction::NorthEast => Hex::new(1, -1),
            Direction::SouthEast => Hex::new(0, -1),
            Direction::South => Hex::new(-1, 0),
            Direction::SouthWest => Hex::new(-1, 1),
            Direction::NorthWest => Hex::new(0, 1),
        }
    }

    /// Component-wise sum of two cells.
    pub fn add(&self, other: Hex) -> (h: Hex)
        requires
            i32::MIN <= self.q + other.q <= i32::MAX,
            i32::MIN <= self.r + other.r <= i32::MAX,
            cube_fits(self.q + other.q, self.r + other.r),
        ensures
            h.q == self.q + other.q,
            h.r == self.r + other.r,
            h.wf(),
    {
        Hex::new(self.q + other.q, self.r + other.r)
    }

    /// Component-wise difference of two cells.
    pub fn sub(&self, other: Hex) -> (h: Hex)
        requires
            i32::MIN <= self.q - other.q <= i32::MAX,
            i32::MIN <= self.r - other.r <= i32::MAX,
            cube_fits(self.q - other.q, self.r - other.r),
        ensures
            h.q == self.q - other.q,
            h.r == self.r - other.r,
            h.wf(),
    {
        Hex::new(self.q - other.q, self.r - other.r)
    }

    /// Component-wise product of the axial coordinates of two cells.
    pub fn mul(&self, other: Hex) -> (h: Hex)
        requires
            i32::MIN <= self.q * other.q <= i32::MAX,
            i32::MIN <= self.r * other.r <= i32::MAX,
            cube_fits(self.q * other.q, self.r * other.r),
        ensures
            h.q == self.q * other.q,
            h.r == self.r * other.r,
            h.wf(),
    {
        Hex::new(self.q * other.q, self.r * other.r)
    }

    /// The cell scaled by `k` about the origin.
    pub fn scale(&self, k: i32) -> (h: Hex)
        requires
            i32::MIN <= self.q * k <= i32::MAX,
            i32::MIN <= self.r * k <= i32::MAX,
            cube_fits(self.q * k, self.r * k),
        ensures
            h.q == self.q * k,
            h.r == self.r * k,
            h.wf(),
    {
        Hex::new(self.q * k, self.r * k)
    }
}

/// The six neighbours of a cell.
#[derive(Debug, Clone, Copy, PartialEq, Eq, Structural)]
pub enum Direction {
    North,
    NorthEast,
    SouthEast,
    South,
    SouthWest,
    NorthWest,
}

impl Direction {
    /// Step along `q`.
    pub open spec fn dq(self) -> int {
        match self {
            Direction::North => 1,
            Direction::NorthEast => 1,
            Direction::SouthEast => 0,
            Direction::South => -1,
            Direction::SouthWest => -1,
            Direction::NorthWest => 0,
        }
    }

    /// Step along `r`.
    pub open spec fn dr(self) -> int {
        match self {
            Direction::North => 0,
            Direction::NorthEast => -1,
            Direction::SouthEast => -1,
            Direction::South => 0,
            Direction::SouthWest => 1,
            Direction::NorthWest => 1,
        }
    }
}

} // verus!

verus! {

/// Largest magnitude of a numerator or denominator of a `FractionalHex`.
pub const FRACTION_LIMIT: i128 = 0x1000_0000_0000_0000_0000_0000_0000_0000;

/// Largest magnitude of a coordinate that rounding may produce.
pub const ROUND_LIMIT: i32 = 0x4000_0000;

/// Nearest integer to `n / d`, halves rounded away from zero.
pub open spec fn round_half_away(n: int, d: int) -> int {
    if n >= 0 {
        (2 * n + d) / (2 * d)
    } else {
        -((-2 * n + d) / (2 * d))
    }
}

/// Twice the absolute rounding error of `n / d`, scaled by `d`.
pub open spec fn round_error(n: int, d: int) -> int {
    2 * abs(round_half_away(n, d) * d - n)
}

/// Absolute value.
pub open spec fn abs(x: int) -> int {
    if x < 0 {
        -x
    } else {
        x
    }
}

/// A real-valued cube coordinate `(q / den, r / den, s / den)`, held exactly.
#[derive(Debug, Clone, Copy, PartialEq, Eq, Structural)]
pub struct FractionalHex {
    pub q: i128,
    pub r: i128,
    pub s: i128,
    pub den: i128,
}

impl FractionalHex {
    /// Zero sum, a positive denominator, and numerators within `FRACTION_LIMIT`.
    pub open spec fn wf(self) -> bool {
        &&& self.q + self.r + self.s == 0
        &&& 0 < self.den <= FRACTION_LIMIT
        &&& abs(self.q as int) <= FRACTION_LIMIT
        &&& abs(self.r as int) <= FRACTION_LIMIT
        &&& abs(self.s as int) <= FRACTION_LIMIT
    }

    /// Each coordinate lies strictly within `ROUND_LIMIT` of zero.
    pub open spec fn in_round_range(self) -> bool {
        &&& abs(self.q as int) < ROUND_LIMIT * self.den
        &&& abs(self.r as int) < ROUND_LIMIT * self.den
        &&& abs(self.s as int) < ROUND_LIMIT * self.den
    }

    /// The cell nearest to this point: each coordinate is rounded, and the one with
    /// the largest rounding error is recomputed from the other two. On equal errors
    /// `q` is corrected before `r`, and `r` before `s`.
    pub open spec fn rounded(self) -> (int, int, int) {
        let (n_q, n_r, n_s, d) = (self.q as int, self.r as int, self.s as int, self.den as int);
        let (qi, ri, si) = (round_half_away(n_q, d), round_half_away(n_r, d), round_half_away(n_s, d));
        let (eq, er, es) = (round_error(n_q, d), round_error(n_r, d), round_error(n_s, d));
        if eq >= er && eq >= es {
            (-ri - si, ri, si)
        } else if er >= es {
            (qi, -qi - si, si)
        } else {
            (qi, ri, -qi - ri)
        }
    }

    /// The point `(q / den, r / den, -(q + r) / den)`.
    pub fn new(q: i128, r: i128, den: i128) -> (f: FractionalHex)
        requires
            0 < den <= FRACTION_LIMIT,
            abs(q as int) <= FRACTION_LIMIT,
            abs(r as int) <= FRACTION_LIMIT,
            abs(q + r) <= FRACTION_LIMIT,
        ensures
            f.q == q,
            f.r == r,
            f.s == -q - r,
            f.den == den,
            f.wf(),
    {
        FractionalHex { q, r, s: -q - r, den }
    }

    /// The cell itself, as a point with denominator one.
    pub fn from_hex(h: Hex) -> (f: FractionalHex)
        requires
            h.wf(),
        ensures
            f.q == h.q,
            f.r == h.r,
            f.s == h.s,
            f.den == 1,
            f.wf(),
    {
        FractionalHex { q: h.q as i128, r: h.r as i128, s: h.s as i128, den: 1 }
    }

    /// Whether the point is close enough to the origin for `round`.
    pub fn fits_rounding(&self) -> (b: bool)
        requires
            self.wf(),
        ensures
            b == self.in_round_range(),
    {
        below_round_limit(self.q, self.den) && below_round_limit(self.r, self.den)
            && below_round_limit(self.s, self.den)
    }

    /// The nearest cell; see `rounded`.
    pub fn round(&self) -> (h: Hex)
        requires
            self.wf(),
            self.in_round_range(),
        ensures
            h.wf(),
            (h.q as int, h.r as int, h.s as int) == self.rounded(),
    {
        let (qi, eq) = round_div(self.q, self.den);
        let (ri, er) = round_div(self.r, self.den);
        let (si, es) = round_div(self.s, self.den);
        proof {
            lemma_round_bound(self.q as int, self.den as int);
            lemma_round_bound(self.r as int, self.den as int);
            lemma_round_bound(self.s as int, self.den as int);
            lemma_corrected_bound(self.q as int, self.r as int, self.s as int, self.den as int);
        }
        if eq >= er && eq >= es {
            Hex { q: (-ri - si) as i32, r: ri as i32, s: si as i32 }
        } else if er >= es {
            Hex { q: qi as i32, r: (-qi - si) as i32, s: si as i32 }
        } else {
            Hex { q: qi as i32, r: ri as i32, s: (-qi - ri) as i32 }
        }
    }
}

/// Whether `|n| < ROUND_LIMIT * d`.
fn below_round_limit(n: i128, d: i128) -> (b: bool)
    requires
        0 < d <= FRACTION_LIMIT,
        abs(n as int) <= FRACTION_LIMIT,
    ensures
        b == (abs(n as int) < ROUND_LIMIT * d),
{
    let m: i128 = if n < 0 { -n } else { n };
    let quot: i128 = m / d;
    proof {
        let (mi, di) = (m as int, d as int);
        assert(mi == di * (mi / di) + mi % di && 0 <= mi % di < di) by (nonlinear_arith)
            requires di > 0, mi >= 0;
        if quot < ROUND_LIMIT {
            assert(mi < ROUND_LIMIT * di) by (nonlinear_arith)
                requires mi == di * quot + mi % di, mi % di < di, quot + 1 <= ROUND_LIMIT, di > 0;
        } else {
            assert(mi >= ROUND_LIMIT * di) by (nonlinear_arith)
                requires mi == di * quot + mi % di, mi % di >= 0, quot >= ROUND_LIMIT, di > 0;
        }
    }
    quot < ROUND_LIMIT as i128
}

/// `n / d` rounded half away from zero, with `round_error(n, d)`.
fn round_div(n: i128, d: i128) -> (res: (i128, i128))
    requires
        0 < d <= FRACTION_LIMIT,
        abs(n as int) <= FRACTION_LIMIT,
    ensures
        res.0 == round_half_away(n as int, d as int),
        res.1 == round_error(n as int, d as int),
        0 <= res.1 <= d,
{
    let m: u128 = if n >= 0 { n as u128 } else { (-n) as u128 };
    let t: u128 = 2 * m + d as u128;
    let dd: u128 = 2 * d as u128;
    let quot: u128 = t / dd;
    let rem: u128 = t % dd;
    proof {
        assert(t == dd * quot + rem) by (nonlinear_arith)
            requires quot == t / dd, rem == t % dd, dd > 0;
        assert(quot * dd <= t) by (nonlinear_arith)
            requires t == dd * quot + rem, rem >= 0;
        assert(quot <= t) by (nonlinear_arith)
            requires quot * dd <= t, dd >= 1, quot >= 0;
        assert(rem < dd);
    }
    let err: i128 = if rem >= d as u128 { (rem - d as u128) as i128 } else { (d as u128 - rem) as i128 };
    let rounded: i128 = if n >= 0 { quot as i128 } else { -(quot as i128) };
    proof {
        let ni = n as int;
        let di = d as int;
        let qi = quot as int;
        assert(2 * (qi * di) == qi * (2 * di)) by (nonlinear_arith);
        if n >= 0 {
            assert(2 * (qi * di - ni) == di - rem);
        } else {
            assert(rounded as int * di == -(qi * di)) by (nonlinear_arith)
                requires rounded as int == -qi;
            assert(2 * (rounded * di - ni) == rem - di);
        }
    }
    (rounded, err)
}

proof fn lemma_round_bound(n: int, d: int)
    requires
        0 < d,
        abs(n) < ROUND_LIMIT * d,
    ensures
        abs(round_half_away(n, d)) <= ROUND_LIMIT,
        2 * abs(round_half_away(n, d) * d - n) <= d,
{
    let m = abs(n);
    let t = 2 * m + d;
    let quot = t / (2 * d);
    let rem = t % (2 * d);
    assert(t == 2 * d * quot + rem && 0 <= rem < 2 * d) by (nonlinear_arith)
        requires quot == t / (2 * d), rem == t % (2 * d), d > 0;
    assert(m < ROUND_LIMIT * d);
    assert(quot <= ROUND_LIMIT) by (nonlinear_arith)
        requires t == 2 * d * quot + rem, 0 <= rem, t == 2 * m + d, m < ROUND_LIMIT * d, d > 0;
    assert(2 * (quot * d) - 2 * m == d - rem) by (nonlinear_arith)
        requires t == 2 * d * quot + rem, t == 2 * m + d;
    if n < 0 {
        assert((-quot) * d == -(quot * d)) by (nonlinear_arith);
    }
}

proof fn lemma_corrected_bound(q: int, r: int, s: int, d: int)
    requires
        0 < d,
        q + r + s == 0,
        2 * abs(round_half_away(q, d) * d - q) <= d,
        2 * abs(round_half_away(r, d) * d - r) <= d,
        2 * abs(round_half_away(s, d) * d - s) <= d,
        abs(q) < ROUND_LIMIT * d,
        abs(r) < ROUND_LIMIT * d,
        abs(s) < ROUND_LIMIT * d,
    ensures
        abs(-round_half_away(r, d) - round_half_away(s, d)) <= ROUND_LIMIT,
        abs(-round_half_away(q, d) - round_half_away(s, d)) <= ROUND_LIMIT,
        abs(-round_half_away(q, d) - round_half_away(r, d)) <= ROUND_LIMIT,
{
    let (qi, ri, si) = (round_half_away(q, d), round_half_away(r, d), round_half_away(s, d));
    lemma_sum_of_rounded(ri, si, r, s, d);
    lemma_sum_of_rounded(qi, si, q, s, d);
    lemma_sum_of_rounded(qi, ri, q, r, d);
}

proof fn lemma_sum_of_rounded(a: int, b: int, x: int, y: int, d: int)
    requires
        0 < d,
        2 * abs(a * d - x) <= d,
        2 * abs(b * d - y) <= d,
        abs(x + y) < ROUND_LIMIT * d,
    ensures
        abs(-a - b) <= ROUND_LIMIT,
{
    let c = -a - b;
    assert(c * d == -(a * d) - (b * d)) by (nonlinear_arith)
        requires c == -a - b;
    assert(abs(c * d) < ROUND_LIMIT * d + d);
    assert(abs(c) < ROUND_LIMIT + 1) by (nonlinear_arith)
        requires abs(c * d) < ROUND_LIMIT * d + d, d > 0;
}

} // verus!

verus! {

/// A point that already lies on a cell centre, whatever its denominator, rounds to
/// that cell: rounding is the identity on whole cube coordinates.
pub proof fn lemma_round_fixes_cells(f: FractionalHex, h: Hex)
    requires
        h.wf(),
        f.wf(),
        f.in_round_range(),
        f.q == h.q * f.den,
        f.r == h.r * f.den,
        f.s == h.s * f.den,
    ensures
        f.rounded() == (h.q as int, h.r as int, h.s as int),
{
    lemma_round_whole(h.q as int, f.den as int);
    lemma_round_whole(h.r as int, f.den as int);
    lemma_round_whole(h.s as int, f.den as int);
}

proof fn lemma_round_whole(k: int, d: int)
    requires
        0 < d,
    ensures
        round_half_away(k * d, d) == k,
        round_error(k * d, d) == 0,
{
    if k >= 0 {
        assert(k * d >= 0) by (nonlinear_arith)
            requires k >= 0, d > 0;
        assert(2 * (k * d) + d == k * (2 * d) + d) by (nonlinear_arith);
        lemma_fundamental_div_mod_converse(2 * (k * d) + d, 2 * d, k, d);
    } else {
        assert(k * d < 0) by (nonlinear_arith)
            requires k < 0, d > 0;
        assert(-2 * (k * d) + d == (-k) * (2 * d) + d) by (nonlinear_arith);
        lemma_fundamental_div_mod_converse(-2 * (k * d) + d, 2 * d, -k, d);
    }
}

} // verus!
