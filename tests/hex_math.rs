use hexfield::hex::{Direction, FractionalHex, Hex};
use hexfield::layout::{Layout, Orientation, Point, SUBPIXELS};

#[test]
fn new_derives_s() {
    for (q, r) in [(0, 0), (3, -7), (-5, -9), (1000, 2000)] {
        let h = Hex::new(q, r);
        assert_eq!(h.q, q);
        assert_eq!(h.r, r);
        assert_eq!(h.q + h.r + h.s, 0);
    }
}

#[test]
fn neighbors_step_in_each_direction() {
    let h = Hex::new(2, -1);
    assert_eq!(h.neighbor(Direction::North), Hex::new(3, -1));
    assert_eq!(h.neighbor(Direction::NorthEast), Hex::new(3, -2));
    assert_eq!(h.neighbor(Direction::SouthEast), Hex::new(2, -2));
    assert_eq!(h.neighbor(Direction::South), Hex::new(1, -1));
    assert_eq!(h.neighbor(Direction::SouthWest), Hex::new(1, 0));
    assert_eq!(h.neighbor(Direction::NorthWest), Hex::new(2, 0));
}

#[test]
fn cell_arithmetic() {
    let a = Hex::new(2, -3);
    let b = Hex::new(-1, 4);
    assert_eq!(a.add(b), Hex::new(1, 1));
    assert_eq!(a.sub(b), Hex::new(3, -7));
    assert_eq!(a.mul(b), Hex::new(-2, -12));
    assert_eq!(a.scale(3), Hex::new(6, -9));
    assert_eq!(Hex::from_direction(Direction::SouthWest), Hex::new(-1, 1));
}

#[test]
fn whole_coordinates_round_to_themselves() {
    for (q, r) in [(0, 0), (4, -2), (-7, 3), (100, -250)] {
        let h = Hex::new(q, r);
        assert_eq!(FractionalHex::from_hex(h).round(), h);
        let scaled = FractionalHex::new(q as i128 * 7, r as i128 * 7, 7);
        assert_eq!(scaled.round(), h);
    }
}

#[test]
fn tie_is_broken_by_correcting_q_first() {
    // q = 0.5, r = 0.5, s = -1.0: q and r tie, and q is recomputed before r.
    let f = FractionalHex::new(1, 1, 2);
    assert_eq!(f.s, -2);
    let h = f.round();
    assert_eq!((h.q, h.r, h.s), (0, 1, -1));
}

#[test]
fn r_is_corrected_before_s_on_a_tie() {
    // q = 0, r = 0.5, s = -0.5: rounded to (0, 1, -1); r and s tie above q, and r
    // is recomputed from q and s.
    let h = FractionalHex::new(0, 1, 2).round();
    assert_eq!((h.q, h.r, h.s), (0, 1, -1));
    // q = 0, r = -0.5, s = 0.5: the same tie with the signs swapped.
    let h = FractionalHex::new(0, -1, 2).round();
    assert_eq!((h.q, h.r, h.s), (0, -1, 1));
}

#[test]
fn halves_round_away_from_zero() {
    // q = -0.5, r = 0, s = 0.5: rounded to (-1, 0, 1); q and s tie above r, and q
    // is recomputed before s.
    let h = FractionalHex::new(-1, 0, 2).round();
    assert_eq!((h.q, h.r, h.s), (-1, 0, 1));
    // q = 1.5, r = -0.5, s = -1.0: rounded to (2, -1, -1); q and r tie above s.
    let h = FractionalHex::new(3, -1, 2).round();
    assert_eq!((h.q, h.r, h.s), (2, -1, -1));
}

#[test]
fn largest_error_is_corrected() {
    // q = 0.4, r = 0.4, s = -0.8: errors 0.4, 0.4, 0.2; q is recomputed.
    let h = FractionalHex::new(4, 4, 10).round();
    assert_eq!((h.q, h.r, h.s), (1, 0, -1));
    // q = 0.2, r = 0.4, s = -0.6: errors 0.2, 0.4, 0.4; r is recomputed.
    let h = FractionalHex::new(2, 4, 10).round();
    assert_eq!((h.q, h.r, h.s), (0, 1, -1));
    // q = 1.4, r = -0.3, s = -1.1: errors 0.4, 0.3, 0.1; q is recomputed.
    let h = FractionalHex::new(14, -3, 10).round();
    assert_eq!((h.q, h.r, h.s), (1, 0, -1));
}

#[test]
fn far_points_do_not_fit_rounding() {
    let near = FractionalHex::new(5, 5, 1);
    assert!(near.fits_rounding());
    let far = FractionalHex::new(1i128 << 40, 0, 1);
    assert!(!far.fits_rounding());
}

fn main_layout() -> Layout {
    let size = Point { x: 14 * SUBPIXELS, y: 14 * SUBPIXELS };
    let origin = Point { x: 14 * SUBPIXELS, y: 0 };
    Layout::new(size, origin)
}

#[test]
fn canonical_orientations() {
    let flat = Orientation::flat();
    assert_eq!(flat.f0 * 2, 3 * flat.f_den);
    assert_eq!(flat.b0 * 3, 2 * flat.b_den);
    assert_eq!(flat.start_angle_twelfths, 0);
    let pointy = Orientation::pointy();
    assert_eq!(pointy.f3 * 2, 3 * pointy.f_den);
    assert_eq!(pointy.b3 * 3, 2 * pointy.b_den);
    assert_eq!(pointy.start_angle_twelfths, 1);
    assert_eq!(main_layout().orientation, flat);
}

#[test]
fn origin_pixel_is_cell_zero() {
    let layout = main_layout();
    let f = Hex::from_point(&layout, &Point::pixel(14, 0));
    assert_eq!((f.q, f.r), (0, 0));
    assert_eq!(f.round(), Hex::new(0, 0));
}

#[test]
fn pixel_near_a_centre_rounds_to_its_cell() {
    let layout = main_layout();
    // Centre of (1, 0): x = 1.5 * 14 + 14 = 35, y = sqrt3 / 2 * 14 ~ 12.12.
    let f = Hex::from_point(&layout, &Point::pixel(35, 12));
    assert_eq!(f.round(), Hex::new(1, 0));
    // Centre of (0, 1): x = 14, y = sqrt3 * 14 ~ 24.25.
    let f = Hex::from_point(&layout, &Point::pixel(14, 24));
    assert_eq!(f.round(), Hex::new(0, 1));
    // Centre of (-1, 2): x = -1.5 * 14 + 14 = -7, y = 1.5 * sqrt3 * 14 ~ 36.37.
    let f = Hex::from_point(&layout, &Point::pixel(-7, 36));
    assert_eq!(f.round(), Hex::new(-1, 2));
}

#[test]
fn centre_of_cells() {
    let layout = main_layout();
    let c = Point::from_hex(&layout, &Hex::new(0, 0));
    assert_eq!(c.x, 14 * c.den);
    assert_eq!(c.y, 0);
    let c = Point::from_hex(&layout, &Hex::new(2, 0));
    // x = 3 * 14 + 14 = 56 pixels.
    assert_eq!(c.x, 56 * c.den);
    let y = c.y as f64 / c.den as f64;
    assert!((y - 3f64.sqrt() * 14.0).abs() < 1e-9);
}

#[test]
fn orientation_well_formedness() {
    assert!(Orientation::flat().is_well_formed());
    assert!(Orientation::pointy().is_well_formed());
    let mut skewed = Orientation::flat();
    skewed.b3 += 1;
    assert!(!skewed.is_well_formed());
    let mut zero_den = Orientation::pointy();
    zero_den.f_den = 0;
    assert!(!zero_den.is_well_formed());
}
