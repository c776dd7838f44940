use hexfield::bins::{hex_bins, BinGrid, MAX_WIDTH};
use hexfield::hex::Hex;
use hexfield::layout::{Layout, Point, SUBPIXELS};

fn layout_with_radius(px: i32) -> Layout {
    let size = Point { x: px * SUBPIXELS, y: px * SUBPIXELS };
    let origin = Point { x: px * SUBPIXELS, y: 0 };
    Layout::new(size, origin)
}

#[test]
fn covering_grid_of_a_full_field() {
    // 8192 / (14 * 1.5) = 390.1 columns, 8192 / (14 * sqrt3) = 337.8 rows.
    let g = BinGrid::covering(8192, &layout_with_radius(14));
    assert_eq!(g, BinGrid { left: -1, right: 392, top: 0, bottom: 339 });
    assert_eq!(g.len(), 393 * 339);
}

#[test]
fn bin_index_is_column_major_with_offset_rows() {
    let g = BinGrid { left: -1, right: 4, top: 0, bottom: 3 };
    assert_eq!(g.len(), 15);
    assert_eq!(g.bin_index(&Hex::new(-1, 0)), Some(0));
    assert_eq!(g.bin_index(&Hex::new(-1, 2)), Some(2));
    // Column 1 is shifted up by one row.
    assert_eq!(g.bin_index(&Hex::new(1, -1)), Some(6));
    assert_eq!(g.bin_index(&Hex::new(1, 2)), None);
    // Column 3 is shifted up by two rows.
    assert_eq!(g.bin_index(&Hex::new(3, -2)), Some(12));
    assert_eq!(g.bin_index(&Hex::new(4, 0)), None);
    assert_eq!(g.bin_index(&Hex::new(-2, 0)), None);
}

#[test]
fn every_pixel_finds_a_bin_with_padding() {
    let width = 64;
    let bins = hex_bins(width, &layout_with_radius(4));
    assert_eq!(bins.pixel_bins.len(), width * width);
    assert!(bins.pixel_bins.iter().all(|b| b.is_some()));
    let total: u64 = bins.counts.iter().map(|&c| c as u64).sum();
    assert_eq!(total, (width * width) as u64);
}

#[test]
fn counts_match_assignments() {
    let width = 37;
    let bins = hex_bins(width, &layout_with_radius(3));
    let assigned = bins.pixel_bins.iter().filter(|b| b.is_some()).count() as u64;
    let total: u64 = bins.counts.iter().map(|&c| c as u64).sum();
    assert_eq!(total, assigned);
    assert!(total <= (width * width) as u64);
    for (b, &c) in bins.counts.iter().enumerate() {
        let n = bins.pixel_bins.iter().filter(|x| **x == Some(b)).count();
        assert_eq!(c as usize, n);
    }
}

#[test]
fn pixels_of_one_hex_share_a_bin() {
    let layout = layout_with_radius(10);
    let bins = hex_bins(40, &layout);
    // Pixels (10, 0) and (11, 1) lie next to the centre of cell (0, 0).
    let a = bins.pixel_bins[0 * 40 + 10];
    let b = bins.pixel_bins[1 * 40 + 11];
    assert!(a.is_some());
    assert_eq!(a, b);
    assert_eq!(a, bins.grid.bin_index(&Hex::new(0, 0)));
    // Pixel (25, 8) is nearest to the centre of (1, 0), at (25, 8.66).
    assert_eq!(bins.pixel_bins[8 * 40 + 25], bins.grid.bin_index(&Hex::new(1, 0)));
    assert_ne!(a, bins.pixel_bins[8 * 40 + 25]);
}

#[test]
fn assigned_bins_are_never_empty() {
    let bins = hex_bins(50, &layout_with_radius(6));
    for b in bins.pixel_bins.iter().flatten() {
        assert!(bins.counts[*b] >= 1);
    }
}

#[test]
fn single_pixel_field() {
    let bins = hex_bins(1, &layout_with_radius(1));
    assert_eq!(bins.pixel_bins.len(), 1);
    let total: u32 = bins.counts.iter().sum();
    assert_eq!(total as usize, bins.pixel_bins.iter().flatten().count());
    assert!(MAX_WIDTH >= 8192);
}

#[test]
fn paint_back_spreads_bin_values() {
    let width = 20;
    let bins = hex_bins(width, &layout_with_radius(5));
    let per_bin: Vec<i64> = (0..bins.counts.len() as i64).map(|b| b * 10 + 1).collect();
    let painted = bins.paint_back(&per_bin, -1);
    assert_eq!(painted.len(), width * width);
    for (i, b) in bins.pixel_bins.iter().enumerate() {
        match b {
            Some(b) => assert_eq!(painted[i], *b as i64 * 10 + 1),
            None => assert_eq!(painted[i], -1),
        }
    }
}

#[test]
fn uniform_samples_average_to_themselves() {
    // A uniform field of 0.5: every pixel that found a bin gets 0.5 back.
    let width = 30;
    let samples = vec![0.5f32; width * width];
    let bins = hex_bins(width, &layout_with_radius(4));
    let mut sums = vec![0.0f32; bins.counts.len()];
    for (i, b) in bins.pixel_bins.iter().enumerate() {
        if let Some(b) = b {
            sums[*b] += samples[i];
        }
    }
    let means: Vec<f32> = sums.iter().zip(bins.counts.iter()).map(|(s, &c)| s / c as f32).collect();
    let painted = bins.paint_back(&means, 0.0);
    for (i, b) in bins.pixel_bins.iter().enumerate() {
        assert_eq!(painted[i], if b.is_some() { 0.5 } else { 0.0 });
    }
}
