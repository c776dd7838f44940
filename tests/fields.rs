use hexfield::field::{Field, FieldError};

fn ramp(width: usize) -> Field<f32> {
    let samples: Vec<f32> = (0..width * width).map(|i| i as f32).collect();
    Field::new(samples, width).unwrap()
}

#[test]
fn wrong_length_is_an_invalid_dimension() {
    assert_eq!(Field::new(vec![0f32; 8], 3).err(), Some(FieldError::InvalidDimension));
    assert_eq!(Field::new(vec![0f32; 10], 3).err(), Some(FieldError::InvalidDimension));
    assert_eq!(Field::<f32>::new(vec![], 1).err(), Some(FieldError::InvalidDimension));
    assert!(Field::new(vec![0f32; 9], 3).is_ok());
    assert!(Field::<f32>::new(vec![], 0).is_ok());
}

#[test]
fn pixel_index_is_row_major() {
    let f = ramp(4);
    assert_eq!(f.get(1, 2), 9.0);
    assert_eq!(f.get(3, 0), 3.0);
    assert_eq!(f.width, 4);
}

#[test]
fn filled_field_is_uniform() {
    let f = Field::filled(0.5f32, 3);
    assert_eq!(f.flattened_field, vec![0.5f32; 9]);
}

#[test]
fn shift_moves_content_by_the_offset() {
    let f = ramp(3);
    // Pixel (x, y) takes (x - 1, y); column 0 keeps its own values.
    let right = f.shift(1, 0);
    assert_eq!(right.flattened_field, vec![0.0, 0.0, 1.0, 3.0, 3.0, 4.0, 6.0, 6.0, 7.0]);
    // Pixel (x, y) takes (x, y + 1); the last row keeps its own values.
    let up = f.shift(0, -1);
    assert_eq!(up.flattened_field, vec![3.0, 4.0, 5.0, 6.0, 7.0, 8.0, 6.0, 7.0, 8.0]);
    let diag = f.shift(-1, -1);
    assert_eq!(diag.flattened_field, vec![4.0, 5.0, 2.0, 7.0, 8.0, 5.0, 6.0, 7.0, 8.0]);
}

#[test]
fn out_of_bounds_reads_keep_the_pixel() {
    let width = 5;
    let f = ramp(width);
    for dx in -6isize..=6 {
        for dy in -6isize..=6 {
            let s = f.shift(dx, dy);
            for y in 0..width as isize {
                for x in 0..width as isize {
                    let (sx, sy) = (x - dx, y - dy);
                    let i = (y * width as isize + x) as usize;
                    let inside = 0 <= sx && sx < width as isize && 0 <= sy && sy < width as isize;
                    let expected = if inside {
                        f.flattened_field[(sy * width as isize + sx) as usize]
                    } else {
                        f.flattened_field[i]
                    };
                    assert_eq!(s.flattened_field[i], expected);
                }
            }
        }
    }
}

#[test]
fn extreme_offsets_leave_the_field_unchanged() {
    let f = ramp(4);
    let s = f.shift(isize::MAX, isize::MIN);
    assert_eq!(s.flattened_field, f.flattened_field);
}

#[test]
fn shifts_of_a_constant_field_are_constant() {
    let f = Field::filled(2.5f32, 6);
    for (dx, dy) in [(-1, -1), (0, -1), (1, -1), (-1, 0), (1, 0), (-1, 1), (0, 1), (1, 1), (4, -3)] {
        assert_eq!(f.shift(dx, dy).flattened_field, f.flattened_field);
    }
}
