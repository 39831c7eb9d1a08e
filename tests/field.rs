use ant_colony::field::{
    dominant_channel, is_vec4_u8_format, Color, FieldError, PheromoneField, PixelFormat,
};

fn numbered(width: usize, height: usize) -> PheromoneField {
    let mut bytes = Vec::new();
    for k in 0..width * height {
        bytes.extend_from_slice(&[k as u8, 0, 0, 255]);
    }
    PheromoneField::from_bytes(width, height, PixelFormat::Rgba8Unorm, &bytes).unwrap()
}

#[test]
fn new_field_is_filled_with_background() {
    let bg = Color::new(1, 2, 3, 4);
    let f = PheromoneField::new(3, 2, bg);
    assert_eq!(f.width(), 3);
    assert_eq!(f.height(), 2);
    assert_eq!(f.pixel(2, 1), Some(bg));
    assert_eq!(f.pixel(0, 0), Some(bg));
}

#[test]
fn reads_outside_the_grid_give_no_signal() {
    let f = PheromoneField::new(3, 2, Color::red());
    assert_eq!(f.pixel(3, 0), None);
    assert_eq!(f.pixel(0, 2), None);
    assert_eq!(f.pixel(-1, 0), None);
}

#[test]
fn bytes_map_to_cells_row_by_row() {
    let f = numbered(3, 2);
    assert_eq!(f.pixel(0, 0), Some(Color::new(0, 0, 0, 255)));
    assert_eq!(f.pixel(2, 0), Some(Color::new(2, 0, 0, 255)));
    assert_eq!(f.pixel(1, 1), Some(Color::new(4, 0, 0, 255)));
}

#[test]
fn unsupported_pixel_format_is_an_error() {
    let bytes = vec![0u8; 16];
    let r = PheromoneField::from_bytes(2, 2, PixelFormat::Other, &bytes);
    assert_eq!(r.err(), Some(FieldError::UnsupportedFormat));
    assert!(!is_vec4_u8_format(PixelFormat::Other));
    assert!(is_vec4_u8_format(PixelFormat::Bgra8UnormSrgb));
    assert!(is_vec4_u8_format(PixelFormat::Rgba8Unorm));
}

#[test]
fn wrong_byte_count_is_an_error() {
    let bytes = vec![0u8; 15];
    let r = PheromoneField::from_bytes(2, 2, PixelFormat::Bgra8Unorm, &bytes);
    assert_eq!(r.err(), Some(FieldError::SizeMismatch));
    let r = PheromoneField::from_bytes(usize::MAX, 2, PixelFormat::Bgra8Unorm, &bytes);
    assert_eq!(r.err(), Some(FieldError::SizeMismatch));
}

#[test]
fn sampling_reaches_last_valid_cell_and_no_further() {
    let f = numbered(4, 3);
    let q = f.corners(2, 1).expect("last valid neighbourhood");
    assert_eq!(q.top_left.r, 6);
    assert_eq!(q.top_right.r, 7);
    assert_eq!(q.bottom_left.r, 10);
    assert_eq!(q.bottom_right.r, 11);
    assert!(f.corners(3, 1).is_none());
    assert!(f.corners(2, 2).is_none());
    assert!(f.corners(-1, 0).is_none());
    assert!(f.corners(0, 0).is_some());
}

#[test]
fn deposit_then_read_back_keeps_dominant_channel() {
    let mut f = PheromoneField::new(8, 8, Color::new(0, 0, 0, 255));
    f.deposit(4, 4, Color::green(), 2);
    let c = f.pixel(4, 4).unwrap();
    assert_eq!(c, Color::green());
    assert_eq!(dominant_channel(c), 1);
    assert_eq!(f.pixel(3, 3), Some(Color::green()));
    assert_eq!(f.pixel(5, 5), Some(Color::new(0, 0, 0, 255)));
    assert_eq!(f.pixel(2, 4), Some(Color::new(0, 0, 0, 255)));
}

#[test]
fn deposit_is_clipped_at_the_edge() {
    let mut f = PheromoneField::new(4, 4, Color::new(0, 0, 0, 0));
    f.deposit(0, 0, Color::red(), 5);
    assert_eq!(f.pixel(0, 0), Some(Color::red()));
    assert_eq!(f.pixel(2, 2), Some(Color::red()));
    assert_eq!(f.pixel(3, 0), Some(Color::new(0, 0, 0, 0)));
    let mut g = PheromoneField::new(4, 4, Color::new(0, 0, 0, 0));
    g.deposit(-10, 100, Color::red(), 5);
    for y in 0..4 {
        for x in 0..4 {
            assert_eq!(g.pixel(x, y), Some(Color::new(0, 0, 0, 0)));
        }
    }
}

#[test]
fn dominant_channel_picks_largest() {
    assert_eq!(dominant_channel(Color::red()), 0);
    assert_eq!(dominant_channel(Color::blue()), 2);
    assert_eq!(dominant_channel(Color::new(3, 3, 1, 0)), 0);
}
