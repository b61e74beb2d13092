use rtow::raster::{ConfigError, Raster};

#[test]
fn zero_width_is_a_configuration_error() {
    assert!(matches!(Raster::new(0, 10), Err(ConfigError::ZeroWidth)));
    assert!(matches!(Raster::new(0, 0), Err(ConfigError::ZeroWidth)));
}

#[test]
fn height_is_at_least_one_row() {
    let raster = Raster::new(100, 0).unwrap();
    assert_eq!(raster.width(), 100);
    assert_eq!(raster.height(), 1);
    assert_eq!(raster.pixel_count(), 100);
}

#[test]
fn scaled_height_is_kept() {
    // 1200 wide at 16:9 gives 675 rows.
    let raster = Raster::new(1200, 675).unwrap();
    assert_eq!(raster.width(), 1200);
    assert_eq!(raster.height(), 675);
    assert_eq!(raster.pixel_count(), 810_000);
}

#[test]
fn largest_raster_fits_on_this_machine() {
    let raster = Raster::new(u32::MAX, u32::MAX).unwrap();
    assert_eq!(raster.pixel_count(), u32::MAX as usize * u32::MAX as usize);
}

#[test]
fn pixels_are_numbered_row_major() {
    let raster = Raster::new(4, 3).unwrap();
    assert_eq!(raster.index_of(0, 0), 0);
    assert_eq!(raster.index_of(3, 0), 3);
    assert_eq!(raster.index_of(0, 1), 4);
    assert_eq!(raster.index_of(2, 1), 6);
    assert_eq!(raster.index_of(3, 2), 11);
}

#[test]
fn every_position_has_exactly_one_pixel() {
    let raster = Raster::new(5, 4).unwrap();
    let mut seen = vec![false; raster.pixel_count()];
    for j in 0..raster.height() {
        for i in 0..raster.width() {
            let k = raster.index_of(i, j);
            assert!(!seen[k]);
            seen[k] = true;
            assert_eq!(k as u32 % raster.width(), i);
            assert_eq!(k as u32 / raster.width(), j);
        }
    }
    assert!(seen.iter().all(|s| *s));
}
