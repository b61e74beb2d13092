use rtow::image::Image;
use rtow::ppm::Rgb8;
use rtow::raster::Raster;

fn rgb(r: u8, g: u8, b: u8) -> Rgb8 {
    Rgb8 { r, g, b }
}

#[test]
fn new_image_is_black() {
    let image = Image::new(Raster::new(3, 2).unwrap());
    assert_eq!(image.width(), 3);
    assert_eq!(image.height(), 2);
    for j in 0..2 {
        for i in 0..3 {
            assert_eq!(image.get(i, j), rgb(0, 0, 0));
        }
    }
}

#[test]
fn set_changes_one_pixel() {
    let mut image = Image::new(Raster::new(3, 2).unwrap());
    image.set(2, 1, rgb(1, 2, 3));
    assert_eq!(image.get(2, 1), rgb(1, 2, 3));
    assert_eq!(image.get(1, 1), rgb(0, 0, 0));
    assert_eq!(image.get(2, 0), rgb(0, 0, 0));
}

#[test]
fn encoding_is_header_then_rows_top_first() {
    let mut image = Image::new(Raster::new(2, 2).unwrap());
    image.set(0, 0, rgb(1, 1, 1));
    image.set(1, 0, rgb(2, 2, 2));
    image.set(0, 1, rgb(30, 30, 30));
    image.set(1, 1, rgb(255, 128, 0));
    let text = String::from_utf8(image.encode_ppm()).unwrap();
    assert_eq!(text, "P3\n2 2\n255\n1 1 1\n2 2 2\n30 30 30\n255 128 0\n");
}

#[test]
fn single_pixel_image() {
    let image = Image::new(Raster::new(1, 0).unwrap());
    let text = String::from_utf8(image.encode_ppm()).unwrap();
    assert_eq!(text, "P3\n1 1\n255\n0 0 0\n");
}

#[test]
fn encoding_has_one_line_per_pixel() {
    let image = Image::new(Raster::new(7, 5).unwrap());
    let text = String::from_utf8(image.encode_ppm()).unwrap();
    assert_eq!(text.lines().count(), 3 + 7 * 5);
}
