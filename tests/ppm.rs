use rtow::ppm::{push_decimal, push_header, push_pixel, Rgb8};

fn decimal_text(n: u32) -> String {
    let mut out = Vec::new();
    push_decimal(&mut out, n);
    String::from_utf8(out).unwrap()
}

#[test]
fn decimal_digits() {
    assert_eq!(decimal_text(0), "0");
    assert_eq!(decimal_text(7), "7");
    assert_eq!(decimal_text(10), "10");
    assert_eq!(decimal_text(255), "255");
    assert_eq!(decimal_text(1200), "1200");
    assert_eq!(decimal_text(u32::MAX), "4294967295");
}

#[test]
fn decimal_appends_after_existing_bytes() {
    let mut out = b"x=".to_vec();
    push_decimal(&mut out, 42);
    assert_eq!(out, b"x=42".to_vec());
}

#[test]
fn header_names_format_size_and_maximum() {
    let mut out = Vec::new();
    push_header(&mut out, 1200, 675);
    assert_eq!(String::from_utf8(out).unwrap(), "P3\n1200 675\n255\n");
}

#[test]
fn pixel_line_is_three_decimals() {
    let mut out = Vec::new();
    push_pixel(&mut out, Rgb8 { r: 255, g: 0, b: 7 });
    push_pixel(&mut out, Rgb8 { r: 0, g: 0, b: 0 });
    assert_eq!(String::from_utf8(out).unwrap(), "255 0 7\n0 0 0\n");
}
