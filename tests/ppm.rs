use raytracer::ppm::{ppm_header, ppm_pixel};

#[test]
fn ppm_header_names_size_and_depth() {
    assert_eq!(b"P3\n10 10\n255\n".to_vec(), ppm_header(10, 10));
}

#[test]
fn ppm_pixels_are_decimal_lines() {
    let mut text = ppm_header(10, 10);
    text.extend(ppm_pixel(1, 2, 3));
    text.extend(ppm_pixel(128, 128, 255));
    assert_eq!(b"P3\n10 10\n255\n1 2 3\n128 128 255\n".to_vec(), text);
}

#[test]
fn ppm_writes_zero_and_negative_values() {
    assert_eq!(b"0 -7 1000\n".to_vec(), ppm_pixel(0, -7, 1000));
}

#[test]
fn ppm_writes_extreme_values() {
    assert_eq!(
        b"-2147483648 2147483647 9\n".to_vec(),
        ppm_pixel(i32::MIN, i32::MAX, 9)
    );
}
