use raytracer::ppm::{header_text, image_text, pixel_line};

#[test]
fn black_pixel_line() {
    assert_eq!(pixel_line(0, 0, 0), "0 0 0\n");
}

#[test]
fn white_pixel_line() {
    assert_eq!(pixel_line(255, 255, 255), "255 255 255\n");
}

#[test]
fn mid_grey_pixel_line() {
    assert_eq!(pixel_line(127, 127, 127), "127 127 127\n");
}

#[test]
fn out_of_range_channels_are_written_as_given() {
    assert_eq!(pixel_line(-5, 256, 1000), "-5 256 1000\n");
}

#[test]
fn extreme_channels() {
    assert_eq!(
        pixel_line(i64::MIN, i64::MAX, 10),
        "-9223372036854775808 9223372036854775807 10\n"
    );
}

#[test]
fn header_of_small_image() {
    assert_eq!(header_text(2, 2), "P3\n2 2\n255\n\n");
}

#[test]
fn header_of_wide_image() {
    assert_eq!(header_text(400, 225), "P3\n400 225\n255\n\n");
}

#[test]
fn empty_image_is_header_only() {
    assert_eq!(image_text(0, 0, &vec![]), "P3\n0 0\n255\n\n");
    assert_eq!(image_text(3, 0, &vec![]), "P3\n3 0\n255\n\n");
}

#[test]
fn image_lines_follow_pixel_order() {
    let pixels = vec![(1, 2, 3), (40, 50, 60), (255, 0, 7)];
    assert_eq!(
        image_text(3, 1, &pixels),
        "P3\n3 1\n255\n\n1 2 3\n40 50 60\n255 0 7\n"
    );
}
