use raytracer::color::Color8;
use raytracer::ppm::pixel_line;
use raytracer::ppm::ppm_header;
use raytracer::ppm::ppm_image;
use raytracer::ppm::u32_string;

#[test]
fn decimal_single_digits() {
    assert_eq!(u32_string(0), "0");
    assert_eq!(u32_string(7), "7");
    assert_eq!(u32_string(9), "9");
}

#[test]
fn decimal_multi_digits() {
    assert_eq!(u32_string(10), "10");
    assert_eq!(u32_string(255), "255");
    assert_eq!(u32_string(400), "400");
    assert_eq!(u32_string(1000), "1000");
    assert_eq!(u32_string(u32::MAX), "4294967295");
}

#[test]
fn pixel_line_format() {
    assert_eq!(pixel_line(Color8::new(255, 0, 17)), "255 0 17\n");
    assert_eq!(pixel_line(Color8::new(0, 0, 0)), "0 0 0\n");
    assert_eq!(pixel_line(Color8::new(128, 179, 255)), "128 179 255\n");
}

#[test]
fn header_format() {
    assert_eq!(ppm_header(2, 2), "P3\n2 2\n255\n");
    assert_eq!(ppm_header(800, 450), "P3\n800 450\n255\n");
    assert_eq!(ppm_header(400, 225), "P3\n400 225\n255\n");
}

#[test]
fn image_two_by_two() {
    // A 2x2 image of quantized sky colors, as a render of an empty scene
    // would produce: the document must be the header followed by the four
    // pixel lines in raster-scan order.
    let pixels = vec![
        Color8::new(178, 209, 255),
        Color8::new(178, 209, 255),
        Color8::new(200, 221, 255),
        Color8::new(200, 221, 255),
    ];
    let image = ppm_image(2, 2, &pixels);
    assert_eq!(
        image,
        "P3\n2 2\n255\n178 209 255\n178 209 255\n200 221 255\n200 221 255\n"
    );
    assert!(image.starts_with("P3\n2 2\n255\n"));
    assert_eq!(image.lines().count(), 3 + 4);
}

#[test]
fn image_empty() {
    let pixels: Vec<Color8> = vec![];
    assert_eq!(ppm_image(0, 0, &pixels), "P3\n0 0\n255\n");
}

#[test]
fn image_line_count_matches_pixel_count() {
    let pixels = vec![Color8::new(1, 2, 3); 12];
    let image = ppm_image(4, 3, &pixels);
    assert_eq!(image.matches('\n').count(), 3 + 12);
}
