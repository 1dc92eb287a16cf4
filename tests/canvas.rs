use ray_tracer_challenge::canvas::Canvas;
use ray_tracer_challenge::ppm::ToPPM;
use ray_tracer_challenge::two_dimensional::TwoDimensional;

type Rgb = (f64, f64, f64);

const BLACK: Rgb = (0.0, 0.0, 0.0);
const RED: Rgb = (1.0, 0.0, 0.0);

fn ppm_of(canvas: &Canvas<[u8; 4]>) -> String {
    String::from_utf8(canvas.to_ppm()).unwrap()
}

#[test]
fn create_canvas() {
    let c = Canvas::new(10, 20, BLACK);

    assert_eq!(10, c.width);
    assert_eq!(20, c.height);

    for x in 0..c.width {
        for y in 0..c.height {
            assert_eq!(c.pixel_at(x, y), BLACK);
        }
    }
}

#[test]
fn write_pixels_to_canvas() {
    let mut c = Canvas::new(10, 20, BLACK);
    c.write_pixel(2, 3, RED);
    assert_eq!(c.pixel_at(2, 3), RED);
    assert_eq!(c.pixel_at(3, 2), BLACK);
    assert_eq!(c.pixels[3 * 10 + 2], RED);
}

#[test]
fn constructing_ppm_header() {
    let c = Canvas::new(5, 3, [0u8, 0, 0, 255]);

    let expected = String::from("P3\n5 3\n255\n").into_bytes();
    let actual = c.header();

    assert_eq!(actual, expected);
}

#[test]
fn constructing_ppm_pixel_data() {
    let mut canvas = Canvas::new(5, 3, [0u8, 0, 0, 255]);
    // (1.5, 0, 0), (0, 0.5, 0) and (-0.5, 0, 1), clamped to [0, 1] and scaled to bytes.
    let c1 = [255u8, 0, 0, 255];
    let c2 = [0u8, 128, 0, 255];
    let c3 = [0u8, 0, 255, 255];

    canvas.write_pixel(0, 0, c1);
    canvas.write_pixel(2, 1, c2);
    canvas.write_pixel(4, 2, c3);

    let actual = canvas.to_ppm();
    let header = String::from("P3\n5 3\n255\n").into_bytes();
    let pixel_data = String::from(
        "255 0 0 0 0 0 0 0 0 0 0 0 0 0 0\n0 0 0 0 0 0 0 128 0 0 0 0 0 0 0\n0 0 0 0 0 0 0 0 0 0 0 0 0 0 255\n",
    )
    .into_bytes();
    let mut expected: Vec<u8> = Vec::new();

    expected.extend(header);
    expected.extend(pixel_data);

    assert_eq!(actual, expected)
}

#[test]
fn split_ppm_files_at_70_characters() {
    // (1.0, 0.8, 0.6) scaled to bytes.
    let color = [255u8, 204, 153, 255];
    let mut canvas = Canvas::new(10, 2, [0u8, 0, 0, 255]);

    for x in 0..canvas.width() {
        for y in 0..canvas.height() {
            canvas.write_pixel(x, y, color);
        }
    }

    let actual = canvas.to_ppm();
    let header = String::from("P3\n10 2\n255\n").into_bytes();

    let pixel_data = String::from(
        "255 204 153 255 204 153 255 204 153 255 204 153 255 204 153 255 204\n153 255 204 153 255 204 153 255 204 153 255 204 153\n255 204 153 255 204 153 255 204 153 255 204 153 255 204 153 255 204\n153 255 204 153 255 204 153 255 204 153 255 204 153\n",
    )
    .into_bytes();
    let mut expected: Vec<u8> = Vec::new();
    expected.extend(header);
    expected.extend(pixel_data);

    assert_eq!(actual, expected);
}

#[test]
fn ppm_ends_with_newline_for_empty_canvas() {
    let canvas: Canvas<[u8; 4]> = Canvas::new(0, 0, [0u8, 0, 0, 255]);
    assert_eq!(ppm_of(&canvas), "P3\n0 0\n255\n\n");
}

#[test]
fn ppm_header_writes_multi_digit_sizes() {
    let canvas = Canvas::new(1024, 7, [0u8, 0, 0, 255]);
    assert_eq!(canvas.header(), String::from("P3\n1024 7\n255\n").into_bytes());
}

#[test]
fn ppm_drops_alpha_and_starts_each_row_on_a_new_line() {
    let mut canvas = Canvas::new(2, 2, [1u8, 2, 3, 99]);
    canvas.write_pixel(1, 1, [10, 200, 7, 0]);
    assert_eq!(ppm_of(&canvas), "P3\n2 2\n255\n1 2 3 1 2 3\n1 2 3 10 200 7\n");
}

#[test]
fn ppm_line_of_exactly_seventy_bytes_is_kept() {
    // Seventeen "255" and a "25", with single spaces, fill exactly 70 bytes.
    let mut canvas = Canvas::new(7, 1, [255u8, 255, 255, 255]);
    canvas.write_pixel(5, 0, [255, 255, 25, 255]);
    canvas.write_pixel(6, 0, [0, 0, 0, 255]);
    let text = ppm_of(&canvas);
    let lines: Vec<&str> = text.lines().collect();
    let mut first = vec!["255"; 17];
    first.push("25");
    assert_eq!(lines[3], first.join(" "));
    assert_eq!(lines[3].len(), 70);
    assert_eq!(lines[4], "0 0 0");
    assert_eq!(lines.len(), 5);
}

#[test]
fn canvas_reports_its_size() {
    let canvas = Canvas::new(3, 4, 0u8);
    assert_eq!(canvas.width(), 3);
    assert_eq!(canvas.height(), 4);
    assert_eq!(canvas.pixels.len(), 12);
}
