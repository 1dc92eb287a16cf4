use ray_tracer_challenge::canvas::Canvas;
use ray_tracer_challenge::render::render_pixels;

#[test]
fn render_calls_shade_once_per_pixel_at_its_place() {
    let canvas: Canvas<(usize, usize)> = render_pixels(11, 7, &|&(x, y): &(usize, usize)| (x, y));
    assert_eq!(canvas.width, 11);
    assert_eq!(canvas.height, 7);
    assert_eq!(canvas.pixels.len(), 77);
    for x in 0..11 {
        for y in 0..7 {
            assert_eq!(canvas.pixel_at(x, y), (x, y));
        }
    }
}

#[test]
fn render_covers_last_row_and_column() {
    let canvas = render_pixels(3, 2, &|&(x, y): &(usize, usize)| x * 10 + y);
    assert_eq!(canvas.pixels, vec![0, 10, 20, 1, 11, 21]);
}

#[test]
fn render_of_empty_grid_is_empty() {
    let canvas = render_pixels(0, 5, &|&(x, y): &(usize, usize)| x + y);
    assert_eq!(canvas.width, 0);
    assert_eq!(canvas.height, 5);
    assert!(canvas.pixels.is_empty());
    let canvas = render_pixels(4, 0, &|&(x, y): &(usize, usize)| x + y);
    assert!(canvas.pixels.is_empty());
}
