use raytracer::framebuffer::Framebuffer;
use raytracer::material::Color;

#[test]
fn new_buffer_is_black() {
    let fb = Framebuffer::new(4, 3);
    assert_eq!((fb.width, fb.height), (4, 3));
    assert_eq!(fb.color_buffer.len(), 12);
    assert!(fb.color_buffer.iter().all(|c| *c == Color::black()));
    assert_eq!(fb.background_color, Color::black());
    assert_eq!(fb.current_color, Color::white());
}

#[test]
fn negative_extent_counts_as_zero() {
    let fb = Framebuffer::new(-4, 3);
    assert_eq!((fb.width, fb.height), (0, 3));
    assert!(fb.color_buffer.is_empty());
    let fb = Framebuffer::new(4, -3);
    assert_eq!((fb.width, fb.height), (4, 0));
    assert!(fb.color_buffer.is_empty());
    let fb = Framebuffer::new(0, 0);
    assert!(fb.color_buffer.is_empty());
    assert_eq!(fb.get_pixel_color(0, 0), None);
}

#[test]
fn pixel_is_drawn_in_the_current_colour() {
    let mut fb = Framebuffer::new(4, 3);
    let red = Color::new(200, 10, 20, 255);
    fb.set_current_color(red);
    fb.set_pixel(1, 2);
    assert_eq!(fb.get_pixel_color(1, 2), Some(red));
    assert_eq!(fb.color_buffer[2 * 4 + 1], red);
    // and no other
    for y in 0..3 {
        for x in 0..4 {
            if (x, y) != (1, 2) {
                assert_eq!(fb.get_pixel_color(x, y), Some(Color::black()));
            }
        }
    }
    assert_eq!(fb.current_color, red);
}

#[test]
fn new_buffer_draws_in_white() {
    let mut fb = Framebuffer::new(2, 2);
    fb.set_pixel(0, 0);
    assert_eq!(fb.get_pixel_color(0, 0), Some(Color::white()));
}

#[test]
fn corners_are_pixels() {
    let mut fb = Framebuffer::new(4, 3);
    fb.set_current_color(Color::new(1, 2, 3, 4));
    for (x, y) in [(0, 0), (3, 0), (0, 2), (3, 2)] {
        fb.set_pixel(x, y);
        assert_eq!(fb.get_pixel_color(x, y), Some(Color::new(1, 2, 3, 4)));
    }
}

#[test]
fn drawing_outside_the_image_does_nothing() {
    let mut fb = Framebuffer::new(4, 3);
    fb.set_current_color(Color::new(9, 9, 9, 255));
    for (x, y) in [(-1, 0), (0, -1), (4, 0), (0, 3), (4, 3), (i32::MAX, i32::MAX), (i32::MIN, 1)] {
        fb.set_pixel(x, y);
        assert_eq!(fb.get_pixel_color(x, y), None);
    }
    assert!(fb.color_buffer.iter().all(|c| *c == Color::black()));
}

#[test]
fn clear_fills_with_the_background() {
    let mut fb = Framebuffer::new(4, 3);
    fb.set_current_color(Color::new(9, 9, 9, 255));
    fb.set_pixel(2, 1);
    let crimson = Color::new(51, 13, 13, 255);
    fb.set_background_color(crimson);
    // setting the background draws nothing
    assert_eq!(fb.get_pixel_color(2, 1), Some(Color::new(9, 9, 9, 255)));
    assert_eq!(fb.get_pixel_color(0, 0), Some(Color::black()));
    fb.clear();
    assert!(fb.color_buffer.iter().all(|c| *c == crimson));
    assert_eq!(fb.color_buffer.len(), 12);
    assert_eq!(fb.background_color, crimson);
    assert_eq!(fb.current_color, Color::new(9, 9, 9, 255));
}
