use escape_maze::framebuffer::Framebuffer;
use escape_maze::render::{draw_rect, render_splash_screen};
use escape_maze::texture::Texture;
use image::{DynamicImage, Rgba, RgbaImage};

fn coded_texture(width: u32, height: u32) -> Texture {
    let img = RgbaImage::from_fn(width, height, |x, y| Rgba([x as u8 + 1, y as u8 + 1, 7, 255]));
    Texture::new(DynamicImage::ImageRgba8(img))
}

fn coded(x: u32, y: u32) -> u32 {
    ((x + 1) << 16) | ((y + 1) << 8) | 7
}

#[test]
fn new_surface_is_all_zero() {
    let fb = Framebuffer::new(4, 3);
    assert_eq!(fb.width(), 4);
    assert_eq!(fb.height(), 3);
    assert_eq!(fb.buffer().len(), 12);
    assert!(fb.buffer().iter().all(|&p| p == 0));
}

#[test]
fn new_surface_may_be_empty() {
    let fb = Framebuffer::new(0, 5);
    assert_eq!(fb.buffer().len(), 0);
    let fb = Framebuffer::new(5, 0);
    assert_eq!(fb.buffer().len(), 0);
}

#[test]
fn new_surface_draws_in_white() {
    let mut fb = Framebuffer::new(2, 2);
    fb.point(1, 0);
    assert_eq!(fb.buffer(), &vec![0, 0xFFFFFF, 0, 0]);
}

#[test]
fn new_surface_clears_to_black() {
    let mut fb = Framebuffer::new(2, 2);
    fb.point(1, 1);
    fb.clear();
    assert_eq!(fb.buffer(), &vec![0, 0, 0, 0]);
}

#[test]
fn point_writes_row_major() {
    let mut fb = Framebuffer::new(4, 3);
    fb.set_current_color(0x123456);
    fb.point(2, 1);
    let mut expected = vec![0u32; 12];
    expected[1 * 4 + 2] = 0x123456;
    assert_eq!(fb.buffer(), &expected);
}

#[test]
fn point_off_the_surface_is_ignored() {
    let mut fb = Framebuffer::new(4, 3);
    fb.point(4, 0);
    fb.point(0, 3);
    fb.point(usize::MAX, usize::MAX);
    fb.point(4, 2);
    assert!(fb.buffer().iter().all(|&p| p == 0));
    assert_eq!(fb.buffer().len(), 12);
}

#[test]
fn point_in_the_last_column_does_not_wrap() {
    let mut fb = Framebuffer::new(3, 2);
    fb.point(3, 0);
    assert_eq!(fb.buffer(), &vec![0, 0, 0, 0, 0, 0]);
    fb.point(2, 0);
    assert_eq!(fb.buffer(), &vec![0, 0, 0xFFFFFF, 0, 0, 0]);
}

#[test]
fn clear_fills_with_background() {
    let mut fb = Framebuffer::new(3, 2);
    fb.set_background_color(0x443c33);
    fb.point(1, 1);
    fb.clear();
    assert_eq!(fb.buffer(), &vec![0x443c33; 6]);
}

#[test]
fn clear_keeps_the_current_color() {
    let mut fb = Framebuffer::new(2, 1);
    fb.set_current_color(0x00FF00);
    fb.set_background_color(0x0000FF);
    fb.clear();
    fb.point(0, 0);
    assert_eq!(fb.buffer(), &vec![0x00FF00, 0x0000FF]);
}

#[test]
fn set_background_color_changes_no_pixel() {
    let mut fb = Framebuffer::new(2, 2);
    fb.set_background_color(0xABCDEF);
    assert_eq!(fb.buffer(), &vec![0, 0, 0, 0]);
}

#[test]
fn draw_circle_radius_zero_is_one_pixel() {
    let mut fb = Framebuffer::new(3, 3);
    fb.draw_circle(1, 1, 0);
    let mut expected = vec![0u32; 9];
    expected[4] = 0xFFFFFF;
    assert_eq!(fb.buffer(), &expected);
}

#[test]
fn draw_circle_radius_one_is_a_plus() {
    let mut fb = Framebuffer::new(5, 5);
    fb.set_current_color(0xFF0000);
    fb.draw_circle(2, 2, 1);
    let c = 0xFF0000;
    let expected = vec![
        0, 0, 0, 0, 0,
        0, 0, c, 0, 0,
        0, c, c, c, 0,
        0, 0, c, 0, 0,
        0, 0, 0, 0, 0,
    ];
    assert_eq!(fb.buffer(), &expected);
}

#[test]
fn draw_circle_radius_two_is_a_disc() {
    let mut fb = Framebuffer::new(5, 5);
    fb.draw_circle(2, 2, 2);
    let c = 0xFFFFFF;
    let expected = vec![
        0, 0, c, 0, 0,
        0, c, c, c, 0,
        c, c, c, c, c,
        0, c, c, c, 0,
        0, 0, c, 0, 0,
    ];
    assert_eq!(fb.buffer(), &expected);
}

#[test]
fn draw_circle_is_clipped_at_the_corner() {
    let mut fb = Framebuffer::new(4, 4);
    fb.draw_circle(0, 0, 2);
    let c = 0xFFFFFF;
    let expected = vec![
        c, c, c, 0,
        c, c, 0, 0,
        c, 0, 0, 0,
        0, 0, 0, 0,
    ];
    assert_eq!(fb.buffer(), &expected);
}

#[test]
fn draw_circle_around_a_centre_off_the_surface() {
    let mut fb = Framebuffer::new(3, 3);
    fb.draw_circle(4, 1, 2);
    let c = 0xFFFFFF;
    let expected = vec![
        0, 0, 0,
        0, 0, c,
        0, 0, 0,
    ];
    assert_eq!(fb.buffer(), &expected);
    let mut far = Framebuffer::new(3, 3);
    far.draw_circle(10, 10, 1);
    assert!(far.buffer().iter().all(|&p| p == 0));
}

#[test]
fn draw_circle_with_a_huge_radius_covers_the_surface() {
    let mut fb = Framebuffer::new(3, 2);
    fb.draw_circle(1, 1, usize::MAX);
    assert_eq!(fb.buffer(), &vec![0xFFFFFF; 6]);
}

#[test]
fn draw_rect_fills_and_sets_the_color() {
    let mut fb = Framebuffer::new(4, 4);
    draw_rect(&mut fb, 1, 1, 2, 2, 0xABCDEF);
    let c = 0xABCDEF;
    let expected = vec![
        0, 0, 0, 0,
        0, c, c, 0,
        0, c, c, 0,
        0, 0, 0, 0,
    ];
    assert_eq!(fb.buffer(), &expected);
    fb.point(0, 0);
    assert_eq!(fb.buffer()[0], 0xABCDEF);
}

#[test]
fn draw_rect_is_clipped() {
    let mut fb = Framebuffer::new(3, 3);
    draw_rect(&mut fb, 2, 1, 10, 10, 5);
    let expected = vec![
        0, 0, 0,
        0, 0, 5,
        0, 0, 5,
    ];
    assert_eq!(fb.buffer(), &expected);
}

#[test]
fn draw_rect_with_a_size_beyond_usize() {
    let mut fb = Framebuffer::new(2, 2);
    draw_rect(&mut fb, 1, 1, usize::MAX, usize::MAX, 9);
    assert_eq!(fb.buffer(), &vec![0, 0, 0, 9]);
}

#[test]
fn draw_rect_off_the_surface_or_empty_only_sets_the_color() {
    let mut fb = Framebuffer::new(2, 2);
    draw_rect(&mut fb, 2, 0, 3, 3, 9);
    draw_rect(&mut fb, 0, 0, 0, 2, 9);
    draw_rect(&mut fb, 0, 0, 2, 0, 8);
    assert_eq!(fb.buffer(), &vec![0, 0, 0, 0]);
    fb.point(1, 1);
    assert_eq!(fb.buffer(), &vec![0, 0, 0, 8]);
}

#[test]
fn draw_texture_copies_every_texel() {
    let tex = coded_texture(2, 2);
    let mut fb = Framebuffer::new(4, 3);
    fb.draw_texture(1, 1, &tex);
    let expected = vec![
        0, 0, 0, 0,
        0, coded(0, 0), coded(1, 0), 0,
        0, coded(0, 1), coded(1, 1), 0,
    ];
    assert_eq!(fb.buffer(), &expected);
}

#[test]
fn draw_texture_leaves_the_last_texel_as_current_color() {
    let tex = coded_texture(2, 2);
    let mut fb = Framebuffer::new(4, 3);
    fb.draw_texture(1, 1, &tex);
    fb.point(0, 0);
    assert_eq!(fb.buffer()[0], coded(1, 1));
}

#[test]
fn draw_texture_is_clipped() {
    let tex = coded_texture(3, 3);
    let mut fb = Framebuffer::new(3, 3);
    fb.draw_texture(2, 1, &tex);
    let expected = vec![
        0, 0, 0,
        0, 0, coded(0, 0),
        0, 0, coded(0, 1),
    ];
    assert_eq!(fb.buffer(), &expected);
    fb.point(0, 0);
    assert_eq!(fb.buffer()[0], coded(0, 1));
}

#[test]
fn draw_texture_off_the_surface_changes_nothing() {
    let tex = coded_texture(2, 2);
    let mut fb = Framebuffer::new(3, 3);
    fb.set_current_color(0x112233);
    fb.draw_texture(3, 0, &tex);
    fb.draw_texture(0, 3, &tex);
    fb.draw_texture(u32::MAX, u32::MAX, &tex);
    assert!(fb.buffer().iter().all(|&p| p == 0));
    fb.point(0, 0);
    assert_eq!(fb.buffer()[0], 0x112233);
}

#[test]
fn draw_texture_of_an_empty_image_changes_nothing() {
    let tex = coded_texture(0, 0);
    let mut fb = Framebuffer::new(2, 2);
    fb.draw_texture(0, 0, &tex);
    fb.point(0, 0);
    assert_eq!(fb.buffer(), &vec![0xFFFFFF, 0, 0, 0]);
}

#[test]
fn splash_screen_is_the_image_on_the_background() {
    let tex = coded_texture(2, 2);
    let mut fb = Framebuffer::new(3, 3);
    fb.set_background_color(0x443c33);
    fb.point(2, 2);
    render_splash_screen(&mut fb, &tex);
    let b = 0x443c33;
    let expected = vec![
        coded(0, 0), coded(1, 0), b,
        coded(0, 1), coded(1, 1), b,
        b, b, b,
    ];
    assert_eq!(fb.buffer(), &expected);
}

#[test]
fn splash_screen_larger_than_the_surface_is_cut() {
    let tex = coded_texture(4, 4);
    let mut fb = Framebuffer::new(2, 2);
    render_splash_screen(&mut fb, &tex);
    assert_eq!(fb.buffer(), &vec![coded(0, 0), coded(1, 0), coded(0, 1), coded(1, 1)]);
}
