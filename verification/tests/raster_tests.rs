use bear_flag::raster::{composite_with_alpha, draw_bear_stripes, draw_flag_stripes, lerp_u8, Canvas, Rgba};

#[test]
fn lerp_u8_respects_endpoints() {
    assert_eq!(lerp_u8(0, 255, 0, 1), 0);
    assert_eq!(lerp_u8(0, 255, 1, 1), 255);
}

#[test]
fn lerp_u8_handles_midpoint() {
    let result = lerp_u8(0, 100, 1, 2);
    assert!((result as i32 - 50).abs() <= 1, "Expected ~50, got {result}");
}

#[test]
fn test_lerp_u8_endpoints() {
    assert_eq!(lerp_u8(0, 255, 0, 1), 0);
    assert_eq!(lerp_u8(0, 255, 1, 1), 255);
}

#[test]
fn test_lerp_u8_midpoint() {
    let result = lerp_u8(0, 100, 1, 2);
    assert!((result as i32 - 50).abs() <= 1, "Expected ~50, got {}", result);
}

#[test]
fn lerp_u8_exact_values() {
    assert_eq!(lerp_u8(0, 100, 1, 2), 50);
    assert_eq!(lerp_u8(10, 20, 1, 4), 13);
    assert_eq!(lerp_u8(255, 0, 15, 16), 16);
    assert_eq!(lerp_u8(7, 200, 0, 16), 7);
}

fn red_canvas() -> Canvas {
    Canvas::from_pixel(10, 10, Rgba { r: 255, g: 0, b: 0, a: 255 })
}

#[test]
fn composite_respects_transparency() {
    let mut dst = red_canvas();
    let src = Canvas::from_pixel(5, 5, Rgba { r: 0, g: 0, b: 255, a: 128 });
    composite_with_alpha(&mut dst, &src, 0, 0);
    let blended_pixel = dst.get_pixel(0, 0);
    assert!(blended_pixel.r > 0, "Red channel should have contribution");
    assert!(blended_pixel.b > 0, "Blue channel should have contribution");
}

#[test]
fn test_composite_respects_transparency() {
    let mut dst = red_canvas();
    let src = Canvas::from_pixel(5, 5, Rgba { r: 0, g: 0, b: 255, a: 128 });
    composite_with_alpha(&mut dst, &src, 0, 0);
    let blended_pixel = dst.get_pixel(0, 0);
    assert!(blended_pixel.r > 0, "Red channel should have contribution");
    assert!(blended_pixel.b > 0, "Blue channel should have contribution");
}

#[test]
fn composite_exact_values() {
    let mut dst = red_canvas();
    let half = Canvas::from_pixel(5, 5, Rgba { r: 0, g: 0, b: 255, a: 128 });
    composite_with_alpha(&mut dst, &half, 8, 8);
    assert_eq!(dst.get_pixel(9, 9), Rgba { r: 127, g: 0, b: 128, a: 255 });
    assert_eq!(dst.get_pixel(7, 9), Rgba { r: 255, g: 0, b: 0, a: 255 });
    let opaque = Canvas::from_pixel(2, 2, Rgba { r: 1, g: 2, b: 3, a: 255 });
    composite_with_alpha(&mut dst, &opaque, 0, 0);
    assert_eq!(dst.get_pixel(1, 1), Rgba { r: 1, g: 2, b: 3, a: 255 });
    let clear = Canvas::from_pixel(3, 3, Rgba { r: 9, g: 9, b: 9, a: 0 });
    composite_with_alpha(&mut dst, &clear, 0, 0);
    assert_eq!(dst.get_pixel(0, 0), Rgba { r: 1, g: 2, b: 3, a: 255 });
    assert_eq!(dst.get_pixel(2, 2), Rgba { r: 255, g: 0, b: 0, a: 255 });
}

#[test]
fn stripes_blend_towards_the_next_color() {
    let mut canvas = Canvas::new(64, 2);
    draw_flag_stripes(&mut canvas, &[0xFF0000, 0x0000FF], 2, 64, 2);
    assert_eq!(canvas.get_pixel(0, 0), Rgba { r: 255, g: 0, b: 0, a: 255 });
    assert_eq!(canvas.get_pixel(15, 1), Rgba { r: 255, g: 0, b: 0, a: 255 });
    assert_eq!(canvas.get_pixel(31, 0), Rgba { r: 0, g: 0, b: 255, a: 255 });
    assert_eq!(canvas.get_pixel(16, 0), Rgba { r: 239, g: 0, b: 16, a: 255 });
    assert_eq!(canvas.get_pixel(17, 0), Rgba { r: 223, g: 0, b: 32, a: 255 });
    assert_eq!(canvas.get_pixel(63, 1), Rgba { r: 0, g: 0, b: 255, a: 255 });
}

#[test]
fn stripes_cycle_and_leave_the_remainder() {
    let mut canvas = Canvas::new(7, 1);
    draw_flag_stripes(&mut canvas, &[0x112233], 3, 7, 1);
    assert_eq!(canvas.get_pixel(0, 0), Rgba { r: 0x11, g: 0x22, b: 0x33, a: 255 });
    assert_eq!(canvas.get_pixel(5, 0), Rgba { r: 0x11, g: 0x22, b: 0x33, a: 255 });
    assert_eq!(canvas.get_pixel(6, 0), Rgba { r: 0, g: 0, b: 0, a: 0 });
}

#[test]
fn bytes_round_trip() {
    let bytes: Vec<u8> = (0u8..24).collect();
    let canvas = Canvas::from_rgba_bytes(3, 2, &bytes).unwrap();
    assert_eq!(canvas.width(), 3);
    assert_eq!(canvas.height(), 2);
    assert_eq!(canvas.get_pixel(1, 1), Rgba { r: 16, g: 17, b: 18, a: 19 });
    assert_eq!(canvas.to_rgba_bytes(), bytes);
    assert!(Canvas::from_rgba_bytes(3, 2, &bytes[..23]).is_none());
}

#[test]
fn put_pixel_sets_one_pixel() {
    let mut canvas = Canvas::new(2, 2);
    canvas.put_pixel(1, 0, Rgba { r: 5, g: 6, b: 7, a: 8 });
    assert_eq!(canvas.get_pixel(1, 0), Rgba { r: 5, g: 6, b: 7, a: 8 });
    assert_eq!(canvas.get_pixel(0, 1), Rgba { r: 0, g: 0, b: 0, a: 0 });
}

#[test]
fn flag_stripes_cover_only_the_given_area() {
    let mut canvas = Canvas::new(10, 3);
    draw_flag_stripes(&mut canvas, &[0x0000FF], 1, 4, 2);
    assert_eq!(canvas.get_pixel(3, 1), Rgba { r: 0, g: 0, b: 255, a: 255 });
    assert_eq!(canvas.get_pixel(4, 1), Rgba { r: 0, g: 0, b: 0, a: 0 });
    assert_eq!(canvas.get_pixel(0, 2), Rgba { r: 0, g: 0, b: 0, a: 0 });
}

#[test]
fn bear_stripes_clip_the_last_stripe_at_the_edge() {
    let mut canvas = Canvas::new(50, 2);
    draw_bear_stripes(&mut canvas, &[0xFF0000, 0x0000FF], 30, 2);
    assert_eq!(canvas.get_pixel(0, 0), Rgba { r: 255, g: 0, b: 0, a: 255 });
    assert_eq!(canvas.get_pixel(29, 1), Rgba { r: 0, g: 0, b: 255, a: 255 });
    assert_eq!(canvas.get_pixel(13, 0), Rgba { r: 255, g: 0, b: 0, a: 255 });
    assert_eq!(canvas.get_pixel(14, 0), Rgba { r: 239, g: 0, b: 16, a: 255 });
    assert_eq!(canvas.get_pixel(15, 0), Rgba { r: 223, g: 0, b: 32, a: 255 });
    assert_eq!(canvas.get_pixel(30, 0), Rgba { r: 0, g: 0, b: 255, a: 255 });
    assert_eq!(canvas.get_pixel(49, 1), Rgba { r: 0, g: 0, b: 255, a: 255 });
}

#[test]
fn bear_stripes_leave_uncovered_columns_and_rows() {
    let mut canvas = Canvas::new(10, 3);
    draw_bear_stripes(&mut canvas, &[0x010203, 0x040506], 3, 2);
    assert_eq!(canvas.get_pixel(5, 0), Rgba { r: 4, g: 5, b: 6, a: 255 });
    assert_eq!(canvas.get_pixel(6, 0), Rgba { r: 0, g: 0, b: 0, a: 0 });
    assert_eq!(canvas.get_pixel(0, 2), Rgba { r: 0, g: 0, b: 0, a: 0 });
    let mut empty = Canvas::new(4, 1);
    draw_bear_stripes(&mut empty, &[], 3, 100);
    assert_eq!(empty.get_pixel(0, 0), Rgba { r: 0, g: 0, b: 0, a: 0 });
}
