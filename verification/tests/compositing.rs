use fbtouch::blit_map::BlitMap;
use fbtouch::canvas::{Canvas, CanvasError};
use fbtouch::frame::Frame;
use fbtouch::layer::{Layer, Pixel};
use fbtouch::point::{Point, Timeval};
use fbtouch::util::{color_from_rgb, color_from_rgba, coord_in_area, line_points, rgba_from_color};

fn zeroed(width: usize, height: usize) -> Canvas {
    Canvas::new(width, height, &vec![0u32; width * height])
}

fn point(x: isize, y: isize) -> Point {
    Point { time: Timeval(0, 0), x, y }
}

#[test]
fn color_packing_formula() {
    assert_eq!(color_from_rgb(255, 0, 0), 0xffff0000);
    assert_eq!(color_from_rgb(0, 255, 0), 0xff00ff00);
    assert_eq!(color_from_rgb(0, 0, 255), 0xff0000ff);
    assert_eq!(color_from_rgba(0x12, 0x34, 0x56, 0x78), 0x78123456);
}

#[test]
fn color_round_trip() {
    assert_eq!(rgba_from_color(color_from_rgba(1, 2, 3, 4)), (4, 1, 2, 3));
    assert_eq!(rgba_from_color(0xaabbccdd), (0xaa, 0xbb, 0xcc, 0xdd));
}

#[test]
fn coord_in_area_closed_bounds() {
    assert!(coord_in_area(3, 4, 0, 0, 5, 5));
    assert!(coord_in_area(5, 5, 0, 0, 5, 5));
    assert!(!coord_in_area(6, 5, 0, 0, 5, 5));
    assert!(!coord_in_area(1, 1, 2, 0, 5, 5));
}

#[test]
fn pixel_get_set_round_trip() {
    let mut c = zeroed(4, 3);
    assert_eq!(c.set_pixel(2, 1, 0xdeadbeef), Ok(()));
    assert_eq!(c.get_pixel(2, 1), Ok(0xdeadbeef));
    assert_eq!(c.get_pixel(0, 0), Ok(0));
}

#[test]
fn out_of_bounds_pixel_access_is_an_error() {
    let mut c = zeroed(4, 3);
    assert_eq!(c.get_pixel(4, 0), Err(CanvasError::CoordinateOutOfBounds));
    assert_eq!(c.get_pixel(0, 3), Err(CanvasError::CoordinateOutOfBounds));
    assert_eq!(c.set_pixel(4, 0, 1), Err(CanvasError::CoordinateOutOfBounds));
    assert_eq!(c.get_pixel(0, 0), Ok(0));
}

#[test]
fn from_color_fills_every_pixel() {
    let c = Canvas::from_color(3, 2, 7, 8, 9);
    let expected = color_from_rgb(7, 8, 9);
    for y in 0..2 {
        for x in 0..3 {
            assert_eq!(c.get_pixel(x, y), Ok(expected));
        }
    }
}

#[test]
fn copy_from_requires_matching_sizes() {
    let mut dst = zeroed(2, 2);
    let src = Canvas::from_color(2, 2, 1, 2, 3);
    assert_eq!(dst.copy_from_canvas(&src), Ok(()));
    assert_eq!(dst.get_pixel(1, 1), Ok(color_from_rgb(1, 2, 3)));
    let small = zeroed(1, 1);
    assert_eq!(dst.copy_from_canvas(&small), Err(CanvasError::SizeMismatch));
    assert_eq!(dst.get_pixel(1, 1), Ok(color_from_rgb(1, 2, 3)));
}

#[test]
fn blit_masking_scenario() {
    let a = 0xa0a0a0a0u32;
    let b = 0xb0b0b0b0u32;
    let c = 0xc0c0c0c0u32;
    let d = 0xd0d0d0d0u32;
    let source = Canvas::new(2, 2, &[a, b, c, d]);
    let mask = BlitMap { width: 2, height: 2, map: vec![true, false, false, true] };
    let mut dest = zeroed(4, 4);
    assert_eq!(dest.blit_canvas(&source, 1, 1, &mask), Ok(()));
    assert_eq!(dest.get_pixel(1, 1), Ok(a));
    assert_eq!(dest.get_pixel(2, 1), Ok(0));
    assert_eq!(dest.get_pixel(1, 2), Ok(0));
    assert_eq!(dest.get_pixel(2, 2), Ok(d));
    for y in 0..4 {
        for x in 0..4 {
            if !(x == 1 && y == 1 || x == 2 && y == 2) {
                assert_eq!(dest.get_pixel(x, y), Ok(0));
            }
        }
    }
}

#[test]
fn clipped_draw_scenario() {
    let red = color_from_rgb(255, 0, 0);
    let source = Canvas::from_color(3, 3, 255, 0, 0);
    let mut dest = zeroed(3, 3);
    assert_eq!(dest.draw_canvas(&source, -1, -1), Ok(()));
    for y in 0..3 {
        for x in 0..3 {
            let expected = if x < 2 && y < 2 { red } else { 0 };
            assert_eq!(dest.get_pixel(x, y), Ok(expected));
        }
    }
}

#[test]
fn draw_covers_the_whole_source_in_bounds() {
    let source = Canvas::from_color(2, 2, 0, 255, 0);
    let mut dest = zeroed(4, 4);
    assert_eq!(dest.draw_canvas(&source, 1, 2), Ok(()));
    let green = color_from_rgb(0, 255, 0);
    assert_eq!(dest.get_pixel(1, 2), Ok(green));
    assert_eq!(dest.get_pixel(2, 3), Ok(green));
    assert_eq!(dest.get_pixel(0, 0), Ok(0));
    assert_eq!(dest.get_pixel(3, 3), Ok(0));
}

#[test]
fn blit_map_from_canvas_is_all_true() {
    let c = zeroed(2, 3);
    let m = BlitMap::from_canvas(&c);
    assert_eq!((m.width, m.height), (2, 3));
    assert_eq!(m.map, vec![true; 6]);
}

#[test]
fn blit_map_with_alpha_keeps_nonzero_alpha() {
    let c = Canvas::new(2, 1, &[color_from_rgba(9, 9, 9, 0), color_from_rgba(9, 9, 9, 1)]);
    let m = BlitMap::from_canvas_with_alpha(&c);
    assert_eq!(m.map, vec![false, true]);
}

#[test]
fn blit_map_with_bg_color_keys_out_the_background() {
    let key = color_from_rgb(10, 20, 30);
    let other = color_from_rgb(10, 20, 31);
    let c = Canvas::new(2, 1, &[key, other]);
    let m = BlitMap::from_canvas_with_bg_color(&c, 10, 20, 30);
    assert_eq!(m.map, vec![false, true]);
}

#[test]
fn blit_map_bound_check_and_get_bool() {
    let c = zeroed(2, 2);
    let m = BlitMap::from_canvas(&c);
    assert!(m.bound_check(1, 1));
    assert!(!m.bound_check(2, 0));
    assert_eq!(m.get_bool(1, 0), Ok(true));
    assert_eq!(m.get_bool(2, 0), Err(CanvasError::CoordinateOutOfBounds));
}

#[test]
fn line_points_exact_trace() {
    let pts = line_points(0, 0, 2, 5);
    assert_eq!(pts, vec![(0, 0), (0, 1), (1, 2), (1, 3), (2, 4), (2, 5)]);
}

#[test]
fn line_points_single_point() {
    assert_eq!(line_points(3, 4, 3, 4), vec![(3, 4)]);
}

#[test]
fn plot_line_draws_the_diagonal() {
    let white = color_from_rgb(255, 255, 255);
    let mut c = zeroed(3, 3);
    c.plot_line(point(0, 0), point(2, 2), white);
    for y in 0..3 {
        for x in 0..3 {
            let expected = if x == y { white } else { 0 };
            assert_eq!(c.get_pixel(x as usize, y as usize), Ok(expected));
        }
    }
}

#[test]
fn plot_line_clips_against_the_buffer() {
    let white = color_from_rgb(255, 255, 255);
    let mut c = zeroed(2, 1);
    c.plot_line(point(-2, 0), point(1, 0), white);
    assert_eq!(c.get_pixel(0, 0), Ok(white));
    assert_eq!(c.get_pixel(1, 0), Ok(white));
}

#[test]
fn frame_new_derives_layout() {
    let bytes = vec![0u8; 12];
    let f = Frame::new(2, 2, &bytes).unwrap();
    assert_eq!(f.bytespp, 3);
    assert_eq!(f.line_length, 6);
}

#[test]
fn frame_pixel_round_trip() {
    let bytes = vec![0u8; 2 * 2 * 4];
    let mut f = Frame::new(2, 2, &bytes).unwrap();
    assert_eq!(f.bytespp, 4);
    f.set_pixel(1, 1, 10, 20, 30);
    assert_eq!(f.get_pixel(1, 1), (10, 20, 30));
    assert_eq!(f.get_pixel(0, 0), (0, 0, 0));
}

#[test]
fn draw_frame_swaps_the_outer_channels() {
    let src_bytes = vec![0u8; 3];
    let mut src = Frame::new(1, 1, &src_bytes).unwrap();
    src.set_pixel(0, 0, 1, 2, 3);
    let mut dst = Frame::new(2, 1, &vec![0u8; 6]).unwrap();
    assert_eq!(dst.draw_frame(&src, 1, 0), Ok(()));
    assert_eq!(dst.get_pixel(0, 0), (0, 0, 0));
    assert_eq!(dst.get_pixel(1, 0), (3, 2, 1));
}

#[test]
fn frame_plot_line_writes_white() {
    let mut f = Frame::new(3, 1, &vec![9u8; 9]).unwrap();
    f.plot_line(point(0, 0), point(1, 0));
    assert_eq!(f.get_pixel(0, 0), (255, 255, 255));
    assert_eq!(f.get_pixel(1, 0), (255, 255, 255));
    assert_eq!(f.get_pixel(2, 0), (9, 9, 9));
}

#[test]
fn layer_set_get_unset() {
    let mut l = Layer { pixels: vec![None; 6], width: 3, height: 2 };
    l.set_pixel(2, 1, 1, 2, 3);
    assert_eq!(*l.get_pixel(2, 1), Some(Pixel { r: 1, g: 2, b: 3 }));
    assert_eq!(*l.get_pixel(0, 0), None);
    let copy = l.clone();
    assert_eq!(*copy.get_pixel(2, 1), Some(Pixel { r: 1, g: 2, b: 3 }));
    l.unset_pixel(2, 1);
    assert_eq!(*l.get_pixel(2, 1), None);
}
