use seized::args::{parse_hex_color, HexColorError};
use seized::controls::{canvas_size_for_window, handle_key, initial_window_size, KeyAction};
use seized::fill::composite;
use seized::frame::Frame;
use seized::image::{Image, Rotation};
use seized::interpolate::{fit_dimensions, interpolate, InterpolationType};
use seized::pixel::{apply_pixel_effects, Pixel};
use seized::widgets::{Coverage, Toolbar, BLACK, GRAY, TOOLBAR_HEIGHT, WHITE};

fn rgb(r: u8, g: u8, b: u8) -> Pixel {
    Pixel::new(255, r, g, b)
}

fn image_of(w: u32, h: u32, px: &[Pixel]) -> Image {
    let mut img = Image::new(w, h, rgb(0, 0, 0), false);
    img.image_data = px.to_vec();
    img
}

fn numbered(w: u32, h: u32) -> Image {
    let px: Vec<Pixel> = (0..w * h).map(|i| rgb(i as u8, 0, 0)).collect();
    image_of(w, h, &px)
}

fn reds(buf: &[u32]) -> Vec<u8> {
    buf.iter().map(|c| ((c >> 16) & 0xFF) as u8).collect()
}

#[test]
fn nearest_downscale_of_solid_red_is_red() {
    let img = Image::new(4, 4, rgb(255, 0, 0), false);
    let mut frame = Frame::new(&img, 0);
    interpolate(&mut frame, &img, 2, 2, InterpolationType::NearestNeighbor);
    assert_eq!((frame.canvas_width, frame.canvas_height), (2, 2));
    assert_eq!(frame.canvas_buffer, vec![0xFFFF_0000; 4]);
}

#[test]
fn nearest_to_own_size_is_identity() {
    let img = numbered(3, 2);
    let mut frame = Frame::new(&img, 0);
    frame.resize(1, 1);
    interpolate(&mut frame, &img, 3, 2, InterpolationType::NearestNeighbor);
    let want: Vec<u32> = img.image_data.iter().map(|p| p.argb).collect();
    assert_eq!(frame.canvas_buffer, want);
}

#[test]
fn nearest_picks_floor_of_scaled_index() {
    let mut img = numbered(4, 1);
    img.locked_aspect_ratio = false;
    let mut frame = Frame::new(&img, 0);
    interpolate(&mut frame, &img, 2, 1, InterpolationType::NearestNeighbor);
    assert_eq!(reds(&frame.canvas_buffer), vec![0, 2]);
    interpolate(&mut frame, &img, 8, 1, InterpolationType::NearestNeighbor);
    assert_eq!(reds(&frame.canvas_buffer), vec![0, 0, 1, 1, 2, 2, 3, 3]);
}

#[test]
fn nearest_rotations_map_coordinates() {
    // stored 2 by 1: [0, 1]
    let mut img = numbered(2, 1);
    img.locked_aspect_ratio = false;
    let mut frame = Frame::new(&img, 0);
    img.rotation = Rotation::Deg90;
    interpolate(&mut frame, &img, 1, 2, InterpolationType::NearestNeighbor);
    assert_eq!(reds(&frame.canvas_buffer), vec![0, 1]);
    img.rotation = Rotation::Deg180;
    interpolate(&mut frame, &img, 2, 1, InterpolationType::NearestNeighbor);
    assert_eq!(reds(&frame.canvas_buffer), vec![1, 0]);
    img.rotation = Rotation::Deg270;
    interpolate(&mut frame, &img, 1, 2, InterpolationType::NearestNeighbor);
    assert_eq!(reds(&frame.canvas_buffer), vec![1, 0]);
}

#[test]
fn four_quarter_turns_restore_rotation() {
    for start in [Rotation::Deg0, Rotation::Deg90, Rotation::Deg180, Rotation::Deg270] {
        for cw in [true, false] {
            let r = start.turned(cw).turned(cw).turned(cw).turned(cw);
            assert_eq!(r, start);
        }
    }
    assert_eq!(Rotation::Deg0.turned(false).degrees(), 270);
    assert_eq!(Rotation::Deg270.turned(true).degrees(), 0);
}

#[test]
fn bilinear_half_pixel_is_mean_of_four() {
    let img = image_of(
        2,
        2,
        &[rgb(255, 0, 10), rgb(0, 255, 20), rgb(0, 0, 31), rgb(255, 255, 40)],
    );
    let mut img = img;
    img.locked_aspect_ratio = false;
    let mut frame = Frame::new(&img, 0);
    interpolate(&mut frame, &img, 1, 1, InterpolationType::Bilinear);
    // top: (255+0+1)/2 = 128, bottom: 128, both: 128; blue: 15, 36 -> 26
    assert_eq!(frame.canvas_buffer, vec![0xFF80_801A]);
}

#[test]
fn bilinear_to_own_size_reproduces_pixels() {
    let mut img = numbered(3, 3);
    img.locked_aspect_ratio = false;
    let mut frame = Frame::new(&img, 0);
    interpolate(&mut frame, &img, 3, 3, InterpolationType::Bilinear);
    let want: Vec<u32> = img.image_data.iter().map(|p| p.argb).collect();
    assert_eq!(frame.canvas_buffer, want);
}

#[test]
fn bilinear_applies_effects_before_blending() {
    let mut img = image_of(2, 1, &[rgb(255, 255, 255), rgb(0, 0, 0)]);
    img.locked_aspect_ratio = false;
    img.inverted = true;
    let mut frame = Frame::new(&img, 0);
    interpolate(&mut frame, &img, 2, 1, InterpolationType::Bilinear);
    assert_eq!(frame.canvas_buffer[0], 0xFF00_0000);
    assert_eq!(frame.canvas_buffer[1], 0xFFFF_FFFF);
}

#[test]
fn bilinear_quarter_turn_swaps_axes() {
    let mut img = numbered(2, 1);
    img.locked_aspect_ratio = false;
    img.rotation = Rotation::Deg90;
    let mut frame = Frame::new(&img, 0);
    interpolate(&mut frame, &img, 1, 2, InterpolationType::Bilinear);
    assert_eq!((frame.canvas_width, frame.canvas_height), (1, 2));
    assert_eq!(reds(&frame.canvas_buffer), vec![0, 1]);
}

#[test]
fn aspect_lock_fits_inside_request() {
    let img = numbered(4, 2);
    assert_eq!(fit_dimensions(&img, 100, 100), (100, 50));
    assert_eq!(fit_dimensions(&img, 10, 1), (2, 1));
    assert_eq!(fit_dimensions(&img, 7, 100), (7, 4));
    let mut turned = numbered(4, 2);
    turned.rotation = Rotation::Deg90;
    assert_eq!(fit_dimensions(&turned, 100, 100), (50, 100));
    for (nw, nh) in [(1usize, 1usize), (3, 9), (640, 360), (33, 17), (0, 5)] {
        let (dw, dh) = fit_dimensions(&img, nw, nh);
        assert!(dw <= nw && dh <= nh);
        assert!(dw == nw || dh == nh);
    }
    let mut free = numbered(4, 2);
    free.locked_aspect_ratio = false;
    assert_eq!(fit_dimensions(&free, 100, 100), (100, 100));
}

#[test]
fn empty_image_leaves_frame_alone() {
    let img = Image::new(0, 3, rgb(1, 2, 3), false);
    let src = numbered(2, 2);
    let mut frame = Frame::new(&src, 7);
    let before = frame.canvas_buffer.clone();
    interpolate(&mut frame, &img, 10, 10, InterpolationType::Bilinear);
    assert_eq!(frame.canvas_buffer, before);
    assert_eq!((frame.canvas_width, frame.canvas_height), (2, 2));
}

#[test]
fn pixel_effects() {
    let p = rgb(255, 0, 0);
    let g = p.to_grayscale();
    assert_eq!((g.r, g.g, g.b), (76, 76, 76));
    let white = rgb(255, 255, 255).to_grayscale();
    assert_eq!(white.r, 255);
    let inv = p.to_inverted();
    assert_eq!((inv.a, inv.r, inv.g, inv.b), (255, 0, 255, 255));
    assert_eq!(p.to_display_color(true, true), 0xFFB3_B3B3);
    assert_eq!(apply_pixel_effects(p, false, true).argb, 0xFF00_FFFF);
    assert_eq!(p.to_display_color(false, false), 0xFFFF_0000);
}

#[test]
fn pixel_lerp_rounds_halves_up() {
    let a = Pixel::new(0, 0, 10, 255);
    let b = Pixel::new(255, 1, 20, 0);
    let m = a.lerp(&b, 1, 2);
    assert_eq!((m.a, m.r, m.g, m.b), (128, 1, 15, 128));
    let q = a.lerp(&b, 1, 4);
    assert_eq!((q.a, q.r, q.g, q.b), (64, 0, 13, 191));
    assert_eq!(a.lerp(&b, 0, 3), a);
}

#[test]
fn frame_resize_pads_with_background() {
    let img = numbered(2, 1);
    let mut frame = Frame::new(&img, 9);
    assert!(!frame.resize(2, 1));
    assert!(frame.resize(2, 2));
    assert_eq!(frame.canvas_buffer, vec![img.image_data[0].argb, img.image_data[1].argb, 9, 9]);
    assert!(frame.resize(1, 1));
    assert_eq!(frame.canvas_buffer, vec![img.image_data[0].argb]);
}

#[test]
fn composite_centres_canvas_and_puts_toolbar_at_bottom() {
    let img = image_of(2, 1, &[rgb(1, 1, 1), rgb(2, 2, 2)]);
    let mut frame = Frame::new(&img, 0);
    frame.toolbar.buffer = vec![5, 6, 7, 8];
    let out = composite(4, 4, &frame, 0xAA);
    let c1 = img.image_data[0].argb;
    let c2 = img.image_data[1].argb;
    assert_eq!(
        out,
        vec![0xAA, 0xAA, 0xAA, 0xAA, 0xAA, c1, c2, 0xAA, 0xAA, 0xAA, 0xAA, 0xAA, 5, 6, 7, 8]
    );
}

#[test]
fn composite_clips_and_skips_what_does_not_fit() {
    let img = numbered(5, 5);
    let mut frame = Frame::new(&img, 0);
    frame.toolbar.buffer = vec![1; 7];
    let out = composite(3, 2, &frame, 0xAA);
    assert_eq!(out.len(), 6);
    let c = |i: usize| img.image_data[i].argb;
    assert_eq!(out, vec![c(0), c(1), c(2), c(5), c(6), c(7)]);
}

#[test]
fn composite_output_size_never_depends_on_inputs() {
    let mut seed: u64 = 12345;
    let mut next = |m: u64| {
        seed = seed.wrapping_mul(6364136223846793005).wrapping_add(1442695040888963407);
        ((seed >> 33) % m) as usize
    };
    for _ in 0..200 {
        let (sw, sh) = (next(20), next(20));
        let mut frame = Frame::new(&numbered(1, 1), 0);
        frame.canvas_width = next(30);
        frame.canvas_height = next(30);
        frame.canvas_buffer = vec![3; next(500)];
        frame.toolbar.buffer = vec![4; next(500)];
        let out = composite(sw, sh, &frame, 1);
        assert_eq!(out.len(), sw * sh);
    }
}

#[test]
fn toolbar_click_on_button_presses_it() {
    let mut t = Toolbar::new(100);
    assert_eq!(t.buffer, vec![WHITE; TOOLBAR_HEIGHT * 100]);
    assert!(t.on_click(10, 370, 400));
    assert!(t.button_pressed);
    assert_eq!(t.buffer[5 * 100 + 5], BLACK);
    assert_eq!(t.buffer[34 * 100 + 34], BLACK);
    assert_eq!(t.buffer[4 * 100 + 5], WHITE);
    assert_eq!(t.buffer[5 * 100 + 35], WHITE);
    assert!(t.on_click(39, 399, 400));
    assert!(!t.button_pressed);
    assert_eq!(t.buffer[10 * 100 + 10], GRAY);
}

#[test]
fn toolbar_click_outside_strip_misses() {
    let mut t = Toolbar::new(100);
    assert!(!t.on_click(10, 10, 400));
    assert!(!t.on_click(40, 370, 400));
    assert!(!t.on_hover(40, 370, 400));
    assert!(!t.on_click(10, 359, 400));
    assert!(!t.on_click(10, 400, 400));
    assert!(!t.button_pressed);
    assert_eq!(t.buffer, vec![WHITE; TOOLBAR_HEIGHT * 100]);
}

#[test]
fn toolbar_hover_shows_gray_unless_pressed() {
    let mut t = Toolbar::new(50);
    assert!(t.on_hover(20, 380, 400));
    assert_eq!(t.buffer[6 * 50 + 6], GRAY);
    assert!(!t.on_hover(20, 100, 400));
    assert!(t.on_click(20, 380, 400));
    assert!(!t.on_hover(20, 380, 400));
    assert_eq!(t.buffer[6 * 50 + 6], BLACK);
}

#[test]
fn toolbar_reset_draws_caption_of_state() {
    let mut t = Toolbar::new(60);
    let normal = vec![Coverage { x: 50, y: 5, alpha: 255 }, Coverage { x: 51, y: 5, alpha: 0 }];
    let pressed = vec![Coverage { x: 52, y: 6, alpha: 128 }, Coverage { x: 500, y: 6, alpha: 255 }];
    t.set_captions(normal, pressed);
    t.reset();
    assert_eq!(t.buffer[5 * 60 + 50], BLACK);
    assert_eq!(t.buffer[5 * 60 + 51], WHITE);
    assert_eq!(t.buffer[6 * 60 + 52], WHITE);
    assert!(t.on_click(0, 0, 30));
    // (255 * 127) / 255 = 127 per channel
    assert_eq!(t.buffer[6 * 60 + 52], 0xFF7F_7F7F);
    assert_eq!(t.buffer[5 * 60 + 50], WHITE);
    t.update(10);
    assert_eq!(t.buffer, vec![WHITE; TOOLBAR_HEIGHT * 10]);
    assert!(t.button_pressed);
}

#[test]
fn hex_colours() {
    assert_eq!(parse_hex_color("0xFF8800"), Ok(0xFF8800));
    assert_eq!(parse_hex_color("#ff8800"), Ok(0xFF8800));
    assert_eq!(parse_hex_color("0x0x#1a"), Ok(0x1A));
    assert_eq!(parse_hex_color("+f"), Ok(0xF));
    assert_eq!(parse_hex_color("0"), Ok(0));
    assert_eq!(parse_hex_color("1234567"), Err(HexColorError::TooLong(7)));
    assert_eq!(parse_hex_color(""), Err(HexColorError::InvalidDigit));
    assert_eq!(parse_hex_color("0x"), Err(HexColorError::InvalidDigit));
    assert_eq!(parse_hex_color("12g"), Err(HexColorError::InvalidDigit));
    assert_eq!(parse_hex_color("+"), Err(HexColorError::InvalidDigit));
}

#[test]
fn keys_toggle_display_state() {
    let mut img = numbered(2, 2);
    assert!(img.locked_aspect_ratio);
    assert_eq!(handle_key(&mut img, 'a'), KeyAction::Refit);
    assert!(!img.locked_aspect_ratio);
    assert_eq!(handle_key(&mut img, 'g'), KeyAction::Resample);
    assert!(img.is_grayscale);
    assert_eq!(handle_key(&mut img, 'i'), KeyAction::Resample);
    assert!(img.inverted);
    assert_eq!(handle_key(&mut img, 'l'), KeyAction::Refit);
    assert_eq!(img.rotation, Rotation::Deg270);
    assert_eq!(handle_key(&mut img, 'r'), KeyAction::Refit);
    assert_eq!(handle_key(&mut img, 'r'), KeyAction::Refit);
    assert_eq!(img.rotation, Rotation::Deg90);
    assert_eq!(handle_key(&mut img, 'q'), KeyAction::Quit);
    assert_eq!(handle_key(&mut img, 'x'), KeyAction::Nothing);
    assert_eq!(img.rotation, Rotation::Deg90);
    assert!(img.is_grayscale && img.inverted && !img.locked_aspect_ratio);
}

#[test]
fn window_geometry() {
    assert_eq!(canvas_size_for_window(640, 480), (640, 440));
    assert_eq!(canvas_size_for_window(640, 30), (640, 0));
    assert_eq!(initial_window_size(100, 100, 1920, 1080), (800, 600));
    assert_eq!(initial_window_size(1000, 700, 1920, 1080), (1000, 740));
    assert_eq!(initial_window_size(4000, 4000, 1920, 1080), (1920, 1080));
    assert_eq!(initial_window_size(10, u32::MAX, 1920, u32::MAX), (800, u32::MAX));
}

#[test]
fn toolbar_short_window_hits_only_inside_window() {
    let mut t = Toolbar::new(60);
    assert!(!t.on_click(5, 35, 30));
    assert!(!t.on_hover(5, 30, 30));
    assert!(!t.button_pressed);
    assert!(t.on_click(5, 29, 30));
    assert!(t.button_pressed);
}
