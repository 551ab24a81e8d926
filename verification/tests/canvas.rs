use wasm_zero::canvas::darken_rect;
use wasm_zero::canvas::draw_banner;
use wasm_zero::canvas::draw_crosshair;
use wasm_zero::canvas::draw_sidebar;
use wasm_zero::canvas::draw_text;
use wasm_zero::canvas::fill_rect;
use wasm_zero::canvas::finish_frame;
use wasm_zero::canvas::fmt_u32;
use wasm_zero::canvas::height;
use wasm_zero::canvas::paint_view;
use wasm_zero::canvas::text_width;
use wasm_zero::canvas::width;
use wasm_zero::canvas::Source;
use wasm_zero::canvas::Ui;
use wasm_zero::canvas::FRAME_LEN;
use wasm_zero::canvas::HEIGHT;
use wasm_zero::canvas::SIDEBAR_W;
use wasm_zero::canvas::VIEW_W;
use wasm_zero::canvas::WIDTH;
use wasm_zero::font::glyph;
use wasm_zero::mem::MAX_BUFFER_SIZE;

fn pixel(frame: &[u8], x: usize, y: usize) -> [u8; 4] {
    let o = (y * WIDTH + x) * 4;
    [frame[o], frame[o + 1], frame[o + 2], frame[o + 3]]
}

fn count(frame: &[u8], p: [u8; 4]) -> usize {
    frame.chunks(4).filter(|c| *c == p).count()
}

#[test]
fn frames_have_their_size() {
    assert_eq!((width(), height()), (320, 240));
    assert_eq!(FRAME_LEN, WIDTH * HEIGHT * 4);
    assert!(FRAME_LEN + 8 <= MAX_BUFFER_SIZE);
}

#[test]
fn rectangles_are_filled_and_clipped() {
    let mut frame = vec![0u8; FRAME_LEN];
    fill_rect(&mut frame, 10, 20, 3, 2, (1, 2, 3));
    assert_eq!(count(&frame, [1, 2, 3, 255]), 6);
    assert_eq!(pixel(&frame, 12, 21), [1, 2, 3, 255]);
    assert_eq!(pixel(&frame, 13, 21), [0, 0, 0, 0]);
    fill_rect(&mut frame, 318, 238, 100, 100, (9, 9, 9));
    assert_eq!(count(&frame, [9, 9, 9, 255]), 4);
    fill_rect(&mut frame, 1000, 0, 5, 5, (8, 8, 8));
    assert_eq!(count(&frame, [8, 8, 8, 255]), 0);
}

#[test]
fn rectangles_are_darkened() {
    let mut frame = vec![201u8; FRAME_LEN];
    darken_rect(&mut frame, 319, 0, 2, 1);
    assert_eq!(pixel(&frame, 319, 0), [100, 100, 100, 201]);
    assert_eq!(count(&frame, [201, 201, 201, 201]), WIDTH * HEIGHT - 1);
}

#[test]
fn text_is_written_dot_by_dot() {
    let mut frame = vec![0u8; FRAME_LEN];
    draw_text(&mut frame, 100, 50, 1, b"L?T", (5, 6, 7));
    // L: six rows of one dot and one of six; T: one of six and six of two.
    assert_eq!(count(&frame, [5, 6, 7, 255]), 6 + 6 + 6 + 12);
    assert_eq!(pixel(&frame, 100, 56), [5, 6, 7, 255]);
    assert_eq!(pixel(&frame, 105, 56), [5, 6, 7, 255]);
    assert_eq!(pixel(&frame, 106, 56), [0, 0, 0, 0]);
    assert_eq!(pixel(&frame, 114, 50), [5, 6, 7, 255]);
    let mut frame = vec![0u8; FRAME_LEN];
    draw_text(&mut frame, 100, 50, 2, b"L", (5, 6, 7));
    assert_eq!(count(&frame, [5, 6, 7, 255]), 4 * 12);
    assert_eq!(text_width(b"HELLO", 2), 70);
}

#[test]
fn glyphs_are_six_by_seven() {
    for ch in 0..=255u8 {
        let rows = glyph(ch);
        assert_eq!(rows[7], 0);
        assert!(rows.iter().all(|r| r & 3 == 0));
        let known = ch.is_ascii_uppercase() || ch.is_ascii_digit();
        assert_eq!(known, rows != [0; 8]);
        for other in 0..ch {
            assert!(!known || glyph(other) != rows, "{ch} {other}");
        }
    }
    assert_eq!(glyph(b'T'), [0b1111_1100, 48, 48, 48, 48, 48, 48, 0]);
    assert_eq!(glyph(b'9'), [120, 132, 132, 124, 4, 8, 112, 0]);
    assert_eq!(glyph(b'A'), [120, 132, 132, 252, 132, 132, 132, 0]);
    assert_eq!(glyph(b'X'), [132, 72, 48, 48, 48, 72, 132, 0]);
}

#[test]
fn numbers_are_written_out() {
    assert_eq!(fmt_u32(0), b"0");
    assert_eq!(fmt_u32(7), b"7");
    assert_eq!(fmt_u32(1020), b"1020");
    assert_eq!(fmt_u32(u32::MAX), b"4294967295");
}

#[test]
fn the_banner_is_in_the_middle_of_the_view() {
    let mut frame = vec![100u8; FRAME_LEN];
    draw_banner(&mut frame, b"I");
    // 14 wide, from 96 + 105 = 201; the plate reaches six pixels beyond.
    assert_eq!(pixel(&frame, 195, 106), [50, 50, 50, 100]);
    assert_eq!(pixel(&frame, 194, 106), [100, 100, 100, 100]);
    assert_eq!(pixel(&frame, 220, 133), [50, 50, 50, 100]);
    assert_eq!(pixel(&frame, 221, 133), [100, 100, 100, 100]);
    assert_eq!(pixel(&frame, 220, 134), [100, 100, 100, 100]);
    assert_eq!(pixel(&frame, 201, 112), [255, 255, 255, 255]);
}

#[test]
fn the_cross_is_clipped_at_the_edge() {
    let mut frame = vec![0u8; FRAME_LEN];
    draw_crosshair(&mut frame, 2, 100);
    assert_eq!(count(&frame, [255, 255, 255, 255]), 9 + 9 - 1);
    assert_eq!(pixel(&frame, 8, 100), [255, 255, 255, 255]);
    assert_eq!(pixel(&frame, 2, 96), [255, 255, 255, 255]);
}

#[test]
fn the_sidebar_leaves_the_view_alone() {
    let mut frame = vec![77u8; FRAME_LEN];
    draw_sidebar(&mut frame, true, u32::MAX, true, true);
    for y in 0..HEIGHT {
        for x in SIDEBAR_W..WIDTH {
            assert_eq!(pixel(&frame, x, y), [77; 4]);
        }
    }
    assert_eq!(pixel(&frame, 0, 0), [24, 26, 32, 255]);
    assert_eq!(pixel(&frame, 95, 239), [52, 56, 70, 255]);
    assert_eq!(pixel(&frame, 12, 64), [90, 100, 130, 255]);
    assert_eq!(pixel(&frame, 13, 65), [58, 92, 168, 255]);
    draw_sidebar(&mut frame, false, 0, true, false);
    assert_eq!(pixel(&frame, 13, 65), [70, 82, 116, 255]);
    draw_sidebar(&mut frame, false, 0, false, true);
    assert_eq!(pixel(&frame, 13, 65), [44, 50, 66, 255]);
}

#[test]
fn the_view_is_painted_row_by_row() {
    let mut frame = vec![0u8; FRAME_LEN];
    let mut colours = vec![(1, 1, 1); VIEW_W * HEIGHT];
    colours[VIEW_W + 5] = (9, 8, 7);
    paint_view(&mut frame, &colours);
    assert_eq!(pixel(&frame, 96 + 5, 1), [9, 8, 7, 255]);
    assert_eq!(count(&frame, [1, 1, 1, 255]), VIEW_W * HEIGHT - 1);
    assert_eq!(count(&frame, [0, 0, 0, 0]), SIDEBAR_W * HEIGHT);
}

#[test]
fn clicks_pause_and_go_on() {
    let mut ui = Ui::new();
    assert_eq!(ui.source(true), Source::Orbit);
    ui.point(true, true);
    ui.point(true, true);
    assert_eq!((ui.paused, ui.clicks), (true, 1));
    assert_eq!(ui.source(true), Source::Pointer);
    assert_eq!(ui.source(false), Source::Kept);
    ui.point(true, false);
    ui.point(false, true);
    ui.point(true, true);
    assert_eq!((ui.paused, ui.clicks), (true, 1));
    ui.point(true, false);
    ui.point(true, true);
    assert_eq!((ui.paused, ui.clicks), (false, 2));
}

#[test]
fn frames_are_finished() {
    let mut ui = Ui::new();
    let mut playing = vec![60u8; FRAME_LEN];
    finish_frame(&mut playing, &ui, Some((200, 20)), false, false);
    assert_eq!(pixel(&playing, 200, 20), [60; 4]);
    ui.point(true, true);
    let mut paused = vec![60u8; FRAME_LEN];
    finish_frame(&mut paused, &ui, Some((200, 20)), false, false);
    assert_eq!(pixel(&paused, 200, 20), [255, 255, 255, 255]);
    assert_eq!(pixel(&paused, 0, 0), [24, 26, 32, 255]);
    // HELLO WORLD is 154 wide and starts at 131, with an H.
    assert_eq!(pixel(&paused, 131, 112), [255, 255, 255, 255]);
    assert_eq!(pixel(&paused, 133, 112), [30, 30, 30, 60]);
}
