use font8x8::legacy::BASIC_LEGACY;
use pangea_kernel::writer::{Writer, BACKBUFFER_SIZE, BG_COLOR, FG_COLOR, MAX_COLS, MAX_LINES};

fn lit(glyph: [u8; 8], gx: usize, gy: usize) -> bool {
    glyph[gy] & (1 << gx) != 0
}

#[test]
fn new_console_has_one_empty_line() {
    let w = Writer::new(640, 480, 640 * 4);
    assert_eq!(w.total_lines(), 1);
    assert_eq!(w.view_offset(), 0);
    assert!(w.line_text(0).is_empty());
}

#[test]
fn text_and_line_breaks() {
    let mut w = Writer::new(640, 480, 640 * 4);
    w.write_str(b"hi\nthere");
    assert_eq!(w.total_lines(), 2);
    assert_eq!(w.line_text(0), b"hi".to_vec());
    assert_eq!(w.line_text(1), b"there".to_vec());
    w.write_byte(b'!');
    assert_eq!(w.line_text(1), b"there!".to_vec());
}

#[test]
fn unprintable_bytes_show_as_question_marks() {
    let mut w = Writer::new(640, 480, 640 * 4);
    w.write_str(&[b'a', 0x07, 0xc3, b'\t', b'z']);
    assert_eq!(w.line_text(0), b"a???z".to_vec());
}

#[test]
fn long_lines_wrap_at_the_screen_width() {
    // 64 pixels hold four 16-pixel characters
    let mut w = Writer::new(64, 480, 256);
    w.write_str(b"abcdefghij");
    assert_eq!(w.total_lines(), 3);
    assert_eq!(w.line_text(0), b"abcd".to_vec());
    assert_eq!(w.line_text(1), b"efgh".to_vec());
    assert_eq!(w.line_text(2), b"ij".to_vec());
}

#[test]
fn long_lines_wrap_at_the_column_limit() {
    let mut w = Writer::new(4096, 480, 4096 * 4);
    let text = vec![b'x'; MAX_COLS + 2];
    w.write_str(&text);
    assert_eq!(w.total_lines(), 2);
    assert_eq!(w.line_text(0).len(), MAX_COLS);
    assert_eq!(w.line_text(1), b"xx".to_vec());
}

#[test]
fn history_is_a_ring() {
    let mut w = Writer::new(640, 480, 640 * 4);
    for _ in 0..MAX_LINES {
        w.write_str(b"old\n");
    }
    w.write_str(b"new");
    assert_eq!(w.total_lines(), MAX_LINES + 1);
    assert_eq!(w.line_text(MAX_LINES), b"new".to_vec());
    // line 0 shared its ring row with the newest line
    assert_eq!(w.line_text(0), b"new".to_vec());
    assert_eq!(w.line_text(1), b"old".to_vec());
}

#[test]
fn scrolling_is_clamped() {
    // 480 / 16 = 30 visible lines
    let mut w = Writer::new(640, 480, 640 * 4);
    for _ in 0..40 {
        w.write_byte(b'\n');
    }
    assert_eq!(w.total_lines(), 41);
    assert!(w.scroll_up());
    assert_eq!(w.view_offset(), 5);
    assert!(w.scroll_up());
    assert_eq!(w.view_offset(), 10);
    assert!(w.scroll_up());
    assert_eq!(w.view_offset(), 11);
    assert!(!w.scroll_up());
    assert_eq!(w.view_offset(), 11);
    w.scroll_down();
    assert_eq!(w.view_offset(), 6);
    w.scroll_down();
    w.scroll_down();
    assert_eq!(w.view_offset(), 0);
    w.scroll_up();
    w.reset_view();
    assert_eq!(w.view_offset(), 0);
}

#[test]
fn no_scrolling_with_a_single_screen() {
    let mut w = Writer::new(640, 480, 640 * 4);
    w.write_str(b"a\nb\n");
    assert!(!w.scroll_up());
    assert_eq!(w.view_offset(), 0);
}

#[test]
fn redraw_draws_glyphs_scaled() {
    let width = 64;
    let height = 48;
    let mut w = Writer::new(width, height, width * 4);
    w.write_str(b"A\nZ");
    let mut bb = vec![0u32; BACKBUFFER_SIZE];
    w.redraw(&mut bb);
    let row = width;
    let a = BASIC_LEGACY[b'A' as usize];
    let z = BASIC_LEGACY[b'Z' as usize];
    let mut lit_count = 0;
    for gy in 0..8 {
        for gx in 0..8 {
            for (dy, dx) in [(0, 0), (0, 1), (1, 0), (1, 1)] {
                let pa = bb[(gy * 2 + dy) * row + gx * 2 + dx];
                assert_eq!(pa, if lit(a, gx, gy) { FG_COLOR } else { BG_COLOR });
                let pz = bb[(16 + gy * 2 + dy) * row + gx * 2 + dx];
                assert_eq!(pz, if lit(z, gx, gy) { FG_COLOR } else { BG_COLOR });
                if lit(a, gx, gy) {
                    lit_count += 1;
                }
            }
        }
    }
    assert!(lit_count > 0);
    // nothing beyond the two characters is drawn
    assert_eq!(bb[16], BG_COLOR);
    assert!(bb[width * height..].iter().all(|&p| p == BG_COLOR));
}

#[test]
fn redraw_shows_the_scrolled_view() {
    // 32 pixels high: two visible lines
    let width = 32;
    let mut w = Writer::new(width, 32, width * 4);
    w.write_str(b"A\n\n\n");
    let mut bb = vec![0u32; BACKBUFFER_SIZE];
    w.redraw(&mut bb);
    assert!(bb[..width * 32].iter().all(|&p| p == BG_COLOR));
    assert!(w.scroll_up());
    assert_eq!(w.view_offset(), 2);
    w.redraw(&mut bb);
    let a = BASIC_LEGACY[b'A' as usize];
    for gy in 0..8 {
        for gx in 0..8 {
            let p = bb[(gy * 2) * width + gx * 2];
            assert_eq!(p, if lit(a, gx, gy) { FG_COLOR } else { BG_COLOR });
        }
    }
}

#[test]
fn high_bytes_draw_as_question_mark() {
    let w = Writer::new(64, 48, 256);
    let mut a = vec![BG_COLOR; BACKBUFFER_SIZE];
    let mut b = vec![BG_COLOR; BACKBUFFER_SIZE];
    w.draw_char_to_backbuffer(0xe9, 0, 0, &mut a);
    w.draw_char_to_backbuffer(b'?', 0, 0, &mut b);
    assert!(a == b);
    let q = BASIC_LEGACY[b'?' as usize];
    assert_eq!(a[0], if lit(q, 0, 0) { FG_COLOR } else { BG_COLOR });
}

#[test]
fn glyphs_are_clipped_at_the_screen_edge() {
    let w = Writer::new(20, 20, 80);
    let mut bb = vec![BG_COLOR; BACKBUFFER_SIZE];
    w.draw_glyph(&[0xff; 8], 10, 10, &mut bb);
    for y in 0..30 {
        for x in 0..20 {
            let expect = x >= 10 && y >= 10 && y < 20;
            if y < 20 {
                assert_eq!(bb[y * 20 + x] == FG_COLOR, expect, "pixel {x},{y}");
            }
        }
    }
    assert!(bb[400..].iter().all(|&p| p == BG_COLOR));
}
