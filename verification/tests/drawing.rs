use binder::canvas::{fill_rect, fill_rounded_rect, inside_rounded_rect, put, stroke_rounded_rect, MAX_CORNER_RADIUS};
use binder::desktop::{render_desktop, BAR_COLOR, DOCK_COLOR, DOCK_EDGE_COLOR, TEXT_COLOR};
use binder::font::{draw_char, draw_text, glyph};

fn rows(px: &[u32], stride: usize) -> Vec<String> {
    px.chunks(stride)
        .map(|row| row.iter().map(|c| if *c == 0 { '.' } else { '#' }).collect())
        .collect()
}

fn hash(px: &[u32]) -> u64 {
    let mut v: u64 = 0xcbf2_9ce4_8422_2325;
    for p in px {
        v = (v ^ *p as u64).wrapping_mul(0x100_0000_01b3);
    }
    v
}

#[test]
fn put_sets_one_pixel() {
    let mut px = vec![0u32; 12];
    put(&mut px, 4, 1, 2, 7);
    let mut expected = vec![0u32; 12];
    expected[9] = 7;
    assert_eq!(px, expected);
}

#[test]
fn put_clips() {
    let mut px = vec![0u32; 14];
    for (x, y) in [(-1, 0), (0, -1), (4, 0), (0, 3), (1, 3), (i32::MAX, i32::MAX), (i32::MIN, 0)] {
        put(&mut px, 4, x, y, 7);
    }
    put(&mut px, 0, -1, 5, 7);
    assert_eq!(px, vec![0u32; 14]);
}

#[test]
fn fill_rect_clips_on_all_sides() {
    let mut px = vec![0u32; 20];
    fill_rect(&mut px, 5, 1, 1, 3, 2, 1);
    assert_eq!(rows(&px, 5), [".....", ".###.", ".###.", "....."]);
    let mut px = vec![0u32; 20];
    fill_rect(&mut px, 5, -7, -7, 9, 9, 1);
    assert_eq!(rows(&px, 5), ["##...", "##...", ".....", "....."]);
    let mut px = vec![0u32; 20];
    fill_rect(&mut px, 5, 3, 2, i32::MAX - 3, i32::MAX - 2, 1);
    assert_eq!(rows(&px, 5), [".....", ".....", "...##", "...##"]);
}

#[test]
fn fill_rect_leaves_the_rest_behind_the_last_row() {
    let mut px = vec![0u32; 14];
    fill_rect(&mut px, 4, 0, 0, 4, 100, 1);
    assert_eq!(&px[..12], &[1u32; 12]);
    assert_eq!(&px[12..], &[0u32; 2]);
}

#[test]
fn fill_rect_without_size_is_empty() {
    let mut px = vec![0u32; 4];
    fill_rect(&mut px, 0, i32::MAX, 0, 0, 5, 1);
    fill_rect(&mut px, 0, 0, i32::MAX, 5, -1, 1);
    assert_eq!(px, vec![0u32; 4]);
}

#[test]
fn rounded_corner_of_an_icon() {
    assert!(!inside_rounded_rect(0, 0, 40, 40, 12));
    assert!(inside_rounded_rect(4, 3, 40, 40, 12));
    assert!(!inside_rounded_rect(2, 3, 40, 40, 12));
    assert!(inside_rounded_rect(12, 0, 40, 40, 12));
    assert!(inside_rounded_rect(0, 12, 40, 40, 12));
    assert!(!inside_rounded_rect(40, 12, 40, 40, 12));
    assert!(!inside_rounded_rect(-1, 12, 40, 40, 12));
    assert!(inside_rounded_rect(0, 0, 1, 1, 0));
}

#[test]
fn rounded_rect_is_symmetric() {
    for (w, h, r) in [(40, 40, 12), (276, 75, 18), (9, 7, 3)] {
        for y in -1..=h {
            for x in -1..=w {
                let here = inside_rounded_rect(x, y, w, h, r);
                assert_eq!(here, inside_rounded_rect(w - 1 - x, y, w, h, r));
                assert_eq!(here, inside_rounded_rect(x, h - 1 - y, w, h, r));
            }
        }
    }
}

#[test]
fn largest_radius_is_computed() {
    let r = MAX_CORNER_RADIUS;
    assert!(!inside_rounded_rect(0, 0, 2 * r, 2 * r, r));
    assert!(inside_rounded_rect(r - 1, 0, 2 * r, 2 * r, r));
}

#[test]
fn stroke_draws_the_outline() {
    let mut px = vec![0u32; 144];
    stroke_rounded_rect(&mut px, 12, 0, 0, 12, 12, 5, 1);
    assert_eq!(
        rows(&px, 12),
        [
            ".##########.",
            "##........##",
            "#..........#",
            "#..........#",
            "#..........#",
            "#..........#",
            "#..........#",
            "#..........#",
            "#..........#",
            "#..........#",
            "##........##",
            ".##########.",
        ]
    );
}

#[test]
fn stroke_of_small_rectangles_is_empty() {
    let mut px = vec![0u32; 25];
    stroke_rounded_rect(&mut px, 5, 0, 0, 2, 5, 1, 1);
    stroke_rounded_rect(&mut px, 5, 0, 0, 5, 2, 1, 1);
    assert_eq!(px, vec![0u32; 25]);
    stroke_rounded_rect(&mut px, 5, 1, 1, 3, 3, 0, 1);
    assert_eq!(rows(&px, 5), [".....", ".###.", ".#.#.", ".###.", "....."]);
}

#[test]
fn radius_is_clamped() {
    let mut a = vec![0u32; 400];
    let mut b = vec![0u32; 400];
    fill_rounded_rect(&mut a, 20, 2, 2, 16, 12, 1000, 1);
    fill_rounded_rect(&mut b, 20, 2, 2, 16, 12, 6, 1);
    assert_eq!(a, b);
    assert_eq!(a[2 * 20 + 2], 0);
    let mut a = vec![0u32; 400];
    let mut b = vec![0u32; 400];
    fill_rounded_rect(&mut a, 20, 2, 2, 16, 12, -5, 1);
    fill_rect(&mut b, 20, 2, 2, 16, 12, 1);
    assert_eq!(a, b);
}

#[test]
fn rounded_rect_off_the_canvas_draws_nothing() {
    let mut px = vec![0u32; 25];
    fill_rounded_rect(&mut px, 5, -50, -50, 10, 10, 3, 1);
    stroke_rounded_rect(&mut px, 5, 100, 100, 10, 10, 3, 1);
    fill_rounded_rect(&mut px, 0, -50, -50, 10, 10, 3, 1);
    fill_rounded_rect(&mut px, 5, 0, 0, 0, 10, 3, 1);
    assert_eq!(px, vec![0u32; 25]);
}

#[test]
fn glyph_table() {
    assert_eq!(glyph(b'm'), [0x00, 0x1A, 0x15, 0x15, 0x15, 0x15, 0x15]);
    assert_eq!(glyph(b'M'), [0x11, 0x1B, 0x15, 0x15, 0x11, 0x11, 0x11]);
    assert_eq!(glyph(b'P'), [0x1E, 0x11, 0x11, 0x1E, 0x10, 0x10, 0x10]);
    assert_eq!(glyph(b'5'), [0x1F, 0x10, 0x1E, 0x01, 0x01, 0x11, 0x0E]);
    assert_eq!(glyph(b' '), [0; 7]);
    let unknown = [0x1F, 0x01, 0x02, 0x04, 0x08, 0x00, 0x08];
    for ch in [b'3', b'S', b'O', 0, 0x7F, 0x80, 0xFF] {
        assert_eq!(glyph(ch), unknown);
    }
}

#[test]
fn text_is_drawn_in_cells() {
    let mut px = vec![0u32; 18 * 7];
    draw_text(&mut px, 18, 0, 0, "m5?", 1);
    assert_eq!(
        rows(&px, 18),
        [
            "......#####.#####.",
            "##.#..#.........#.",
            "#.#.#.####.....#..",
            "#.#.#.....#...#...",
            "#.#.#.....#..#....",
            "#.#.#.#...#.......",
            "#.#.#..###...#....",
        ]
    );
}

#[test]
fn text_is_its_characters() {
    let mut a = vec![0u32; 40 * 9];
    let mut b = vec![0u32; 40 * 9];
    draw_text(&mut a, 40, -3, 1, "12:4", 5);
    for (k, ch) in "12:4".bytes().enumerate() {
        draw_char(&mut b, 40, -3 + 6 * k as i32, 1, ch, 5);
    }
    assert_eq!(a, b);
    assert!(a.iter().any(|c| *c == 5));
}

#[test]
fn text_beyond_ascii_takes_a_cell_per_byte() {
    let mut a = vec![0u32; 18 * 7];
    let mut b = vec![0u32; 18 * 7];
    draw_text(&mut a, 18, 0, 0, "\u{3042}", 1);
    draw_text(&mut b, 18, 0, 0, "???", 1);
    assert_eq!(a, b);
}

#[test]
fn desktop_pixels() {
    let px = render_desktop(640, 480);
    assert_eq!(px.len(), 640 * 480);
    assert_eq!(px[0], BAR_COLOR);
    assert_eq!(px[11 * 640 + 24], TEXT_COLOR);
    assert_eq!(px[100 * 640 + 5], 0xFFCB_DEED);
    assert_eq!(px[479 * 640], 0xFF88_B6D0);
    assert_eq!(px[400 * 640 + 320], DOCK_COLOR);
    assert_eq!(px[391 * 640 + 232], DOCK_EDGE_COLOR);
    assert_eq!(px[391 * 640 + 182], 0xFF97_BFD7);
    let icons = [0xFF60_A5FA, 0xFF4A_DE80, 0xFFF5_9E0B, 0xFFFB_7185, 0xFFA7_8BFA];
    for (n, c) in icons.iter().enumerate() {
        assert_eq!(px[(391 + 18 + 20) * 640 + 182 + 18 + 48 * n + 20], *c);
    }
}

#[test]
fn desktop_pictures() {
    assert_eq!(hash(&render_desktop(640, 480)), 0xd3e4_82f0_5950_a222);
    assert_eq!(hash(&render_desktop(1280, 800)), 0xd14f_a015_006f_755e);
    assert_eq!(hash(&render_desktop(101, 57)), 0xf845_4da6_2bb0_837b);
    assert_eq!(hash(&render_desktop(1, 1)), 0x6415_773e_6e0b_b6ed);
    assert_eq!(hash(&render_desktop(277, 130)), 0x1926_f7d3_caed_f218);
    assert_eq!(hash(&render_desktop(300, 7)), 0x1366_9ab5_18c5_3305);
}

#[test]
fn desktop_without_rows_is_empty() {
    assert!(render_desktop(5, 0).is_empty());
}

#[test]
fn desktop_is_opaque_but_for_the_dock() {
    for c in render_desktop(400, 300) {
        assert!(c >= 0xFF00_0000 || c == DOCK_COLOR);
    }
}
