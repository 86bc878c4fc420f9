use wlmatrix::glyph::{blank, glyph_set, rasterize, GlyphBmp, Outline};
use wlmatrix::paint::{blit, can_blit};

fn glyph(w: usize, h: usize, left: i32, top: i32, cov: &[u8]) -> GlyphBmp {
    GlyphBmp { w, h, left, top, cov: cov.to_vec() }
}

fn paint(buf: &mut [u32], w: usize, h: usize, ox: i32, oy: i32, g: &GlyphBmp, c: (u32, u32, u32)) {
    assert!(can_blit(buf.len(), w, h, ox, oy, g, c.0, c.1, c.2));
    blit(buf, w, h, ox, oy, g, c.0, c.1, c.2);
}

#[test]
fn samples_become_coverage() {
    let g = rasterize(3, 2, -1, 4, &vec![(0, 0, 10), (2, 1, 20), (3, 0, 99), (0, 2, 98), (0, 0, 11)]);
    assert_eq!((g.w, g.h, g.left, g.top), (3, 2, -1, 4));
    assert_eq!(g.cov, vec![11, 0, 0, 0, 0, 20]);
}

#[test]
fn empty_bitmaps_have_no_coverage() {
    assert!(rasterize(0, 5, 1, 1, &vec![(0, 0, 1)]).cov.is_empty());
    let b = blank();
    assert_eq!((b.w, b.h, b.left, b.top, b.cov.len()), (0, 0, 0, 0, 0));
}

#[test]
fn each_character_has_a_glyph() {
    let outline = Outline { w: 1, h: 1, left: 2, top: 3, samples: vec![(0, 0, 77)] };
    let set = glyph_set(&vec![None, Some(outline)]);
    assert_eq!(set.len(), 2);
    assert!(set[0].cov.is_empty());
    assert_eq!((set[1].left, set[1].top, set[1].cov[0]), (2, 3, 77));
}

#[test]
fn without_characters_there_is_one_blank_glyph() {
    let set = glyph_set(&vec![]);
    assert_eq!(set.len(), 1);
    assert!(set[0].cov.is_empty());
}

#[test]
fn covered_pixels_take_the_colour() {
    let g = glyph(2, 2, 0, 0, &[255, 128, 0, 1]);
    let mut buf = vec![7u32; 12];
    paint(&mut buf, 4, 3, 1, 1, &g, (255, 100, 10));
    let mut expected = vec![7u32; 12];
    expected[5] = 0xff640a;
    // 255 * 128 / 255 = 128, 100 * 128 / 255 = 50, 10 * 128 / 255 = 5.
    expected[6] = 0x803205;
    // 255 * 1 / 255 = 1, the others vanish.
    expected[10] = 0x010000;
    assert_eq!(buf, expected);
}

#[test]
fn glyphs_are_cut_off_at_the_edges() {
    let g = glyph(3, 3, 0, 0, &[255; 9]);
    let mut buf = vec![0u32; 4];
    paint(&mut buf, 2, 2, -2, -2, &g, (1, 2, 3));
    assert_eq!(buf, vec![0x010203, 0, 0, 0]);
    let mut buf = vec![0u32; 4];
    paint(&mut buf, 2, 2, 1, 1, &g, (1, 2, 3));
    assert_eq!(buf, vec![0, 0, 0, 0x010203]);
    let mut buf = vec![5u32; 4];
    paint(&mut buf, 2, 2, 2, 0, &g, (1, 2, 3));
    paint(&mut buf, 2, 2, 0, -3, &g, (1, 2, 3));
    assert_eq!(buf, vec![5u32; 4]);
}

#[test]
fn painting_twice_is_painting_once() {
    let g = glyph(2, 1, 0, 0, &[200, 0]);
    let mut once = vec![9u32; 6];
    paint(&mut once, 3, 2, 1, 1, &g, (220, 255, 220));
    let mut twice = once.clone();
    paint(&mut twice, 3, 2, 1, 1, &g, (220, 255, 220));
    assert_eq!(once, twice);
    assert_eq!(once[5], 9);
}

#[test]
fn full_coverage_is_the_colour_and_less_is_darker() {
    let mut last = 0;
    for a in 1..=255u8 {
        let g = glyph(1, 1, 0, 0, &[a]);
        let mut buf = vec![0u32];
        paint(&mut buf, 1, 1, 0, 0, &g, (0, 0, 170));
        assert!(buf[0] >= last);
        last = buf[0];
    }
    assert_eq!(last, 170);
}

#[test]
fn what_does_not_fit_is_told() {
    let g = glyph(2, 1, 0, 0, &[255, 255]);
    // The buffer is too short for the second pixel, unless the picture ends before it.
    assert!(!can_blit(1, 2, 1, 0, 0, &g, 1, 1, 1));
    assert!(can_blit(1, 1, 1, 0, 0, &g, 1, 1, 1));
    // A colour that overflows when it is scaled.
    assert!(!can_blit(2, 2, 1, 0, 0, &g, u32::MAX, 0, 0));
    assert!(can_blit(2, 2, 1, 5, 0, &g, u32::MAX, 0, 0));
    // A place past the last coordinate.
    assert!(!can_blit(2, 2, 1, i32::MAX, 0, &g, 1, 1, 1));
    assert!(can_blit(2, 2, 1, i32::MAX - 1, 0, &g, 1, 1, 1));
    // Coverage that does not match the size.
    assert!(!can_blit(2, 2, 1, 0, 0, &glyph(2, 2, 0, 0, &[255, 255]), 1, 1, 1));
}

#[test]
fn wide_colours_wrap_to_a_byte() {
    let g = glyph(1, 1, 0, 0, &[255]);
    let mut buf = vec![0u32];
    paint(&mut buf, 1, 1, 0, 0, &g, (0x1ff, 0x100, 0x203));
    assert_eq!(buf[0], 0xff0003);
}
