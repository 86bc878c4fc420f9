use wlmatrix::frame::{can_paint, paint_frame, Column, Scene};
use wlmatrix::glyph::GlyphBmp;

fn dot(left: i32, top: i32) -> GlyphBmp {
    GlyphBmp { w: 1, h: 1, left, top, cov: vec![255] }
}

fn empty() -> GlyphBmp {
    GlyphBmp { w: 0, h: 0, left: 0, top: 0, cov: vec![] }
}

struct World {
    glyphs: Vec<GlyphBmp>,
    columns: Vec<Column>,
    heads: Vec<i32>,
    fades: Vec<Vec<(u32, u32, u32)>>,
}

/// A grid of two columns and four rows, in cells of two by three pixels.
fn world(heads: [i32; 2], len: i32) -> World {
    let fade: Vec<(u32, u32, u32)> = (1..=len as u32).map(|k| (0, 100 - k, 0)).collect();
    World {
        glyphs: vec![dot(0, 0), dot(1, 1), empty()],
        columns: vec![
            Column { len, chars: vec![0, 1, 0, 2] },
            Column { len, chars: vec![1, 1, 1, 1] },
        ],
        heads: heads.to_vec(),
        fades: vec![fade.clone(), fade],
    }
}

fn scene(w: &World) -> Scene<'_> {
    Scene {
        width: 4,
        height: 12,
        glyphs: &w.glyphs,
        columns: &w.columns,
        heads: &w.heads,
        fades: &w.fades,
        cell_w: 2,
        cell_h: 3,
        rows: 4,
        head: (220, 255, 220),
    }
}

fn painted(w: &World) -> Vec<(usize, usize, u32)> {
    let s = scene(w);
    let mut buf = vec![0xdead_beefu32; 48];
    assert!(can_paint(&s, buf.len()));
    paint_frame(&mut buf, &s);
    (0..48).filter(|i| buf[*i] != 0).map(|i| (i % 4, i / 4, buf[i])).collect()
}

#[test]
fn the_leader_is_bright_and_the_trail_is_above_it() {
    // Leaders in rows 2 and 0; the trail of the first is in rows 1 and 0.
    assert_eq!(
        painted(&world([2, 0], 2)),
        vec![
            (0, 0, 0x006200),
            (3, 1, 0xdcffdc),
            (1, 4, 0x006300),
            (0, 6, 0xdcffdc),
        ]
    );
}

#[test]
fn empty_glyphs_show_nothing() {
    assert_eq!(painted(&world([3, -1], 1)), vec![(0, 6, 0x006300)]);
}

#[test]
fn columns_off_the_grid_show_nothing() {
    assert_eq!(painted(&world([-1, -7], 6)), vec![]);
    assert_eq!(painted(&world([11, 10], 6)), vec![]);
    assert_eq!(painted(&world([6, 10], 6)).len(), 3);
}

#[test]
fn pixels_are_red_green_and_blue() {
    for (_, _, px) in painted(&world([3, 2], 3)) {
        assert!(px < 0x100_0000);
    }
}

#[test]
fn later_cells_are_painted_over_earlier_ones() {
    let mut w = world([1, -1], 1);
    // The leader's dot is moved up onto the trail's.
    w.glyphs[1] = dot(0, -3);
    assert_eq!(painted(&w), vec![(0, 0, 0x006300)]);
}

#[test]
fn what_cannot_be_painted_is_told() {
    let w = world([2, 0], 2);
    assert!(can_paint(&scene(&w), 48));
    // Nothing is painted past the seventh row of pixels.
    assert!(can_paint(&scene(&w), 25));
    assert!(!can_paint(&scene(&w), 24));

    let mut w = world([2, 0], 2);
    w.columns[0].chars[2] = 3;
    assert!(!can_paint(&scene(&w), 48));

    let mut w = world([2, 0], 2);
    w.columns[0].chars.truncate(2);
    assert!(!can_paint(&scene(&w), 48));

    let mut w = world([2, 0], 2);
    w.fades[1].pop();
    assert!(!can_paint(&scene(&w), 48));

    let mut w = world([2, 0], 2);
    w.heads.pop();
    assert!(!can_paint(&scene(&w), 48));

    assert!(!can_paint(&scene(&world([i32::MIN, 0], 2)), 48));
    assert!(can_paint(&scene(&world([i32::MAX, 0], 2)), 48));
}
