use wlmatrix::encode::encode_png;
use wlmatrix::frame::{can_paint, paint_frame, Column, Scene};
use wlmatrix::glyph::{blank, GlyphBmp};
use wlmatrix::rain::{Rain, Spawn, SEED};
use wlmatrix::rng::Rng;

fn glyphs(n: usize) -> Vec<GlyphBmp> {
    (0..n).map(|_| blank()).collect()
}

fn chars(rain: &Rain) -> Vec<Vec<u8>> {
    rain.columns.iter().map(|c| c.chars.clone()).collect()
}

fn lens(rain: &Rain) -> Vec<i32> {
    rain.columns.iter().map(|c| c.len).collect()
}

#[test]
fn new_rain_has_no_grid() {
    let rain = Rain::new(glyphs(3), 8, 10);
    assert_eq!((rain.cols, rain.rows, rain.columns.len()), (0, 0, 0));
    assert_eq!(rain.rng.0, SEED);
    assert!(!rain.inited_grid);
    assert_eq!(SEED, 0x9E3779B97F4A7C15);
}

#[test]
fn the_first_grid_is_this_one() {
    let mut rain = Rain::new(glyphs(3), 8, 10);
    let spawns = rain.rebuild_grid(16, 20);
    assert!(rain.inited_grid);
    assert_eq!((rain.cols, rain.rows), (2, 2));
    assert_eq!(chars(&rain), vec![vec![0, 0], vec![0, 1]]);
    assert_eq!(
        spawns,
        vec![
            Spawn { speed: 8_062_926, drop: 0, len: 8 },
            Spawn { speed: 14_264_953, drop: 1, len: 6 },
        ]
    );
    assert_eq!(lens(&rain), vec![8, 6]);
    assert_eq!(rain.rng.0, 0x8f8e_a9d3_4942_8d8e);
}

#[test]
fn the_grid_fits_the_picture() {
    let mut rain = Rain::new(glyphs(1), 8, 10);
    rain.rebuild_grid(7, 9);
    assert_eq!((rain.cols, rain.rows), (1, 1));
    rain.rebuild_grid(23, 29);
    assert_eq!((rain.cols, rain.rows), (2, 2));
    rain.rebuild_grid(24, 30);
    assert_eq!((rain.cols, rain.rows), (3, 3));
    rain.rebuild_grid(0, 0);
    assert_eq!((rain.cols, rain.rows), (1, 1));
}

#[test]
fn larger_cells_are_sparser() {
    let columns = |cell: usize| {
        let mut rain = Rain::new(glyphs(1), cell, cell);
        rain.rebuild_grid(100, 10);
        rain.cols
    };
    assert_eq!((columns(8), columns(9), columns(26), columns(300)), (12, 11, 3, 1));
}

#[test]
fn columns_are_filled_from_consecutive_draws() {
    let mut rain = Rain::new(glyphs(77), 2, 2);
    let spawns = rain.rebuild_grid(20, 80);
    let mut rng = Rng(SEED);
    assert_eq!((rain.cols, rain.rows), (10, 40));
    for (column, spawn) in rain.columns.iter().zip(&spawns) {
        for c in &column.chars {
            assert_eq!(*c, rng.below(77) as u8);
        }
        assert_eq!(spawn.speed, rng.frac());
        assert_eq!(spawn.drop, rng.below(40));
        assert_eq!(spawn.len, 6 + rng.below(20) as i32);
        assert_eq!(column.len, spawn.len);
        assert!(spawn.drop < 40 && spawn.len >= 6 && spawn.len < 26);
    }
    assert_eq!(rain.rng.0, rng.0);
}

#[test]
fn only_the_first_256_glyphs_are_picked() {
    let mut rain = Rain::new(glyphs(300), 1, 1);
    rain.rebuild_grid(1, 400);
    let mut rng = Rng(SEED);
    let expected: Vec<u8> = (0..400).map(|_| (rng.below(300) % 256) as u8).collect();
    assert_eq!(rain.columns[0].chars, expected);
}

#[test]
fn entered_rows_get_new_characters() {
    let mut rain = Rain::new(glyphs(50), 1, 1);
    rain.rebuild_grid(2, 5);
    let before = chars(&rain);
    let mut rng = Rng(rain.rng.0);
    let moves = vec![(-3, 1), (1, 3)];
    assert!(rain.can_step(&moves));
    assert_eq!(rain.step(&moves), vec![None, None]);
    let mut expected = before;
    expected[0][0] = rng.below(50) as u8;
    expected[0][1] = rng.below(50) as u8;
    expected[1][2] = rng.below(50) as u8;
    expected[1][3] = rng.below(50) as u8;
    assert_eq!(chars(&rain), expected);
    assert_eq!(rain.rng.0, rng.0);
}

#[test]
fn resting_and_hidden_leaders_change_nothing() {
    let mut rain = Rain::new(glyphs(50), 1, 1);
    rain.rebuild_grid(4, 5);
    let before = chars(&rain);
    let state = rain.rng.0;
    assert_eq!(rain.step(&vec![(2, 2), (-9, -1), (5, 8), (3, 1)]), vec![None; 4]);
    assert_eq!(chars(&rain), before);
    assert_eq!(rain.rng.0, state);
}

#[test]
fn one_long_move_is_two_short_ones() {
    let mut once = Rain::new(glyphs(50), 1, 1);
    once.rebuild_grid(1, 9);
    let mut twice = Rain::new(glyphs(50), 1, 1);
    twice.rebuild_grid(1, 9);
    once.step(&vec![(-2, 7)]);
    twice.step(&vec![(-2, 3)]);
    twice.step(&vec![(3, 7)]);
    assert_eq!(chars(&once), chars(&twice));
    assert_eq!(once.rng.0, twice.rng.0);
}

#[test]
fn columns_that_have_left_start_anew() {
    let mut rain = Rain::new(glyphs(50), 1, 1);
    rain.rebuild_grid(2, 5);
    let old_lens = lens(&rain);
    let before = chars(&rain);
    // The last row is 4: the trail has left when the leader is more than its length past row 5.
    let moves = vec![(5, 5 + old_lens[0] + 1), (5, 5 + old_lens[1])];
    let mut rng = Rng(rain.rng.0);
    let speed = rng.frac();
    let len = 6 + rng.below(7) as i32;
    let drop = rng.below(6);
    assert_eq!(rain.step(&moves), vec![Some(Spawn { speed, drop, len }), None]);
    assert_eq!(lens(&rain), vec![len, old_lens[1]]);
    assert_eq!(chars(&rain), before);
    assert_eq!(rain.rng.0, rng.0);
    assert!(-(drop as i32) - len <= -6);
}

#[test]
fn moves_past_the_limits_are_told() {
    let mut rain = Rain::new(glyphs(1), 1, 1);
    rain.rebuild_grid(1, 5);
    assert!(!rain.can_step(&vec![]));
    assert!(!rain.can_step(&vec![(i32::MAX, i32::MAX)]));
    assert!(!rain.can_step(&vec![(0, i32::MIN)]));
    assert!(rain.can_step(&vec![(0, i32::MAX)]));
}

#[test]
fn grids_past_the_limits_are_told() {
    let rain = Rain::new(glyphs(1), 1, 1);
    assert!(rain.can_rebuild(0));
    assert!(rain.can_rebuild(1 << 20));
    if let Ok(rows) = usize::try_from(0xffff_fff5u32) {
        assert!(rain.can_rebuild(rows));
        assert!(!rain.can_rebuild(rows + 1));
    }
}

#[test]
fn rain_can_always_be_painted() {
    let letters: Vec<GlyphBmp> = (0..5)
        .map(|i| GlyphBmp { w: 3, h: 4, left: i - 2, top: 2 - i, cov: vec![200; 12] })
        .collect();
    let mut rain = Rain::new(letters, 3, 4);
    let spawns = rain.rebuild_grid(40, 50);
    let mut heads: Vec<i32> = spawns.iter().map(|s| -(s.drop as i32)).collect();
    let mut restarts = 0;
    for step in 0..200 {
        let moves: Vec<(i32, i32)> =
            heads.iter().enumerate().map(|(i, h)| (*h, *h + (i as i32 + step) % 3)).collect();
        assert!(rain.can_step(&moves));
        let spawned = rain.step(&moves);
        for (i, spawn) in spawned.iter().enumerate() {
            heads[i] = moves[i].1;
            if let Some(s) = spawn {
                heads[i] = -(s.drop as i32) - s.len;
                restarts += 1;
            }
        }
        let fades: Vec<Vec<(u32, u32, u32)>> =
            rain.columns.iter().map(|c: &Column| vec![(0, 9, 0); c.len as usize]).collect();
        let scene = Scene {
            width: 40,
            height: 50,
            glyphs: &rain.glyphs,
            columns: &rain.columns,
            heads: &heads,
            fades: &fades,
            cell_w: rain.cell_w,
            cell_h: rain.cell_h,
            rows: rain.rows,
            head: (255, 255, 255),
        };
        assert!(can_paint(&scene, 40 * 50));
    }
    assert!(restarts > 0);
}

/// The picture file after some steps with fixed moves.
fn shot() -> Vec<u8> {
    let letters: Vec<GlyphBmp> = (0..7)
        .map(|i| GlyphBmp { w: 2, h: 3, left: 0, top: 0, cov: vec![30 * i + 40; 6] })
        .collect();
    let mut rain = Rain::new(letters, 3, 4);
    let spawns = rain.rebuild_grid(30, 40);
    let mut heads: Vec<i32> = spawns.iter().map(|s| -(s.drop as i32)).collect();
    for _ in 0..60 {
        let moves: Vec<(i32, i32)> = heads.iter().map(|h| (*h, *h + 1)).collect();
        for (i, spawn) in rain.step(&moves).iter().enumerate() {
            heads[i] = match spawn {
                Some(s) => -(s.drop as i32) - s.len,
                None => moves[i].1,
            };
        }
    }
    let fades: Vec<Vec<(u32, u32, u32)>> =
        rain.columns.iter().map(|c| vec![(0, 200, 0); c.len as usize]).collect();
    let scene = Scene {
        width: 30,
        height: 40,
        glyphs: &rain.glyphs,
        columns: &rain.columns,
        heads: &heads,
        fades: &fades,
        cell_w: rain.cell_w,
        cell_h: rain.cell_h,
        rows: rain.rows,
        head: (220, 255, 220),
    };
    let mut buf = vec![0u32; 30 * 40];
    assert!(can_paint(&scene, buf.len()));
    paint_frame(&mut buf, &scene);
    assert!(buf.iter().any(|px| *px != 0));
    encode_png(30, 40, &buf).unwrap()
}

#[test]
fn the_same_moves_make_the_same_picture() {
    assert_eq!(shot(), shot());
}

#[test]
fn a_new_grid_does_not_depend_on_the_old_one() {
    let mut a = Rain::new(glyphs(50), 3, 4);
    let mut b = Rain::new(glyphs(50), 3, 4);
    b.rebuild_grid(100, 90);
    b.rng = Rng(SEED);
    let first = a.rebuild_grid(30, 40);
    assert_eq!(first, b.rebuild_grid(30, 40));
    assert_eq!(chars(&a), chars(&b));
    assert_eq!((a.cols, a.rows), (10, 10));
    let mut rng = Rng(SEED);
    for _ in 0..10 * (10 + 3) {
        rng.next_u64();
    }
    assert_eq!((a.rng.0, b.rng.0), (rng.0, rng.0));
}
