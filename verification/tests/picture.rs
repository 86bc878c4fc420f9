use wlmatrix::picture::{
    index_frame, palette, palette_index, rgb_bytes, COLORS, GIF_DELAY, GIF_FRAMES, GIF_HEIGHT,
    GIF_STEPS, GIF_WIDTH, LEVELS, SHOT_HEIGHT, SHOT_STEPS, SHOT_WIDTH,
};

#[test]
fn pictures_have_these_sizes() {
    assert_eq!((SHOT_WIDTH, SHOT_HEIGHT, SHOT_STEPS), (1600, 900, 220));
    assert_eq!((GIF_WIDTH, GIF_HEIGHT, GIF_STEPS), (800, 450, 120));
    assert_eq!((GIF_FRAMES, GIF_DELAY, LEVELS, COLORS), (60, 5, 32, 64));
}

#[test]
fn pixels_are_split_into_channels() {
    assert_eq!(rgb_bytes(&[0x01_0203, 0xff_ff8000]), vec![1, 2, 3, 255, 128, 0]);
    assert!(rgb_bytes(&[]).is_empty());
}

#[test]
fn the_palette_is_black_leader_and_shades() {
    let p = palette((220, 255, 220), (0, 255, 40));
    assert_eq!(p.len(), 192);
    assert_eq!(p[0..3], [0, 0, 0]);
    assert_eq!(p[3..6], [220, 255, 220]);
    assert_eq!(p[6..9], [0, 7, 1]);
    assert_eq!(p[9..12], [0, 15, 2]);
    assert_eq!(p[99..102], [0, 255, 40]);
    assert!(p[102..].iter().all(|c| *c == 0));
}

#[test]
fn shades_are_the_fractions_of_the_trail() {
    for c in 0..=255u8 {
        let p = palette((0, 0, 0), (c, c, c));
        for i in 0..32usize {
            let f = (i + 1) as f32 / 32.0;
            assert_eq!(p[(2 + i) * 3], (c as f32 * f) as u8);
        }
    }
}

#[test]
fn pixels_have_an_index() {
    assert_eq!(palette_index(0), 0);
    assert_eq!(palette_index(0xff00_0000), 0);
    assert_eq!(palette_index(0xdcffdc), 1);
    assert_eq!(palette_index(0x790079), 1);
    assert_eq!(palette_index(0x780078), 17);
    assert_eq!(palette_index(0x79ff78), 33);
    assert_eq!(palette_index(0x00ff28), 33);
    assert_eq!(palette_index(0x000001), 2);
    assert_eq!(palette_index(0x000800), 3);
    assert_eq!(palette_index(0xff0000), 33);
    assert_eq!(index_frame(&[0, 0x00ff28, 0xdcffdc]), vec![0, 33, 1]);
}

#[test]
fn indices_are_in_the_palette() {
    for r in (0..256u32).step_by(5) {
        for g in (0..256u32).step_by(5) {
            for b in (0..256u32).step_by(5) {
                let px = (r << 16) | (g << 8) | b;
                let i = palette_index(px);
                assert!(i < 34);
                assert_eq!(i == 0, px == 0);
            }
        }
    }
}
