use wlmatrix::font::{
    choose_font, font_candidates, glyph_ids, load_font, measure_glyph, NotAFont,
};

fn be16(v: &mut Vec<u8>, n: u16) {
    v.extend_from_slice(&n.to_be_bytes());
}

fn be32(v: &mut Vec<u8>, n: u32) {
    v.extend_from_slice(&n.to_be_bytes());
}

/// A font with nine glyphs without outlines, in which `K`, `L`, `M` and `N` are the glyphs 5 to 8.
fn small_font() -> Vec<u8> {
    let mut cmap = vec![];
    be16(&mut cmap, 0);
    be16(&mut cmap, 1);
    be16(&mut cmap, 3);
    be16(&mut cmap, 1);
    be32(&mut cmap, 12);
    for n in [6, 18, 0, 'K' as u16, 4, 5, 6, 7, 8] {
        be16(&mut cmap, n);
    }

    let mut head = vec![0u8; 54];
    head[0..4].copy_from_slice(&[0, 1, 0, 0]);
    head[12..16].copy_from_slice(&[0x5f, 0x0f, 0x3c, 0xf5]);
    head[18..20].copy_from_slice(&1000u16.to_be_bytes());

    let mut hhea = vec![0u8; 36];
    hhea[0..4].copy_from_slice(&[0, 1, 0, 0]);
    hhea[4..6].copy_from_slice(&800i16.to_be_bytes());
    hhea[6..8].copy_from_slice(&(-200i16).to_be_bytes());

    let mut maxp = vec![0, 0, 0x50, 0];
    be16(&mut maxp, 9);

    let tables: Vec<(&[u8], Vec<u8>)> =
        vec![(b"cmap", cmap), (b"head", head), (b"hhea", hhea), (b"maxp", maxp)];
    let mut font = vec![0, 1, 0, 0];
    for n in [4, 64, 2, 0] {
        be16(&mut font, n);
    }
    let mut body = vec![];
    for (tag, data) in &tables {
        font.extend_from_slice(tag);
        be32(&mut font, 0);
        be32(&mut font, 12 + 16 * 4 + body.len() as u32);
        be32(&mut font, data.len() as u32);
        body.extend_from_slice(data);
        while body.len() % 4 != 0 {
            body.push(0);
        }
    }
    font.extend_from_slice(&body);
    font
}

#[test]
fn other_data_is_no_font() {
    assert_eq!(load_font(vec![]).err(), Some(NotAFont));
    assert_eq!(load_font(b"not a font at all".to_vec()).err(), Some(NotAFont));
    let mut cut = small_font();
    cut.truncate(40);
    assert_eq!(load_font(cut).err(), Some(NotAFont));
}

/// A collection that starts with a count of faces.
fn collection(faces: u32) -> Vec<u8> {
    let mut v = b"ttcf".to_vec();
    be32(&mut v, 0x1_0000);
    be32(&mut v, faces);
    v
}

#[test]
fn a_collection_with_too_many_faces_is_no_font() {
    for faces in [0, 1, 0x3fff_fffc, 0x3fff_fffd, 0xffff_ffff] {
        assert_eq!(load_font(collection(faces)).err(), Some(NotAFont), "{faces}");
    }
}

#[test]
fn the_first_face_of_a_collection_is_taken() {
    // The small font with its tables moved behind a collection header of 16 bytes.
    let mut font = small_font();
    for table in 0..4 {
        let at = 12 + 16 * table + 8;
        let mut offset = [0; 4];
        offset.copy_from_slice(&font[at..at + 4]);
        let moved = u32::from_be_bytes(offset) + 16;
        font[at..at + 4].copy_from_slice(&moved.to_be_bytes());
    }
    let mut data = collection(1);
    be32(&mut data, 16);
    data.extend_from_slice(&font);
    let font = load_font(data).unwrap();
    assert_eq!(glyph_ids(&font, "KM"), vec![5, 7]);
}

#[test]
fn characters_have_glyphs() {
    let font = load_font(small_font()).unwrap();
    assert_eq!(glyph_ids(&font, "KLMN"), vec![5, 6, 7, 8]);
    assert_eq!(glyph_ids(&font, "NxK"), vec![8, 0, 5]);
    assert!(glyph_ids(&font, "").is_empty());
}

#[test]
fn cells_are_as_wide_as_an_m() {
    let font = load_font(small_font()).unwrap();
    assert_eq!(measure_glyph(&font), 7);
}

#[test]
fn these_fonts_are_looked_for() {
    assert_eq!(
        font_candidates(),
        vec![
            "/usr/share/fonts/truetype/dejavu/DejaVuSansMono.ttf",
            "/usr/share/fonts/truetype/liberation/LiberationMono-Regular.ttf",
            "/usr/share/fonts/truetype/noto/NotoSansMono-Regular.ttf",
            "/usr/share/fonts/truetype/noto/NotoMono-Regular.ttf",
        ]
    );
}

#[test]
fn a_font_that_exists_wins() {
    let all = vec![true; 4];
    let mine = Some("mine.ttf".to_string());
    assert_eq!(choose_font(&mine, true, &all), "mine.ttf");
    assert_eq!(choose_font(&mine, false, &all), font_candidates()[0]);
    assert_eq!(choose_font(&None, false, &all), font_candidates()[0]);
    assert_eq!(choose_font(&None, true, &all), font_candidates()[0]);
}

#[test]
fn the_first_candidate_present_is_taken() {
    let names = font_candidates();
    assert_eq!(choose_font(&None, false, &vec![false, true, true, false]), names[1]);
    assert_eq!(choose_font(&None, false, &vec![false, false, true, true]), names[2]);
    assert_eq!(choose_font(&None, false, &vec![false, false, false, true]), names[3]);
    assert_eq!(choose_font(&None, false, &vec![false; 4]), names[0]);
}
