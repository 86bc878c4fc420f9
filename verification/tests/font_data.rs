use wlmatrix::bytes::{sized_at, u16_at, u32_at, u8_at};
use wlmatrix::cff::{is_cff2_fit, is_cff_fit};
use wlmatrix::font::{glyph_ids, load_font, NotAFont};
use wlmatrix::font_data::are_lengths_fit;

fn be16(n: u16) -> Vec<u8> {
    n.to_be_bytes().to_vec()
}

fn be32(n: u32) -> Vec<u8> {
    n.to_be_bytes().to_vec()
}

fn joined(parts: &[Vec<u8>]) -> Vec<u8> {
    parts.concat()
}

/// A font with the tables that every font has and those given.
fn font_with(more: &[(&str, Vec<u8>)]) -> Vec<u8> {
    let mut head = vec![0u8; 54];
    head[0..4].copy_from_slice(&[0, 1, 0, 0]);
    head[18..20].copy_from_slice(&1000u16.to_be_bytes());
    let mut hhea = vec![0u8; 36];
    hhea[0..4].copy_from_slice(&[0, 1, 0, 0]);
    let mut tables: Vec<(&str, Vec<u8>)> = vec![
        ("head", head),
        ("hhea", hhea),
        ("maxp", joined(&[be32(0x5000), be16(9)])),
    ];
    tables.extend_from_slice(more);
    let mut font = joined(&[be32(0x1_0000), be16(tables.len() as u16), vec![0; 6]]);
    let mut body: Vec<u8> = vec![];
    for (tag, data) in &tables {
        font.extend_from_slice(tag.as_bytes());
        font.extend_from_slice(&be32(0));
        font.extend_from_slice(&be32((12 + 16 * tables.len() + body.len()) as u32));
        font.extend_from_slice(&be32(data.len() as u32));
        body.extend_from_slice(data);
    }
    font.extend_from_slice(&body);
    font
}

/// A character map with one Unicode subtable.
fn cmap(subtable: Vec<u8>) -> Vec<u8> {
    joined(&[be16(0), be16(1), be16(0), be16(4), be32(12), subtable])
}

/// A subtable of groups that claims `count` of them and holds one, from `K` to `N` as 5 to 8.
fn groups(format: u16, count: u32) -> Vec<u8> {
    joined(&[be16(format), be16(0), be32(28), be32(0), be32(count), be32(75), be32(78), be32(5)])
}

fn is_fit(tag: &str, data: Vec<u8>) -> bool {
    let font = font_with(&[(tag, data)]);
    let fit = are_lengths_fit(&font);
    // Whatever the lengths are, loading comes back.
    assert_eq!(load_font(font).is_ok(), fit);
    fit
}

#[test]
fn bytes_are_read_high_byte_first() {
    let t = [1, 2, 3, 4, 0xff];
    assert_eq!(u8_at(&t, 4), 0xff);
    assert_eq!(u16_at(&t, 1), 0x0203);
    assert_eq!(u32_at(&t, 1), 0x0203_04ff);
    assert_eq!(sized_at(&t, 0, 1), 1);
    assert_eq!(sized_at(&t, 0, 2), 0x0102);
    assert_eq!(sized_at(&t, 0, 3), 0x0001_0203);
    assert_eq!(sized_at(&t, 0, 4), 0x0102_0304);
}

#[test]
fn ordinary_fonts_fit() {
    assert!(are_lengths_fit(&font_with(&[])));
    let font = font_with(&[("cmap", cmap(groups(12, 1)))]);
    assert!(are_lengths_fit(&font));
    assert_eq!(glyph_ids(&load_font(font).unwrap(), "JKN"), vec![0, 5, 8]);
    assert!(are_lengths_fit(&[]));
    assert!(are_lengths_fit(b"not a font at all"));
}

#[test]
fn an_overlong_table_is_no_font() {
    let font = |count| font_with(&[("cmap", cmap(groups(12, count)))]);
    // The last count whose groups end within 32 bits; the subtable is then passed over.
    assert!(load_font(font(0x1555_5553)).is_ok());
    assert_eq!(glyph_ids(&load_font(font(0x1555_5553)).unwrap(), "K"), vec![0]);
    for count in [0x1555_5554, 0x1555_5557, 0x2000_0000, 0xffff_ffff] {
        assert_eq!(load_font(font(count)).err(), Some(NotAFont), "{count:x}");
    }
}

#[test]
fn character_maps_are_measured() {
    assert!(is_fit("cmap", cmap(groups(13, 1))));
    assert!(!is_fit("cmap", cmap(groups(13, 0x1555_5554))));
    let trimmed = |count| joined(&[be16(10), be16(0), be32(22), be32(0), be32(75), be32(count), be16(5)]);
    assert!(is_fit("cmap", cmap(trimmed(1))));
    assert!(is_fit("cmap", cmap(trimmed(0x7fff_fff5))));
    assert!(!is_fit("cmap", cmap(trimmed(0x7fff_fff6))));
    let variations = |count| joined(&[be16(14), be32(10), be32(count)]);
    assert!(is_fit("cmap", cmap(variations(0x1745_d173))));
    assert!(!is_fit("cmap", cmap(variations(0x1745_d174))));
}

#[test]
fn apple_kerning_is_measured() {
    let kern = |len: u32| {
        let mut t = joined(&[be32(0x1_0000), be32(2)]);
        t.extend_from_slice(&joined(&[be32(16), vec![0, 2], be16(0), vec![0; 8]]));
        t.extend_from_slice(&joined(&[be32(len), vec![0, 2], be16(0), vec![0; 8]]));
        t
    };
    assert!(is_fit("kern", kern(16)));
    assert!(is_fit("kern", kern(17)));
    assert!(is_fit("kern", kern(7)));
    assert!(!is_fit("kern", kern(0xffff_ffff)));
    // Kerning in the other format has short lengths.
    assert!(is_fit("kern", joined(&[be16(0), be16(1), vec![0xff; 20]])));
}

#[test]
fn colours_are_measured() {
    let colr = |paints: u32, layers: u32, clips: u32, store: u32| {
        let mut t = joined(&[be16(1), be16(0), be32(34), be32(34), be16(0)]);
        t.extend_from_slice(&joined(&[be32(34), be32(38), be32(42), be32(0), be32(47)]));
        t.extend_from_slice(&joined(&[be32(paints), be32(layers), vec![1], be32(clips)]));
        t.extend_from_slice(&joined(&[be16(1), be32(store), be16(0), vec![0; 4]]));
        t
    };
    let cpal = joined(&[be16(0), be16(0), be16(1), be16(0), be32(14), be16(0)]);
    let fit = |t: Vec<u8>| {
        let font = font_with(&[("COLR", t), ("CPAL", cpal.clone())]);
        assert_eq!(load_font(font.clone()).is_ok(), are_lengths_fit(&font));
        are_lengths_fit(&font)
    };
    assert!(fit(colr(0, 0, 0, 8)));
    assert!(!fit(colr(0x2aaa_aaab, 0, 0, 8)));
    assert!(!fit(colr(0, 0x4000_0000, 0, 8)));
    assert!(!fit(colr(0, 0, 0x2492_4925, 8)));
    assert!(!fit(colr(0, 0, 0, 0xffff_ffff)));
}

#[test]
fn strikes_and_layouts_are_measured() {
    let sbix = |count| joined(&[be16(1), be16(0), be32(count)]);
    assert!(is_fit("sbix", sbix(0)));
    assert!(is_fit("sbix", sbix(0x3fff_fffd)));
    assert!(!is_fit("sbix", sbix(0x3fff_fffe)));
    for tag in ["GPOS", "GSUB"] {
        let layout = |count| {
            let mut t = joined(&[be16(1), be16(1), be16(14), be16(14), be16(14), be32(16)]);
            t.extend_from_slice(&joined(&[be16(0), be16(1), be16(0), be32(count)]));
            t
        };
        assert!(is_fit(tag, layout(0)));
        assert!(!is_fit(tag, layout(0x2000_0000)));
    }
}

#[test]
fn variation_stores_are_measured() {
    let store = |regions: u32| joined(&[be16(1), be32(regions), be16(0), be16(0), be16(0)]);
    for tag in ["HVAR", "VVAR"] {
        let t = |regions| joined(&[be32(0x1_0000), be32(24), vec![0; 16], store(regions)]);
        assert!(is_fit(tag, t(8)));
        assert!(!is_fit(tag, t(0xffff_fffe)));
    }
    let mvar = |regions| {
        let head = joined(&[be32(0x1_0000), be16(0), be16(8), be16(1), be16(20), vec![0; 8]]);
        joined(&[head, store(regions)])
    };
    assert!(is_fit("MVAR", mvar(8)));
    assert!(!is_fit("MVAR", mvar(0xffff_ffff)));
    let gdef = |regions| joined(&[be32(0x1_0003), vec![0; 10], be32(18), store(regions)]);
    assert!(is_fit("GDEF", gdef(8)));
    assert!(!is_fit("GDEF", gdef(0xffff_ffff)));
}

/// A list with offsets of four bytes, the last of which is `last`.
fn list(item: &[u8], last: u32) -> Vec<u8> {
    joined(&[be16(1), vec![4], be32(1), be32(last), item.to_vec()])
}

fn good_list(item: &[u8]) -> Vec<u8> {
    list(item, item.len() as u32 + 1)
}

fn number(n: u32) -> Vec<u8> {
    joined(&[vec![29], be32(n)])
}

/// A `CFF` table whose lists end in the given offsets, in the order in which they lie.
fn cff(last: [u32; 5]) -> Vec<u8> {
    let good = |i: usize, item: &[u8]| {
        list(item, if last[i] == 0 { item.len() as u32 + 1 } else { last[i] })
    };
    let head = vec![1, 0, 4, 4];
    let names = good(0, b"x");
    // The main dictionary: where the outlines are, and the length and place of the private one.
    let texts = good(1, b"t");
    let routines = good(2, &[11]);
    let main_len = 4 + names.len() + 11 + 17;
    let outlines_at = main_len + texts.len() + routines.len();
    let outlines = good(3, &[14]);
    let private_at = outlines_at + outlines.len();
    // The private dictionary is six bytes long; its routines come right after it.
    let private = joined(&[number(6), vec![19]]);
    let local = good(4, &[11]);
    let main = joined(&[
        number(outlines_at as u32),
        vec![17],
        number(6),
        number(private_at as u32),
        vec![18],
    ]);
    assert_eq!(main.len(), 17);
    joined(&[head, names, good_list(&main), texts, routines, outlines, private, local])
}

#[test]
fn compact_outlines_are_measured() {
    assert!(is_fit("CFF ", cff([0; 5])));
    for i in 0..5 {
        let mut last = [0; 5];
        last[i] = 0xffff_ffff;
        assert!(!is_fit("CFF ", cff(last)), "{i}");
        // Past the table, but within 32 bits.
        last[i] = 0x7fff_ffff;
        assert!(is_fit("CFF ", cff(last)), "{i}");
    }
}

#[test]
fn places_in_dictionaries_are_whole_numbers() {
    let table = |dict: Vec<u8>| joined(&[vec![1, 0, 4, 4], good_list(b"x"), good_list(&dict)]);
    assert!(is_cff_fit(&table(vec![239, 17])));
    assert!(is_cff_fit(&table(vec![28, 0, 1, 17])));
    assert!(is_cff_fit(&table(vec![247, 0, 17])));
    assert!(is_cff_fit(&table(vec![251, 0, 17])));
    assert!(!is_cff_fit(&table(vec![30, 0x1f, 17])));
    // A fraction before another operator does no harm.
    assert!(is_cff_fit(&table(vec![30, 0x12, 0x3f, 12, 7, 239, 17])));
    assert!(is_cff_fit(&table(vec![29, 0])));
    assert!(is_cff_fit(&table(vec![12])));
    assert!(is_cff_fit(&[]));
    assert!(is_cff_fit(&[2, 0, 4, 4]));
}

/// A list of `CFF2` with one item.
fn wide_list(count: u32, item: &[u8], last: u32) -> Vec<u8> {
    joined(&[be32(count), vec![4], be32(1), be32(last), item.to_vec()])
}

/// A `CFF2` table: its main dictionary refers to outlines, a store and the dictionary of a font,
/// that to a private dictionary, and that to routines.
fn cff2(common: u32, outlines: u32, regions: u32, fonts: u32, local: u32) -> Vec<u8> {
    let head = joined(&[vec![2, 0, 5], be16(19)]);
    let common = wide_list(1, &[11], common);
    let outlines_at = 5 + 19 + common.len();
    let outlines = wide_list(1, &[14], outlines);
    let store_at = outlines_at + outlines.len();
    let store = joined(&[be16(12), be16(1), be32(regions), be16(0), be16(0), be16(0)]);
    let fonts_at = store_at + store.len();
    let private_at = fonts_at + 13 + 11;
    let font = joined(&[number(6), number(private_at as u32), vec![18]]);
    let fonts = wide_list(1, &font, fonts);
    let private = joined(&[number(6), vec![19]]);
    let local = wide_list(1, &[11], local);
    let main = joined(&[
        number(outlines_at as u32),
        vec![17],
        number(store_at as u32),
        vec![24],
        number(fonts_at as u32),
        vec![12, 36],
    ]);
    assert_eq!(main.len(), 19);
    joined(&[head, main, common, outlines, store, fonts, private, local])
}

#[test]
fn variable_compact_outlines_are_measured() {
    assert!(is_fit("CFF2", cff2(2, 2, 8, 12, 2)));
    assert!(!is_fit("CFF2", cff2(0xffff_ffff, 2, 8, 12, 2)));
    assert!(!is_fit("CFF2", cff2(2, 0xffff_ffff, 8, 12, 2)));
    assert!(!is_fit("CFF2", cff2(2, 2, 0xffff_ffff, 12, 2)));
    assert!(!is_fit("CFF2", cff2(2, 2, 8, 0xffff_ffff, 2)));
    assert!(!is_fit("CFF2", cff2(2, 2, 8, 12, 0xffff_ffff)));
    // Too many items for their offsets to end within 32 bits.
    let many = joined(&[vec![2, 0, 5], be16(0), wide_list(0x4000_0000, &[], 1)]);
    assert!(!is_cff2_fit(&many));
    let none = joined(&[vec![2, 0, 5], be16(0), be32(0xffff_ffff)]);
    assert!(is_cff2_fit(&none));
}

#[test]
fn tables_end_within_32_bits() {
    let mut font = font_with(&[("cmap", cmap(groups(12, 1)))]);
    let record = 12 + 16 * 3;
    font[record + 12..record + 16].copy_from_slice(&be32(0x7fff_ffff));
    assert!(load_font(font.clone()).is_ok());
    font[record + 12..record + 16].copy_from_slice(&be32(0xffff_ffff));
    assert_eq!(load_font(font).err(), Some(NotAFont));
}

#[test]
fn a_font_has_fewer_tables_than_16_bits_can_count() {
    let font = |count: u16| {
        let mut font = joined(&[be32(0x1_0000), be16(count), vec![0; 6]]);
        font.resize(12 + 16 * usize::from(count), 0);
        font
    };
    assert!(are_lengths_fit(&font(0xfffe)));
    assert!(!are_lengths_fit(&font(0xffff)));
    assert_eq!(load_font(font(0xffff)).err(), Some(NotAFont));
    assert_eq!(load_font(font(0xfffe)).err(), Some(NotAFont));
    // Records that are not there are not counted.
    assert!(are_lengths_fit(&joined(&[be32(0x1_0000), be16(0xffff), vec![0; 6]])));
}

#[test]
fn the_first_font_of_a_collection_is_measured() {
    let collection = |count: u32| {
        let mut font = font_with(&[("cmap", cmap(groups(12, count)))]);
        for table in 0..4 {
            let at = 12 + 16 * table + 8;
            let moved = u32_at(&font, at as u64) as u32 + 16;
            font[at..at + 4].copy_from_slice(&be32(moved));
        }
        joined(&[b"ttcf".to_vec(), be32(0x1_0000), be32(1), be32(16), font])
    };
    assert!(load_font(collection(1)).is_ok());
    assert_eq!(load_font(collection(0x2000_0000)).err(), Some(NotAFont));
}
