//! What holds of every font file: which lengths are too long, table by table.
use vstd::prelude::*;

use crate::bytes::{be16, be32, be_sized};
use crate::font_data::{lengths_fit, record_fits, table_fits};
use crate::font_tables::{
    advances_fit, cmap_fits, cmap_subtable_fits, colr_fits, gdef_fits, kern_chain_fits, kern_fits,
    layout_fits, mvar_fits, sbix_fits, store_fits,
};
use crate::cff::{cff2_fits, cff_fits};

verus! {

/// A number is read from its bytes with the high byte first: each byte more makes it 256 times as
/// great and adds the byte.
pub proof fn numbers_have_their_high_byte_first(t: Seq<u8>, i: int)
    ensures
        be_sized(t, i, 1) == t[i],
        be_sized(t, i, 2) == 0x100 * be_sized(t, i, 1) + t[i + 1],
        be_sized(t, i, 3) == 0x100 * be_sized(t, i, 2) + t[i + 2],
        be_sized(t, i, 4) == 0x100 * be_sized(t, i, 3) + t[i + 3],
        be16(t, i) == be_sized(t, i, 2),
        be32(t, i) == be_sized(t, i, 4),
{
}

/// Where the list of regions of a variation store starts, that start is a 32-bit number with two more
/// to come; a store of another kind, or one that is cut off, is passed over.
pub proof fn stores_start_early_enough(t: Seq<u8>, o: int)
    requires
        o >= 0,
    ensures
        o + 8 > t.len() ==> store_fits(t, o),
        o + 8 <= t.len() && !(t[o] == 0 && t[o + 1] == 1) ==> store_fits(t, o),
        o + 8 <= t.len() && t[o] == 0 && t[o + 1] == 1 ==> (store_fits(t, o) <==> be32(t, o + 2)
            < 0xffff_fffe - o),
{
}

/// How many items the list of a subtable of the character map may have: fewer than its end needs
/// to pass 32 bits, with items of two bytes in format 10, of twelve in 12 and 13 and of eleven in
/// 14. Every other format fits, and so does a subtable whose start is cut off.
pub proof fn character_maps_are_short_enough(t: Seq<u8>, o: int)
    requires
        o >= 0,
    ensures
        o + 20 <= t.len() && be16(t, o) == 10 ==> (cmap_subtable_fits(t, o) <==> be32(t, o + 16)
            <= 0x7fff_fff5),
        o + 16 <= t.len() && (be16(t, o) == 12 || be16(t, o) == 13) ==> (cmap_subtable_fits(t, o)
            <==> be32(t, o + 12) <= 0x1555_5553),
        o + 10 <= t.len() && be16(t, o) == 14 ==> (cmap_subtable_fits(t, o) <==> be32(t, o + 6)
            <= 0x1745_d173),
        o + 2 <= t.len() && (be16(t, o) < 10 || be16(t, o) == 11 || be16(t, o) > 14)
            ==> cmap_subtable_fits(t, o),
        o + 10 > t.len() ==> cmap_subtable_fits(t, o),
        o + 16 > t.len() && o + 2 <= t.len() && be16(t, o) != 14 ==> cmap_subtable_fits(t, o),
        o + 20 > t.len() && o + 2 <= t.len() && be16(t, o) == 10 ==> cmap_subtable_fits(t, o),
{
}

/// A character map fits if and only if each of its subtables does; each of the records after its
/// first four bytes says in its last four where one is. A map whose records are cut off fits.
pub proof fn every_character_map_counts(t: Seq<u8>)
    ensures
        t.len() < 4 ==> cmap_fits(t),
        t.len() >= 4 && t.len() < 4 + 8 * be16(t, 2) ==> cmap_fits(t),
        t.len() >= 4 && t.len() >= 4 + 8 * be16(t, 2) ==> (cmap_fits(t) <==> forall|i: int|
            0 <= i < be16(t, 2) ==> cmap_subtable_fits(t, #[trigger] be32(t, 4 + 8 * i + 4))),
{
    if t.len() >= 4 && t.len() >= 4 + 8 * be16(t, 2) {
        assert forall|i: int| 0 <= i < be16(t, 2) implies #[trigger] be32(t, 4 + 8 * i + 4) == be32(
            t,
            8 + 8 * i,
        ) by {}
        if cmap_fits(t) {
            assert forall|i: int| 0 <= i < be16(t, 2) implies cmap_subtable_fits(
                t,
                #[trigger] be32(t, 4 + 8 * i + 4),
            ) by {
                assert(cmap_subtable_fits(t, be32(t, 8 + 8 * i)));
            }
        }
        if forall|i: int|
            0 <= i < be16(t, 2) ==> cmap_subtable_fits(t, #[trigger] be32(t, 4 + 8 * i + 4)) {
            assert forall|i: int| 0 <= i < be16(t, 2) implies cmap_subtable_fits(
                t,
                #[trigger] be32(t, 8 + 8 * i),
            ) by {
                assert(cmap_subtable_fits(t, be32(t, 4 + 8 * i + 4)));
            }
        }
    }
}

/// The subtables of an Apple kerning table are read one after the other, each as long as it says,
/// until one ends past 32 bits, which does not fit, or past the table, says less than its own eight
/// bytes or is of a kind above three, which ends the reading.
pub proof fn kerning_is_read_subtable_by_subtable(t: Seq<u8>, q: int)
    requires
        q >= 0,
    ensures
        q + 6 > t.len() ==> kern_chain_fits(t, q),
        q + 6 <= t.len() && (t[q + 5] > 3 || be32(t, q) < 8) ==> kern_chain_fits(t, q),
        q + 6 <= t.len() && t[q + 5] <= 3 && be32(t, q) >= 8 ==> {
            let end = q + be32(t, q);
            &&& end > 0xffff_ffff ==> !kern_chain_fits(t, q)
            &&& t.len() < end <= 0xffff_ffff ==> kern_chain_fits(t, q)
            &&& end <= t.len() && end <= 0xffff_ffff ==> kern_chain_fits(t, q) == kern_chain_fits(
                t,
                end,
            )
        },
        t.len() < 8 ==> kern_fits(t),
        t.len() >= 8 && t[0] == 0 && t[1] == 0 ==> kern_fits(t),
        t.len() >= 8 && !(t[0] == 0 && t[1] == 0) ==> kern_fits(t) == kern_chain_fits(t, 8),
{
}

/// Whether `n` items of `size` bytes that start at `o` end within 32 bits.
pub open spec fn end_in_time(o: int, n: int, size: int) -> bool {
    o + n * size < 0x1_0000_0000
}

/// The lists of a colour table of the first version: its paints, of six bytes each, its layers, of
/// four, its clips, of seven, counted from their own start, and its store of variations. Of the last
/// three there may be none, and a list that is cut off is passed over. A table of another version
/// fits.
pub proof fn colour_lists_end_in_time(t: Seq<u8>)
    ensures
        t.len() < 34 ==> colr_fits(t),
        t.len() >= 34 && be16(t, 0) != 1 ==> colr_fits(t),
        t.len() >= 34 && be16(t, 0) == 1 ==> {
            let paints = be32(t, 14);
            let layers = be32(t, 18);
            let clips = be32(t, 22);
            let store = be32(t, 30);
            let paints_end = paints + 4 <= t.len() ==> end_in_time(paints + 4, be32(t, paints), 6);
            let layers_end = 0 < layers <= t.len() - 4 ==> end_in_time(
                layers + 4,
                be32(t, layers),
                4,
            );
            let clips_end = 0 < clips <= t.len() - 5 ==> end_in_time(5, be32(t, clips + 1), 7);
            let store_starts = store > 0 ==> store_fits(t, store);
            colr_fits(t) <==> paints_end && layers_end && clips_end && store_starts
        },
{
}

/// The list of strikes of a bitmap table of the first version has items of four bytes after the
/// first eight, the list of variations of a layout table items of eight after the first eight of its
/// own, from the first minor version on. Other versions fit.
pub proof fn strikes_and_variations_end_in_time(t: Seq<u8>)
    ensures
        t.len() < 8 ==> sbix_fits(t),
        t.len() >= 8 && be16(t, 0) != 1 ==> sbix_fits(t),
        t.len() >= 8 && be16(t, 0) == 1 ==> (sbix_fits(t) <==> be32(t, 4) <= 0x3fff_fffd),
        t.len() < 14 ==> layout_fits(t),
        t.len() >= 14 && !(be16(t, 0) == 1 && be16(t, 2) > 0) ==> layout_fits(t),
        t.len() >= 14 && be16(t, 0) == 1 && be16(t, 2) > 0 ==> {
            let o = be32(t, 10);
            let read = 0 < o <= t.len() - 8 && be16(t, o) == 1;
            &&& !read ==> layout_fits(t)
            &&& read ==> (layout_fits(t) <==> be32(t, o + 4) <= 0x1fff_fffe)
        },
{
}

/// Where the stores of variations are: in the tables of glyph classes of version 1.3 at a 32-bit
/// place, in those of advances at one too, and in those of metrics at a 16-bit one; a place of 0 is
/// none, but for the advances. Other versions fit.
pub proof fn stores_are_where_their_tables_say(t: Seq<u8>)
    ensures
        t.len() < 18 ==> gdef_fits(t),
        t.len() >= 18 && be16(t, 0) == 1 && be16(t, 2) == 3 && be32(t, 14) > 0 ==> gdef_fits(t)
            == store_fits(t, be32(t, 14)),
        t.len() >= 18 && !(be16(t, 0) == 1 && be16(t, 2) == 3 && be32(t, 14) > 0) ==> gdef_fits(t),
        t.len() < 8 ==> advances_fit(t),
        t.len() >= 8 && be16(t, 0) == 1 && be16(t, 2) == 0 ==> advances_fit(t) == store_fits(
            t,
            be32(t, 4),
        ),
        t.len() >= 8 && !(be16(t, 0) == 1 && be16(t, 2) == 0) ==> advances_fit(t),
        t.len() < 12 ==> mvar_fits(t),
        t.len() >= 12 && be16(t, 0) == 1 && be16(t, 2) == 0 && be16(t, 10) > 0 ==> mvar_fits(t)
            == store_fits(t, be16(t, 10)),
        t.len() >= 12 && !(be16(t, 0) == 1 && be16(t, 2) == 0 && be16(t, 10) > 0) ==> mvar_fits(t),
{
}

/// Each table is held to the lengths that its kind has, by the four letters of its tag; every other
/// table fits.
pub proof fn tags_say_what_a_table_is(t: Seq<u8>, a: u8, b: u8, c: u8, d: u8)
    ensures
        ({
            let tag = ((a * 0x100 + b) * 0x100 + c) * 0x100 + d;
            let is = |w: u8, x: u8, y: u8, z: u8| a == w && b == x && c == y && d == z;
            &&& is(99, 109, 97, 112) ==> table_fits(tag, t) == cmap_fits(t)
            &&& is(107, 101, 114, 110) ==> table_fits(tag, t) == kern_fits(t)
            &&& is(67, 79, 76, 82) ==> table_fits(tag, t) == colr_fits(t)
            &&& is(115, 98, 105, 120) ==> table_fits(tag, t) == sbix_fits(t)
            &&& is(71, 80, 79, 83) || is(71, 83, 85, 66) ==> table_fits(tag, t) == layout_fits(t)
            &&& is(71, 68, 69, 70) ==> table_fits(tag, t) == gdef_fits(t)
            &&& is(72, 86, 65, 82) || is(86, 86, 65, 82) ==> table_fits(tag, t) == advances_fit(t)
            &&& is(77, 86, 65, 82) ==> table_fits(tag, t) == mvar_fits(t)
            &&& is(67, 70, 70, 32) ==> table_fits(tag, t) == cff_fits(t)
            &&& is(67, 70, 70, 50) ==> table_fits(tag, t) == cff2_fits(t)
            &&& !(is(99, 109, 97, 112) || is(107, 101, 114, 110) || is(67, 79, 76, 82) || is(
                115,
                98,
                105,
                120,
            ) || is(71, 80, 79, 83) || is(71, 83, 85, 66) || is(71, 68, 69, 70) || is(
                72,
                86,
                65,
                82,
            ) || is(86, 86, 65, 82) || is(77, 86, 65, 82) || is(67, 70, 70, 32) || is(
                67,
                70,
                70,
                50,
            )) ==> table_fits(tag, t)
        }),
{
}

/// A record of a table has its tag, then a checksum, then where the table starts and how long it is.
/// It must end within 32 bits; one that ends past the file is not looked into.
pub proof fn records_say_where_tables_are(data: Seq<u8>, r: int)
    requires
        0 <= r <= data.len() - 16,
        data.len() <= 0xfe00_0000,
    ensures
        ({
            let from = be32(data, r + 8);
            let end = from + be32(data, r + 12);
            &&& end > 0xffff_ffff ==> !record_fits(data, r)
            &&& data.len() < end <= 0xffff_ffff ==> record_fits(data, r)
            &&& end <= data.len() ==> record_fits(data, r) == table_fits(
                be32(data, r),
                data.subrange(from, end),
            )
        }),
{
}

/// A file of one font fits if and only if it is not too long and all the records of its tables do,
/// of which there are fewer than 16 bits can count. Where the records are cut off the length alone
/// counts.
pub proof fn single_fonts_fit_by_their_tables(data: Seq<u8>)
    requires
        data.len() >= 4 ==> !(data[0] == 116 && data[1] == 116 && data[2] == 99 && data[3] == 102),
    ensures
        data.len() > 0xfe00_0000 ==> !lengths_fit(data),
        data.len() < 12 ==> lengths_fit(data),
        12 <= data.len() <= 0xfe00_0000 ==> {
            let n = be16(data, 4);
            &&& data.len() < 12 + 16 * n ==> lengths_fit(data)
            &&& data.len() >= 12 + 16 * n && n == 0xffff ==> !lengths_fit(data)
            &&& data.len() >= 12 + 16 * n && n < 0xffff ==> (lengths_fit(data) <==> forall|i: int|
                0 <= i < n ==> #[trigger] record_fits(data, 12 + 16 * i))
        },
{
    if 12 <= data.len() <= 0xfe00_0000 {
        let n = be16(data, 4);
        assert forall|i: int| 0 <= i < n implies #[trigger] record_fits(data, 12 + 16 * i)
            == record_fits(data, 0 + 12 + 16 * i) by {}
    }
}

/// In a collection of fonts the list of where they start, of four bytes each after the first twelve,
/// must end within 32 bits, and the first of them is the one that is read.
pub proof fn collections_fit_by_their_first_font(data: Seq<u8>)
    requires
        12 <= data.len() <= 0xfe00_0000,
        data[0] == 116 && data[1] == 116 && data[2] == 99 && data[3] == 102,
    ensures
        be32(data, 8) > 0x3fff_fffc ==> !lengths_fit(data),
        be32(data, 8) <= 0x3fff_fffc && data.len() >= 16 ==> {
            let at = be32(data, 12);
            let n = be16(data, at + 4);
            &&& data.len() < at + 12 || data.len() < at + 12 + 16 * n ==> lengths_fit(data)
            &&& data.len() >= at + 12 + 16 * n && data.len() >= at + 12 && n == 0xffff
                ==> !lengths_fit(data)
            &&& data.len() >= at + 12 + 16 * n && data.len() >= at + 12 && n < 0xffff ==> (
            lengths_fit(data) <==> forall|i: int|
                0 <= i < n ==> #[trigger] record_fits(data, at + 12 + 16 * i))
        },
{
}

} // verus!
