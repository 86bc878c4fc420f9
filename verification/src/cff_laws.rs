//! What holds of every `CFF` and `CFF2` table: how its numbers, lists and dictionaries are read, and
//! which lists are too long.
use vstd::prelude::*;

use crate::bytes::{be16, be32, be_sized};
use crate::cff::{
    cff2_fits, cff_fits, dictionary, entries, entry_fits, font_fits, fraction_end, is_operator,
    item_at, list_end, list_fits, no_numbers, number_at, number_end, private_fits, routines_fit,
    wide_entry_fits,
};
use crate::cff::Entry;
use crate::font_tables::store_fits;

verus! {

/// Numbers near zero are one byte, counted from 139, those up to 1131 two bytes, of either sign, and
/// others two or four bytes after a 28 or a 29, in two's complement. A number that is cut off is
/// none.
pub proof fn numbers_read_back(d: Seq<u8>, i: int, v: int)
    requires
        0 <= i < d.len(),
    ensures
        -107 <= v <= 107 && d[i] == 139 + v ==> number_at(d, i) == Some(v as i64) && number_end(
            d,
            i,
        ) == i + 1,
        247 <= d[i] <= 254 ==> number_end(d, i) == i + 2,
        108 <= v <= 1131 && i + 1 < d.len() && d[i] == 247 + (v - 108) / 0x100 && d[i + 1] == (v
            - 108) % 0x100 ==> number_at(d, i) == Some(v as i64),
        -1131 <= v <= -108 && i + 1 < d.len() && d[i] == 251 + (-v - 108) / 0x100 && d[i + 1] == (-v
            - 108) % 0x100 ==> number_at(d, i) == Some(v as i64),
        d[i] == 28 ==> number_end(d, i) == i + 3,
        -0x8000 <= v < 0x8000 && i + 2 < d.len() && d[i] == 28 && be16(d, i + 1) == v % 0x1_0000
            ==> number_at(d, i) == Some(v as i64),
        d[i] == 29 ==> number_end(d, i) == i + 5,
        -0x8000_0000 <= v < 0x8000_0000 && i + 4 < d.len() && d[i] == 29 && be32(d, i + 1) == v
            % 0x1_0000_0000 ==> number_at(d, i) == Some(v as i64),
        d[i] == 30 ==> number_at(d, i) is None,
        number_end(d, i) > d.len() ==> number_at(d, i) is None,
{
    if -1131 <= v <= -108 && d[i] == 251 + (-v - 108) / 0x100 {
        assert(251 <= d[i] <= 254);
    }
    if 108 <= v <= 1131 && d[i] == 247 + (v - 108) / 0x100 {
        assert(247 <= d[i] <= 250);
    }
}

/// Whether a byte of a fraction holds its end: fifteen in its high or its low half.
pub open spec fn ends_a_fraction(b: u8) -> bool {
    b >= 240 || b % 16 == 15
}

/// A fraction ends with the first byte that holds its end, or with the dictionary.
pub proof fn fractions_end_with_their_first_end(d: Seq<u8>, i: int, j: int)
    requires
        0 <= i <= j <= d.len(),
        forall|k: int| i <= k < j ==> !ends_a_fraction(#[trigger] d[k]),
        j < d.len() ==> ends_a_fraction(d[j]),
    ensures
        j < d.len() ==> fraction_end(d, i) == j + 1,
        j == d.len() ==> fraction_end(d, i) == d.len(),
        i > 0 && d[i - 1] == 30 ==> number_end(d, i - 1) == fraction_end(d, i),
    decreases j - i,
{
    if i < j {
        assert(!ends_a_fraction(d[i]));
        fractions_end_with_their_first_end(d, i + 1, j);
    }
}

/// An operator is any byte that does not start a number.
pub proof fn bytes_are_operators_or_numbers(b: u8)
    ensures
        is_operator(b) <==> !(28 <= b <= 30 || 32 <= b <= 254),
{
}

/// A dictionary is read from its start. An operator ends an entry, with as many numbers as came since
/// the last, the first two of them kept; an operator of two bytes starts with a 12, and one that is
/// cut off ends the reading.
pub proof fn entries_are_read_in_order(d: Seq<u8>, i: int, e: Entry)
    requires
        0 <= i,
        e.operands < u64::MAX,
    ensures
        i >= d.len() ==> entries(d, i, e).len() == 0,
        i < d.len() && d[i] != 12 && !(28 <= d[i] <= 30 || 32 <= d[i] <= 254) ==> {
            let all = entries(d, i, e);
            &&& all.len() == entries(d, i + 1, no_numbers()).len() + 1
            &&& all[0].op == d[i]
            &&& all[0].operands == e.operands
            &&& all[0].first == e.first
            &&& all[0].second == e.second
            &&& all.skip(1) == entries(d, i + 1, no_numbers())
        },
        i < d.len() && d[i] == 12 && i + 1 < d.len() ==> {
            let all = entries(d, i, e);
            &&& all.len() == entries(d, i + 2, no_numbers()).len() + 1
            &&& all[0].op == 1200 + d[i + 1]
            &&& all[0].operands == e.operands
            &&& all[0].first == e.first
            &&& all[0].second == e.second
            &&& all.skip(1) == entries(d, i + 2, no_numbers())
        },
        i < d.len() && d[i] == 12 && i + 1 == d.len() ==> entries(d, i, e).len() == 0,
        i < d.len() && (28 <= d[i] <= 30 || 32 <= d[i] <= 254) ==> {
            let n = number_at(d, i);
            let next = Entry {
                op: e.op,
                operands: (e.operands + 1) as u64,
                first: if e.operands == 0 { n } else { e.first },
                second: if e.operands == 1 { n } else { e.second },
            };
            entries(d, i, e) == entries(d, number_end(d, i), next)
        },
        no_numbers().operands == 0,
{
    if i < d.len() && d[i] != 12 && !(28 <= d[i] <= 30 || 32 <= d[i] <= 254) {
        assert(entries(d, i, e).skip(1) =~= entries(d, i + 1, no_numbers()));
    }
    if i < d.len() && d[i] == 12 && i + 1 < d.len() {
        assert(entries(d, i, e).skip(1) =~= entries(d, i + 2, no_numbers()));
    }
}

/// The head of a list: how many items it has and the size of its offsets.
pub open spec fn head_is(t: Seq<u8>, p: int, wide: bool, n: int, z: int) -> bool {
    &&& 0 <= p
    &&& n > 0
    &&& 1 <= z <= 4
    &&& wide ==> p + 5 <= t.len() && be32(t, p) == n && n < 0xffff_ffff && t[p + 4] == z
    &&& !wide ==> p + 3 <= t.len() && be16(t, p) == n && t[p + 2] == z
}

/// Where the offsets of a list start: after its count, of four bytes in `CFF2` and two in `CFF`, and
/// the size of its offsets.
pub open spec fn offsets_from(p: int, wide: bool) -> int {
    if wide {
        p + 5
    } else {
        p + 3
    }
}

/// Where the data of a list starts: after one offset more than it has items.
pub open spec fn data_from(p: int, wide: bool, n: int, z: int) -> int {
    offsets_from(p, wide) + (n + 1) * z
}

/// The offset `k` of a list.
pub open spec fn nth_offset(t: Seq<u8>, p: int, wide: bool, z: int, k: int) -> int {
    be_sized(t, offsets_from(p, wide) + k * z, z)
}

proof fn products_with_small_factors(n: int, z: int)
    requires
        1 <= z <= 4,
    ensures
        crate::cff::times(n, z) == n * z,
{
    if z == 1 {
        assert(n * 1 == n);
    } else if z == 2 {
        assert(n * 2 == 2 * n);
    } else if z == 3 {
        assert(n * 3 == 3 * n);
    } else {
        assert(n * 4 == 4 * n);
    }
}

/// A list fits if its data starts within 32 bits and, where that is in the table, the last offset
/// after that start and eight bytes more do not pass them either.
pub proof fn lists_fit_by_their_last_offset(t: Seq<u8>, p: int, wide: bool, n: int, z: int)
    requires
        head_is(t, p, wide, n, z),
    ensures
        ({
            let from = data_from(p, wide, n, z);
            let last = nth_offset(t, p, wide, z, n);
            &&& from > 0xffff_ffff ==> !list_fits(t, p, wide)
            &&& t.len() < from <= 0xffff_ffff ==> list_fits(t, p, wide)
            &&& from <= t.len() && from <= 0xffff_ffff ==> (list_fits(t, p, wide) <==> from + last
                <= 0xffff_fff7)
        }),
{
    products_with_small_factors(n + 1, z);
    products_with_small_factors(n, z);
}

/// A list without items, one whose head is cut off and one with offsets of another size than one to
/// four bytes fit.
pub proof fn lists_without_items_fit(t: Seq<u8>, p: int, wide: bool)
    requires
        0 <= p,
    ensures
        wide && p + 5 > t.len() ==> list_fits(t, p, wide),
        !wide && p + 3 > t.len() ==> list_fits(t, p, wide),
        wide && p + 5 <= t.len() && (be32(t, p) == 0 || be32(t, p) == 0xffff_ffff || t[p + 4] == 0
            || t[p + 4] > 4) ==> list_fits(t, p, wide),
        !wide && p + 3 <= t.len() && (be16(t, p) == 0 || t[p + 2] == 0 || t[p + 2] > 4)
            ==> list_fits(t, p, wide),
{
}

/// What follows a list comes after its last item, whose end the last offset gives, counted from one
/// before the data; a last offset of 0 stands for no data. It comes after the count of a list that
/// has no items, and nothing follows a list that is cut off or cannot be read.
pub proof fn lists_end_after_their_items(t: Seq<u8>, p: int, wide: bool, n: int, z: int)
    requires
        0 <= p,
    ensures
        wide && p + 4 > t.len() || !wide && p + 2 > t.len() ==> list_end(t, p, wide) is None,
        wide && p + 4 <= t.len() && (be32(t, p) == 0 || be32(t, p) == 0xffff_ffff) ==> list_end(
            t,
            p,
            wide,
        ) == Some(p + 4),
        !wide && p + 2 <= t.len() && be16(t, p) == 0 ==> list_end(t, p, wide) == Some(p + 2),
        wide && p + 5 <= t.len() && 0 < be32(t, p) < 0xffff_ffff && !(1 <= t[p + 4] <= 4)
            ==> list_end(t, p, wide) is None,
        !wide && p + 3 <= t.len() && 0 < be16(t, p) && !(1 <= t[p + 2] <= 4) ==> list_end(
            t,
            p,
            wide,
        ) is None,
        head_is(t, p, wide, n, z) ==> {
            let from = data_from(p, wide, n, z);
            let last = nth_offset(t, p, wide, z, n);
            &&& from > t.len() ==> list_end(t, p, wide) is None
            &&& from <= t.len() && last == 0 ==> list_end(t, p, wide) == Some(from)
            &&& from <= t.len() && last > 0 && from + last - 1 <= t.len() ==> list_end(t, p, wide)
                == Some(from + last - 1)
            &&& from <= t.len() && last > 0 && from + last - 1 > t.len() ==> list_end(t, p, wide)
                is None
        },
{
    if head_is(t, p, wide, n, z) {
        products_with_small_factors(n + 1, z);
        products_with_small_factors(n, z);
    }
}

/// The item `k` of a list lies between its offset and the next, counted from one before the data, if
/// it lies in the table and the offsets are in order.
pub proof fn items_lie_between_their_offsets(
    t: Seq<u8>,
    p: int,
    wide: bool,
    n: int,
    z: int,
    k: int,
)
    requires
        head_is(t, p, wide, n, z),
        data_from(p, wide, n, z) <= t.len(),
    ensures
        ({
            let before = data_from(p, wide, n, z) - 1;
            let a = nth_offset(t, p, wide, z, k);
            let b = nth_offset(t, p, wide, z, k + 1);
            &&& 0 <= k < n && 0 < a <= b && before + b <= t.len() ==> item_at(t, p, wide, k) == Some(
                (before + a, before + b),
            )
            &&& !(0 <= k < n && 0 < a <= b && before + b <= t.len()) ==> item_at(t, p, wide, k)
                is None
        }),
{
    products_with_small_factors(n + 1, z);
    products_with_small_factors(k, z);
    products_with_small_factors(k + 1, z);
}

/// What the entries of the dictionaries refer to. In a main one a place after 17, or after 12 and 36,
/// is that of a list; in any one a length and a place after 18 are those of a private dictionary, in
/// which a place after 19, counted from its start, is that of a list of routines. Each of those must
/// fit, as far as the places are in the table, and a number there must be a whole one. Other entries
/// do not matter, nor do those with another count of numbers.
pub proof fn entries_refer_to_lists(t: Seq<u8>, wide: bool, base: int, e: Entry)
    ensures
        e.op == 19 && e.operands == 1 ==> (routines_fit(t, base, wide, e) <==> (e.first matches Some(
            v,
        ) && (0 <= v <= t.len() - base ==> list_fits(t, base + v, wide)))),
        e.op != 19 || e.operands != 1 ==> routines_fit(t, base, wide, e),
        e.op == 18 && e.operands == 2 ==> (private_fits(t, wide, e) <==> (e.first matches Some(len)
            && e.second matches Some(at) && (len >= 0 && at >= 0 && len + at <= t.len()
            ==> forall|k: int|
            0 <= k < dictionary(t, at as int, at + len).len() ==> routines_fit(
                t,
                at as int,
                wide,
                #[trigger] dictionary(t, at as int, at + len)[k],
            )))),
        e.op != 18 || e.operands != 2 ==> private_fits(t, wide, e),
        e.op == 17 && e.operands == 1 ==> (entry_fits(t, e) <==> (e.first matches Some(v) && (0 <= v
            <= t.len() ==> list_fits(t, v as int, false)))),
        e.op == 1236 && e.operands == 1 ==> (entry_fits(t, e) <==> (e.first matches Some(v) && (0
            <= v <= t.len() ==> list_fits(t, v as int, false)))),
        e.op == 18 ==> entry_fits(t, e) == private_fits(t, false, e),
        !(e.op == 17 || e.op == 18 || e.op == 1236) ==> entry_fits(t, e),
        e.operands == 0 || e.operands > 2 ==> entry_fits(t, e),
        (e.op == 17 || e.op == 1236) && e.operands != 1 ==> entry_fits(t, e),
{
}

/// What the entries of the main dictionary of `CFF2` refer to: a place after 17 to a list, one after
/// 24 to a store of variations, past the two bytes of its length, and one after 12 and 36 to a list
/// of fonts, each item of which is a dictionary whose private ones must fit.
pub proof fn wide_entries_refer_to_lists_and_fonts(t: Seq<u8>, e: Entry)
    ensures
        e.op == 17 && e.operands == 1 ==> (wide_entry_fits(t, e) <==> (e.first matches Some(v) && (0
            <= v <= t.len() ==> list_fits(t, v as int, true)))),
        e.op == 24 && e.operands == 1 ==> (wide_entry_fits(t, e) <==> (e.first matches Some(v) && (0
            <= v ==> store_fits(t, v + 2)))),
        e.op == 1236 && e.operands == 1 ==> (wide_entry_fits(t, e) <==> (e.first matches Some(v)
            && (0 <= v <= t.len() ==> list_fits(t, v as int, true) && forall|k: int|
            0 <= k < be32(t, v as int) ==> #[trigger] font_fits(t, v as int, k)))),
        !(e.op == 17 || e.op == 24 || e.op == 1236) || e.operands != 1 ==> wide_entry_fits(t, e),
{
}

/// The dictionary of a font in a list fits if the private ones that it refers to do, and an item that
/// is not in the table is passed over.
pub proof fn fonts_fit_by_their_private_parts(t: Seq<u8>, p: int, k: int)
    ensures
        item_at(t, p, true, k) is None ==> font_fits(t, p, k),
        item_at(t, p, true, k) matches Some((from, to)) ==> (font_fits(t, p, k) <==> forall|j: int|
            0 <= j < dictionary(t, from, to).len() ==> private_fits(
                t,
                true,
                #[trigger] dictionary(t, from, to)[j],
            )),
        forall|from: int, to: int| #[trigger]
            dictionary(t, from, to) == entries(t.subrange(from, to), 0, no_numbers()),
{
}

/// A `CFF` table has four lists, one after the other: names, main dictionaries, texts and routines.
/// The first starts where the third byte says, though not within the first four. Each must fit, as
/// far as it can be found, and so must all that the first of the main dictionaries refers to. A table
/// of another version fits.
pub proof fn compact_outlines_have_four_lists(t: Seq<u8>, names: int)
    requires
        names >= 4 && names >= t[2] && (names == 4 || names == t[2]),
    ensures
        t.len() < 3 ==> cff_fits(t),
        t.len() >= 3 && t[0] != 1 ==> cff_fits(t),
        t.len() >= 3 && t[0] == 1 ==> {
            &&& !list_fits(t, names, false) ==> !cff_fits(t)
            &&& list_fits(t, names, false) && list_end(t, names, false) is None ==> cff_fits(t)
            &&& list_end(t, names, false) matches Some(main) ==> {
                let dicts_fit = item_at(t, main, false, 0) matches Some((from, to))
                    ==> forall|k: int|
                    0 <= k < dictionary(t, from, to).len() ==> entry_fits(
                        t,
                        #[trigger] dictionary(t, from, to)[k],
                    );
                let texts_fit = list_end(t, main, false) matches Some(texts) ==> {
                    &&& list_fits(t, texts, false)
                    &&& list_end(t, texts, false) matches Some(routines) ==> list_fits(
                        t,
                        routines,
                        false,
                    )
                };
                cff_fits(t) <==> list_fits(t, names, false) && list_fits(t, main, false) && dicts_fit
                    && texts_fit
            }
        },
{
}

/// A `CFF2` table has its main dictionary where the third byte says, though not within the first
/// five, as long as the next two bytes say, and its list of routines after it. Both must fit, where
/// the list starts in the table. A table of another version fits.
pub proof fn wide_outlines_have_a_dictionary_and_routines(t: Seq<u8>, main: int, end: int)
    requires
        main >= 5 && main >= t[2] && (main == 5 || main == t[2]),
        end == main + 0x100 * t[3] + t[4],
    ensures
        t.len() < 5 ==> cff2_fits(t),
        t.len() >= 5 && t[0] != 2 ==> cff2_fits(t),
        t.len() >= 5 && t[0] == 2 ==> {
            &&& end > t.len() ==> cff2_fits(t)
            &&& end <= t.len() ==> (cff2_fits(t) <==> list_fits(t, end, true) && forall|k: int|
                0 <= k < dictionary(t, main, end).len() ==> wide_entry_fits(
                    t,
                    #[trigger] dictionary(t, main, end)[k],
                ))
        },
{
}

} // verus!
