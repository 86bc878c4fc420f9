//! Compact outlines: the `CFF` and `CFF2` tables of a font, which keep lists of data of any length.
use vstd::prelude::*;
use vstd::slice::slice_subrange;

use crate::bytes::{be16, be32, be_sized};
use crate::bytes::{sized_at, u16_at, u32_at, u8_at};
use crate::font_tables::is_store_fit;
use crate::font_tables::store_fits;

verus! {

/// `n` times a size of one to four.
pub open spec fn times(n: int, size: int) -> int {
    if size == 1 {
        n
    } else if size == 2 {
        2 * n
    } else if size == 3 {
        3 * n
    } else {
        4 * n
    }
}

/// How many bytes the count of a list takes: four in `CFF2`, two in `CFF`.
pub open spec fn count_size(wide: bool) -> int {
    if wide {
        4
    } else {
        2
    }
}

/// How many items the list at `p` has.
pub open spec fn count_at(t: Seq<u8>, p: int, wide: bool) -> int {
    if wide {
        be32(t, p)
    } else {
        be16(t, p)
    }
}

/// Whether the list at `p` has items with offsets of a known size: after its count comes the size
/// of an offset, then one offset more than it has items, then their data.
pub open spec fn has_items(t: Seq<u8>, p: int, wide: bool) -> bool {
    let h = count_size(wide);
    &&& p + h + 1 <= t.len()
    &&& 0 < count_at(t, p, wide) < u32::MAX
    &&& 1 <= t[p + h] <= 4
}

/// Where the offsets of the list at `p` end and its data starts.
pub open spec fn data_at(t: Seq<u8>, p: int, wide: bool) -> int {
    let h = count_size(wide);
    p + h + 1 + times(count_at(t, p, wide) + 1, t[p + h] as int)
}

/// The offset `k` of the list at `p`; offsets count from one.
pub open spec fn offset_at(t: Seq<u8>, p: int, wide: bool, k: int) -> int {
    let h = count_size(wide);
    be_sized(t, p + h + 1 + times(k, t[p + h] as int), t[p + h] as int)
}

/// Whether the offsets and the data of the list at `p` end within 32 bits, and what follows them
/// starts there.
pub open spec fn list_fits(t: Seq<u8>, p: int, wide: bool) -> bool {
    has_items(t, p, wide) ==> {
        &&& data_at(t, p, wide) <= u32::MAX
        &&& data_at(t, p, wide) <= t.len() ==> data_at(t, p, wide) + offset_at(
            t,
            p,
            wide,
            count_at(t, p, wide),
        ) + 8 <= u32::MAX
    }
}

/// Where the list at `p` ends, if it does so in the table.
pub open spec fn list_end(t: Seq<u8>, p: int, wide: bool) -> Option<int> {
    let h = count_size(wide);
    let last = offset_at(t, p, wide, count_at(t, p, wide));
    if p + h > t.len() {
        None
    } else if count_at(t, p, wide) == 0 || count_at(t, p, wide) == u32::MAX {
        Some(p + h)
    } else if !has_items(t, p, wide) || data_at(t, p, wide) > t.len() {
        None
    } else if last == 0 {
        Some(data_at(t, p, wide))
    } else if data_at(t, p, wide) + last - 1 <= t.len() {
        Some(data_at(t, p, wide) + last - 1)
    } else {
        None
    }
}

/// Where the item `k` of the list at `p` starts and ends, if it lies in the table.
pub open spec fn item_at(t: Seq<u8>, p: int, wide: bool, k: int) -> Option<(int, int)> {
    let from = data_at(t, p, wide) + offset_at(t, p, wide, k) - 1;
    let to = data_at(t, p, wide) + offset_at(t, p, wide, k + 1) - 1;
    if has_items(t, p, wide) && 0 <= k < count_at(t, p, wide) && data_at(t, p, wide) <= t.len()
        && offset_at(t, p, wide, k) > 0 && from <= to <= t.len() {
        Some((from, to))
    } else {
        None
    }
}

/// An entry of a dictionary: an operator, how many numbers come before it, and the first two of
/// them, where they are whole numbers that the dictionary holds.
#[derive(Clone, Copy, Debug, PartialEq, Eq, Structural)]
pub struct Entry {
    pub op: u64,
    pub operands: u64,
    pub first: Option<i64>,
    pub second: Option<i64>,
}

/// Whether a byte of a dictionary is an operator and not the start of a number.
pub open spec fn is_operator(b: u8) -> bool {
    b <= 27 || b == 31 || b == 255
}

/// Where the digits of a fraction that go on at `i` end.
pub open spec fn fraction_end(d: Seq<u8>, i: int) -> int
    decreases d.len() - i,
{
    if i >= d.len() {
        i
    } else if d[i] / 16 == 15 || d[i] % 16 == 15 {
        i + 1
    } else {
        fraction_end(d, i + 1)
    }
}

/// Where the number at `i` ends.
pub open spec fn number_end(d: Seq<u8>, i: int) -> int {
    if d[i] == 28 {
        i + 3
    } else if d[i] == 29 {
        i + 5
    } else if d[i] == 30 {
        fraction_end(d, i + 1)
    } else if d[i] <= 246 {
        i + 1
    } else {
        i + 2
    }
}

/// The whole number at `i`; none if it is a fraction or goes past the end.
pub open spec fn number_at(d: Seq<u8>, i: int) -> Option<i64> {
    if d[i] == 30 || number_end(d, i) > d.len() {
        None
    } else if d[i] == 28 {
        let n = be16(d, i + 1);
        Some((if n < 0x8000 { n } else { n - 0x1_0000 }) as i64)
    } else if d[i] == 29 {
        let n = be32(d, i + 1);
        Some((if n < 0x8000_0000 { n } else { n - 0x1_0000_0000 }) as i64)
    } else if d[i] <= 246 {
        Some((d[i] - 139) as i64)
    } else if d[i] <= 250 {
        Some(((d[i] - 247) * 256 + d[i + 1] + 108) as i64)
    } else {
        Some((-(d[i] - 251) * 256 - d[i + 1] - 108) as i64)
    }
}

/// An entry with one number more.
pub open spec fn with_number(e: Entry, n: Option<i64>) -> Entry {
    Entry {
        op: e.op,
        operands: (e.operands + 1) as u64,
        first: if e.operands == 0 {
            n
        } else {
            e.first
        },
        second: if e.operands == 1 {
            n
        } else {
            e.second
        },
    }
}

/// An entry before its numbers.
pub open spec fn no_numbers() -> Entry {
    Entry { op: 0, operands: 0, first: None, second: None }
}

/// The entries of a dictionary from `i` on, after the numbers in `e`. The second byte of an
/// operator is added to 1200.
pub open spec fn entries(d: Seq<u8>, i: int, e: Entry) -> Seq<Entry>
    decreases d.len() + 5 - i,
    via entries_decreases
{
    if i >= d.len() {
        Seq::empty()
    } else if d[i] == 12 {
        if i + 1 >= d.len() {
            Seq::empty()
        } else {
            seq![Entry { op: (1200 + d[i + 1]) as u64, ..e }] + entries(d, i + 2, no_numbers())
        }
    } else if is_operator(d[i]) {
        seq![Entry { op: d[i] as u64, ..e }] + entries(d, i + 1, no_numbers())
    } else {
        entries(d, number_end(d, i), with_number(e, number_at(d, i)))
    }
}

#[via_fn]
proof fn entries_decreases(d: Seq<u8>, i: int, e: Entry) {
    fractions_end_later(d, i + 1);
}

proof fn fractions_end_later(d: Seq<u8>, i: int)
    ensures
        fraction_end(d, i) >= i,
        i <= d.len() ==> fraction_end(d, i) <= d.len(),
    decreases d.len() - i,
{
    if i < d.len() && !(d[i] / 16 == 15 || d[i] % 16 == 15) {
        fractions_end_later(d, i + 1);
    }
}

/// The entries of the dictionary in a part of the table.
pub open spec fn dictionary(t: Seq<u8>, from: int, to: int) -> Seq<Entry> {
    entries(t.subrange(from, to), 0, no_numbers())
}

/// Whether an entry of a private dictionary at `base`, if it says where the local routines are, does
/// so in a whole number, and their list fits.
pub open spec fn routines_fit(t: Seq<u8>, base: int, wide: bool, e: Entry) -> bool {
    e.op == 19 && e.operands == 1 ==> match e.first {
        Some(v) => 0 <= v && base + v <= t.len() ==> list_fits(t, base + v, wide),
        None => false,
    }
}

/// Whether that holds of all entries of a private dictionary at `base`.
pub open spec fn all_routines_fit(t: Seq<u8>, base: int, wide: bool, all: Seq<Entry>) -> bool {
    forall|k: int| 0 <= k < all.len() ==> routines_fit(t, base, wide, #[trigger] all[k])
}

/// Whether an entry, if it says how long a private dictionary is and where, does so in whole numbers,
/// and what that dictionary refers to fits.
pub open spec fn private_fits(t: Seq<u8>, wide: bool, e: Entry) -> bool {
    e.op == 18 && e.operands == 2 ==> match (e.first, e.second) {
        (Some(len), Some(at)) => 0 <= len && 0 <= at && at + len <= t.len() ==> all_routines_fit(
            t,
            at as int,
            wide,
            dictionary(t, at as int, at + len),
        ),
        _ => false,
    }
}

/// Whether that holds of all entries of a dictionary.
pub open spec fn all_private_fit(t: Seq<u8>, wide: bool, all: Seq<Entry>) -> bool {
    forall|k: int| 0 <= k < all.len() ==> private_fits(t, wide, #[trigger] all[k])
}

/// Whether an entry of a main dictionary, if it says where a list is, does so in a whole number, and
/// the list fits: the outlines or the dictionaries of the fonts.
pub open spec fn lists_fit(t: Seq<u8>, wide: bool, e: Entry) -> bool {
    (e.op == 17 || e.op == 1236) && e.operands == 1 ==> match e.first {
        Some(v) => 0 <= v <= t.len() ==> list_fits(t, v as int, wide),
        None => false,
    }
}

/// Whether what an entry of the main dictionary of `CFF` refers to fits.
pub open spec fn entry_fits(t: Seq<u8>, e: Entry) -> bool {
    lists_fit(t, false, e) && private_fits(t, false, e)
}

/// Whether that holds of all entries of the main dictionary.
pub open spec fn all_entries_fit(t: Seq<u8>, all: Seq<Entry>) -> bool {
    forall|k: int| 0 <= k < all.len() ==> entry_fits(t, #[trigger] all[k])
}

/// Whether the lists of `CFF` end within 32 bits: the names, the main dictionary and what it refers
/// to, the texts and the common routines.
pub open spec fn cff_fits(t: Seq<u8>) -> bool {
    t.len() >= 3 && t[0] == 1 ==> {
        let names = if t[2] > 4 {
            t[2] as int
        } else {
            4
        };
        &&& list_fits(t, names, false)
        &&& match list_end(t, names, false) {
            Some(main) => {
                &&& list_fits(t, main, false)
                &&& match item_at(t, main, false, 0) {
                    Some((from, to)) => all_entries_fit(t, dictionary(t, from, to)),
                    None => true,
                }
                &&& match list_end(t, main, false) {
                    Some(texts) => {
                        &&& list_fits(t, texts, false)
                        &&& match list_end(t, texts, false) {
                            Some(routines) => list_fits(t, routines, false),
                            None => true,
                        }
                    },
                    None => true,
                }
            },
            None => true,
        }
    }
}

/// Whether what the dictionary of a font in a list of `CFF2` refers to fits.
pub open spec fn font_fits(t: Seq<u8>, p: int, k: int) -> bool {
    match item_at(t, p, true, k) {
        Some((from, to)) => all_private_fit(t, true, dictionary(t, from, to)),
        None => true,
    }
}

/// Whether what an entry of the main dictionary of `CFF2` refers to fits.
pub open spec fn wide_entry_fits(t: Seq<u8>, e: Entry) -> bool {
    &&& lists_fit(t, true, e)
    &&& e.op == 1236 && e.operands == 1 ==> match e.first {
        Some(v) => 0 <= v <= t.len() ==> forall|k: int|
            0 <= k < count_at(t, v as int, true) ==> #[trigger] font_fits(t, v as int, k),
        None => false,
    }
    &&& e.op == 24 && e.operands == 1 ==> match e.first {
        Some(v) => 0 <= v ==> store_fits(t, v + 2),
        None => false,
    }
}

/// Whether that holds of all entries of the main dictionary.
pub open spec fn all_wide_entries_fit(t: Seq<u8>, all: Seq<Entry>) -> bool {
    forall|k: int| 0 <= k < all.len() ==> wide_entry_fits(t, #[trigger] all[k])
}

/// Whether the lists of `CFF2` end within 32 bits: what the main dictionary refers to, and the
/// common routines.
pub open spec fn cff2_fits(t: Seq<u8>) -> bool {
    t.len() >= 5 && t[0] == 2 ==> {
        let main = if t[2] > 5 {
            t[2] as int
        } else {
            5
        };
        let routines = main + be16(t, 3);
        routines <= t.len() ==> {
            &&& list_fits(t, routines, true)
            &&& all_wide_entries_fit(t, dictionary(t, main, routines))
        }
    }
}

/// A list: how many items it has, the size of its offsets, and where they and the data start.
struct List {
    count: u64,
    size: u64,
    offsets: u64,
    data: u64,
}

fn multiple(n: u64, size: u64) -> (r: u64)
    requires
        n <= 0x1_0000_0000,
        1 <= size <= 4,
    ensures
        r == times(n as int, size as int),
        r <= 0x4_0000_0000,
{
    if size == 1 {
        n
    } else if size == 2 {
        2 * n
    } else if size == 3 {
        3 * n
    } else {
        4 * n
    }
}

fn count_bytes(wide: bool) -> (r: u64)
    ensures
        r == count_size(wide),
        2 <= r <= 4,
{
    if wide {
        4
    } else {
        2
    }
}

fn count_of(t: &[u8], p: u64, wide: bool) -> (r: u64)
    requires
        t@.len() <= u32::MAX,
        p + count_size(wide) <= t@.len(),
    ensures
        r == count_at(t@, p as int, wide),
        r <= 0xffff_ffff,
{
    if wide {
        u32_at(t, p)
    } else {
        u16_at(t, p)
    }
}

fn list_of(t: &[u8], p: u64, wide: bool) -> (r: Option<List>)
    requires
        t@.len() <= u32::MAX,
        p <= 0x1_0000_0000,
    ensures
        r is Some <==> has_items(t@, p as int, wide),
        r matches Some(l) ==> {
            &&& l.count == count_at(t@, p as int, wide)
            &&& 0 < l.count < u32::MAX
            &&& l.size == t@[p + count_size(wide)]
            &&& 1 <= l.size <= 4
            &&& l.offsets == p + count_size(wide) + 1
            &&& l.data == data_at(t@, p as int, wide)
            &&& l.data == l.offsets + times(l.count + 1, l.size as int)
            &&& l.data <= 0x6_0000_0000
        },
{
    let n: u64 = t.len() as u64;
    let h: u64 = count_bytes(wide);
    if p + h + 1 > n {
        return None;
    }
    let count: u64 = count_of(t, p, wide);
    let size: u64 = u8_at(t, p + h);
    if count == 0 || count == 0xffff_ffff || size < 1 || size > 4 {
        return None;
    }
    let offsets: u64 = p + h + 1;
    Some(List { count, size, offsets, data: offsets + multiple(count + 1, size) })
}

fn offset_in(t: &[u8], p: u64, wide: bool, l: &List, k: u64) -> (r: u64)
    requires
        t@.len() <= u32::MAX,
        has_items(t@, p as int, wide),
        l.count == count_at(t@, p as int, wide),
        l.size == t@[p + count_size(wide)],
        l.offsets == p + count_size(wide) + 1,
        l.data == l.offsets + times(l.count + 1, l.size as int),
        l.data <= t@.len(),
        k <= l.count,
    ensures
        r == offset_at(t@, p as int, wide, k as int),
        r <= 0xffff_ffff,
{
    sized_at(t, l.offsets + multiple(k, l.size), l.size)
}

fn is_list_fit(t: &[u8], p: u64, wide: bool) -> (r: bool)
    requires
        t@.len() <= u32::MAX,
        p <= 0x1_0000_0000,
    ensures
        r == list_fits(t@, p as int, wide),
{
    let n: u64 = t.len() as u64;
    match list_of(t, p, wide) {
        None => true,
        Some(l) => {
            if l.data > 0xffff_ffff {
                false
            } else if l.data > n {
                true
            } else {
                l.data + offset_in(t, p, wide, &l, l.count) + 8 <= 0xffff_ffff
            }
        },
    }
}

fn end_of_list(t: &[u8], p: u64, wide: bool) -> (r: Option<u64>)
    requires
        t@.len() <= u32::MAX,
        p <= 0x1_0000_0000,
    ensures
        match r {
            Some(e) => list_end(t@, p as int, wide) == Some(e as int) && e <= t@.len(),
            None => list_end(t@, p as int, wide) is None,
        },
{
    let n: u64 = t.len() as u64;
    let h: u64 = count_bytes(wide);
    if p + h > n {
        return None;
    }
    let count: u64 = count_of(t, p, wide);
    if count == 0 || count == 0xffff_ffff {
        return Some(p + h);
    }
    match list_of(t, p, wide) {
        None => None,
        Some(l) => {
            if l.data > n {
                return None;
            }
            let last: u64 = offset_in(t, p, wide, &l, l.count);
            if last == 0 {
                Some(l.data)
            } else if l.data + last - 1 <= n {
                Some(l.data + last - 1)
            } else {
                None
            }
        },
    }
}

fn item_of(t: &[u8], p: u64, wide: bool, k: u64) -> (r: Option<(u64, u64)>)
    requires
        t@.len() <= u32::MAX,
        p <= 0x1_0000_0000,
    ensures
        match r {
            Some((from, to)) => item_at(t@, p as int, wide, k as int) == Some(
                (from as int, to as int),
            ) && from <= to <= t@.len(),
            None => item_at(t@, p as int, wide, k as int) is None,
        },
{
    let n: u64 = t.len() as u64;
    match list_of(t, p, wide) {
        None => None,
        Some(l) => {
            if k >= l.count || l.data > n {
                return None;
            }
            let first: u64 = offset_in(t, p, wide, &l, k);
            let next: u64 = offset_in(t, p, wide, &l, k + 1);
            if first == 0 || next < first || l.data + next - 1 > n {
                return None;
            }
            Some((l.data + first - 1, l.data + next - 1))
        },
    }
}

fn end_of_fraction(d: &[u8], i: u64) -> (r: u64)
    requires
        d@.len() <= u32::MAX,
        i <= d@.len(),
    ensures
        r == fraction_end(d@, i as int),
        i <= r <= d@.len(),
{
    let n: u64 = d.len() as u64;
    let mut j: u64 = i;
    while j < n
        invariant
            n == d@.len(),
            i <= j <= n,
            fraction_end(d@, i as int) == fraction_end(d@, j as int),
        decreases n - j,
    {
        let b: u64 = u8_at(d, j);
        if b / 16 == 15 || b % 16 == 15 {
            return j + 1;
        }
        j = j + 1;
    }
    j
}

fn end_of_number(d: &[u8], i: u64) -> (r: u64)
    requires
        d@.len() <= u32::MAX,
        i < d@.len(),
    ensures
        r == number_end(d@, i as int),
        i < r <= d@.len() + 5,
{
    let b: u64 = u8_at(d, i);
    if b == 28 {
        i + 3
    } else if b == 29 {
        i + 5
    } else if b == 30 {
        end_of_fraction(d, i + 1)
    } else if b <= 246 {
        i + 1
    } else {
        i + 2
    }
}

fn number_of(d: &[u8], i: u64) -> (r: Option<i64>)
    requires
        d@.len() <= u32::MAX,
        i < d@.len(),
    ensures
        r == number_at(d@, i as int),
{
    let n: u64 = d.len() as u64;
    let b: u64 = u8_at(d, i);
    if b == 30 || end_of_number(d, i) > n {
        None
    } else if b == 28 {
        let v: i64 = u16_at(d, i + 1) as i64;
        if v < 0x8000 {
            Some(v)
        } else {
            Some(v - 0x1_0000)
        }
    } else if b == 29 {
        let v: i64 = u32_at(d, i + 1) as i64;
        if v < 0x8000_0000 {
            Some(v)
        } else {
            Some(v - 0x1_0000_0000)
        }
    } else if b <= 246 {
        Some(b as i64 - 139)
    } else if b <= 250 {
        Some((b as i64 - 247) * 256 + u8_at(d, i + 1) as i64 + 108)
    } else {
        Some(-(b as i64 - 251) * 256 - u8_at(d, i + 1) as i64 - 108)
    }
}

/// The entries of the dictionary in a part of the table.
fn read_dictionary(t: &[u8], from: u64, to: u64) -> (r: Vec<Entry>)
    requires
        t@.len() <= u32::MAX,
        from <= to <= t@.len(),
    ensures
        r@ == dictionary(t@, from as int, to as int),
{
    let d = slice_subrange(t, from as usize, to as usize);
    let n: u64 = d.len() as u64;
    let mut out: Vec<Entry> = Vec::new();
    let mut i: u64 = 0;
    let mut e: Entry = Entry { op: 0, operands: 0, first: None, second: None };
    assert(out@ + entries(d@, 0, e) =~= entries(d@, 0, e));
    while i < n
        invariant_except_break
            out@ + entries(d@, i as int, e) == entries(d@, 0, no_numbers()),
        invariant
            n == d@.len(),
            n <= u32::MAX,
            i <= n + 5,
            e.operands <= i,
        ensures
            out@ == entries(d@, 0, no_numbers()),
        decreases n + 5 - i,
    {
        let b: u64 = u8_at(d, i);
        let ghost done = out@;
        if b == 12 {
            if i + 1 >= n {
                assert(done + Seq::<Entry>::empty() =~= done);
                break;
            }
            let full: Entry = Entry { op: 1200 + u8_at(d, i + 1), ..e };
            out.push(full);
            i = i + 2;
            e = Entry { op: 0, operands: 0, first: None, second: None };
            assert(done.push(full) + entries(d@, i as int, e) =~= done + (seq![full] + entries(
                d@,
                i as int,
                e,
            )));
        } else if b <= 27 || b == 31 || b == 255 {
            let full: Entry = Entry { op: b, ..e };
            out.push(full);
            i = i + 1;
            e = Entry { op: 0, operands: 0, first: None, second: None };
            assert(done.push(full) + entries(d@, i as int, e) =~= done + (seq![full] + entries(
                d@,
                i as int,
                e,
            )));
        } else {
            let v: Option<i64> = number_of(d, i);
            e = Entry {
                op: e.op,
                operands: e.operands + 1,
                first: if e.operands == 0 {
                    v
                } else {
                    e.first
                },
                second: if e.operands == 1 {
                    v
                } else {
                    e.second
                },
            };
            i = end_of_number(d, i);
        }
        assert(i >= n ==> out@ + entries(d@, i as int, e) =~= out@);
    }
    out
}

fn are_routines_fit(t: &[u8], base: u64, wide: bool, e: Entry) -> (r: bool)
    requires
        t@.len() <= u32::MAX,
        base <= t@.len(),
    ensures
        r == routines_fit(t@, base as int, wide, e),
{
    let n: u64 = t.len() as u64;
    if e.op != 19 || e.operands != 1 {
        return true;
    }
    match e.first {
        Some(v) => v < 0 || v as u64 > n - base || is_list_fit(t, base + v as u64, wide),
        None => false,
    }
}

fn is_private_fit(t: &[u8], wide: bool, e: Entry) -> (r: bool)
    requires
        t@.len() <= u32::MAX,
    ensures
        r == private_fits(t@, wide, e),
{
    let n: u64 = t.len() as u64;
    if e.op != 18 || e.operands != 2 {
        return true;
    }
    match (e.first, e.second) {
        (Some(len), Some(at)) => {
            if len < 0 || at < 0 || at as u64 > n || len as u64 > n - at as u64 {
                return true;
            }
            let all = read_dictionary(t, at as u64, at as u64 + len as u64);
            let count: usize = all.len();
            for k in 0..count
                invariant
                    t@.len() <= u32::MAX,
                    at <= t@.len(),
                    0 <= at,
                    count == all@.len(),
                    all@ == dictionary(t@, at as int, at + len),
                    0 <= len,
                    at + len <= t@.len(),
                    e.op == 18,
                    e.operands == 2,
                    e.first == Some(len),
                    e.second == Some(at),
                    forall|j: int|
                        0 <= j < k ==> routines_fit(t@, at as int, wide, #[trigger] all@[j]),
            {
                if !are_routines_fit(t, at as u64, wide, all[k]) {
                    assert(!all_routines_fit(t@, at as int, wide, all@));
                    return false;
                }
            }
            true
        },
        _ => false,
    }
}

fn are_lists_fit(t: &[u8], wide: bool, e: Entry) -> (r: bool)
    requires
        t@.len() <= u32::MAX,
    ensures
        r == lists_fit(t@, wide, e),
{
    let n: u64 = t.len() as u64;
    if (e.op != 17 && e.op != 1236) || e.operands != 1 {
        return true;
    }
    match e.first {
        Some(v) => v < 0 || v as u64 > n || is_list_fit(t, v as u64, wide),
        None => false,
    }
}

fn is_main_fit(t: &[u8], from: u64, to: u64) -> (r: bool)
    requires
        t@.len() <= u32::MAX,
        from <= to <= t@.len(),
    ensures
        r == all_entries_fit(t@, dictionary(t@, from as int, to as int)),
{
    let all = read_dictionary(t, from, to);
    let count: usize = all.len();
    for k in 0..count
        invariant
            t@.len() <= u32::MAX,
            count == all@.len(),
            all@ == dictionary(t@, from as int, to as int),
            forall|j: int| 0 <= j < k ==> entry_fits(t@, #[trigger] all@[j]),
    {
        if !are_lists_fit(t, false, all[k]) || !is_private_fit(t, false, all[k]) {
            assert(!all_entries_fit(t@, all@));
            return false;
        }
    }
    true
}

/// Whether the lists of `CFF` end within 32 bits.
pub fn is_cff_fit(t: &[u8]) -> (r: bool)
    requires
        t@.len() <= u32::MAX,
    ensures
        r == cff_fits(t@),
{
    let n: u64 = t.len() as u64;
    if n < 3 || u8_at(t, 0) != 1 {
        return true;
    }
    let head: u64 = u8_at(t, 2);
    let names: u64 = if head > 4 {
        head
    } else {
        4
    };
    if !is_list_fit(t, names, false) {
        return false;
    }
    let main: u64 = match end_of_list(t, names, false) {
        Some(p) => p,
        None => {
            return true;
        },
    };
    if !is_list_fit(t, main, false) {
        return false;
    }
    if let Some((from, to)) = item_of(t, main, false, 0) {
        if !is_main_fit(t, from, to) {
            return false;
        }
    }
    let texts: u64 = match end_of_list(t, main, false) {
        Some(p) => p,
        None => {
            return true;
        },
    };
    if !is_list_fit(t, texts, false) {
        return false;
    }
    match end_of_list(t, texts, false) {
        Some(routines) => is_list_fit(t, routines, false),
        None => true,
    }
}

fn is_font_fit(t: &[u8], p: u64, k: u64) -> (r: bool)
    requires
        t@.len() <= u32::MAX,
        p <= t@.len(),
    ensures
        r == font_fits(t@, p as int, k as int),
{
    match item_of(t, p, true, k) {
        None => true,
        Some((from, to)) => {
            let all = read_dictionary(t, from, to);
            let count: usize = all.len();
            for j in 0..count
                invariant
                    t@.len() <= u32::MAX,
                    count == all@.len(),
                    all@ == dictionary(t@, from as int, to as int),
                    item_at(t@, p as int, true, k as int) == Some((from as int, to as int)),
                    forall|i: int| 0 <= i < j ==> private_fits(t@, true, #[trigger] all@[i]),
            {
                if !is_private_fit(t, true, all[j]) {
                    assert(!all_private_fit(t@, true, all@));
                    return false;
                }
            }
            true
        },
    }
}

/// Whether what the dictionaries of the fonts in the list at `p` refer to fits.
fn are_fonts_fit(t: &[u8], p: u64) -> (r: bool)
    requires
        t@.len() <= u32::MAX,
        p <= t@.len(),
    ensures
        r == (forall|k: int|
            0 <= k < count_at(t@, p as int, true) ==> #[trigger] font_fits(t@, p as int, k)),
{
    let n: u64 = t.len() as u64;
    match list_of(t, p, true) {
        None => {
            assert forall|k: int| 0 <= k < count_at(t@, p as int, true) implies #[trigger] font_fits(
                t@,
                p as int,
                k,
            ) by {
                assert(item_at(t@, p as int, true, k) is None);
            }
            true
        },
        Some(l) => {
            if l.data > n {
                assert forall|k: int|
                    0 <= k < count_at(t@, p as int, true) implies #[trigger] font_fits(
                    t@,
                    p as int,
                    k,
                ) by {
                    assert(item_at(t@, p as int, true, k) is None);
                }
                return true;
            }
            for k in 0..l.count
                invariant
                    t@.len() <= u32::MAX,
                    p <= t@.len(),
                    l.count == count_at(t@, p as int, true),
                    forall|j: int| 0 <= j < k ==> #[trigger] font_fits(t@, p as int, j),
            {
                if !is_font_fit(t, p, k) {
                    return false;
                }
            }
            true
        },
    }
}

fn is_wide_entry_fit(t: &[u8], e: Entry) -> (r: bool)
    requires
        t@.len() <= u32::MAX,
    ensures
        r == wide_entry_fits(t@, e),
{
    let n: u64 = t.len() as u64;
    if !are_lists_fit(t, true, e) {
        return false;
    }
    if e.op == 1236 && e.operands == 1 {
        match e.first {
            Some(v) => v < 0 || v as u64 > n || are_fonts_fit(t, v as u64),
            None => false,
        }
    } else if e.op == 24 && e.operands == 1 {
        match e.first {
            Some(v) => v < 0 || v as u64 > n || is_store_fit(t, v as u64 + 2),
            None => false,
        }
    } else {
        true
    }
}

/// Whether the lists of `CFF2` end within 32 bits.
pub fn is_cff2_fit(t: &[u8]) -> (r: bool)
    requires
        t@.len() <= u32::MAX,
    ensures
        r == cff2_fits(t@),
{
    let n: u64 = t.len() as u64;
    if n < 5 || u8_at(t, 0) != 2 {
        return true;
    }
    let head: u64 = u8_at(t, 2);
    let main: u64 = if head > 5 {
        head
    } else {
        5
    };
    let routines: u64 = main + u16_at(t, 3);
    if routines > n {
        return true;
    }
    if !is_list_fit(t, routines, true) {
        return false;
    }
    let all = read_dictionary(t, main, routines);
    let count: usize = all.len();
    for k in 0..count
        invariant
            t@.len() <= u32::MAX,
            t@.len() >= 5,
            t@[0] == 2,
            main == if t@[2] > 5 {
                t@[2] as int
            } else {
                5
            },
            routines == main + be16(t@, 3),
            routines <= t@.len(),
            count == all@.len(),
            all@ == dictionary(t@, main as int, routines as int),
            forall|j: int| 0 <= j < k ==> wide_entry_fits(t@, #[trigger] all@[j]),
    {
        if !is_wide_entry_fit(t, all[k]) {
            assert(!all_wide_entries_fit(t@, all@));
            return false;
        }
    }
    true
}

} // verus!
