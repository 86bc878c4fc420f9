//! Tables of a font that say in 32 bits how long their lists are.
use vstd::prelude::*;

use crate::bytes::{be16, be32};
use crate::bytes::{u16_at, u32_at, u8_at};

verus! {

/// Whether the list of regions of a variation store at `o` starts within 32 bits.
pub open spec fn store_fits(t: Seq<u8>, o: int) -> bool {
    o + 8 <= t.len() && be16(t, o) == 1 ==> o + be32(t, o + 2) + 2 <= u32::MAX
}

/// Whether the list in a subtable of `cmap` at `o` ends within 32 bits.
pub open spec fn cmap_subtable_fits(t: Seq<u8>, o: int) -> bool {
    o + 2 <= t.len() ==> {
        let format = be16(t, o);
        &&& format == 10 && o + 20 <= t.len() ==> 20 + 2 * be32(t, o + 16) <= u32::MAX
        &&& (format == 12 || format == 13) && o + 16 <= t.len() ==> 16 + 12 * be32(t, o + 12)
            <= u32::MAX
        &&& format == 14 && o + 10 <= t.len() ==> 10 + 11 * be32(t, o + 6) <= u32::MAX
    }
}

/// Whether the lists in `cmap`, the map from characters to glyphs, end within 32 bits.
pub open spec fn cmap_fits(t: Seq<u8>) -> bool {
    t.len() >= 4 && 4 + 8 * be16(t, 2) <= t.len() ==> forall|i: int|
        0 <= i < be16(t, 2) ==> cmap_subtable_fits(t, #[trigger] be32(t, 8 + 8 * i))
}

/// Whether the subtables of an Apple `kern` table from `q` on end within 32 bits.
pub open spec fn kern_chain_fits(t: Seq<u8>, q: int) -> bool
    decreases t.len() - q,
{
    if q + 6 > t.len() || t[q + 5] > 3 || be32(t, q) < 8 {
        true
    } else if q + be32(t, q) > u32::MAX {
        false
    } else if q + be32(t, q) > t.len() {
        true
    } else {
        kern_chain_fits(t, q + be32(t, q))
    }
}

/// Whether the subtables of `kern`, the kerning, end within 32 bits. Only Apple's have lengths that
/// could end past them.
pub open spec fn kern_fits(t: Seq<u8>) -> bool {
    t.len() >= 8 && be16(t, 0) != 0 ==> kern_chain_fits(t, 8)
}

/// Whether the lists in `COLR`, the colours of glyphs, end within 32 bits.
pub open spec fn colr_fits(t: Seq<u8>) -> bool {
    t.len() >= 34 && be16(t, 0) == 1 ==> {
        let paints = be32(t, 14);
        let layers = be32(t, 18);
        let clips = be32(t, 22);
        let store = be32(t, 30);
        &&& paints + 4 <= t.len() ==> paints + 4 + 6 * be32(t, paints) <= u32::MAX
        &&& layers != 0 && layers + 4 <= t.len() ==> layers + 4 + 4 * be32(t, layers) <= u32::MAX
        &&& clips != 0 && clips + 5 <= t.len() ==> 5 + 7 * be32(t, clips + 1) <= u32::MAX
        &&& store != 0 ==> store_fits(t, store)
    }
}

/// Whether the list of strikes in `sbix`, the bitmaps, ends within 32 bits.
pub open spec fn sbix_fits(t: Seq<u8>) -> bool {
    t.len() >= 8 && be16(t, 0) == 1 ==> 8 + 4 * be32(t, 4) <= u32::MAX
}

/// Whether the list of variations in `GPOS` or `GSUB`, the layout, ends within 32 bits.
pub open spec fn layout_fits(t: Seq<u8>) -> bool {
    t.len() >= 14 && be16(t, 0) == 1 && be16(t, 2) >= 1 ==> {
        let o = be32(t, 10);
        o != 0 && o + 8 <= t.len() && be16(t, o) == 1 ==> 8 + 8 * be32(t, o + 4) <= u32::MAX
    }
}

/// Whether the variation store of `GDEF`, the glyph classes, fits.
pub open spec fn gdef_fits(t: Seq<u8>) -> bool {
    t.len() >= 18 && be32(t, 0) == 0x1_0003 && be32(t, 14) != 0 ==> store_fits(t, be32(t, 14))
}

/// Whether the variation store of `HVAR` or `VVAR`, the variations of advances, fits.
pub open spec fn advances_fit(t: Seq<u8>) -> bool {
    t.len() >= 8 && be32(t, 0) == 0x1_0000 ==> store_fits(t, be32(t, 4))
}

/// Whether the variation store of `MVAR`, the variations of metrics, fits.
pub open spec fn mvar_fits(t: Seq<u8>) -> bool {
    t.len() >= 12 && be32(t, 0) == 0x1_0000 && be16(t, 10) != 0 ==> store_fits(t, be16(t, 10))
}

/// Whether the list of regions of a variation store at `o` starts within 32 bits.
pub fn is_store_fit(t: &[u8], o: u64) -> (r: bool)
    requires
        o <= 0x2_0000_0000,
    ensures
        r == store_fits(t@, o as int),
{
    let n: u64 = t.len() as u64;
    o + 8 > n || u16_at(t, o) != 1 || o + u32_at(t, o + 2) + 2 <= 0xffff_ffff
}

fn is_cmap_subtable_fit(t: &[u8], o: u64) -> (r: bool)
    requires
        o <= 0xffff_ffff,
    ensures
        r == cmap_subtable_fits(t@, o as int),
{
    let n: u64 = t.len() as u64;
    if o + 2 > n {
        return true;
    }
    let format: u64 = u16_at(t, o);
    if format == 10 {
        o + 20 > n || 20 + 2 * u32_at(t, o + 16) <= 0xffff_ffff
    } else if format == 12 || format == 13 {
        o + 16 > n || 16 + 12 * u32_at(t, o + 12) <= 0xffff_ffff
    } else if format == 14 {
        o + 10 > n || 10 + 11 * u32_at(t, o + 6) <= 0xffff_ffff
    } else {
        true
    }
}

/// Whether the lists in `cmap` end within 32 bits.
pub fn is_cmap_fit(t: &[u8]) -> (r: bool)
    ensures
        r == cmap_fits(t@),
{
    let n: u64 = t.len() as u64;
    if n < 4 {
        return true;
    }
    let count: u64 = u16_at(t, 2);
    if 4 + 8 * count > n {
        return true;
    }
    for i in 0..count
        invariant
            n == t@.len(),
            n >= 4,
            count == be16(t@, 2),
            4 + 8 * count <= n,
            count <= 0xffff,
            forall|j: int|
                0 <= j < i ==> cmap_subtable_fits(t@, #[trigger] be32(t@, 8 + 8 * j)),
    {
        let o: u64 = u32_at(t, 8 + 8 * i);
        if !is_cmap_subtable_fit(t, o) {
            assert(!cmap_subtable_fits(t@, be32(t@, 8 + 8 * (i as int))));
            return false;
        }
    }
    true
}

/// Whether the subtables of `kern` end within 32 bits.
pub fn is_kern_fit(t: &[u8]) -> (r: bool)
    requires
        t@.len() <= u32::MAX,
    ensures
        r == kern_fits(t@),
{
    let n: u64 = t.len() as u64;
    if n < 8 || u16_at(t, 0) == 0 {
        return true;
    }
    let mut q: u64 = 8;
    while q + 6 <= n && u8_at(t, q + 5) <= 3
        invariant_except_break
            kern_chain_fits(t@, 8) == kern_chain_fits(t@, q as int),
        invariant
            8 <= n <= u32::MAX,
            n == t@.len(),
            be16(t@, 0) != 0,
            q <= n,
        ensures
            kern_chain_fits(t@, 8),
        decreases n - q,
    {
        let len: u64 = u32_at(t, q);
        if len < 8 {
            break;
        }
        if q + len > 0xffff_ffff {
            return false;
        }
        if q + len > n {
            break;
        }
        q = q + len;
    }
    true
}

/// Whether the lists in `COLR` end within 32 bits.
pub fn is_colr_fit(t: &[u8]) -> (r: bool)
    ensures
        r == colr_fits(t@),
{
    let n: u64 = t.len() as u64;
    if n < 34 || u16_at(t, 0) != 1 {
        return true;
    }
    let paints: u64 = u32_at(t, 14);
    let layers: u64 = u32_at(t, 18);
    let clips: u64 = u32_at(t, 22);
    let store: u64 = u32_at(t, 30);
    (paints + 4 > n || paints + 4 + 6 * u32_at(t, paints) <= 0xffff_ffff) && (layers == 0 || layers
        + 4 > n || layers + 4 + 4 * u32_at(t, layers) <= 0xffff_ffff) && (clips == 0 || clips + 5 > n
        || 5 + 7 * u32_at(t, clips + 1) <= 0xffff_ffff) && (store == 0 || is_store_fit(t, store))
}

/// Whether the list of strikes in `sbix` ends within 32 bits.
pub fn is_sbix_fit(t: &[u8]) -> (r: bool)
    ensures
        r == sbix_fits(t@),
{
    let n: u64 = t.len() as u64;
    n < 8 || u16_at(t, 0) != 1 || 8 + 4 * u32_at(t, 4) <= 0xffff_ffff
}

/// Whether the list of variations in `GPOS` or `GSUB` ends within 32 bits.
pub fn is_layout_fit(t: &[u8]) -> (r: bool)
    ensures
        r == layout_fits(t@),
{
    let n: u64 = t.len() as u64;
    if n < 14 || u16_at(t, 0) != 1 || u16_at(t, 2) < 1 {
        return true;
    }
    let o: u64 = u32_at(t, 10);
    o == 0 || o + 8 > n || u16_at(t, o) != 1 || 8 + 8 * u32_at(t, o + 4) <= 0xffff_ffff
}

/// Whether the variation store of `GDEF` fits.
pub fn is_gdef_fit(t: &[u8]) -> (r: bool)
    ensures
        r == gdef_fits(t@),
{
    let n: u64 = t.len() as u64;
    if n < 18 || u32_at(t, 0) != 0x1_0003 {
        return true;
    }
    let o: u64 = u32_at(t, 14);
    o == 0 || is_store_fit(t, o)
}

/// Whether the variation store of `HVAR` or `VVAR` fits.
pub fn are_advances_fit(t: &[u8]) -> (r: bool)
    ensures
        r == advances_fit(t@),
{
    let n: u64 = t.len() as u64;
    n < 8 || u32_at(t, 0) != 0x1_0000 || is_store_fit(t, u32_at(t, 4))
}

/// Whether the variation store of `MVAR` fits.
pub fn is_mvar_fit(t: &[u8]) -> (r: bool)
    ensures
        r == mvar_fits(t@),
{
    let n: u64 = t.len() as u64;
    if n < 12 || u32_at(t, 0) != 0x1_0000 {
        return true;
    }
    let o: u64 = u16_at(t, 10);
    o == 0 || is_store_fit(t, o)
}

} // verus!
