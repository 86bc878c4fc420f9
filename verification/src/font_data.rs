//! Font files: whether the lengths in one stay within 32 bits.
use vstd::prelude::*;
use vstd::slice::slice_subrange;

use crate::bytes::{be16, be32};
use crate::bytes::{u16_at, u32_at};
use crate::cff::{cff2_fits, cff_fits};
use crate::cff::{is_cff2_fit, is_cff_fit};
use crate::font_tables::{
    advances_fit, cmap_fits, colr_fits, gdef_fits, kern_fits, layout_fits, mvar_fits, sbix_fits,
};
use crate::font_tables::{
    are_advances_fit, is_cmap_fit, is_colr_fit, is_gdef_fit, is_kern_fit, is_layout_fit,
    is_mvar_fit, is_sbix_fit,
};

verus! {

/// The longest file that is looked at: what the lists with 16-bit counts add to a place in it still
/// stays within 32 bits.
pub const LONGEST: u32 = 0xfe00_0000;

/// Whether the lengths in the table with this tag stay within 32 bits. Tags that are not listed are
/// those of tables without 32-bit counts and lengths, as far as they are read with the font.
pub open spec fn table_fits(tag: int, t: Seq<u8>) -> bool {
    // The tags spell cmap, kern, COLR, sbix, GPOS, GSUB, GDEF, HVAR, VVAR, MVAR, "CFF " and CFF2.
    if tag == 0x636d_6170 {
        cmap_fits(t)
    } else if tag == 0x6b65_726e {
        kern_fits(t)
    } else if tag == 0x434f_4c52 {
        colr_fits(t)
    } else if tag == 0x7362_6978 {
        sbix_fits(t)
    } else if tag == 0x4750_4f53 || tag == 0x4753_5542 {
        layout_fits(t)
    } else if tag == 0x4744_4546 {
        gdef_fits(t)
    } else if tag == 0x4856_4152 || tag == 0x5656_4152 {
        advances_fit(t)
    } else if tag == 0x4d56_4152 {
        mvar_fits(t)
    } else if tag == 0x4346_4620 {
        cff_fits(t)
    } else if tag == 0x4346_4632 {
        cff2_fits(t)
    } else {
        true
    }
}

/// Whether the table that the record at `r` describes ends within 32 bits and, if it lies in the
/// file, its lengths do.
pub open spec fn record_fits(data: Seq<u8>, r: int) -> bool {
    let from = be32(data, r + 8);
    let to = from + be32(data, r + 12);
    &&& to <= u32::MAX
    &&& to <= data.len() ==> table_fits(be32(data, r), data.subrange(from, to))
}

/// Whether a file starts as a collection of fonts, with the tag `ttcf`.
pub open spec fn is_collection(data: Seq<u8>) -> bool {
    data.len() >= 12 && be32(data, 0) == 0x7474_6366
}

/// Where the first font of a file starts.
pub open spec fn face_at(data: Seq<u8>) -> int {
    if is_collection(data) && data.len() >= 16 {
        be32(data, 12)
    } else {
        0
    }
}

/// Whether every length and count in a font file stays within 32 bits where the font is read, the
/// list of fonts in a collection included, and there are fewer tables than 16 bits can count.
pub open spec fn lengths_fit(data: Seq<u8>) -> bool {
    let face = face_at(data);
    &&& data.len() <= LONGEST
    &&& is_collection(data) ==> 12 + 4 * be32(data, 8) <= u32::MAX
    &&& face + 12 <= data.len() && face + 12 + 16 * be16(data, face + 4) <= data.len() ==> {
        &&& be16(data, face + 4) < 0xffff
        &&& forall|i: int|
            0 <= i < be16(data, face + 4) ==> #[trigger] record_fits(data, face + 12 + 16 * i)
    }
}

fn is_table_fit(tag: u64, t: &[u8]) -> (r: bool)
    requires
        t@.len() <= u32::MAX,
    ensures
        r == table_fits(tag as int, t@),
{
    if tag == 0x636d_6170 {
        is_cmap_fit(t)
    } else if tag == 0x6b65_726e {
        is_kern_fit(t)
    } else if tag == 0x434f_4c52 {
        is_colr_fit(t)
    } else if tag == 0x7362_6978 {
        is_sbix_fit(t)
    } else if tag == 0x4750_4f53 || tag == 0x4753_5542 {
        is_layout_fit(t)
    } else if tag == 0x4744_4546 {
        is_gdef_fit(t)
    } else if tag == 0x4856_4152 || tag == 0x5656_4152 {
        are_advances_fit(t)
    } else if tag == 0x4d56_4152 {
        is_mvar_fit(t)
    } else if tag == 0x4346_4620 {
        is_cff_fit(t)
    } else if tag == 0x4346_4632 {
        is_cff2_fit(t)
    } else {
        true
    }
}

fn is_record_fit(data: &[u8], r: u64) -> (fits: bool)
    requires
        data@.len() <= LONGEST,
        r + 16 <= data@.len(),
    ensures
        fits == record_fits(data@, r as int),
{
    let n: u64 = data.len() as u64;
    let from: u64 = u32_at(data, r + 8);
    let to: u64 = from + u32_at(data, r + 12);
    if to > 0xffff_ffff {
        return false;
    }
    if to > n {
        return true;
    }
    is_table_fit(u32_at(data, r), slice_subrange(data, from as usize, to as usize))
}

/// Whether every length and count in a font file stays within 32 bits.
pub fn are_lengths_fit(data: &[u8]) -> (r: bool)
    ensures
        r == lengths_fit(data@),
{
    let n: u64 = data.len() as u64;
    if n > LONGEST as u64 {
        return false;
    }
    let mut face: u64 = 0;
    if n >= 12 && u32_at(data, 0) == 0x7474_6366 {
        if 12 + 4 * u32_at(data, 8) > 0xffff_ffff {
            return false;
        }
        if n >= 16 {
            face = u32_at(data, 12);
        }
    }
    assert(face == face_at(data@));
    if face + 12 > n {
        return true;
    }
    let count: u64 = u16_at(data, face + 4);
    if face + 12 + 16 * count > n {
        return true;
    }
    if count == 0xffff {
        return false;
    }
    for i in 0..count
        invariant
            n == data@.len(),
            n <= LONGEST,
            face == face_at(data@),
            face + 12 + 16 * count <= n,
            count == be16(data@, face + 4),
            count < 0xffff,
            forall|j: int|
                0 <= j < i ==> #[trigger] record_fits(data@, face + 12 + 16 * j),
    {
        if !is_record_fit(data, face + 12 + 16 * i) {
            assert(!record_fits(data@, face + 12 + 16 * (i as int)));
            return false;
        }
    }
    true
}

} // verus!
