//! Numbers in bytes, high byte first.
use vstd::prelude::*;

verus! {

/// The number in the two bytes at `i`.
pub open spec fn be16(t: Seq<u8>, i: int) -> int {
    t[i] * 0x100 + t[i + 1]
}

/// The number in the four bytes at `i`.
pub open spec fn be32(t: Seq<u8>, i: int) -> int {
    be16(t, i) * 0x1_0000 + be16(t, i + 2)
}

/// The number in the `size` bytes at `i`, one to four of them.
pub open spec fn be_sized(t: Seq<u8>, i: int, size: int) -> int {
    if size == 1 {
        t[i] as int
    } else if size == 2 {
        be16(t, i)
    } else if size == 3 {
        t[i] * 0x1_0000 + be16(t, i + 1)
    } else {
        be32(t, i)
    }
}

/// The byte at `i`.
pub fn u8_at(t: &[u8], i: u64) -> (r: u64)
    requires
        i < t@.len(),
    ensures
        r == t@[i as int],
        r <= 0xff,
{
    let n: usize = t.len();
    assert(i < n);
    t[i as usize] as u64
}

/// The number in the two bytes at `i`.
pub fn u16_at(t: &[u8], i: u64) -> (r: u64)
    requires
        i + 2 <= t@.len(),
    ensures
        r == be16(t@, i as int),
        r <= 0xffff,
{
    let n: usize = t.len();
    assert(i + 2 <= n);
    u8_at(t, i) * 0x100 + u8_at(t, i + 1)
}

/// The number in the four bytes at `i`.
pub fn u32_at(t: &[u8], i: u64) -> (r: u64)
    requires
        i + 4 <= t@.len(),
    ensures
        r == be32(t@, i as int),
        r <= 0xffff_ffff,
{
    let n: usize = t.len();
    assert(i + 4 <= n);
    u16_at(t, i) * 0x1_0000 + u16_at(t, i + 2)
}

/// The number in the `size` bytes at `i`, one to four of them.
pub fn sized_at(t: &[u8], i: u64, size: u64) -> (r: u64)
    requires
        1 <= size <= 4,
        i + size <= t@.len(),
    ensures
        r == be_sized(t@, i as int, size as int),
        r <= 0xffff_ffff,
        size < 4 ==> r <= 0xff_ffff,
{
    let n: usize = t.len();
    assert(i + size <= n);
    if size == 1 {
        u8_at(t, i)
    } else if size == 2 {
        u16_at(t, i)
    } else if size == 3 {
        u8_at(t, i) * 0x1_0000 + u16_at(t, i + 1)
    } else {
        u32_at(t, i)
    }
}

} // verus!
