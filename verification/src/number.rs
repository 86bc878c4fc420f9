//! Numbers in settings: whole numbers, and single-precision numbers held as bit patterns.
use vstd::prelude::*;
use vstd::slice::slice_subrange;

verus! {

/// A single-precision floating-point number, by its IEEE 754 bit pattern.
#[derive(Clone, Copy, Debug, PartialEq, Eq, Structural)]
pub struct Single {
    pub bits: u32,
}

impl Single {
    /// Whether this is not a number.
    pub open spec fn is_nan(self) -> bool {
        self.bits % 0x8000_0000 > 0x7f80_0000
    }

    /// The place of a number among all numbers: the greater the rank, the greater the number. Both
    /// zeros have the rank 0.
    pub open spec fn rank(self) -> int {
        if self.bits < 0x8000_0000 {
            self.bits as int
        } else {
            0x8000_0000 - self.bits
        }
    }

    /// The order of numbers; what is not a number is greater than nothing.
    pub open spec fn above(self, other: Single) -> bool {
        !self.is_nan() && !other.is_nan() && self.rank() > other.rank()
    }

    /// Above or equal.
    pub open spec fn at_least(self, other: Single) -> bool {
        !self.is_nan() && !other.is_nan() && self.rank() >= other.rank()
    }

    /// The greater of this and `floor`; the other where one is not a number.
    pub open spec fn raised_to(self, floor: Single) -> Single {
        if floor.is_nan() || self.at_least(floor) {
            self
        } else {
            floor
        }
    }

    /// The lesser of this and `ceiling`; the other where one is not a number.
    pub open spec fn lowered_to(self, ceiling: Single) -> Single {
        if ceiling.is_nan() || ceiling.at_least(self) {
            self
        } else {
            ceiling
        }
    }

    fn nan(self) -> (r: bool)
        ensures
            r == self.is_nan(),
    {
        self.bits % 0x8000_0000 > 0x7f80_0000
    }

    fn signed_rank(self) -> (r: i64)
        ensures
            r == self.rank(),
    {
        if self.bits < 0x8000_0000 {
            self.bits as i64
        } else {
            0x8000_0000i64 - self.bits as i64
        }
    }

    /// Whether this is greater than `other`.
    pub fn gt(self, other: Single) -> (r: bool)
        ensures
            r == self.above(other),
    {
        !self.nan() && !other.nan() && self.signed_rank() > other.signed_rank()
    }

    /// Whether this is greater than or equal to `other`.
    pub fn ge(self, other: Single) -> (r: bool)
        ensures
            r == self.at_least(other),
    {
        !self.nan() && !other.nan() && self.signed_rank() >= other.signed_rank()
    }

    /// The greater of this and `floor`.
    pub fn max(self, floor: Single) -> (r: Single)
        ensures
            r == self.raised_to(floor),
    {
        if floor.nan() || self.ge(floor) {
            self
        } else {
            floor
        }
    }

    /// The lesser of this and `ceiling`.
    pub fn min(self, ceiling: Single) -> (r: Single)
        ensures
            r == self.lowered_to(ceiling),
    {
        if ceiling.nan() || ceiling.ge(self) {
            self
        } else {
            ceiling
        }
    }
}

/// A text read as a single-precision number: its value, and four tenths of it.
#[derive(Clone, Copy, Debug, PartialEq, Eq, Structural)]
pub struct Reading {
    pub value: Single,
    pub four_tenths: Single,
}

/// Whether `s` is made of decimal digits.
pub open spec fn all_digits(s: Seq<char>) -> bool {
    forall|i: int| 0 <= i < s.len() ==> '0' <= #[trigger] s[i] <= '9'
}

/// The number that decimal digits spell.
pub open spec fn decimal(s: Seq<char>) -> nat
    decreases s.len(),
{
    if s.len() == 0 {
        0
    } else {
        decimal(s.drop_last()) * 10 + (s.last() as nat - '0' as nat) as nat
    }
}

/// `s` without a leading plus sign.
pub open spec fn unsigned_part(s: Seq<char>) -> Seq<char> {
    if s.len() > 0 && s[0] == '+' {
        s.skip(1)
    } else {
        s
    }
}

/// The whole number that `s` spells: digits, at least one, after a plus sign or none. A number
/// past 64 bits is none.
pub open spec fn whole_number(s: Seq<char>) -> Option<u64> {
    let d = unsigned_part(s);
    if d.len() > 0 && all_digits(d) && decimal(d) <= u64::MAX {
        Some(decimal(d) as u64)
    } else {
        None
    }
}

proof fn longer_is_no_less(s: Seq<char>, n: int)
    requires
        0 <= n <= s.len(),
        all_digits(s),
    ensures
        decimal(s.take(n)) <= decimal(s),
    decreases s.len() - n,
{
    if n < s.len() {
        longer_is_no_less(s, n + 1);
        assert(s.take(n + 1).drop_last() == s.take(n));
        assert(decimal(s.take(n + 1)) >= decimal(s.take(n)) * 10);
    } else {
        assert(s.take(n) == s);
    }
}

/// The whole number that `s` spells.
pub fn parse_whole(s: &[char]) -> (r: Option<u64>)
    ensures
        r == whole_number(s@),
{
    let d = if s.len() > 0 && s[0] == '+' {
        slice_subrange(s, 1, s.len())
    } else {
        s
    };
    assert(d@ == unsigned_part(s@));
    if d.len() == 0 {
        return None;
    }
    let n: usize = d.len();
    let mut acc: u64 = 0;
    for i in 0..n
        invariant
            n == d@.len(),
            n > 0,
            d@ == unsigned_part(s@),
            all_digits(d@.take(i as int)),
            acc == decimal(d@.take(i as int)),
    {
        let c: char = d[i];
        if !('0' <= c && c <= '9') {
            assert(!all_digits(d@)) by {
                assert(d@[i as int] == c);
            }
            return None;
        }
        let v: u64 = c as u64 - '0' as u64;
        assert(d@.take(i + 1).drop_last() == d@.take(i as int));
        assert(d@.take(i + 1).last() == c);
        assert(decimal(d@.take(i + 1)) == acc * 10 + v);
        assert forall|j: int| 0 <= j < i + 1 implies '0' <= #[trigger] d@.take(i + 1)[j] <= '9' by {
            if j < i {
                assert(d@.take(i + 1)[j] == d@.take(i as int)[j]);
            }
        }
        if acc > (u64::MAX - v) / 10 {
            proof {
                if all_digits(d@) {
                    longer_is_no_less(d@, i + 1);
                }
            }
            return None;
        }
        acc = acc * 10 + v;
    }
    assert(d@.take(n as int) == d@);
    Some(acc)
}

} // verus!
