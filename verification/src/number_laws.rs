//! What holds of every whole number that is read, and of the order of single-precision numbers.
use vstd::prelude::*;
use vstd::arithmetic::power2::{lemma_pow2_pos, lemma_pow2_strictly_increases, lemma_pow2_unfold, pow2};

use crate::number::{all_digits, decimal, unsigned_part, whole_number};
use crate::number::Single;

verus! {

/// A text of one digit spells that digit, with a plus sign before it or none; no digit spells
/// nothing.
pub proof fn digits_spell_themselves(d: int)
    requires
        0 <= d <= 9,
    ensures
        whole_number(seq![('0' as int + d) as char]) == Some(d as u64),
        whole_number(seq!['+', ('0' as int + d) as char]) == Some(d as u64),
        whole_number(Seq::empty()) is None,
        whole_number(seq!['+']) is None,
{
    let c = ('0' as int + d) as char;
    let one = seq![c];
    let signed = seq!['+', c];
    assert(signed.skip(1) =~= one);
    assert(one.drop_last() =~= Seq::<char>::empty());
    reveal_with_fuel(decimal, 2);
    assert(unsigned_part(seq!['+']) =~= Seq::<char>::empty());
}

/// One more digit after a text that spells a number makes it ten times as great and adds the digit,
/// as long as that fits in 64 bits. It makes nothing of a text that spells none, but for an empty
/// one and a plus sign alone.
pub proof fn further_digits_count_tenfold(s: Seq<char>, d: int)
    requires
        0 <= d <= 9,
        s.len() > 1 || (s.len() == 1 && s[0] != '+'),
    ensures
        whole_number(s.push(('0' as int + d) as char)) == match whole_number(s) {
            Some(v) => if 10 * v + d <= 0xffff_ffff_ffff_ffff {
                Some((10 * v + d) as u64)
            } else {
                None
            },
            None => None,
        },
{
    let c = ('0' as int + d) as char;
    let t = s.push(c);
    let u = unsigned_part(s);
    assert(t[0] == s[0]);
    assert(unsigned_part(t) =~= u.push(c));
    assert(u.push(c).drop_last() =~= u);
    assert forall|i: int| 0 <= i < u.len() implies u[i] == u.push(c)[i] by {}
    if all_digits(u) {
        assert(all_digits(u.push(c)));
    } else {
        let i = choose|i: int| 0 <= i < u.len() && !('0' <= #[trigger] u[i] <= '9');
        assert(u.push(c)[i] == u[i]);
    }
}

/// A text that ends in anything but a digit spells no number.
pub proof fn only_digits_spell_numbers(s: Seq<char>, c: char)
    requires
        !('0' <= c <= '9'),
    ensures
        whole_number(s.push(c)) is None,
{
    let t = s.push(c);
    let u = unsigned_part(t);
    if u.len() > 0 {
        assert(u[u.len() - 1] == c);
    }
}

/// The digits of a number, the first not a zero but in the number zero.
pub open spec fn digits_of(v: nat) -> Seq<char>
    decreases v,
{
    if v < 10 {
        seq![('0' as int + v) as char]
    } else {
        digits_of(v / 10).push(('0' as int + v % 10) as char)
    }
}

/// Every number of 64 bits is read back from its digits, with a plus sign and any zeros before them
/// as well.
pub proof fn numbers_read_back(v: u64, zeros: nat)
    ensures
        whole_number(digits_of(v as nat)) == Some(v),
        whole_number(Seq::new(zeros, |i: int| '0') + digits_of(v as nat)) == Some(v),
        whole_number(seq!['+'] + Seq::new(zeros, |i: int| '0') + digits_of(v as nat)) == Some(v),
{
    let d = digits_of(v as nat);
    let z = Seq::new(zeros, |i: int| '0');
    digits_are_digits(v as nat);
    zeros_count_nothing(zeros, d);
    assert forall|i: int| 0 <= i < (z + d).len() implies '0' <= #[trigger] (z + d)[i] <= '9' by {
        if i >= z.len() {
            assert((z + d)[i] == d[i - z.len()]);
        }
    }
    assert('0' <= d[0] <= '9');
    assert('0' <= (z + d)[0] <= '9');
    assert((seq!['+'] + z + d).skip(1) =~= z + d);
    assert((seq!['+'] + z + d)[0] == '+');
}

proof fn digits_are_digits(v: nat)
    ensures
        digits_of(v).len() > 0,
        all_digits(digits_of(v)),
        decimal(digits_of(v)) == v,
    decreases v,
{
    if v < 10 {
        let s = digits_of(v);
        assert(s.drop_last() =~= Seq::<char>::empty());
        reveal_with_fuel(decimal, 2);
    } else {
        digits_are_digits(v / 10);
        let u = digits_of(v / 10);
        let c = ('0' as int + v % 10) as char;
        assert(u.push(c).drop_last() =~= u);
        assert forall|i: int| 0 <= i < u.push(c).len() implies '0' <= #[trigger] u.push(c)[i]
            <= '9' by {
            if i < u.len() {
                assert(u.push(c)[i] == u[i]);
            }
        }
    }
}

proof fn zeros_count_nothing(zeros: nat, s: Seq<char>)
    ensures
        decimal(Seq::new(zeros, |i: int| '0') + s) == decimal(s),
    decreases s.len() + zeros,
{
    let z = Seq::new(zeros, |i: int| '0');
    if s.len() > 0 {
        zeros_count_nothing(zeros, s.drop_last());
        assert((z + s).drop_last() =~= z + s.drop_last());
        assert((z + s).last() == s.last());
    } else if zeros > 0 {
        let less = Seq::new((zeros - 1) as nat, |i: int| '0');
        zeros_count_nothing((zeros - 1) as nat, s);
        assert((z + s).drop_last() =~= less + s);
        assert((z + s).last() == '0');
    }
}

/// The biased exponent of a single-precision number.
pub open spec fn exponent(x: Single) -> int {
    x.bits as int % 0x8000_0000 / 0x80_0000
}

/// The fraction of a single-precision number.
pub open spec fn fraction(x: Single) -> int {
    x.bits as int % 0x80_0000
}

/// The size of a single-precision number, in parts of the least that there is.
pub open spec fn size(x: Single) -> int {
    if exponent(x) == 0 {
        fraction(x)
    } else {
        (0x80_0000 + fraction(x)) * pow2((exponent(x) - 1) as nat)
    }
}

/// A single-precision number with its sign, in parts of the least that there is; an infinite one
/// stands past all others.
pub open spec fn worth(x: Single) -> int {
    if x.bits < 0x8000_0000 {
        size(x)
    } else {
        -size(x)
    }
}

/// Numbers are compared by their worth, and what has the greatest exponent and a fraction is no
/// number and is compared to nothing.
pub proof fn numbers_are_in_the_order_of_their_worth(a: Single, b: Single)
    ensures
        a.is_nan() <==> exponent(a) == 255 && fraction(a) != 0,
        a.above(b) <==> !a.is_nan() && !b.is_nan() && worth(a) > worth(b),
        a.at_least(b) <==> !a.is_nan() && !b.is_nan() && worth(a) >= worth(b),
{
    let m = Single { bits: (a.bits % 0x8000_0000) as u32 };
    let n = Single { bits: (b.bits % 0x8000_0000) as u32 };
    assert(size(m) == size(a) && size(n) == size(b));
    sizes_are_ordered(m, n);
    sizes_are_ordered(n, m);
    sizes_are_positive(m);
    sizes_are_positive(n);
}

proof fn sizes_are_positive(x: Single)
    requires
        x.bits < 0x8000_0000,
    ensures
        size(x) >= 0,
        size(x) == 0 <==> x.bits == 0,
{
    if exponent(x) > 0 {
        let p = pow2((exponent(x) - 1) as nat) as int;
        lemma_pow2_pos((exponent(x) - 1) as nat);
        let f = 0x80_0000 + fraction(x);
        assert(f * p > 0) by (nonlinear_arith)
            requires
                f > 0,
                p > 0,
        ;
    }
}

proof fn sizes_are_ordered(a: Single, b: Single)
    requires
        a.bits < 0x8000_0000,
        b.bits < 0x8000_0000,
    ensures
        a.bits < b.bits ==> size(a) < size(b),
{
    if a.bits < b.bits {
        let ea = exponent(a);
        let eb = exponent(b);
        assert(ea <= eb);
        if eb > 0 {
            let fb = 0x80_0000 + fraction(b);
            let pb = pow2((eb - 1) as nat) as int;
            lemma_pow2_pos((eb - 1) as nat);
            if ea == eb {
                let fa = 0x80_0000 + fraction(a);
                assert(fa * pb < fb * pb) by (nonlinear_arith)
                    requires
                        fa < fb,
                        pb > 0,
                ;
            } else if ea == 0 {
                assert(fb * pb >= 0x80_0000) by (nonlinear_arith)
                    requires
                        fb >= 0x80_0000,
                        pb >= 1,
                ;
            } else {
                let fa = 0x80_0000 + fraction(a);
                let pa = pow2((ea - 1) as nat) as int;
                lemma_pow2_pos((ea - 1) as nat);
                lemma_pow2_unfold(ea as nat);
                if ea < eb - 1 {
                    lemma_pow2_strictly_increases(ea as nat, (eb - 1) as nat);
                }
                assert(fa * pa < fb * pb) by (nonlinear_arith)
                    requires
                        0 <= fa < 0x100_0000,
                        fb >= 0x80_0000,
                        pa > 0,
                        pb >= 2 * pa,
                ;
            }
        }
    }
}

/// Of two numbers the greater is the greater and the lesser the lesser, and where one is none it is
/// the other; of two that are none it is the first.
pub proof fn the_greater_and_the_lesser(a: Single, b: Single)
    ensures
        a.raised_to(b) == a || a.raised_to(b) == b,
        a.lowered_to(b) == a || a.lowered_to(b) == b,
        !a.is_nan() && !b.is_nan() ==> {
            &&& worth(a.raised_to(b)) >= worth(a)
            &&& worth(a.raised_to(b)) >= worth(b)
            &&& worth(a.lowered_to(b)) <= worth(a)
            &&& worth(a.lowered_to(b)) <= worth(b)
            &&& worth(a) == worth(b) ==> a.raised_to(b) == a && a.lowered_to(b) == a
        },
        a.is_nan() && !b.is_nan() ==> a.raised_to(b) == b && a.lowered_to(b) == b,
        b.is_nan() ==> a.raised_to(b) == a && a.lowered_to(b) == a,
{
    numbers_are_in_the_order_of_their_worth(a, b);
    numbers_are_in_the_order_of_their_worth(b, a);
}

} // verus!
