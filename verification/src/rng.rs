//! A xorshift pseudo-random generator.
use vstd::prelude::*;

verus! {

/// One turn of the generator: the state that follows `x`.
pub open spec fn xorshift(x: u64) -> u64 {
    let a = x ^ (x << 13);
    let b = a ^ (a >> 7);
    b ^ (b << 17)
}

/// The state after `k` turns from `x`.
pub open spec fn xorshift_after(x: u64, k: nat) -> u64
    decreases k,
{
    if k == 0 {
        x
    } else {
        xorshift(xorshift_after(x, (k - 1) as nat))
    }
}

/// A draw reduced to `0..n`; with `n == 0` it is 0.
pub open spec fn draw_below(x: u64, n: u32) -> u32 {
    if n == 0 {
        0
    } else {
        (x % (n as u64)) as u32
    }
}

/// A draw reduced to its 24 top bits.
pub open spec fn draw_frac(x: u64) -> u32 {
    (x >> 40) as u32
}

/// The generator; the view is its state.
pub struct Rng(pub u64);

impl View for Rng {
    type V = u64;

    open spec fn view(&self) -> u64 {
        self.0
    }
}

impl Rng {
    /// Turns the generator once and returns the new state.
    pub fn next_u64(&mut self) -> (r: u64)
        ensures
            r == xorshift(old(self)@),
            final(self)@ == r,
    {
        let mut x: u64 = self.0;
        x = x ^ (x << 13);
        x = x ^ (x >> 7);
        x = x ^ (x << 17);
        self.0 = x;
        x
    }

    /// A number below `n` (0 when `n` is 0).
    pub fn below(&mut self, n: u32) -> (r: u32)
        ensures
            final(self)@ == xorshift(old(self)@),
            r == draw_below(xorshift(old(self)@), n),
            n > 0 ==> r < n,
    {
        let m: u32 = if n > 1 {
            n
        } else {
            1
        };
        (self.next_u64() % (m as u64)) as u32
    }

    /// The numerator over 2^24 of a fraction in `[0, 1)`.
    pub fn frac(&mut self) -> (r: u32)
        ensures
            final(self)@ == xorshift(old(self)@),
            r == draw_frac(xorshift(old(self)@)),
            r < 0x100_0000,
    {
        let x: u64 = self.next_u64();
        assert((x >> 40) < 0x100_0000u64) by (bit_vector);
        (x >> 40) as u32
    }
}

/// The generator never reaches the state 0 from another state.
pub proof fn nonzero_state_stays_nonzero(x: u64, k: nat)
    requires
        x != 0,
    ensures
        xorshift_after(x, k) != 0,
    decreases k,
{
    if k > 0 {
        nonzero_state_stays_nonzero(x, (k - 1) as nat);
        turns_are_injective(xorshift_after(x, (k - 1) as nat), 0);
        assert(xorshift(0) == 0) by {
            assert(0u64 ^ (0u64 << 13) == 0u64) by (bit_vector);
            assert(0u64 ^ (0u64 >> 7) == 0u64) by (bit_vector);
            assert(0u64 ^ (0u64 << 17) == 0u64) by (bit_vector);
        }
    }
}

/// Different states have different successors, so no two runs ever merge.
pub proof fn turns_are_injective(x: u64, y: u64)
    requires
        x != y,
    ensures
        xorshift(x) != xorshift(y),
{
    let a = x ^ (x << 13);
    let b = y ^ (y << 13);
    assert(a != b) by (bit_vector)
        requires
            a == x ^ (x << 13),
            b == y ^ (y << 13),
            x != y,
    ;
    let c = a ^ (a >> 7);
    let d = b ^ (b >> 7);
    assert(c != d) by (bit_vector)
        requires
            c == a ^ (a >> 7),
            d == b ^ (b >> 7),
            a != b,
    ;
    assert(c ^ (c << 17) != d ^ (d << 17)) by (bit_vector)
        requires
            c != d,
    ;
}

/// `k` turns and then `m` more are `k + m` turns.
pub proof fn turns_add_up(x: u64, k: nat, m: nat)
    ensures
        xorshift_after(xorshift_after(x, k), m) == xorshift_after(x, k + m),
    decreases m,
{
    if m > 0 {
        turns_add_up(x, k, (m - 1) as nat);
    }
}

/// The state that a turn has led to `r` from, put together from shifted copies of `r`.
pub open spec fn turned_back(r: u64) -> u64 {
    let b = r ^ (r << 17) ^ (r << 34) ^ (r << 51);
    let a = b ^ (b >> 7) ^ (b >> 14) ^ (b >> 21) ^ (b >> 28) ^ (b >> 35) ^ (b >> 42) ^ (b >> 49) ^ (b
        >> 56) ^ (b >> 63);
    a ^ (a << 13) ^ (a << 26) ^ (a << 39) ^ (a << 52)
}

/// A turn can be undone.
pub proof fn turns_can_be_undone(x: u64)
    ensures
        turned_back(xorshift(x)) == x,
{
    let a = x ^ (x << 13);
    let b = a ^ (a >> 7);
    let r = b ^ (b << 17);
    assert(r ^ (r << 17) ^ (r << 34) ^ (r << 51) == b) by (bit_vector)
        requires
            r == b ^ (b << 17),
    ;
    assert(b ^ (b >> 7) ^ (b >> 14) ^ (b >> 21) ^ (b >> 28) ^ (b >> 35) ^ (b >> 42) ^ (b >> 49) ^ (b
        >> 56) ^ (b >> 63) == a) by (bit_vector)
        requires
            b == a ^ (a >> 7),
    ;
    assert(a ^ (a << 13) ^ (a << 26) ^ (a << 39) ^ (a << 52) == x) by (bit_vector)
        requires
            a == x ^ (x << 13),
    ;
}

/// The turns of a run are single turns one after the other, none to begin with.
pub proof fn turns_are_taken_one_by_one(x: u64, k: nat)
    ensures
        xorshift_after(x, 0) == x,
        turned_back(xorshift_after(x, k + 1)) == xorshift_after(x, k),
{
    turns_can_be_undone(xorshift_after(x, k));
}

/// A draw below `n` is what is left of the state after taking `n` away as often as it goes.
pub proof fn draws_are_remainders(x: u64, n: u32)
    requires
        n > 0,
    ensures
        0 <= draw_below(x, n) < n,
        exists|q: int| 0 <= q && x == #[trigger] (q * n) + draw_below(x, n),
{
    let q = x as int / n as int;
    vstd::arithmetic::div_mod::lemma_fundamental_div_mod(x as int, n as int);
    vstd::arithmetic::div_mod::lemma_mod_bound(x as int, n as int);
    assert(n * q == q * n) by (nonlinear_arith);
    vstd::arithmetic::div_mod::lemma_div_pos_is_pos(x as int, n as int);
    assert(x == q * n + draw_below(x, n));
}

/// A draw below nothing is 0.
pub proof fn a_draw_below_nothing_is_zero(x: u64)
    ensures
        draw_below(x, 0) == 0,
{
}

/// A fraction is the state over 2^64, cut off after 24 binary digits.
pub proof fn fractions_are_the_state_cut_off(x: u64)
    ensures
        draw_frac(x) * 0x100_0000_0000 <= x < (draw_frac(x) + 1) * 0x100_0000_0000,
        draw_frac(x) < 0x100_0000,
{
    assert(x >> 40 == x / 0x100_0000_0000 && x >> 40 < 0x100_0000) by (bit_vector);
}

} // verus!
