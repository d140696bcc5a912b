use vstd::arithmetic::div_mod::lemma_div_denominator;
use vstd::arithmetic::power2::{lemma2_to64, lemma_pow2_adds, lemma_pow2_pos, pow2};
use vstd::prelude::*;

verus! {

/// Bit `i` of the natural number `v` is 1.
pub open spec fn bit(v: nat, i: nat) -> bool {
    (v / pow2(i)) % 2 == 1
}

/// The number of bits of `v` that are 1.
pub open spec fn popcount(v: nat) -> nat
    decreases v,
{
    if v == 0 {
        0
    } else {
        (v % 2) + popcount(v / 2)
    }
}

/// The bit of value `2^b` of a number below 16, for `b` from 0 to 3.
pub open spec fn digit_bit(d: nat, b: nat) -> bool {
    if b == 0 {
        d % 2 == 1
    } else if b == 1 {
        (d / 2) % 2 == 1
    } else if b == 2 {
        (d / 4) % 2 == 1
    } else {
        (d / 8) % 2 == 1
    }
}

/// The bits of `16 * v + d` are those of `d` followed by those of `v`.
pub proof fn lemma_bit_of_digits(v: nat, d: nat, i: nat)
    requires
        d < 16,
    ensures
        bit(16 * v + d, i) == if i < 4 {
            digit_bit(d, i)
        } else {
            bit(v, (i - 4) as nat)
        },
{
    lemma2_to64();
    let x = 16 * v + d;
    if i >= 4 {
        let p = pow2((i - 4) as nat);
        lemma_pow2_pos((i - 4) as nat);
        lemma_pow2_adds(4, (i - 4) as nat);
        lemma_div_denominator(x as int, 16, p as int);
        assert(x / 16 == v);
        assert(pow2(i) == 16 * p);
        assert(x / pow2(i) == v / p);
    } else if i == 0 {
        assert(x / 1 == x);
        assert(x % 2 == d % 2);
    } else if i == 1 {
        assert(x / 2 == 8 * v + d / 2);
    } else if i == 2 {
        assert(x / 4 == 4 * v + d / 4);
    } else {
        assert(i == 3);
        assert(x / 8 == 2 * v + d / 8);
    }
}

/// The number of bits set in `2 * v + b` is that of `v`, and `b`.
pub proof fn lemma_popcount_step(v: nat, b: nat)
    requires
        b < 2,
    ensures
        popcount(2 * v + b) == popcount(v) + b,
{
    if 2 * v + b != 0 {
        assert((2 * v + b) / 2 == v);
        assert((2 * v + b) % 2 == b);
    }
}

/// The number of bits set in `16 * v + d` is that of `v` and that of `d`.
pub proof fn lemma_popcount_of_digits(v: nat, d: nat)
    requires
        d < 16,
    ensures
        popcount(16 * v + d) == popcount(v) + popcount(d),
{
    let b0 = d % 2;
    let b1 = (d / 2) % 2;
    let b2 = (d / 4) % 2;
    let b3 = d / 8;
    lemma_popcount_step(v, b3);
    lemma_popcount_step(2 * v + b3, b2);
    lemma_popcount_step(2 * (2 * v + b3) + b2, b1);
    lemma_popcount_step(2 * (2 * (2 * v + b3) + b2) + b1, b0);
    assert(16 * v + d == 2 * (2 * (2 * (2 * v + b3) + b2) + b1) + b0);
    lemma_popcount_digit(d);
}

/// The number of bits set in a number below 16.
pub proof fn lemma_popcount_digit(d: nat)
    requires
        d < 16,
    ensures
        popcount(d) == d % 2 + (d / 2) % 2 + (d / 4) % 2 + (d / 8) % 2,
{
    let b0 = d % 2;
    let b1 = (d / 2) % 2;
    let b2 = (d / 4) % 2;
    let b3 = d / 8;
    lemma_popcount_step(0, b3);
    lemma_popcount_step(b3, b2);
    lemma_popcount_step(2 * b3 + b2, b1);
    lemma_popcount_step(2 * (2 * b3 + b2) + b1, b0);
    assert(d == 2 * (2 * (2 * b3 + b2) + b1) + b0);
    assert(popcount(0) == 0);
}

} // verus!
