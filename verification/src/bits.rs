//! Bit-level facts about 64-bit words, stated over `bit(x, i)`.
use vstd::prelude::*;

verus! {

/// Bit `i` (0 = least significant) of `x` is set.
pub open spec fn bit(x: u64, i: int) -> bool {
    0 <= i < 64 && (x >> (i as u64)) & 1u64 == 1u64
}

/// The word whose only set bit is `s`.
pub open spec fn single(s: int) -> u64 {
    1u64 << (s as u64)
}

/// Number of set bits of `x`.
pub open spec fn popcount(x: u64) -> nat
    decreases x,
{
    if x == 0 {
        0
    } else {
        (x % 2) as nat + popcount(x / 2)
    }
}

/// Two to the power `n`.
pub open spec fn two_pow(n: nat) -> int
    decreases n,
{
    if n == 0 {
        1
    } else {
        2 * two_pow((n - 1) as nat)
    }
}

proof fn lemma_popcount_le(x: u64, n: nat)
    requires
        (x as int) < two_pow(n),
    ensures
        popcount(x) <= n,
    decreases n,
{
    if x != 0 {
        assert(n > 0);
        lemma_popcount_le(x / 2, (n - 1) as nat);
    }
}

/// A word has at most 64 set bits.
pub proof fn lemma_popcount_bound(x: u64)
    ensures
        popcount(x) <= 64,
{
    reveal_with_fuel(two_pow, 65);
    assert(two_pow(64) == 0x1_0000_0000_0000_0000);
    lemma_popcount_le(x, 64);
}

/// Calls `u64::count_ones`, which the standard library documents as the
/// number of ones in the binary representation of its argument.
#[verifier::external_body]
pub(crate) fn count_ones(x: u64) -> (r: u32)
    ensures
        r as nat == popcount(x),
{
    x.count_ones()
}

pub proof fn lemma_bit_and(a: u64, b: u64)
    ensures
        forall|i: int| #[trigger] bit(a & b, i) == (bit(a, i) && bit(b, i)),
{
    assert forall|i: int| #[trigger] bit(a & b, i) == (bit(a, i) && bit(b, i)) by {
        if 0 <= i < 64 {
            let j = i as u64;
            assert(((a & b) >> j) & 1u64 == 1u64 <==> ((a >> j) & 1u64 == 1u64 && (b >> j) & 1u64
                == 1u64)) by (bit_vector);
        }
    }
}

pub proof fn lemma_bit_or(a: u64, b: u64)
    ensures
        forall|i: int| #[trigger] bit(a | b, i) == (bit(a, i) || bit(b, i)),
{
    assert forall|i: int| #[trigger] bit(a | b, i) == (bit(a, i) || bit(b, i)) by {
        if 0 <= i < 64 {
            let j = i as u64;
            assert(((a | b) >> j) & 1u64 == 1u64 <==> ((a >> j) & 1u64 == 1u64 || (b >> j) & 1u64
                == 1u64)) by (bit_vector);
        }
    }
}

pub proof fn lemma_bit_xor(a: u64, b: u64)
    ensures
        forall|i: int| #[trigger] bit(a ^ b, i) == (bit(a, i) != bit(b, i)),
{
    assert forall|i: int| #[trigger] bit(a ^ b, i) == (bit(a, i) != bit(b, i)) by {
        if 0 <= i < 64 {
            let j = i as u64;
            assert(((a ^ b) >> j) & 1u64 == 1u64 <==> (((a >> j) & 1u64 == 1u64) != ((b >> j)
                & 1u64 == 1u64))) by (bit_vector);
        }
    }
}

pub proof fn lemma_bit_not(a: u64)
    ensures
        forall|i: int| 0 <= i < 64 ==> #[trigger] bit(!a, i) == !bit(a, i),
{
    assert forall|i: int| 0 <= i < 64 implies #[trigger] bit(!a, i) == !bit(a, i) by {
        let j = i as u64;
        assert(((!a) >> j) & 1u64 == 1u64 <==> !((a >> j) & 1u64 == 1u64)) by (bit_vector)
            requires
                j < 64,
        ;
    }
}

pub proof fn lemma_bit_single(s: int)
    requires
        0 <= s < 64,
    ensures
        forall|i: int| #[trigger] bit(single(s), i) == (i == s),
{
    assert forall|i: int| #[trigger] bit(single(s), i) == (i == s) by {
        if 0 <= i < 64 {
            let j = i as u64;
            let t = s as u64;
            assert(((1u64 << t) >> j) & 1u64 == 1u64 <==> j == t) by (bit_vector)
                requires
                    j < 64,
                    t < 64,
            ;
        }
    }
}

pub proof fn lemma_bit_zero()
    ensures
        forall|i: int| !#[trigger] bit(0u64, i),
{
    assert forall|i: int| !#[trigger] bit(0u64, i) by {
        if 0 <= i < 64 {
            let j = i as u64;
            assert((0u64 >> j) & 1u64 == 0u64) by (bit_vector);
        }
    }
}

/// A word that is not zero has a set bit: its lowest one.
pub proof fn lemma_nonzero_has_bit(x: u64)
    requires
        x != 0,
    ensures
        bit(x, x.trailing_zeros() as int),
        forall|i: int| 0 <= i < x.trailing_zeros() ==> !#[trigger] bit(x, i),
        x.trailing_zeros() < 64,
{
    vstd::std_specs::bits::axiom_u64_trailing_zeros(x);
    let t = x.trailing_zeros();
    assert forall|i: int| 0 <= i < t implies !#[trigger] bit(x, i) by {
        let j = i as u64;
        assert((x >> j) & 1u64 == 0u64);
    }
}

/// Two words with the same bits are equal.
pub proof fn lemma_bits_ext(a: u64, b: u64)
    requires
        forall|i: int| 0 <= i < 64 ==> #[trigger] bit(a, i) == bit(b, i),
    ensures
        a == b,
{
    if a != b {
        assert((a ^ b) != 0u64) by (bit_vector)
            requires
                a != b,
        ;
        lemma_nonzero_has_bit(a ^ b);
        lemma_bit_xor(a, b);
        let t = (a ^ b).trailing_zeros() as int;
        assert(bit(a ^ b, t));
        assert(bit(a, t) == bit(b, t));
    }
}

/// A word is zero exactly when none of its bits is set.
pub proof fn lemma_zero_iff_no_bit(x: u64)
    ensures
        (x == 0) == (forall|i: int| 0 <= i < 64 ==> !#[trigger] bit(x, i)),
{
    lemma_bit_zero();
    if x != 0 {
        lemma_nonzero_has_bit(x);
    }
}

/// Clearing the lowest set bit with `x & (x - 1)`.
pub proof fn lemma_clear_lowest(x: u64)
    requires
        x != 0,
    ensures
        x & ((x - 1) as u64) == x ^ single(x.trailing_zeros() as int),
{
    vstd::std_specs::bits::axiom_u64_trailing_zeros(x);
    let t = x.trailing_zeros() as u64;
    let w = (64 - t) as u64;
    assert(x << w == 0);
    assert(x & ((x - 1) as u64) == x ^ (1u64 << t)) by (bit_vector)
        requires
            x != 0,
            t < 64,
            (x >> t) & 1u64 == 1u64,
            w == 64 - t,
            x << w == 0,
    ;
}

/// Testing a square with a one-bit mask.
pub proof fn lemma_mask_test(x: u64, s: int)
    requires
        0 <= s < 64,
    ensures
        (x & single(s) != 0) == bit(x, s),
{
    let t = s as u64;
    assert((x & (1u64 << t) != 0) == ((x >> t) & 1u64 == 1u64)) by (bit_vector)
        requires
            t < 64,
    ;
}

/// Shifting left by `k` moves bit `t - k` to bit `t`.
pub proof fn lemma_bit_shl(x: u64, k: u64)
    requires
        k < 64,
    ensures
        forall|t: int| #[trigger] bit(x << k, t) == (0 <= t < 64 && k <= t && bit(x, t - k)),
{
    assert forall|t: int| #[trigger] bit(x << k, t) == (0 <= t < 64 && k <= t && bit(x, t - k)) by {
        if 0 <= t < 64 {
            let j = t as u64;
            if k <= j {
                let d = (j - k) as u64;
                assert(((x << k) >> j) & 1u64 == (x >> d) & 1u64) by (bit_vector)
                    requires
                        k < 64,
                        j < 64,
                        k <= j,
                        d == j - k,
                ;
            } else {
                assert(((x << k) >> j) & 1u64 == 0u64) by (bit_vector)
                    requires
                        k < 64,
                        j < k,
                ;
            }
        }
    }
}

/// Shifting right by `k` moves bit `t + k` to bit `t`.
pub proof fn lemma_bit_shr(x: u64, k: u64)
    requires
        k < 64,
    ensures
        forall|t: int| #[trigger] bit(x >> k, t) == (0 <= t && t + k < 64 && bit(x, t + k)),
{
    assert forall|t: int| #[trigger] bit(x >> k, t) == (0 <= t && t + k < 64 && bit(x, t + k)) by {
        if 0 <= t < 64 {
            let j = t as u64;
            if j + k < 64 {
                let d = (j + k) as u64;
                assert(((x >> k) >> j) & 1u64 == (x >> d) & 1u64) by (bit_vector)
                    requires
                        k < 64,
                        j < 64,
                        d == j + k,
                        d < 64,
                ;
            } else {
                assert(((x >> k) >> j) & 1u64 == 0u64) by (bit_vector)
                    requires
                        k < 64,
                        j < 64,
                        j + k >= 64,
                ;
            }
        }
    }
}

} // verus!
