//! Zobrist hashing: a fixed pseudo-random 64-bit key for each piece on each
//! square, each castling-rights value, each en passant square and the side
//! to move; a position's hash is the exclusive or of the keys of its parts.
use vstd::prelude::*;
use vstd::wrapping::u64_specs::wrapping_mul;
use crate::bits::{bit, single, lemma_bit_xor, lemma_bit_single, lemma_clear_lowest,
    lemma_nonzero_has_bit};

verus! {

/// Index of the first castling key (one per rights value 0..16).
pub const CASTLE_BASE: u64 = 768;

/// Index of the first en passant key (one per square 0..=64).
pub const EP_BASE: u64 = 784;

/// Index of the side-to-move key.
pub const SIDE_KEY: u64 = 849;

/// The splitmix64 finaliser.
pub open spec fn mix(x: u64) -> u64 {
    let z1 = wrapping_mul(x ^ (x >> 30u64), 0xBF58476D1CE4E5B9u64);
    let z2 = wrapping_mul(z1 ^ (z1 >> 27u64), 0x94D049BB133111EBu64);
    z2 ^ (z2 >> 31u64)
}

/// Key number `i`.
pub open spec fn zkey(i: int) -> u64 {
    mix(wrapping_mul((i + 1) as u64, 0x9E3779B97F4A7C15u64))
}

pub fn key(i: u64) -> (r: u64)
    requires
        i < 1100,
    ensures
        r == zkey(i as int),
{
    let x = (i + 1).wrapping_mul(0x9E3779B97F4A7C15u64);
    let z1 = (x ^ (x >> 30u64)).wrapping_mul(0xBF58476D1CE4E5B9u64);
    let z2 = (z1 ^ (z1 >> 27u64)).wrapping_mul(0x94D049BB133111EBu64);
    z2 ^ (z2 >> 31u64)
}

/// Keys of the squares set in `x` below `n`, for piece slot `slot`
/// (color * 6 + kind), combined by exclusive or.
pub open spec fn mask_hash_upto(x: u64, slot: int, n: int) -> u64
    decreases n,
{
    if n <= 0 {
        0
    } else {
        mask_hash_upto(x, slot, n - 1) ^ (if bit(x, n - 1) {
            zkey(slot * 64 + n - 1)
        } else {
            0u64
        })
    }
}

pub open spec fn mask_hash(x: u64, slot: int) -> u64 {
    mask_hash_upto(x, slot, 64)
}

pub proof fn lemma_xor_facts(a: u64, b: u64, c: u64, d: u64)
    ensures
        (a ^ b) ^ (c ^ d) == (a ^ c) ^ (b ^ d),
        a ^ 0 == a,
        a ^ a == 0,
        (a ^ b) ^ b == a,
        a ^ b == b ^ a,
        (a ^ b) ^ c == a ^ (b ^ c),
{
    assert((a ^ b) ^ (c ^ d) == (a ^ c) ^ (b ^ d) && a ^ 0 == a && a ^ a == 0 && (a ^ b) ^ b == a
        && a ^ b == b ^ a && (a ^ b) ^ c == a ^ (b ^ c)) by (bit_vector);
}

/// The hash of a mask is linear in the mask.
pub proof fn lemma_mask_hash_xor(x: u64, y: u64, slot: int, n: int)
    ensures
        mask_hash_upto(x ^ y, slot, n) == mask_hash_upto(x, slot, n) ^ mask_hash_upto(y, slot, n),
    decreases n,
{
    if n <= 0 {
        lemma_xor_facts(0, 0, 0, 0);
    } else {
        lemma_mask_hash_xor(x, y, slot, n - 1);
        lemma_bit_xor(x, y);
        let k = zkey(slot * 64 + n - 1);
        let tx = if bit(x, n - 1) { k } else { 0u64 };
        let ty = if bit(y, n - 1) { k } else { 0u64 };
        lemma_xor_facts(mask_hash_upto(x, slot, n - 1), mask_hash_upto(y, slot, n - 1), tx, ty);
        lemma_xor_facts(k, 0, 0, 0);
        lemma_xor_facts(0, k, 0, 0);
        lemma_xor_facts(k, k, 0, 0);
    }
}

/// The hash of a one-square mask is that square's key.
pub proof fn lemma_mask_hash_single(s: int, slot: int, n: int)
    requires
        0 <= s < 64,
    ensures
        mask_hash_upto(single(s), slot, n) == (if s < n {
            zkey(slot * 64 + s)
        } else {
            0u64
        }),
    decreases n,
{
    lemma_bit_single(s);
    if n > 0 {
        lemma_mask_hash_single(s, slot, n - 1);
        lemma_xor_facts(mask_hash_upto(single(s), slot, n - 1), 0, 0, 0);
        lemma_xor_facts(0, zkey(slot * 64 + s), 0, 0);
        lemma_xor_facts(zkey(slot * 64 + s), 0, 0, 0);
    }
}

pub proof fn lemma_mask_hash_zero(slot: int, n: int)
    ensures
        mask_hash_upto(0, slot, n) == 0,
    decreases n,
{
    crate::bits::lemma_bit_zero();
    if n > 0 {
        lemma_mask_hash_zero(slot, n - 1);
        lemma_xor_facts(0, 0, 0, 0);
    }
}

/// Hash of the squares of `x` for piece slot `slot`.
pub fn hash_mask(x: u64, slot: u64) -> (r: u64)
    requires
        slot < 12,
    ensures
        r == mask_hash(x, slot as int),
{
    let mut acc: u64 = 0;
    let mut rest: u64 = x;
    proof {
        lemma_mask_hash_zero(slot as int, 64);
        lemma_xor_facts(mask_hash(x, slot as int), 0, 0, 0);
        lemma_xor_facts(0, mask_hash(x, slot as int), 0, 0);
    }
    while rest != 0
        invariant
            slot < 12,
            acc ^ mask_hash(rest, slot as int) == mask_hash(x, slot as int),
        decreases rest,
    {
        let s = rest.trailing_zeros() as u64;
        proof {
            lemma_nonzero_has_bit(rest);
            lemma_clear_lowest(rest);
            lemma_mask_hash_xor(rest ^ single(s as int), single(s as int), slot as int, 64);
            lemma_mask_hash_single(s as int, slot as int, 64);
            lemma_xor_facts(rest, single(s as int), 0, 0);
            let k = zkey(slot * 64 + s);
            lemma_xor_facts(acc, k, mask_hash(rest ^ single(s as int), slot as int), 0);
            lemma_xor_facts(acc, mask_hash(rest ^ single(s as int), slot as int), k, 0);
            lemma_xor_facts(mask_hash(rest ^ single(s as int), slot as int), k, 0, 0);
            assert(rest & ((rest - 1) as u64) < rest) by (bit_vector)
                requires
                    rest != 0,
            ;
        }
        acc = acc ^ key(slot * 64 + s);
        rest = rest & (rest - 1);
    }
    proof {
        lemma_mask_hash_zero(slot as int, 64);
        lemma_xor_facts(acc, 0, 0, 0);
    }
    acc
}

} // verus!
