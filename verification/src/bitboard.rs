//! A 64-square chessboard as a 64-bit word: bit 0 = a1, bit 63 = h8.
use vstd::prelude::*;
use crate::bits::{bit, single, popcount, count_ones, lemma_clear_lowest, lemma_nonzero_has_bit,
    lemma_bit_xor, lemma_bit_single, lemma_mask_test};

verus! {

// File masks that keep shifts from wrapping around the board edge.
pub const FILE_A: u64 = 0x0101_0101_0101_0101;
pub const FILE_B: u64 = 0x0202_0202_0202_0202;
pub const FILE_G: u64 = 0x4040_4040_4040_4040;
pub const FILE_H: u64 = 0x8080_8080_8080_8080;
pub const FILE_AB: u64 = 0x0303_0303_0303_0303;
pub const FILE_GH: u64 = 0xC0C0_C0C0_C0C0_C0C0;

#[derive(Debug, Clone, Copy, PartialEq, Eq, Structural, Hash)]
pub struct BitBoard(pub u64);

impl BitBoard {
    pub fn value(&self) -> (r: u64)
        ensures
            r == self.0,
    {
        self.0
    }

    /// The board with only square `index` set.
    pub fn from_square(index: u8) -> (r: Self)
        requires
            index < 64,
        ensures
            r.0 == single(index as int),
    {
        BitBoard(1u64 << index)
    }

    pub fn is_empty(&self) -> (r: bool)
        ensures
            r == (self.0 == 0),
    {
        self.0 == 0
    }

    pub fn is_set(&self, index: u8) -> (r: bool)
        requires
            index < 64,
        ensures
            r == bit(self.0, index as int),
    {
        proof {
            lemma_mask_test(self.0, index as int);
        }
        (self.0 & (1u64 << index)) != 0
    }

    pub fn set(&mut self, index: u8)
        requires
            index < 64,
        ensures
            final(self).0 == old(self).0 | single(index as int),
    {
        self.0 = self.0 | (1u64 << index);
    }

    pub fn clear(&mut self, index: u8)
        requires
            index < 64,
        ensures
            final(self).0 == old(self).0 & !single(index as int),
    {
        self.0 = self.0 & !(1u64 << index);
    }

    pub fn toggle(&mut self, index: u8)
        requires
            index < 64,
        ensures
            final(self).0 == old(self).0 ^ single(index as int),
    {
        self.0 = self.0 ^ (1u64 << index);
    }

    /// Number of occupied squares.
    pub fn count(&self) -> (r: u32)
        ensures
            r as nat == popcount(self.0),
    {
        count_ones(self.0)
    }

    /// Index of the lowest set square (64 for the empty board).
    pub fn lsb(&self) -> (r: u8)
        ensures
            r as u32 == self.0.trailing_zeros(),
            self.0 == 0 <==> r == 64,
            self.0 != 0 ==> r < 64 && bit(self.0, r as int),
            forall|i: int| 0 <= i < r ==> !#[trigger] bit(self.0, i),
    {
        proof {
            vstd::std_specs::bits::axiom_u64_trailing_zeros(self.0);
            if self.0 != 0 {
                lemma_nonzero_has_bit(self.0);
            } else {
                crate::bits::lemma_bit_zero();
            }
        }
        self.0.trailing_zeros() as u8
    }

    /// Removes and returns the lowest set square.
    pub fn pop_lsb(&mut self) -> (r: Option<u8>)
        ensures
            old(self).0 == 0 ==> r is None && final(self).0 == 0,
            old(self).0 != 0 ==> r is Some && {
                let s = r->0 as int;
                &&& s < 64
                &&& s == old(self).0.trailing_zeros()
                &&& bit(old(self).0, s)
                &&& forall|i: int| 0 <= i < s ==> !#[trigger] bit(old(self).0, i)
                &&& final(self).0 == old(self).0 ^ single(s)
                &&& forall|i: int| #[trigger] bit(final(self).0, i) == (bit(old(self).0, i) && i != s)
            },
    {
        if self.0 == 0 {
            return None;
        }
        let sq = self.lsb();
        proof {
            lemma_clear_lowest(self.0);
            lemma_bit_xor(self.0, single(sq as int));
            lemma_bit_single(sq as int);
        }
        self.0 = self.0 & (self.0 - 1);
        Some(sq)
    }

    pub fn shift_north(self) -> (r: Self)
        ensures
            r.0 == self.0 << 8u64,
    {
        BitBoard(self.0 << 8)
    }

    pub fn shift_south(self) -> (r: Self)
        ensures
            r.0 == self.0 >> 8u64,
    {
        BitBoard(self.0 >> 8)
    }

    pub fn shift_east(self) -> (r: Self)
        ensures
            r.0 == (self.0 & !FILE_H) << 1u64,
    {
        BitBoard((self.0 & !FILE_H) << 1)
    }

    pub fn shift_west(self) -> (r: Self)
        ensures
            r.0 == (self.0 & !FILE_A) >> 1u64,
    {
        BitBoard((self.0 & !FILE_A) >> 1)
    }

    pub fn shift_ne(self) -> (r: Self)
        ensures
            r.0 == (self.0 & !FILE_H) << 9u64,
    {
        BitBoard((self.0 & !FILE_H) << 9)
    }

    pub fn shift_nw(self) -> (r: Self)
        ensures
            r.0 == (self.0 & !FILE_A) << 7u64,
    {
        BitBoard((self.0 & !FILE_A) << 7)
    }

    pub fn shift_se(self) -> (r: Self)
        ensures
            r.0 == (self.0 & !FILE_H) >> 7u64,
    {
        BitBoard((self.0 & !FILE_H) >> 7)
    }

    pub fn shift_sw(self) -> (r: Self)
        ensures
            r.0 == (self.0 & !FILE_A) >> 9u64,
    {
        BitBoard((self.0 & !FILE_A) >> 9)
    }
}

impl From<u64> for BitBoard {
    fn from(value: u64) -> (r: BitBoard) {
        BitBoard(value)
    }
}

impl vstd::std_specs::convert::FromSpecImpl<u64> for BitBoard {
    open spec fn obeys_from_spec() -> bool {
        true
    }

    open spec fn from_spec(v: u64) -> BitBoard {
        BitBoard(v)
    }
}

impl From<BitBoard> for u64 {
    fn from(value: BitBoard) -> (r: u64) {
        value.0
    }
}

impl vstd::std_specs::convert::FromSpecImpl<BitBoard> for u64 {
    open spec fn obeys_from_spec() -> bool {
        true
    }

    open spec fn from_spec(v: BitBoard) -> u64 {
        v.0
    }
}

} // verus!
