//! The stack of records that undo moves.
use vstd::prelude::*;
use crate::movegen::Move;

verus! {

/// What a move changed that cannot be recomputed from the move itself.
#[derive(Debug, Clone, Copy, PartialEq, Eq, Structural)]
pub struct Undo {
    pub mv: Move,
    pub castling_rights: u8,
    pub en_passant_square: u8,
    pub halfmove_clock: u8,
    pub zobrist_hash: u64,
}

impl Undo {
    pub fn new(
        mv: Move,
        castling_rights: u8,
        en_passant_square: u8,
        halfmove_clock: u8,
        zobrist_hash: u64,
    ) -> (r: Undo)
        ensures
            r == (Undo { mv, castling_rights, en_passant_square, halfmove_clock, zobrist_hash }),
    {
        Undo { mv, castling_rights, en_passant_square, halfmove_clock, zobrist_hash }
    }
}

#[derive(Debug, Clone)]
pub struct HistoryManager {
    undo_struct: Vec<Undo>,
}

impl View for HistoryManager {
    type V = Seq<Undo>;

    closed spec fn view(&self) -> Seq<Undo> {
        self.undo_struct@
    }
}

impl HistoryManager {
    pub fn new() -> (r: HistoryManager)
        ensures
            r@ == Seq::<Undo>::empty(),
    {
        HistoryManager { undo_struct: Vec::new() }
    }

    /// Removes and returns the latest record, if any.
    pub fn pop(&mut self) -> (r: Option<Undo>)
        ensures
            old(self)@.len() == 0 ==> r is None && final(self)@ == old(self)@,
            old(self)@.len() > 0 ==> r == Some(old(self)@.last()) && final(self)@ == old(
                self,
            )@.drop_last(),
    {
        if self.undo_struct.len() == 0 {
            return None;
        }
        self.undo_struct.pop()
    }

    pub fn push(&mut self, info: Undo)
        ensures
            final(self)@ == old(self)@.push(info),
    {
        self.undo_struct.push(info);
    }

    /// The latest record, if any.
    pub fn last(&self) -> (r: Option<Undo>)
        ensures
            self@.len() == 0 ==> r is None,
            self@.len() > 0 ==> r == Some(self@.last()),
    {
        if self.undo_struct.len() == 0 {
            None
        } else {
            Some(self.undo_struct[self.undo_struct.len() - 1])
        }
    }

    /// Number of records.
    pub fn len(&self) -> (r: usize)
        ensures
            r == self@.len(),
    {
        self.undo_struct.len()
    }

    pub fn clone(&self) -> (r: HistoryManager)
        ensures
            r@ == self@,
    {
        let mut v: Vec<Undo> = Vec::new();
        let mut i: usize = 0;
        while i < self.undo_struct.len()
            invariant
                i <= self.undo_struct@.len(),
                v@ == self.undo_struct@.subrange(0, i as int),
            decreases self.undo_struct@.len() - i,
        {
            v.push(self.undo_struct[i]);
            i = i + 1;
            proof {
                assert(v@ =~= self.undo_struct@.subrange(0, i as int));
            }
        }
        proof {
            assert(v@ =~= self.undo_struct@);
        }
        HistoryManager { undo_struct: v }
    }
}

/// Popping right after a push gives back the pushed record and leaves the
/// history as it was before the push.
pub proof fn lemma_push_pop(h: Seq<Undo>, u: Undo)
    ensures
        h.push(u).len() > 0,
        h.push(u).last() == u,
        h.push(u).drop_last() == h,
{
    assert(h.push(u).drop_last() =~= h);
}

} // verus!
