//! Transposition table: one slot per hash residue, keeping the deeper
//! search of two positions that share a slot.
use vstd::prelude::*;
use crate::movegen::Move;

verus! {

/// How a stored score bounds the true one.
#[derive(Debug, Clone, Copy, PartialEq, Eq, Structural)]
pub enum Bound {
    Exact,
    Lower,
    Upper,
}

#[derive(Debug, Clone, Copy)]
pub struct TTEntry {
    pub key: u64,
    pub depth: u8,
    pub score: i32,
    pub bound: Bound,
    pub best_move: Option<Move>,
}

pub struct TranspositionTable {
    entries: Vec<Option<TTEntry>>,
}

/// Slot of `key` in a table of `len` slots.
pub open spec fn slot(key: u64, len: int) -> int {
    (key as usize) as int % len
}

/// What a probe of `key` finds in the slots `s`: the entry of its slot
/// when it was stored for `key`.
pub open spec fn probe_spec(s: Seq<Option<TTEntry>>, key: u64) -> Option<TTEntry> {
    match s[slot(key, s.len() as int)] {
        Some(e) => if e.key == key {
            Some(e)
        } else {
            None
        },
        None => None,
    }
}

/// The slots after storing `e`: it takes its slot when the slot is empty or
/// holds a search no deeper than `e`'s.
pub open spec fn store_spec(s: Seq<Option<TTEntry>>, e: TTEntry) -> Seq<Option<TTEntry>> {
    let i = slot(e.key, s.len() as int);
    match s[i] {
        None => s.update(i, Some(e)),
        Some(old) => if e.depth >= old.depth {
            s.update(i, Some(e))
        } else {
            s
        },
    }
}

/// Number of slots of a table of `size_mb` megabytes.
pub open spec fn slot_count(size_mb: int) -> int {
    let size = vstd::layout::size_of::<Option<TTEntry>>() as int;
    let count = if size == 0 {
        0
    } else {
        size_mb * 1024 * 1024 / size
    };
    if count < 1 {
        1
    } else {
        count
    }
}

impl View for TranspositionTable {
    type V = Seq<Option<TTEntry>>;

    closed spec fn view(&self) -> Seq<Option<TTEntry>> {
        self.entries@
    }
}

impl TranspositionTable {
    /// The table has a slot.
    pub open spec fn wf(&self) -> bool {
        self@.len() > 0
    }

    /// An empty table of `size_mb` megabytes (at least one slot).
    pub fn new(size_mb: usize) -> (r: TranspositionTable)
        requires
            size_mb * 1024 * 1024 <= usize::MAX,
        ensures
            r.wf(),
            r@.len() == slot_count(size_mb as int),
            forall|i: int| 0 <= i < r@.len() ==> #[trigger] r@[i] is None,
    {
        let entry_size = std::mem::size_of::<Option<TTEntry>>();
        let bytes = size_mb * 1024 * 1024;
        let count = if entry_size == 0 {
            0
        } else {
            bytes / entry_size
        };
        let count = if count < 1 {
            1
        } else {
            count
        };
        let mut entries: Vec<Option<TTEntry>> = Vec::new();
        let mut i: usize = 0;
        while i < count
            invariant
                i <= count,
                entries@.len() == i,
                forall|j: int| 0 <= j < i ==> #[trigger] entries@[j] is None,
            decreases count - i,
        {
            entries.push(None);
            i = i + 1;
        }
        TranspositionTable { entries }
    }

    fn index(&self, key: u64) -> (r: usize)
        requires
            self.wf(),
        ensures
            r as int == slot(key, self@.len() as int),
            r < self@.len(),
    {
        (key as usize) % self.entries.len()
    }

    /// The entry stored for `key`, if its slot holds one.
    pub fn probe(&self, key: u64) -> (r: Option<TTEntry>)
        requires
            self.wf(),
        ensures
            r == probe_spec(self@, key),
    {
        let i = self.index(key);
        match self.entries[i] {
            Some(entry) => if entry.key == key {
                Some(entry)
            } else {
                None
            },
            None => None,
        }
    }

    /// Stores `entry` in its slot unless the slot holds a deeper search.
    pub fn store(&mut self, entry: TTEntry)
        requires
            old(self).wf(),
        ensures
            final(self).wf(),
            final(self)@ == store_spec(old(self)@, entry),
    {
        let index = self.index(entry.key);
        let replace = match self.entries[index] {
            None => true,
            Some(old) => entry.depth >= old.depth,
        };
        if replace {
            self.entries.set(index, Some(entry));
        }
    }
}

/// A probe right after a store finds the stored entry, unless its slot
/// held a deeper search; probes of keys in other slots are unchanged.
pub proof fn lemma_probe_after_store(s: Seq<Option<TTEntry>>, e: TTEntry, key: u64)
    requires
        s.len() > 0,
    ensures
        (s[slot(e.key, s.len() as int)] is None || e.depth >= s[slot(e.key, s.len() as int)]->0.depth)
            ==> probe_spec(store_spec(s, e), e.key) == Some(e),
        slot(key, s.len() as int) != slot(e.key, s.len() as int) ==> probe_spec(store_spec(s, e), key)
            == probe_spec(s, key),
{
}

} // verus!
