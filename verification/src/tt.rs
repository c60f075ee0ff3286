//! A bounded, always-replace-unless-deeper transposition table keyed by
//! `Game::tt_hash` and verified by the full position key.

use crate::game::{game_eq_laws, Game};
use vstd::prelude::*;

verus! {

/// What kind of bound a stored score is.
#[derive(Clone, Copy, Debug, PartialEq, Eq)]
pub enum Bound {
    Exact,
    Lower,
    Upper,
}

/// One transposition-table slot's contents.
pub struct TtEntry<G: Game> {
    pub key: G::PositionKey,
    pub depth: u8,
    pub bound: Bound,
    pub score: i32,
    pub best_move: Option<G::Move>,
    pub generation: u32,
}

impl<G: Game> Clone for TtEntry<G> {
    fn clone(&self) -> (copy: Self)
        ensures
            copy == *self,
    {
        *self
    }
}

impl<G: Game> Copy for TtEntry<G> {
}

/// A fixed number of slots, each holding at most one entry; the slot of
/// a key is its `tt_hash` modulo the number of slots.
pub struct TranspositionTable<G: Game> {
    slots: Vec<Option<TtEntry<G>>>,
    capacity: usize,
    generation: u32,
}

/// The abstract contents of a table: its slots in index order and the
/// generation new entries are stamped with.
pub ghost struct TtView<G: Game> {
    pub slots: Seq<Option<TtEntry<G>>>,
    pub generation: u32,
}

/// The number of slots a table of `megabytes` holds when one slot takes
/// `entry_size` bytes (each of the two at least 1).
pub open spec fn spec_capacity_for(megabytes: int, entry_size: int) -> int {
    let mb = if megabytes < 1 { 1 } else { megabytes };
    let es = if entry_size < 1 { 1 } else { entry_size };
    let c = (mb * 1024 * 1024) / es;
    if c < 1 { 1 } else { c }
}

impl<G: Game> TtView<G> {
    /// The slot that `key` maps to.
    pub open spec fn slot_of(self, key: G::PositionKey) -> int {
        (G::spec_tt_hash(key) as int) % (self.slots.len() as int)
    }

    /// What a probe for `key` finds: the entry in its slot, if that entry
    /// carries exactly this key.
    pub open spec fn probe(self, key: G::PositionKey) -> Option<TtEntry<G>> {
        match self.slots[self.slot_of(key)] {
            Some(e) => if e.key == key {
                Some(e)
            } else {
                None
            },
            None => None,
        }
    }

    /// Whether storing for `key` at `depth` replaces its slot: the slot is
    /// empty, or holds an entry of another generation, or one searched no
    /// deeper than `depth`.
    pub open spec fn replaces(self, key: G::PositionKey, depth: u8) -> bool {
        match self.slots[self.slot_of(key)] {
            None => true,
            Some(existing) => existing.generation != self.generation || existing.depth <= depth,
        }
    }

    /// The entry a store writes.
    pub open spec fn new_entry(
        self,
        key: G::PositionKey,
        depth: u8,
        bound: Bound,
        score: i32,
        best_move: Option<G::Move>,
    ) -> TtEntry<G> {
        TtEntry { key, depth, bound, score, best_move, generation: self.generation }
    }

    /// The table after a store.
    pub open spec fn stored(
        self,
        key: G::PositionKey,
        depth: u8,
        bound: Bound,
        score: i32,
        best_move: Option<G::Move>,
    ) -> Self {
        if self.replaces(key, depth) {
            TtView {
                slots: self.slots.update(
                    self.slot_of(key),
                    Some(self.new_entry(key, depth, bound, score, best_move)),
                ),
                generation: self.generation,
            }
        } else {
            self
        }
    }

    /// A read after a write: once a store has replaced `key`'s slot, a
    /// probe for `key` returns exactly the entry written; a store that did
    /// not replace changes nothing.
    pub proof fn law_probe_after_store(
        self,
        key: G::PositionKey,
        depth: u8,
        bound: Bound,
        score: i32,
        best_move: Option<G::Move>,
    )
        requires
            self.slots.len() > 0,
        ensures
            self.replaces(key, depth) ==> self.stored(key, depth, bound, score, best_move).probe(key)
                == Some(self.new_entry(key, depth, bound, score, best_move)),
            !self.replaces(key, depth) ==> self.stored(key, depth, bound, score, best_move)
                == self,
    {
        let t = self.stored(key, depth, bound, score, best_move);
        assert(t.slot_of(key) == self.slot_of(key));
    }

    /// A store touches only its own slot: a probe for any key that maps to
    /// another slot finds what it found before.
    pub proof fn law_store_leaves_other_slots(
        self,
        key: G::PositionKey,
        depth: u8,
        bound: Bound,
        score: i32,
        best_move: Option<G::Move>,
        other: G::PositionKey,
    )
        requires
            self.slots.len() > 0,
            self.slot_of(other) != self.slot_of(key),
        ensures
            self.stored(key, depth, bound, score, best_move).probe(other) == self.probe(other),
    {
        let t = self.stored(key, depth, bound, score, best_move);
        assert(t.slot_of(other) == self.slot_of(other));
    }

    /// A store for one key never makes a probe for another key find
    /// something new: it finds what it found before, or nothing.
    pub proof fn law_store_keeps_or_evicts_other_keys(
        self,
        key: G::PositionKey,
        depth: u8,
        bound: Bound,
        score: i32,
        best_move: Option<G::Move>,
        other: G::PositionKey,
    )
        requires
            self.slots.len() > 0,
            other != key,
        ensures
            self.stored(key, depth, bound, score, best_move).probe(other) == self.probe(other)
                || self.stored(key, depth, bound, score, best_move).probe(other) is None,
    {
        let t = self.stored(key, depth, bound, score, best_move);
        assert(t.slot_of(other) == self.slot_of(other));
    }

    /// Once a new generation has started over the same slots, every entry
    /// stamped with the previous generation is replaceable by a store of
    /// any depth.
    pub proof fn law_new_generation_makes_entries_replaceable(
        self,
        next: TtView<G>,
        key: G::PositionKey,
        depth: u8,
    )
        requires
            next.slots == self.slots,
            next.generation != self.generation,
            self.slots[self.slot_of(key)] matches Some(e) && e.generation == self.generation,
        ensures
            next.replaces(key, depth),
    {
    }

    /// Depth-preferred replacement: a store for `key` at `depth` whose slot
    /// is empty, holds an entry of another generation, or holds one of this
    /// generation searched no deeper than `depth`, is what a probe for `key`
    /// finds afterwards: exactly the stored key, depth, bound, score, move
    /// and the current generation.
    pub proof fn law_store_replaces_no_deeper_entry(
        self,
        key: G::PositionKey,
        depth: u8,
        bound: Bound,
        score: i32,
        best_move: Option<G::Move>,
    )
        requires
            self.slots.len() > 0,
            match self.slots[self.slot_of(key)] {
                None => true,
                Some(e) => e.generation != self.generation || e.depth <= depth,
            },
        ensures
            self.stored(key, depth, bound, score, best_move).probe(key) == Some(
                TtEntry::<G> { key, depth, bound, score, best_move, generation: self.generation },
            ),
    {
        let t = self.stored(key, depth, bound, score, best_move);
        assert(t.slot_of(key) == self.slot_of(key));
    }

    /// Within one generation a shallower store never displaces a deeper
    /// entry: the table is left as it was.
    pub proof fn law_deeper_entry_survives(
        self,
        key: G::PositionKey,
        depth: u8,
        bound: Bound,
        score: i32,
        best_move: Option<G::Move>,
    )
        requires
            self.slots.len() > 0,
            self.slots[self.slot_of(key)] matches Some(e) && e.generation == self.generation
                && e.depth > depth,
        ensures
            self.stored(key, depth, bound, score, best_move) == self,
    {
    }
}

impl<G: Game> View for TranspositionTable<G> {
    type V = TtView<G>;

    closed spec fn view(&self) -> TtView<G> {
        TtView { slots: self.slots@, generation: self.generation }
    }
}

impl<G: Game> TranspositionTable<G> {
    pub closed spec fn wf(&self) -> bool {
        &&& self.capacity == self.slots@.len()
        &&& self.capacity > 0
    }

    /// A well-formed table has at least one slot.
    pub proof fn lemma_wf_nonempty(&self)
        requires
            self.wf(),
        ensures
            self@.slots.len() > 0,
    {
    }

    /// A table of `max(1, megabytes)` MiB, every slot empty, generation 0.
    pub fn new(megabytes: usize) -> (table: Self)
        requires
            megabytes <= usize::MAX / 1048576usize,
        ensures
            table.wf(),
            table@.slots.len() == spec_capacity_for(
                megabytes as int,
                vstd::layout::size_of::<Option<TtEntry<G>>>() as int,
            ),
            forall|i: int| 0 <= i < table@.slots.len() ==> table@.slots[i] is None,
            table@.generation == 0,
    {
        let raw_size = std::mem::size_of::<Option<TtEntry<G>>>();
        let entry_size = if raw_size < 1 {
            1
        } else {
            raw_size
        };
        let mb = if megabytes < 1 {
            1
        } else {
            megabytes
        };
        let bytes = mb * 1024 * 1024;
        let c = bytes / entry_size;
        let capacity = if c < 1 {
            1
        } else {
            c
        };
        let mut slots: Vec<Option<TtEntry<G>>> = Vec::new();
        while slots.len() < capacity
            invariant
                slots.len() <= capacity,
                forall|i: int| 0 <= i < slots.len() ==> slots@[i] is None,
            decreases capacity - slots.len(),
        {
            slots.push(None);
        }
        TranspositionTable { slots, capacity, generation: 0 }
    }

    /// The slot index of `key`.
    pub fn index(&self, key: G::PositionKey) -> (idx: usize)
        requires
            self.wf(),
        ensures
            idx == self@.slot_of(key),
            idx < self@.slots.len(),
    {
        (G::tt_hash(&key) % (self.capacity as u64)) as usize
    }

    /// The entry stored for exactly `key`, if its slot holds one.
    pub fn probe(&self, key: G::PositionKey) -> (found: Option<TtEntry<G>>)
        requires
            self.wf(),
            game_eq_laws::<G>(),
        ensures
            found == self@.probe(key),
    {
        let idx = self.index(key);
        match self.slots[idx] {
            Some(e) => {
                let same = e.key == key;
                proof {
                    reveal(vstd::laws_eq::obeys_concrete_eq);
                }
                if same {
                    Some(e)
                } else {
                    None
                }
            },
            None => None,
        }
    }

    /// Replaces `key`'s slot unless it already holds a same-generation
    /// entry from a deeper search.
    pub fn store(
        &mut self,
        key: G::PositionKey,
        depth: u8,
        bound: Bound,
        score: i32,
        best_move: Option<G::Move>,
    )
        requires
            old(self).wf(),
        ensures
            final(self).wf(),
            final(self)@ == old(self)@.stored(key, depth, bound, score, best_move),
            final(self)@.slots.len() == old(self)@.slots.len(),
            final(self)@.generation == old(self)@.generation,
    {
        let idx = self.index(key);
        let replace = match &self.slots[idx] {
            None => true,
            Some(existing) => existing.generation != self.generation || existing.depth <= depth,
        };
        if replace {
            self.slots.set(
                idx,
                Some(TtEntry { key, depth, bound, score, best_move, generation: self.generation }),
            );
        }
    }

    /// Starts a new search generation (wrapping at `u32::MAX`).
    pub fn new_generation(&mut self)
        requires
            old(self).wf(),
        ensures
            final(self).wf(),
            final(self)@.slots == old(self)@.slots,
            final(self)@.generation != old(self)@.generation,
            final(self)@.generation == (if old(self)@.generation == u32::MAX {
                0
            } else {
                (old(self)@.generation + 1) as u32
            }),
    {
        self.generation = self.generation.wrapping_add(1);
    }

}

} // verus!
