//! Records that live in a bump arena and point to each other directly.
//!
//! All records of one search are carved out of one region of memory, which is
//! taken back in one piece before the next search. A record holds a reference
//! to the record of its predecessor, so a path is read by following
//! references; nothing is looked up by index.

use super::history::{chain, lemma_reverse_push, link, links_back, reversed, History, Record};
use vstd::prelude::*;

verus! {

/// `bumpalo::Bump`, the arena. Nothing is known of what is inside it.
#[verifier::external_type_specification]
#[verifier::external_body]
pub struct ExBump<const MIN_ALIGN: usize>(bumpalo::Bump<MIN_ALIGN>);

/// `bumpalo::AllocErr`, the error of an allocation that was refused.
#[verifier::external_type_specification]
#[verifier::external_body]
pub struct ExAllocErr(bumpalo::AllocErr);

/// `bumpalo::Bump::try_with_capacity`: an arena that starts with room for
/// `capacity` bytes, or the error with which the allocator refused to give
/// that much. Nothing is claimed of the arena.
#[verifier::external_body]
pub(crate) fn arena_try_with_capacity(capacity: usize) -> Result<bumpalo::Bump, bumpalo::AllocErr> {
    bumpalo::Bump::try_with_capacity(capacity)
}

/// `bumpalo::Bump::new`: an arena that holds no memory yet. Nothing is
/// claimed of the arena.
#[verifier::external_body]
pub(crate) fn arena_new() -> bumpalo::Bump {
    bumpalo::Bump::new()
}

/// `bumpalo::Bump::reset`: takes back everything that was allocated in the
/// arena. The exclusive borrow sees to it that no reference into the arena
/// is still in use. Nothing is claimed of the arena afterwards.
#[verifier::external_body]
pub(crate) fn arena_reset(arena: &mut bumpalo::Bump) {
    arena.reset()
}

/// `bumpalo::Bump::alloc`: moves `value` into the arena and hands back a
/// reference to where it now lives, which is good for as long as the arena
/// is borrowed. The contract claims that what the reference points to is the
/// value that was handed in. Like `Vec::push`, the call does not come back
/// when the machine has no memory left.
#[verifier::external_body]
pub(crate) fn arena_alloc<'a, T>(arena: &'a bumpalo::Bump, value: T) -> (slot: &'a T)
    ensures
        *slot == value,
{
    arena.alloc(value)
}

/// A record in the arena: a position and the record of its predecessor.
pub struct ArenaLeaf<'a, Pos> {
    pub pos: Pos,
    pub parent: Option<&'a ArenaLeaf<'a, Pos>>,
}

/// The records of one search, in the arena that they were allocated from.
pub struct ArenaHistory<'a, Pos> {
    arena: &'a bumpalo::Bump,
    slots: Vec<&'a ArenaLeaf<'a, Pos>>,
    parents: Ghost<Seq<Option<nat>>>,
}

impl<'a, Pos: Copy> ArenaHistory<'a, Pos> {
    /// An empty store whose records will live in `arena`.
    pub fn new(arena: &'a bumpalo::Bump) -> (history: Self)
        ensures
            history.valid(),
            history.records() == Seq::<Record<Pos>>::empty(),
    {
        let history = Self { arena, slots: Vec::new(), parents: Ghost(Seq::empty()) };
        assert(history.records() =~= Seq::<Record<Pos>>::empty());
        history
    }
}

impl<'a, Pos: Copy> History<Pos> for ArenaHistory<'a, Pos> {
    closed spec fn records(&self) -> Seq<Record<Pos>> {
        Seq::new(self.slots@.len(), |i: int| (self.slots@[i].pos, self.parents@[i]))
    }

    closed spec fn valid(&self) -> bool {
        &&& self.parents@.len() == self.slots@.len()
        &&& forall|i: int|
            0 <= i < self.slots@.len() ==> match #[trigger] self.parents@[i] {
                Some(p) => p < i && self.slots@[i].parent == Some(self.slots@[p as int]),
                None => self.slots@[i].parent is None,
            }
    }

    proof fn lemma_links_back(&self) {
        assert forall|i: int| 0 <= i < self.records().len() implies match (
        #[trigger] self.records()[i]).1 {
            Some(p) => p < i,
            None => true,
        } by {
            assert(self.records()[i].1 == self.parents@[i]);
        }
    }

    /// Forgets every record. The memory stays with the arena until the
    /// arena itself is reset.
    fn reset(&mut self) {
        self.slots.clear();
        self.parents = Ghost(Seq::empty());
        assert(self.records() =~= Seq::<Record<Pos>>::empty());
    }

    fn record(&mut self, pos: Pos, parent: Option<usize>) -> (id: usize) {
        let id = self.slots.len();
        proof {
            old(self).lemma_links_back();
        }
        let above: Option<&'a ArenaLeaf<'a, Pos>> = match parent {
            Some(p) => {
                assert(old(self).records().len() == self.slots@.len());
                Some(self.slots[p])
            },
            None => None,
        };
        let leaf: &'a ArenaLeaf<'a, Pos> = arena_alloc(self.arena, ArenaLeaf { pos, parent: above });
        self.slots.push(leaf);
        self.parents = Ghost(self.parents@.push(link(parent)));
        proof {
            assert(self.records() =~= old(self).records().push((pos, link(parent))));
            assert forall|i: int| 0 <= i < self.slots@.len() implies match #[trigger] self.parents@[i] {
                Some(p) => p < i && self.slots@[i].parent == Some(self.slots@[p as int]),
                None => self.slots@[i].parent is None,
            } by {
                if i < id {
                    assert(self.parents@[i] == old(self).parents@[i]);
                    assert(self.slots@[i] == old(self).slots@[i]);
                }
            }
        }
        id
    }

    fn path_to(&self, id: usize) -> (path: Vec<Pos>) {
        let mut trail: Vec<Pos> = Vec::new();
        assert(self.records().len() == self.slots@.len());
        let mut leaf: &ArenaLeaf<'a, Pos> = self.slots[id];
        let ghost mut at: nat = id as nat;
        proof {
            self.lemma_links_back();
        }
        loop
            invariant
                self.valid(),
                links_back(self.records()),
                at <= id < self.slots@.len(),
                self.records().len() == self.slots@.len(),
                *leaf == *self.slots@[at as int],
                chain(self.records(), id as nat) == chain(self.records(), at) + trail@.reverse(),
            decreases at,
        {
            proof {
                lemma_reverse_push(trail@, leaf.pos);
                assert(self.records()[at as int] == (leaf.pos, self.parents@[at as int]));
            }
            trail.push(leaf.pos);
            match leaf.parent {
                Some(above) => {
                    proof {
                        let p = self.parents@[at as int]->Some_0;
                        assert(chain(self.records(), id as nat) =~= chain(self.records(), p)
                            + trail@.reverse());
                        at = p;
                    }
                    leaf = above;
                },
                None => {
                    assert(chain(self.records(), id as nat) =~= trail@.reverse());
                    return reversed(&trail);
                },
            }
        }
    }
}

} // verus!
