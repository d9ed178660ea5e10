//! The frontier's queue: a binary heap in an array, smallest node at the root.

use super::model::{before, is_first, Candidate};
use super::{AStarT, Node};
use crate::cost::Cost;
use vstd::multiset::Multiset;
use vstd::prelude::*;

verus! {

/// Whether `a` leaves the queue before `b`.
pub fn leaves_before<F: Cost, Pos>(a: &Node<F, Pos, AStarT<F>>, b: &Node<F, Pos, AStarT<F>>) -> (r:
    bool)
    ensures
        r == before(a@, b@),
{
    if a.f.less(b.f) {
        true
    } else if b.f.less(a.f) {
        false
    } else if a.t.g.less(b.t.g) {
        true
    } else if b.t.g.less(a.t.g) {
        false
    } else {
        a.t.seq < b.t.seq
    }
}

/// Every node but the root leaves no earlier than the node above it.
pub open spec fn ordered<Pos>(entries: Seq<Candidate<Pos>>) -> bool {
    forall|k: int| 1 <= k < entries.len() ==> !before(#[trigger] entries[k], entries[(k - 1) / 2])
}

/// `ordered`, except that the node at `at` may leave before the node above it.
spec fn ordered_but_above<Pos>(entries: Seq<Candidate<Pos>>, at: int) -> bool {
    &&& forall|k: int|
        1 <= k < entries.len() && k != at ==> !before(#[trigger] entries[k], entries[(k - 1) / 2])
    &&& forall|k: int|
        1 <= k < entries.len() && (k - 1) / 2 == at && at > 0 ==> !before(
            #[trigger] entries[k],
            entries[(at - 1) / 2],
        )
}

/// `ordered`, except that the nodes below `at` may leave before it.
spec fn ordered_but_below<Pos>(entries: Seq<Candidate<Pos>>, at: int) -> bool {
    &&& forall|k: int|
        1 <= k < entries.len() && (k - 1) / 2 != at ==> !before(
            #[trigger] entries[k],
            entries[(k - 1) / 2],
        )
    &&& forall|k: int|
        1 <= k < entries.len() && (k - 1) / 2 == at && at > 0 ==> !before(
            #[trigger] entries[k],
            entries[(at - 1) / 2],
        )
}

/// In an ordered heap nothing leaves before the root.
proof fn lemma_root_first<Pos>(entries: Seq<Candidate<Pos>>, j: int)
    requires
        ordered(entries),
        0 <= j < entries.len(),
    ensures
        !before(entries[j], entries[0]),
    decreases j,
{
    if j > 0 {
        lemma_root_first(entries, (j - 1) / 2);
    }
}

/// Exchanging two elements keeps what the sequence holds.
proof fn lemma_exchange<T>(items: Seq<T>, i: int, j: int)
    requires
        0 <= i < items.len(),
        0 <= j < items.len(),
    ensures
        items.update(i, items[j]).update(j, items[i]).to_multiset() == items.to_multiset(),
{
    broadcast use vstd::multiset::group_multiset_axioms;

    let mid = items.update(i, items[j]);
    let end = mid.update(j, items[i]);
    vstd::seq_lib::to_multiset_update(items, i, items[j]);
    vstd::seq_lib::to_multiset_update(mid, j, items[i]);
    items.to_multiset_ensures();
    assert(items.contains(items[i]));
    assert(items.contains(items[j]));
    assert(mid[j] == items[j]);
    assert(end.to_multiset() =~= items.to_multiset());
}

/// A queue of nodes from which the node that leaves first can be taken.
pub struct MinHeap<F, Pos> {
    items: Vec<Node<F, Pos, AStarT<F>>>,
}

impl<F: Cost, Pos: Copy> MinHeap<F, Pos> {
    /// The nodes in the order of the array.
    pub closed spec fn entries(&self) -> Seq<Candidate<Pos>> {
        Seq::new(self.items@.len(), |i: int| self.items@[i]@)
    }

    /// The nodes that wait in the queue.
    pub closed spec fn view(&self) -> Multiset<Candidate<Pos>> {
        self.entries().to_multiset()
    }

    /// The array is a heap.
    pub closed spec fn valid(&self) -> bool {
        ordered(self.entries())
    }

    pub fn new() -> (heap: Self)
        ensures
            heap.valid(),
            heap@ == Multiset::<Candidate<Pos>>::empty(),
    {
        let heap = Self { items: Vec::new() };
        proof {
            assert(heap.entries() =~= Seq::<Candidate<Pos>>::empty());
            heap.entries().to_multiset_ensures();
            assert(heap@ =~= Multiset::<Candidate<Pos>>::empty());
        }
        heap
    }

    pub fn clear(&mut self)
        ensures
            final(self).valid(),
            final(self)@ == Multiset::<Candidate<Pos>>::empty(),
    {
        self.items.clear();
        proof {
            assert(self.entries() =~= Seq::<Candidate<Pos>>::empty());
            self.entries().to_multiset_ensures();
            assert(self@ =~= Multiset::<Candidate<Pos>>::empty());
        }
    }

    pub fn len(&self) -> (n: usize)
        ensures
            n == self@.len(),
    {
        proof {
            self.entries().to_multiset_ensures();
        }
        self.items.len()
    }

    fn exchange(&mut self, i: usize, j: usize)
        requires
            i < old(self).entries().len(),
            j < old(self).entries().len(),
        ensures
            final(self).entries() == old(self).entries().update(
                i as int,
                old(self).entries()[j as int],
            ).update(j as int, old(self).entries()[i as int]),
            final(self)@ == old(self)@,
            final(self).items@.len() == old(self).items@.len(),
            final(self).items@[i as int] == old(self).items@[j as int],
            final(self).items@[j as int] == old(self).items@[i as int],
    {
        let a = self.items[i];
        let b = self.items[j];
        self.items.set(i, b);
        self.items.set(j, a);
        proof {
            assert(self.entries() =~= old(self).entries().update(
                i as int,
                old(self).entries()[j as int],
            ).update(j as int, old(self).entries()[i as int]));
            lemma_exchange(old(self).entries(), i as int, j as int);
        }
    }

    /// Adds a node to the queue.
    pub fn push(&mut self, node: Node<F, Pos, AStarT<F>>)
        requires
            old(self).valid(),
        ensures
            final(self).valid(),
            final(self)@ == old(self)@.insert(node@),
    {
        self.items.push(node);
        proof {
            assert(self.entries() =~= old(self).entries().push(node@));
            old(self).entries().to_multiset_ensures();
        }
        let mut at: usize = self.items.len() - 1;
        while at > 0
            invariant
                at < self.entries().len(),
                ordered_but_above(self.entries(), at as int),
                self@ == old(self)@.insert(node@),
            ensures
                ordered(self.entries()),
                self@ == old(self)@.insert(node@),
            decreases at,
        {
            let above: usize = (at - 1) / 2;
            if !leaves_before(&self.items[at], &self.items[above]) {
                assert(self.entries()[at as int] == self.items@[at as int]@);
                assert(self.entries()[above as int] == self.items@[above as int]@);
                break ;
            }
            let ghost prev = self.entries();
            self.exchange(at, above);
            proof {
                let now = self.entries();
                assert forall|k: int| 1 <= k < now.len() && k != above implies !before(
                    #[trigger] now[k],
                    now[(k - 1) / 2],
                ) by {
                    if k == at {
                    } else if (k - 1) / 2 == at {
                        assert(!before(prev[k], prev[at as int]));
                    } else if (k - 1) / 2 == above {
                        assert(!before(prev[k], prev[above as int]));
                    } else {
                        assert(!before(prev[k], prev[(k - 1) / 2]));
                    }
                }
                assert forall|k: int|
                    1 <= k < now.len() && (k - 1) / 2 == above && above > 0 implies !before(
                    #[trigger] now[k],
                    now[(above - 1) / 2],
                ) by {
                    assert(!before(prev[above as int], prev[(above - 1) / 2]));
                    if k == at {
                    } else {
                        assert(!before(prev[k], prev[above as int]));
                    }
                }
            }
            at = above;
        }
    }

    /// Takes the node that leaves first, if there is one.
    pub fn pop(&mut self) -> (taken: Option<Node<F, Pos, AStarT<F>>>)
        requires
            old(self).valid(),
        ensures
            final(self).valid(),
            match taken {
                Some(node) => is_first(old(self)@, node@) && final(self)@ == old(self)@.remove(
                    node@,
                ),
                None => old(self)@.len() == 0 && final(self)@ == old(self)@,
            },
    {
        proof {
            old(self).entries().to_multiset_ensures();
        }
        let n = self.items.len();
        if n == 0 {
            return None;
        }
        let ghost before_all = self.entries();
        proof {
            assert forall|other: Candidate<Pos>| self@.count(other) > 0 implies !before(
                other,
                before_all[0],
            ) by {
                assert(before_all.contains(other));
                let j = choose|j: int| 0 <= j < before_all.len() && before_all[j] == other;
                lemma_root_first(before_all, j);
            }
            assert(before_all.contains(before_all[0]));
        }
        self.exchange(0, n - 1);
        let ghost swapped = self.entries();
        let taken = self.items.pop().unwrap();
        proof {
            assert(taken@ == before_all[0]);
            assert(self.entries() =~= swapped.remove(n - 1));
            swapped.to_multiset_ensures();
            assert(self@ == old(self)@.remove(taken@));
        }
        let len = self.items.len();
        let mut at: usize = 0;
        loop
            invariant
                len == self.entries().len(),
                at < len || len == 0,
                ordered_but_below(self.entries(), at as int),
                self@ == old(self)@.remove(taken@),
            ensures
                ordered(self.entries()),
                self@ == old(self)@.remove(taken@),
            decreases len - at,
        {
            if at >= len / 2 {
                break ;
            }
            let left: usize = 2 * at + 1;
            let right: usize = left + 1;
            let mut least: usize = left;
            if right < len && leaves_before(&self.items[right], &self.items[left]) {
                least = right;
            }
            if !leaves_before(&self.items[least], &self.items[at]) {
                break ;
            }
            let ghost prev = self.entries();
            self.exchange(at, least);
            proof {
                let now = self.entries();
                assert forall|k: int|
                    1 <= k < now.len() && (k - 1) / 2 != least implies !before(
                    #[trigger] now[k],
                    now[(k - 1) / 2],
                ) by {
                    if k == least {
                    } else if (k - 1) / 2 == at {
                        assert(k == left || k == right);
                    } else if k == at {
                        assert(!before(prev[least as int], prev[(at - 1) / 2]));
                    } else {
                        assert(!before(prev[k], prev[(k - 1) / 2]));
                    }
                }
                assert forall|k: int|
                    1 <= k < now.len() && (k - 1) / 2 == least && least > 0 implies !before(
                    #[trigger] now[k],
                    now[(least - 1) / 2],
                ) by {
                    assert(!before(prev[k], prev[least as int]));
                }
            }
            at = least;
        }
        Some(taken)
    }
}

} // verus!
