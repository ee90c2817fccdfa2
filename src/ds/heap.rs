//! A binary max-heap whose elements can be found, and removed, by id.

use std::collections::HashMap;
use vstd::prelude::*;

use super::{Ranked, WithId};

verus! {

broadcast use vstd::std_specs::hash::group_hash_axioms;

/// Position of the parent of slot `i` in an array-backed binary tree.
pub open spec fn parent_of(i: int) -> int {
    (i - 1) / 2
}

/// Every slot but the root ranks no higher than its parent.
pub open spec fn heap_ordered<T: Ranked>(s: Seq<T>) -> bool {
    forall|i: int| 0 < i < s.len() ==> #[trigger] s[parent_of(i)].rank() >= #[trigger] s[i].rank()
}

/// The heap order holds on every edge but the one from `pos` up to its parent.
pub open spec fn ordered_except_up<T: Ranked>(s: Seq<T>, pos: int) -> bool {
    forall|i: int|
        0 < i < s.len() && i != pos ==> #[trigger] s[parent_of(i)].rank() >= #[trigger] s[i].rank()
}

/// The heap order holds on every edge but those from `pos` down to its children.
pub open spec fn ordered_except_down<T: Ranked>(s: Seq<T>, pos: int) -> bool {
    forall|i: int|
        0 < i < s.len() && parent_of(i) != pos ==> #[trigger] s[parent_of(i)].rank()
            >= #[trigger] s[i].rank()
}

/// The parent of `pos`, if any, ranks at least as high as the children of `pos`.
pub open spec fn bridges_children<T: Ranked>(s: Seq<T>, pos: int) -> bool {
    pos > 0 ==> forall|c: int|
        0 < c < s.len() && parent_of(c) == pos ==> s[parent_of(pos)].rank() >= #[trigger] s[c].rank()
}

/// `m` maps the id of each element of `s` to its position, and holds nothing else.
pub open spec fn indexes<T: WithId>(s: Seq<T>, m: Map<u64, usize>) -> bool {
    &&& forall|i: int|
        0 <= i < s.len() ==> #[trigger] m.contains_key(s[i].spec_id()) && m[s[i].spec_id()] == i
    &&& forall|id: u64|
        #[trigger] m.contains_key(id) ==> m[id] < s.len() && s[m[id] as int].spec_id() == id
}

/// The root of a heap-ordered sequence ranks at least as high as any slot.
pub proof fn lemma_root_ranks_highest<T: Ranked>(s: Seq<T>, i: int)
    requires
        heap_ordered(s),
        0 <= i < s.len(),
    ensures
        s[0].rank() >= s[i].rank(),
    decreases i,
{
    if i > 0 {
        assert(s[parent_of(i)].rank() >= s[i].rank());
        lemma_root_ranks_highest(s, parent_of(i));
    }
}

/// Relies on `slice::swap`: the elements at the two positions trade places.
#[verifier::external_body]
fn swap_slots<T>(v: &mut Vec<T>, a: usize, b: usize)
    requires
        a < old(v)@.len(),
        b < old(v)@.len(),
    ensures
        final(v)@ == old(v)@.update(a as int, old(v)@[b as int]).update(b as int, old(v)@[a as int]),
{
    v.swap(a, b)
}

/// A max-heap stored as an array in heap order, with a map from each element's id
/// to its current position in the array.
pub struct Heap<T: WithId + Ranked> {
    vec: Vec<T>,
    map: HashMap<u64, usize>,
}

impl<T: WithId + Ranked> View for Heap<T> {
    type V = Seq<T>;

    /// The array, in heap order.
    closed spec fn view(&self) -> Seq<T> {
        self.vec@
    }
}

impl<T: WithId + Ranked> Heap<T> {
    /// The id-to-position index.
    pub closed spec fn index_map(&self) -> Map<u64, usize> {
        self.map@
    }

    /// The index matches the array exactly: every element's id leads to its own slot.
    pub open spec fn indexed(&self) -> bool {
        indexes(self@, self.index_map())
    }

    /// Integrity: the array is in max-heap order and the index matches it.
    pub open spec fn wf(&self) -> bool {
        &&& self.indexed()
        &&& heap_ordered(self@)
    }

    /// The elements held, by id.
    pub open spec fn contents(&self) -> Map<u64, T> {
        Map::new(
            |id: u64| self.index_map().contains_key(id),
            |id: u64| self@[self.index_map()[id] as int],
        )
    }

    /// Whether an element with this id is held.
    pub open spec fn holds(&self, id: u64) -> bool {
        self.contents().contains_key(id)
    }

    pub fn new() -> (r: Heap<T>)
        ensures
            r.wf(),
            r@ == Seq::<T>::empty(),
            r.contents() == Map::<u64, T>::empty(),
    {
        let r = Heap { vec: Vec::new(), map: HashMap::new() };
        assert(r.contents() =~= Map::<u64, T>::empty());
        r
    }

    pub fn parent(&self, idx: usize) -> (r: usize)
        requires
            idx > 0,
        ensures
            r == parent_of(idx as int),
    {
        (idx - 1) / 2
    }

    pub fn left(&self, idx: usize) -> (r: usize)
        requires
            2 * idx + 1 <= usize::MAX,
        ensures
            r == 2 * idx + 1,
    {
        2 * idx + 1
    }

    pub fn right(&self, idx: usize) -> (r: usize)
        requires
            2 * idx + 2 <= usize::MAX,
        ensures
            r == 2 * idx + 2,
    {
        2 * idx + 2
    }

    /// Exchanges two slots of the array and moves both ids in the index.
    pub fn swap(&mut self, idx_a: usize, idx_b: usize)
        requires
            old(self).indexed(),
            idx_a < old(self)@.len(),
            idx_b < old(self)@.len(),
        ensures
            final(self).indexed(),
            final(self)@ == old(self)@.update(idx_a as int, old(self)@[idx_b as int]).update(
                idx_b as int,
                old(self)@[idx_a as int],
            ),
            final(self).contents() == old(self).contents(),
    {
        let ghost s = self@;
        let id_a = self.vec[idx_a].id();
        let id_b = self.vec[idx_b].id();
        self.map.insert(id_a, idx_b);
        self.map.insert(id_b, idx_a);
        swap_slots(&mut self.vec, idx_a, idx_b);
        proof {
            let s2 = self@;
            let m2 = self.index_map();
            assert forall|i: int| 0 <= i < s2.len() implies #[trigger] m2.contains_key(
                s2[i].spec_id(),
            ) && m2[s2[i].spec_id()] == i by {
                if i != idx_a && i != idx_b {
                    assert(s2[i] == s[i]);
                }
            }
            assert(self.contents() =~= old(self).contents());
        }
    }

    /// Moves the element at `from` up until its parent ranks at least as high; returns
    /// the slot where it comes to rest.
    pub fn sift_up(&mut self, from: usize) -> (r: usize)
        requires
            old(self).indexed(),
            from < old(self)@.len(),
            ordered_except_up(old(self)@, from as int),
            bridges_children(old(self)@, from as int),
        ensures
            final(self).wf(),
            final(self).contents() == old(self).contents(),
            final(self)@.len() == old(self)@.len(),
            r <= from,
            final(self)@[r as int] == old(self)@[from as int],
    {
        let mut pos = from;
        while pos > 0
            invariant
                self.indexed(),
                pos <= from,
                pos < self@.len(),
                self@.len() == old(self)@.len(),
                self.contents() == old(self).contents(),
                ordered_except_up(self@, pos as int),
                bridges_children(self@, pos as int),
                self@[pos as int] == old(self)@[from as int],
            ensures
                self.indexed(),
                pos <= from,
                pos < self@.len(),
                self@.len() == old(self)@.len(),
                self.contents() == old(self).contents(),
                heap_ordered(self@),
                self@[pos as int] == old(self)@[from as int],
            decreases pos,
        {
            let parent = self.parent(pos);
            if self.vec[parent].ranks_at_least(&self.vec[pos]) {
                break;
            }
            let ghost s = self@;
            self.swap(pos, parent);
            proof {
                let s2 = self@;
                assert forall|i: int| 0 < i < s2.len() && i != parent implies #[trigger] s2[parent_of(
                    i,
                )].rank() >= #[trigger] s2[i].rank() by {
                    if i == pos || parent_of(i) == pos {
                    } else if parent_of(i) == parent as int {
                        assert(s[parent_of(i)].rank() >= s[i].rank());
                    } else if i == parent {
                    } else {
                        assert(s[parent_of(i)].rank() >= s[i].rank());
                    }
                }
                if parent > 0 {
                    assert(s[parent_of(parent as int)].rank() >= s[parent as int].rank());
                    assert forall|c: int|
                        0 < c < s2.len() && parent_of(c) == parent as int implies s2[parent_of(
                        parent as int,
                    )].rank() >= #[trigger] s2[c].rank() by {
                        if c != pos {
                            assert(s[parent_of(c)].rank() >= s[c].rank());
                        }
                    }
                }
            }
            pos = parent;
        }
        pos
    }

    /// Moves the element at `from` down, each time below its higher-ranked child,
    /// until neither child outranks it.
    pub fn sift_down(&mut self, from: usize)
        requires
            old(self).indexed(),
            from < old(self)@.len(),
            ordered_except_down(old(self)@, from as int),
            bridges_children(old(self)@, from as int),
        ensures
            final(self).wf(),
            final(self).contents() == old(self).contents(),
            final(self)@.len() == old(self)@.len(),
    {
        let end = self.vec.len();
        let mut pos = from;
        while end >= 2 && pos <= (end - 2) / 2
            invariant
                self.indexed(),
                end == self@.len(),
                pos < end,
                end == old(self)@.len(),
                self.contents() == old(self).contents(),
                ordered_except_down(self@, pos as int),
                bridges_children(self@, pos as int),
            ensures
                self.indexed(),
                end == old(self)@.len(),
                self.contents() == old(self).contents(),
                heap_ordered(self@),
            decreases end - pos,
        {
            let mut child = 2 * pos + 1;
            let right = child + 1;
            if right < end && self.vec[right].ranks_at_least(&self.vec[child]) {
                child = right;
            }
            if self.vec[pos].ranks_at_least(&self.vec[child]) {
                proof {
                    let s = self@;
                    assert forall|i: int| 0 < i < s.len() implies #[trigger] s[parent_of(i)].rank()
                        >= #[trigger] s[i].rank() by {
                        if parent_of(i) == pos as int {
                            assert(i == 2 * pos + 1 || i == 2 * pos + 2);
                        }
                    }
                }
                break;
            }
            let ghost s = self@;
            self.swap(pos, child);
            proof {
                let s2 = self@;
                let other = if child == 2 * pos + 1 { 2 * pos + 2 } else { 2 * pos + 1 };
                assert forall|i: int|
                    0 < i < s2.len() && parent_of(i) != child as int implies #[trigger] s2[parent_of(
                    i,
                )].rank() >= #[trigger] s2[i].rank() by {
                    if i == child as int {
                    } else if i == other {
                    } else if i == pos as int || parent_of(i) == pos as int {
                    } else {
                        assert(s[parent_of(i)].rank() >= s[i].rank());
                    }
                }
                assert forall|c: int|
                    0 < c < s2.len() && parent_of(c) == child as int implies s2[parent_of(
                    child as int,
                )].rank() >= #[trigger] s2[c].rank() by {
                    assert(s[parent_of(c)].rank() >= s[c].rank());
                }
            }
            pos = child;
        }
    }

    /// Adds an element under its id.
    pub fn push(&mut self, elem: T)
        requires
            old(self).wf(),
            !old(self).holds(elem.spec_id()),
        ensures
            final(self).wf(),
            final(self).contents() == old(self).contents().insert(elem.spec_id(), elem),
            final(self)@.len() == old(self)@.len() + 1,
    {
        let len = self.vec.len();
        let ghost s = self@;
        let ghost m = self.index_map();
        let id = elem.id();
        self.map.insert(id, len);
        self.vec.push(elem);
        proof {
            let s2 = self@;
            let m2 = self.index_map();
            assert(s2 == s.push(elem));
            assert forall|i: int| 0 <= i < s2.len() implies #[trigger] m2.contains_key(
                s2[i].spec_id(),
            ) && m2[s2[i].spec_id()] == i by {
                if i < len {
                    assert(s2[i] == s[i]);
                    assert(m.contains_key(s[i].spec_id()));
                }
            }
            assert forall|k: u64| #[trigger] m2.contains_key(k) implies m2[k] < s2.len()
                && s2[m2[k] as int].spec_id() == k by {
                if k != id {
                    assert(m.contains_key(k));
                }
            }
            assert forall|i: int| 0 < i < s2.len() && i != len implies #[trigger] s2[parent_of(
                i,
            )].rank() >= #[trigger] s2[i].rank() by {
                assert(s[parent_of(i)].rank() >= s[i].rank());
            }
            assert(self.contents() =~= old(self).contents().insert(id, elem));
        }
        self.sift_up(len);
    }

    /// Removes the element with this id; does nothing if no element has it.
    pub fn remove(&mut self, id: u64)
        requires
            old(self).wf(),
        ensures
            final(self).wf(),
            final(self).contents() == old(self).contents().remove(id),
            !old(self).holds(id) ==> final(self)@ == old(self)@ && final(self).index_map() == old(
                self,
            ).index_map(),
            final(self)@.len() == if old(self).holds(id) {
                old(self)@.len() - 1
            } else {
                old(self)@.len() as int
            },
    {
        let idx: usize = match self.map.get(&id) {
            Some(x) => *x,
            None => {
                assert(old(self).contents().remove(id) =~= old(self).contents());
                return ;
            },
        };
        let last_index = self.vec.len() - 1;
        if idx == last_index {
            let ghost s = self@;
            self.vec.pop();
            self.map.remove(&id);
            proof {
                let s2 = self@;
                let m2 = self.index_map();
                assert(s2 == s.drop_last());
                assert forall|i: int| 0 <= i < s2.len() implies #[trigger] m2.contains_key(
                    s2[i].spec_id(),
                ) && m2[s2[i].spec_id()] == i by {
                    assert(s2[i] == s[i]);
                    assert(old(self).index_map().contains_key(s[i].spec_id()));
                }
                assert forall|k: u64| #[trigger] m2.contains_key(k) implies m2[k] < s2.len()
                    && s2[m2[k] as int].spec_id() == k by {
                    assert(old(self).index_map().contains_key(k));
                }
                assert forall|i: int| 0 < i < s2.len() implies #[trigger] s2[parent_of(i)].rank()
                    >= #[trigger] s2[i].rank() by {
                    assert(s[parent_of(i)].rank() >= s[i].rank());
                }
                assert(self.contents() =~= old(self).contents().remove(id));
            }
        } else {
            let ghost s0 = self@;
            self.swap(idx, last_index);
            let ghost s = self@;
            let ghost m = self.index_map();
            self.vec.pop();
            self.map.remove(&id);
            proof {
                let s2 = self@;
                let m2 = self.index_map();
                assert(s2 == s.drop_last());
                assert(s[last_index as int].spec_id() == id);
                assert forall|i: int| 0 <= i < s2.len() implies #[trigger] m2.contains_key(
                    s2[i].spec_id(),
                ) && m2[s2[i].spec_id()] == i by {
                    assert(s2[i] == s[i]);
                    assert(m.contains_key(s[i].spec_id()));
                }
                assert forall|k: u64| #[trigger] m2.contains_key(k) implies m2[k] < s2.len()
                    && s2[m2[k] as int].spec_id() == k by {
                    assert(m.contains_key(k));
                }
                assert(self.contents() =~= old(self).contents().remove(id));
                // every edge away from `idx` is as it was before the swap
                assert forall|i: int|
                    0 < i < s2.len() && i != idx && parent_of(i) != idx as int implies #[trigger] s2[parent_of(
                    i,
                )].rank() >= #[trigger] s2[i].rank() by {
                    assert(s0[parent_of(i)].rank() >= s0[i].rank());
                }
                // the children of `idx` rank no higher than the element removed from it
                assert forall|c: int|
                    0 < c < s2.len() && parent_of(c) == idx as int implies s0[idx as int].rank()
                    >= #[trigger] s2[c].rank() by {
                    assert(s0[parent_of(c)].rank() >= s0[c].rank());
                }
                if idx > 0 {
                    assert(s0[parent_of(idx as int)].rank() >= s0[idx as int].rank());
                }
            }
            if idx > 0 {
                let parent = self.parent(idx);
                if !self.vec[parent].ranks_at_least(&self.vec[idx]) {
                    self.sift_up(idx);
                } else {
                    self.sift_down(idx);
                }
            } else {
                self.sift_down(0);
            }
        }
    }

    /// The highest-ranked element, if any.
    pub fn peek(&self) -> (r: Option<&T>)
        requires
            self.wf(),
        ensures
            self@.len() == 0 ==> r is None,
            self@.len() > 0 ==> r == Some(&self@[0]),
            self@.len() > 0 ==> self.contents().contains_key(self@[0].spec_id())
                && self.contents()[self@[0].spec_id()] == self@[0],
            self@.len() > 0 ==> forall|k: u64| #[trigger]
                self.contents().contains_key(k) ==> self@[0].rank() >= self.contents()[k].rank(),
    {
        proof {
            if self@.len() > 0 {
                assert forall|k: u64| #[trigger]
                    self.contents().contains_key(k) implies self@[0].rank()
                    >= self.contents()[k].rank() by {
                    lemma_root_ranks_highest(self@, self.index_map()[k] as int);
                }
            }
        }
        if self.vec.len() > 0 {
            Some(&self.vec[0])
        } else {
            None
        }
    }

    /// Mutable access to the highest-ranked element, if any. The heap stays intact
    /// when the caller keeps that element's id and rank.
    pub fn peek_mut(&mut self) -> (r: Option<&mut T>)
        requires
            old(self).wf(),
        ensures
            old(self)@.len() == 0 ==> r is None && final(self)@ == old(self)@ && final(self).index_map()
                == old(self).index_map(),
            old(self)@.len() > 0 ==> r is Some && *r->0 == old(self)@[0] && final(self)@ == old(
                self,
            )@.update(0, *final(r->0)) && final(self).index_map() == old(self).index_map(),
            old(self)@.len() > 0 ==> (final(r->0).spec_id() == old(self)@[0].spec_id()
                && final(r->0).rank() == old(self)@[0].rank() ==> final(self).wf()),
    {
        if self.vec.len() > 0 {
            Some(&mut self.vec[0])
        } else {
            None
        }
    }

    /// Removes the highest-ranked element.
    pub fn pop(&mut self)
        requires
            old(self).wf(),
            old(self)@.len() > 0,
        ensures
            final(self).wf(),
            final(self).contents() == old(self).contents().remove(old(self)@[0].spec_id()),
            final(self)@.len() == old(self)@.len() - 1,
    {
        let id = self.vec[0].id();
        self.remove(id)
    }

    pub fn len(&self) -> (r: usize)
        ensures
            r == self@.len(),
    {
        self.vec.len()
    }

    /// The id of the element in slot `idx`.
    pub fn id_at(&self, idx: usize) -> (r: u64)
        requires
            idx < self@.len(),
        ensures
            r == self@[idx as int].spec_id(),
    {
        self.vec[idx].id()
    }

    /// The slot that the index records for this id, if any.
    pub fn index_of(&self, id: u64) -> (r: Option<usize>)
        ensures
            r == (if self.index_map().contains_key(id) {
                Some(self.index_map()[id])
            } else {
                None
            }),
    {
        match self.map.get(&id) {
            Some(x) => Some(*x),
            None => None,
        }
    }

    /// The number of ids in the index.
    pub fn index_len(&self) -> (r: usize)
        ensures
            r == self.index_map().len(),
    {
        self.map.len()
    }
}

} // verus!
