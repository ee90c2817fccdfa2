//! A doubly linked list whose nodes are stored by id, with O(1) removal of any node.

use std::collections::HashMap;
use vstd::prelude::*;

use super::WithId;

verus! {

broadcast use vstd::std_specs::hash::group_hash_axioms;

/// One node of a `List`: the ids of its neighbours and the element it holds.
pub struct Node<T> {
    prev: Option<u64>,
    next: Option<u64>,
    data: T,
}

/// The id before position `i` of `ids`, if any.
pub open spec fn id_before(ids: Seq<u64>, i: int) -> Option<u64> {
    if i == 0 {
        None
    } else {
        Some(ids[i - 1])
    }
}

/// The id after position `i` of `ids`, if any.
pub open spec fn id_after(ids: Seq<u64>, i: int) -> Option<u64> {
    if i + 1 == ids.len() {
        None
    } else {
        Some(ids[i + 1])
    }
}

/// The first id of `ids`, if any.
pub open spec fn first_id(ids: Seq<u64>) -> Option<u64> {
    if ids.len() == 0 {
        None
    } else {
        Some(ids[0])
    }
}

/// The last id of `ids`, if any.
pub open spec fn last_id(ids: Seq<u64>) -> Option<u64> {
    if ids.len() == 0 {
        None
    } else {
        Some(ids.last())
    }
}

/// A FIFO list of elements, each stored under its id in a node table, linked both ways.
pub struct List<T: WithId> {
    map: HashMap<u64, Node<T>>,
    head: Option<u64>,
    tail: Option<u64>,
    len: usize,
    ids: Ghost<Seq<u64>>,
}

impl<T: WithId> View for List<T> {
    type V = Seq<T>;

    /// The elements from front to back.
    closed spec fn view(&self) -> Seq<T> {
        self.ids@.map_values(|id: u64| self.map@[id].data)
    }
}

impl<T: WithId> List<T> {
    /// The ids from front to back.
    pub closed spec fn ids(&self) -> Seq<u64> {
        self.ids@
    }

    /// The node table.
    pub closed spec fn nodes(&self) -> Map<u64, Node<T>> {
        self.map@
    }

    /// The id of the front node.
    pub closed spec fn head_link(&self) -> Option<u64> {
        self.head
    }

    /// The id of the back node.
    pub closed spec fn tail_link(&self) -> Option<u64> {
        self.tail
    }

    /// The link to the previous node stored in a node.
    pub closed spec fn prev_link(node: Node<T>) -> Option<u64> {
        node.prev
    }

    /// The link to the next node stored in a node.
    pub closed spec fn next_link(node: Node<T>) -> Option<u64> {
        node.next
    }

    /// The element stored in a node.
    pub closed spec fn node_data(node: Node<T>) -> T {
        node.data
    }

    /// The stored length.
    pub closed spec fn stored_len(&self) -> usize {
        self.len
    }

    /// Integrity: following `next` from the head, or `prev` from the tail, walks the
    /// same chain of distinct ids, which are exactly the ids in the node table; each
    /// node holds an element with its own id, and the stored length is the chain's.
    pub open spec fn wf(&self) -> bool {
        let ids = self.ids();
        let nodes = self.nodes();
        &&& self.stored_len() == ids.len()
        &&& self@.len() == ids.len()
        &&& forall|i: int| 0 <= i < ids.len() ==> #[trigger] self@[i].spec_id() == ids[i]
        &&& ids.no_duplicates()
        &&& forall|id: u64| #[trigger] nodes.contains_key(id) <==> ids.contains(id)
        &&& self.head_link() == first_id(ids)
        &&& self.tail_link() == last_id(ids)
        &&& forall|i: int|
            0 <= i < ids.len() ==> {
                let node = #[trigger] nodes[ids[i]];
                &&& Self::prev_link(node) == id_before(ids, i)
                &&& Self::next_link(node) == id_after(ids, i)
                &&& Self::node_data(node).spec_id() == ids[i]
            }
    }

    /// The ids met by following `next` links from the node `start`, for at most `n`
    /// nodes.
    pub open spec fn walk_forward(nodes: Map<u64, Node<T>>, start: Option<u64>, n: nat) -> Seq<u64>
        decreases n,
    {
        match start {
            Some(id) => if n == 0 {
                Seq::empty()
            } else {
                seq![id] + Self::walk_forward(nodes, Self::next_link(nodes[id]), (n - 1) as nat)
            },
            None => Seq::empty(),
        }
    }

    /// The ids met by following `prev` links from the node `start`, for at most `n`
    /// nodes.
    pub open spec fn walk_backward(nodes: Map<u64, Node<T>>, start: Option<u64>, n: nat) -> Seq<u64>
        decreases n,
    {
        match start {
            Some(id) => if n == 0 {
                Seq::empty()
            } else {
                seq![id] + Self::walk_backward(nodes, Self::prev_link(nodes[id]), (n - 1) as nat)
            },
            None => Seq::empty(),
        }
    }

    proof fn lemma_walk_forward_from(&self, i: int, n: nat)
        requires
            self.wf(),
            0 <= i <= self.ids().len(),
            n >= self.ids().len() - i,
        ensures
            Self::walk_forward(
                self.nodes(),
                if i < self.ids().len() {
                    Some(self.ids()[i])
                } else {
                    None
                },
                n,
            ) == self.ids().skip(i),
        decreases self.ids().len() - i,
    {
        let ids = self.ids();
        if i < ids.len() {
            let _ = self.nodes()[ids[i]];
            self.lemma_walk_forward_from(i + 1, (n - 1) as nat);
            assert(seq![ids[i]] + ids.skip(i + 1) =~= ids.skip(i));
        } else {
            assert(ids.skip(i) =~= Seq::<u64>::empty());
        }
    }

    proof fn lemma_walk_backward_to(&self, j: int, n: nat)
        requires
            self.wf(),
            0 <= j <= self.ids().len(),
            n >= j,
        ensures
            Self::walk_backward(
                self.nodes(),
                if j > 0 {
                    Some(self.ids()[j - 1])
                } else {
                    None
                },
                n,
            ) == self.ids().take(j).reverse(),
        decreases j,
    {
        let ids = self.ids();
        if j > 0 {
            let _ = self.nodes()[ids[j - 1]];
            self.lemma_walk_backward_to(j - 1, (n - 1) as nat);
            assert(seq![ids[j - 1]] + ids.take(j - 1).reverse() =~= ids.take(j).reverse());
        } else {
            assert(ids.take(0).reverse() =~= Seq::<u64>::empty());
        }
    }

    /// In a well-formed list, following `next` links from the head visits exactly the
    /// ids from front to back and then stops, and following `prev` links from the tail
    /// visits the same ids in reverse and then stops; the stored length is the number
    /// of ids visited.
    pub proof fn lemma_traversals(&self)
        requires
            self.wf(),
        ensures
            Self::walk_forward(self.nodes(), self.head_link(), (self.stored_len() + 1) as nat)
                == self.ids(),
            Self::walk_backward(self.nodes(), self.tail_link(), (self.stored_len() + 1) as nat)
                == self.ids().reverse(),
            self.stored_len() == self.ids().len(),
    {
        let ids = self.ids();
        let n = (self.stored_len() + 1) as nat;
        self.lemma_walk_forward_from(0, n);
        assert(ids.skip(0) =~= ids);
        self.lemma_walk_backward_to(ids.len() as int, n);
        assert(ids.take(ids.len() as int) =~= ids);
    }

    /// Whether a node with this id is held.
    pub open spec fn holds(&self, id: u64) -> bool {
        self.ids().contains(id)
    }

    pub fn new() -> (r: List<T>)
        ensures
            r.wf(),
            r@ == Seq::<T>::empty(),
            r.ids() == Seq::<u64>::empty(),
    {
        let r = List {
            map: HashMap::new(),
            head: None,
            tail: None,
            len: 0,
            ids: Ghost(Seq::empty()),
        };
        assert(r@ =~= Seq::<T>::empty());
        r
    }

    pub fn len(&self) -> (r: usize)
        requires
            self.wf(),
        ensures
            r == self@.len(),
            r == self.ids().len(),
    {
        self.len
    }

    /// The element at the front, if any.
    pub fn front(&self) -> (r: Option<&T>)
        requires
            self.wf(),
        ensures
            self@.len() == 0 ==> r is None,
            self@.len() > 0 ==> r == Some(&self@[0]),
    {
        match self.head {
            Some(id) => match self.map.get(&id) {
                Some(node) => Some(&node.data),
                None => None,
            },
            None => None,
        }
    }

    /// Mutable access to the element at the front, if any. The list stays intact when
    /// the caller keeps that element's id.
    pub fn front_mut(&mut self) -> (r: Option<&mut T>)
        requires
            old(self).wf(),
        ensures
            old(self)@.len() == 0 ==> r is None && final(self)@ == old(self)@ && final(self).ids()
                == old(self).ids() && final(self).wf(),
            old(self)@.len() > 0 ==> r is Some && *r->0 == old(self)@[0] && final(self)@ == old(
                self,
            )@.update(0, *final(r->0)) && final(self).ids() == old(self).ids(),
            old(self)@.len() > 0 ==> (final(r->0).spec_id() == old(self)@[0].spec_id()
                ==> final(self).wf()),
    {
        match self.head {
            Some(id) => match self.map.entry(id) {
                std::collections::hash_map::Entry::Occupied(e) => Some(&mut e.into_mut().data),
                std::collections::hash_map::Entry::Vacant(_) => None,
            },
            None => None,
        }
    }

    /// Points the node `id` back at `prev`.
    fn set_prev(&mut self, id: u64, prev: Option<u64>)
        ensures
            final(self).ids == old(self).ids,
            final(self).head == old(self).head,
            final(self).tail == old(self).tail,
            final(self).len == old(self).len,
            old(self).nodes().contains_key(id) ==> final(self).nodes() == old(self).nodes().insert(
                id,
                Node { prev, ..old(self).nodes()[id] },
            ),
            !old(self).nodes().contains_key(id) ==> final(self).nodes() == old(self).nodes(),
    {
        match self.map.remove(&id) {
            Some(node) => {
                self.map.insert(id, Node { prev, next: node.next, data: node.data });
                assert(self.nodes() =~= old(self).nodes().insert(id, Node { prev, ..old(self).nodes()[id] }));
            },
            None => {
                assert(self.nodes() =~= old(self).nodes());
            },
        }
    }

    /// Points the node `id` forward at `next`.
    fn set_next(&mut self, id: u64, next: Option<u64>)
        ensures
            final(self).ids == old(self).ids,
            final(self).head == old(self).head,
            final(self).tail == old(self).tail,
            final(self).len == old(self).len,
            old(self).nodes().contains_key(id) ==> final(self).nodes() == old(self).nodes().insert(
                id,
                Node { next, ..old(self).nodes()[id] },
            ),
            !old(self).nodes().contains_key(id) ==> final(self).nodes() == old(self).nodes(),
    {
        match self.map.remove(&id) {
            Some(node) => {
                self.map.insert(id, Node { prev: node.prev, next, data: node.data });
                assert(self.nodes() =~= old(self).nodes().insert(id, Node { next, ..old(self).nodes()[id] }));
            },
            None => {
                assert(self.nodes() =~= old(self).nodes());
            },
        }
    }

    /// Appends an element at the back.
    pub fn push_back(&mut self, elem: T)
        requires
            old(self).wf(),
            !old(self).holds(elem.spec_id()),
            old(self)@.len() < usize::MAX,
        ensures
            final(self).wf(),
            final(self)@ == old(self)@.push(elem),
            final(self).ids() == old(self).ids().push(elem.spec_id()),
    {
        let id = elem.id();
        let ghost ids0 = self.ids@;
        if self.len == 0 {
            self.map.insert(id, Node { prev: None, next: None, data: elem });
            self.head = Some(id);
            self.tail = Some(id);
        } else {
            let tail_id = match self.tail {
                Some(t) => t,
                None => 0,
            };
            self.set_next(tail_id, Some(id));
            self.map.insert(id, Node { prev: Some(tail_id), next: None, data: elem });
            self.tail = Some(id);
        }
        self.len = self.len + 1;
        self.ids = Ghost(ids0.push(id));
        proof {
            let ids = self.ids();
            let nodes = self.nodes();
            assert forall|i: int| 0 <= i < ids.len() implies {
                let node = #[trigger] nodes[ids[i]];
                &&& Self::prev_link(node) == id_before(ids, i)
                &&& Self::next_link(node) == id_after(ids, i)
                &&& Self::node_data(node).spec_id() == ids[i]
            } by {
                if i < ids0.len() {
                    assert(ids0.contains(ids0[i]));
                }
            }
            assert forall|k: u64| #[trigger] nodes.contains_key(k) <==> ids.contains(k) by {
                if ids0.contains(k) {
                    let j = choose|j: int| 0 <= j < ids0.len() && ids0[j] == k;
                    assert(ids[j] == k);
                }
                if ids.contains(k) && k != id {
                    let j = choose|j: int| 0 <= j < ids.len() && ids[j] == k;
                    assert(ids0[j] == k);
                }
                assert(ids[ids.len() - 1] == id);
            }
            assert(self@ =~= old(self)@.push(elem));
        }
    }

    /// Removes the node with this id, relinking its neighbours; does nothing if no node
    /// has it.
    pub fn remove(&mut self, id: u64)
        requires
            old(self).wf(),
        ensures
            final(self).wf(),
            !old(self).holds(id) ==> final(self)@ == old(self)@ && final(self).ids() == old(
                self,
            ).ids(),
            forall|k: int|
                0 <= k < old(self).ids().len() && old(self).ids()[k] == id ==> final(self)@ == old(
                    self,
                )@.remove(k) && final(self).ids() == old(self).ids().remove(k),
    {
        let ghost ids0 = self.ids@;
        let (prev, next) = match self.map.get(&id) {
            Some(node) => (node.prev, node.next),
            None => {
                return ;
            },
        };
        let ghost k = choose|k: int| 0 <= k < ids0.len() && ids0[k] == id;
        match (prev, next) {
            (None, None) => {
                self.head = None;
                self.tail = None;
            },
            (None, Some(next_id)) => {
                self.head = Some(next_id);
                self.set_prev(next_id, None);
            },
            (Some(prev_id), None) => {
                self.tail = Some(prev_id);
                self.set_next(prev_id, None);
            },
            (Some(prev_id), Some(next_id)) => {
                self.set_next(prev_id, Some(next_id));
                self.set_prev(next_id, Some(prev_id));
            },
        }
        self.len = self.len - 1;
        self.map.remove(&id);
        self.ids = Ghost(ids0.remove(k));
        proof {
            let ids = self.ids();
            let nodes = self.nodes();
            assert forall|i: int| 0 <= i < ids.len() implies {
                let node = #[trigger] nodes[ids[i]];
                &&& Self::prev_link(node) == id_before(ids, i)
                &&& Self::next_link(node) == id_after(ids, i)
                &&& Self::node_data(node).spec_id() == ids[i]
            } by {
                let j = if i < k { i } else { i + 1 };
                assert(ids[i] == ids0[j]);
                let node0 = old(self).nodes()[ids0[j]];
                assert(Self::prev_link(node0) == id_before(ids0, j));
                assert(ids0[j] != id);
                if j > 0 {
                    assert(ids0[j - 1] != ids0[j]);
                }
                if j + 1 < ids0.len() {
                    assert(ids0[j + 1] != ids0[j]);
                }
            }
            assert forall|x: u64| #[trigger] nodes.contains_key(x) <==> ids.contains(x) by {
                if ids0.contains(x) && x != id {
                    let j = choose|j: int| 0 <= j < ids0.len() && ids0[j] == x;
                    if j < k {
                        assert(ids[j] == x);
                    } else {
                        assert(ids[j - 1] == x);
                    }
                }
                if ids.contains(x) {
                    let j = choose|j: int| 0 <= j < ids.len() && ids[j] == x;
                    if j < k {
                        assert(ids0[j] == x);
                    } else {
                        assert(ids0[j + 1] == x);
                    }
                }
            }
            assert(self@ =~= old(self)@.remove(k));
            assert forall|i: int, j: int|
                0 <= i < ids.len() && 0 <= j < ids.len() && i != j implies ids[i] != ids[j] by {
                let i0 = if i < k { i } else { i + 1 };
                let j0 = if j < k { j } else { j + 1 };
                assert(ids[i] == ids0[i0] && ids[j] == ids0[j0]);
            }
        }
    }

    /// Removes the element at the front.
    pub fn pop_front(&mut self)
        requires
            old(self).wf(),
            old(self)@.len() > 0,
        ensures
            final(self).wf(),
            final(self)@ == old(self)@.drop_first(),
            final(self).ids() == old(self).ids().drop_first(),
    {
        let head = match self.head {
            Some(h) => h,
            None => 0,
        };
        self.remove(head);
        assert(old(self)@.remove(0) =~= old(self)@.drop_first());
        assert(old(self).ids().remove(0) =~= old(self).ids().drop_first());
    }
    /// Whether a node with this id is held.
    pub fn contains(&self, id: u64) -> (r: bool)
        requires
            self.wf(),
        ensures
            r == self.holds(id),
    {
        self.map.contains_key(&id)
    }

    /// The id of the front node, if any.
    pub fn head_id(&self) -> (r: Option<u64>)
        ensures
            r == self.head_link(),
    {
        self.head
    }

    /// The id of the back node, if any.
    pub fn tail_id(&self) -> (r: Option<u64>)
        ensures
            r == self.tail_link(),
    {
        self.tail
    }

    /// The id that the node `id` links back to; `None` also when there is no such node.
    pub fn prev_id(&self, id: u64) -> (r: Option<u64>)
        ensures
            self.nodes().contains_key(id) ==> r == Self::prev_link(self.nodes()[id]),
            !self.nodes().contains_key(id) ==> r is None,
    {
        match self.map.get(&id) {
            Some(node) => node.prev,
            None => None,
        }
    }

    /// The id that the node `id` links forward to; `None` also when there is no such node.
    pub fn next_id(&self, id: u64) -> (r: Option<u64>)
        ensures
            self.nodes().contains_key(id) ==> r == Self::next_link(self.nodes()[id]),
            !self.nodes().contains_key(id) ==> r is None,
    {
        match self.map.get(&id) {
            Some(node) => node.next,
            None => None,
        }
    }

    /// The number of nodes in the node table.
    pub fn index_len(&self) -> (r: usize)
        ensures
            r == self.nodes().len(),
    {
        self.map.len()
    }
}

} // verus!
