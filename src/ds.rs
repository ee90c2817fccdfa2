//! Id-indexed containers: a max-heap and a doubly linked list.

use vstd::prelude::*;

pub mod heap;
pub mod list;

pub use self::heap::Heap;
pub use self::list::{List, Node};

verus! {

/// An element that carries the id it is filed under.
pub trait WithId {
    spec fn spec_id(&self) -> u64;

    fn id(&self) -> (r: u64)
        ensures
            r == self.spec_id(),
    ;
}

/// An element with a place in priority order: the higher its rank, the nearer the top.
pub trait Ranked {
    spec fn rank(&self) -> int;

    /// Whether `self` ranks at least as high as `other`.
    fn ranks_at_least(&self, other: &Self) -> (r: bool)
        ensures
            r == (self.rank() >= other.rank()),
    ;
}

} // verus!
