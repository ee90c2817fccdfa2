//! The resting orders of one side of a market.

use std::cmp::Ordering;
use vstd::prelude::*;

use super::order::{Order, OrderKind, OrderSide};
use crate::ds::{Heap, List};

verus! {

/// The outcome of comparing an incoming price with a resting one that lets a trade
/// happen on a book of this side (besides equal prices, which always do).
pub open spec fn requirement_of(side: OrderSide) -> Ordering {
    match side {
        OrderSide::Ask => Ordering::Greater,
        OrderSide::Bid => Ordering::Less,
    }
}

/// One side of a market: its limit orders by price priority, its market orders in
/// arrival order.
pub struct OrderBook {
    pub side: OrderSide,
    pub price_requirement: Ordering,
    pub limit_orders: Heap<Order>,
    pub market_orders: List<Order>,
}

impl OrderBook {
    /// Integrity: both structures are intact, the crossing rule is the side's, and
    /// every order held is valid, of this side, and of the kind its structure holds.
    pub open spec fn wf(&self) -> bool {
        &&& self.limit_orders.wf()
        &&& self.market_orders.wf()
        &&& self.price_requirement == requirement_of(self.side)
        &&& forall|id: u64| #[trigger]
            self.limit_orders.contents().contains_key(id) ==> {
                let o = self.limit_orders.contents()[id];
                &&& o.side == self.side
                &&& o.kind == OrderKind::Limit
                &&& o.valid()
            }
        &&& forall|i: int|
            0 <= i < self.market_orders@.len() ==> {
                let o = #[trigger] self.market_orders@[i];
                &&& o.side == self.side
                &&& o.kind == OrderKind::Market
                &&& o.valid()
            }
    }

    /// An empty book for one side.
    pub fn new(side: OrderSide) -> (r: OrderBook)
        ensures
            r.wf(),
            r.side == side,
            r.limit_orders.contents() == Map::<u64, Order>::empty(),
            r.market_orders@ == Seq::<Order>::empty(),
    {
        let price_requirement = match side {
            OrderSide::Ask => Ordering::Greater,
            OrderSide::Bid => Ordering::Less,
        };
        OrderBook {
            side: side,
            price_requirement: price_requirement,
            limit_orders: Heap::new(),
            market_orders: List::new(),
        }
    }

    /// Whether this book can take the order to rest: of this side, valid, its id new to
    /// the structure for its kind, and room in the list for a market order.
    pub open spec fn accepts(&self, order: Order) -> bool {
        &&& order.side == self.side
        &&& order.valid()
        &&& (order.kind == OrderKind::Limit ==> !self.limit_orders.holds(order.id))
        &&& (order.kind == OrderKind::Market ==> !self.market_orders.holds(order.id)
            && self.market_orders@.len() < usize::MAX)
    }

    /// Rests an order: a limit order by price priority, a market order at the back of
    /// the queue.
    pub fn add_order(&mut self, order: Order)
        requires
            old(self).wf(),
            old(self).accepts(order),
        ensures
            final(self).wf(),
            final(self).side == old(self).side,
            order.kind == OrderKind::Limit ==> final(self).limit_orders.contents() == old(
                self,
            ).limit_orders.contents().insert(order.id, order) && final(self).market_orders@ == old(
                self,
            ).market_orders@ && final(self).market_orders.ids() == old(self).market_orders.ids(),
            order.kind == OrderKind::Market ==> final(self).market_orders@ == old(
                self,
            ).market_orders@.push(order) && final(self).market_orders.ids() == old(
                self,
            ).market_orders.ids().push(order.id) && final(self).limit_orders.contents() == old(
                self,
            ).limit_orders.contents(),
    {
        match order.kind {
            OrderKind::Limit => self.limit_orders.push(order),
            OrderKind::Market => self.market_orders.push_back(order),
        }
    }

    /// Takes the order with this id off the book, from whichever structure holds it;
    /// does nothing if none does.
    pub fn cancel_order(&mut self, id: u64)
        requires
            old(self).wf(),
        ensures
            final(self).wf(),
            final(self).side == old(self).side,
            final(self).limit_orders.contents() == old(self).limit_orders.contents().remove(id),
            !old(self).limit_orders.holds(id) ==> final(self).limit_orders.contents() == old(
                self,
            ).limit_orders.contents() && final(self).limit_orders@.len() == old(
                self,
            ).limit_orders@.len(),
            !old(self).market_orders.holds(id) ==> final(self).market_orders@ == old(
                self,
            ).market_orders@ && final(self).market_orders.ids() == old(self).market_orders.ids(),
            forall|k: int|
                0 <= k < old(self).market_orders.ids().len() && old(self).market_orders.ids()[k]
                    == id ==> final(self).market_orders@ == old(self).market_orders@.remove(k)
                    && final(self).market_orders.ids() == old(self).market_orders.ids().remove(k),
    {
        self.limit_orders.remove(id);
        self.market_orders.remove(id);
        proof {
            let s0 = old(self).market_orders@;
            let s1 = self.market_orders@;
            assert forall|i: int| 0 <= i < s1.len() implies {
                let o = #[trigger] s1[i];
                &&& o.side == self.side
                &&& o.kind == OrderKind::Market
                &&& o.valid()
            } by {
                if old(self).market_orders.holds(id) {
                    let k = choose|k: int|
                        0 <= k < old(self).market_orders.ids().len() && old(self).market_orders.ids()[k] == id;
                    assert(s1 == s0.remove(k));
                    s0.remove_ensures(k);
                    if i < k {
                        assert(s1[i] == s0[i]);
                    } else {
                        assert(s1[i] == s0[i + 1]);
                    }
                }
            }
        }
    }
}

} // verus!
