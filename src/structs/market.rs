//! A market: the ask book and the bid book of one instrument.

use vstd::prelude::*;

use super::order::{Order, OrderSide};
use super::order_book::OrderBook;

verus! {

pub struct Market {
    pub id: u64,
    pub ask_book: OrderBook,
    pub bid_book: OrderBook,
}

impl Market {
    /// Integrity: each book is intact and of its own side.
    pub open spec fn wf(&self) -> bool {
        &&& self.ask_book.wf()
        &&& self.ask_book.side == OrderSide::Ask
        &&& self.bid_book.wf()
        &&& self.bid_book.side == OrderSide::Bid
    }

    /// The book of the given side.
    pub open spec fn book(&self, side: OrderSide) -> OrderBook {
        match side {
            OrderSide::Ask => self.ask_book,
            OrderSide::Bid => self.bid_book,
        }
    }

    pub fn new(id: u64) -> (r: Market)
        ensures
            r.wf(),
            r.id == id,
            r.ask_book.limit_orders.contents() == Map::<u64, Order>::empty(),
            r.ask_book.market_orders@ == Seq::<Order>::empty(),
            r.bid_book.limit_orders.contents() == Map::<u64, Order>::empty(),
            r.bid_book.market_orders@ == Seq::<Order>::empty(),
    {
        Market { id: id, ask_book: OrderBook::new(OrderSide::Ask), bid_book: OrderBook::new(OrderSide::Bid) }
    }

    /// Rests an order, without matching, on the book of its side.
    pub fn add_order(&mut self, order: Order)
        requires
            old(self).wf(),
            old(self).book(order.side).accepts(order),
        ensures
            final(self).wf(),
            final(self).id == old(self).id,
            order.side == OrderSide::Ask ==> final(self).bid_book == old(self).bid_book,
            order.side == OrderSide::Bid ==> final(self).ask_book == old(self).ask_book,
            order.kind == super::order::OrderKind::Limit ==> final(self).book(order.side).limit_orders.contents()
                == old(self).book(order.side).limit_orders.contents().insert(order.id, order)
                && final(self).book(order.side).market_orders@ == old(self).book(order.side).market_orders@,
            order.kind == super::order::OrderKind::Market ==> final(self).book(order.side).market_orders@
                == old(self).book(order.side).market_orders@.push(order)
                && final(self).book(order.side).limit_orders.contents() == old(self).book(order.side).limit_orders.contents(),
    {
        match order.side {
            OrderSide::Ask => self.ask_book.add_order(order),
            OrderSide::Bid => self.bid_book.add_order(order),
        }
    }

    /// Takes a resting order off the book of its side, found by its id; does nothing
    /// if that book does not hold it.
    pub fn cancel_order(&mut self, order: Order)
        requires
            old(self).wf(),
        ensures
            final(self).wf(),
            final(self).id == old(self).id,
            order.side == OrderSide::Ask ==> final(self).bid_book == old(self).bid_book,
            order.side == OrderSide::Bid ==> final(self).ask_book == old(self).ask_book,
            final(self).book(order.side).limit_orders.contents() == old(self).book(order.side).limit_orders.contents().remove(order.id),
            !old(self).book(order.side).limit_orders.holds(order.id) ==> final(self).book(order.side).limit_orders.contents()
                == old(self).book(order.side).limit_orders.contents()
                && final(self).book(order.side).limit_orders@.len() == old(self).book(order.side).limit_orders@.len(),
            !old(self).book(order.side).market_orders.holds(order.id) ==> final(self).book(order.side).market_orders@
                == old(self).book(order.side).market_orders@
                && final(self).book(order.side).market_orders.ids() == old(self).book(order.side).market_orders.ids(),
            forall|k: int|
                0 <= k < old(self).book(order.side).market_orders.ids().len()
                    && old(self).book(order.side).market_orders.ids()[k] == order.id
                    ==> final(self).book(order.side).market_orders@ == old(self).book(order.side).market_orders@.remove(k),
    {
        match order.side {
            OrderSide::Ask => self.ask_book.cancel_order(order.id),
            OrderSide::Bid => self.bid_book.cancel_order(order.id),
        }
    }
}

} // verus!
