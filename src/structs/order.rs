//! The traded unit.

use vstd::prelude::*;

use super::Amount;
use crate::ds::{Ranked, WithId};

verus! {

#[derive(Clone, Copy, Debug, PartialEq, Eq, Structural)]
pub enum OrderKind {
    Limit,
    Market,
}

#[derive(Clone, Copy, Debug, PartialEq, Eq, Structural)]
pub enum OrderSide {
    Ask,
    Bid,
}

/// An order: `volume` is the quantity asked for, `filled` how much of it has traded.
#[derive(Debug)]
pub struct Order {
    pub id: u64,
    pub price: Amount,
    pub volume: Amount,
    pub filled: Amount,
    pub kind: OrderKind,
    pub side: OrderSide,
}

/// The quantity of `o` still open.
pub open spec fn open_qty(o: Order) -> int {
    o.volume.units - o.filled.units
}

/// `o` with `q` more of it filled.
pub open spec fn filled_by(o: Order, q: int) -> Order {
    Order { filled: Amount { units: (o.filled.units + q) as u128 }, ..o }
}

/// Priority of a price on a side: asks rank higher the lower their price, bids the
/// higher their price.
pub open spec fn side_rank(side: OrderSide, price: Amount) -> int {
    match side {
        OrderSide::Ask => -price.units,
        OrderSide::Bid => price.units as int,
    }
}

impl Order {
    /// Never more filled than asked for.
    pub open spec fn valid(&self) -> bool {
        self.filled.units <= self.volume.units
    }

    /// A fresh order: nothing filled yet.
    pub fn new(id: u64, price: Amount, volume: Amount, kind: OrderKind, side: OrderSide) -> (r: Order)
        ensures
            r.id == id,
            r.price == price,
            r.volume == volume,
            r.filled.units == 0,
            r.kind == kind,
            r.side == side,
            r.valid(),
    {
        Order { id, price, volume, filled: Amount::zero(), kind, side }
    }

    pub fn is_fulfilled(&self) -> (r: bool)
        ensures
            r == (self.volume.units == self.filled.units),
    {
        self.volume.units == self.filled.units
    }

    pub fn volume_remained(&self) -> (r: Amount)
        requires
            self.valid(),
        ensures
            r.units == open_qty(*self),
    {
        Amount { units: self.volume.units - self.filled.units }
    }
}

impl WithId for Order {
    open spec fn spec_id(&self) -> u64 {
        self.id
    }

    fn id(&self) -> (r: u64) {
        self.id
    }
}

impl Ranked for Order {
    open spec fn rank(&self) -> int {
        side_rank(self.side, self.price)
    }

    fn ranks_at_least(&self, other: &Self) -> (r: bool) {
        match (self.side, other.side) {
            (OrderSide::Bid, OrderSide::Bid) => self.price.units >= other.price.units,
            (OrderSide::Ask, OrderSide::Ask) => self.price.units <= other.price.units,
            (OrderSide::Bid, OrderSide::Ask) => true,
            (OrderSide::Ask, OrderSide::Bid) => self.price.units == 0 && other.price.units == 0,
        }
    }
}

/// Orders compare equal when their prices are equal.
impl PartialEq for Order {
    fn eq(&self, other: &Order) -> (r: bool) {
        self.price.units == other.price.units
    }
}

impl vstd::std_specs::cmp::PartialEqSpecImpl for Order {
    open spec fn obeys_eq_spec() -> bool {
        true
    }

    open spec fn eq_spec(&self, other: &Order) -> bool {
        self.price.units == other.price.units
    }
}

/// The order of price priority on `self`'s side: an ask is greater when its price is
/// lower, a bid when its price is higher.
impl PartialOrd for Order {
    fn partial_cmp(&self, other: &Order) -> (r: Option<std::cmp::Ordering>) {
        let (hi, lo) = match self.side {
            OrderSide::Ask => (other.price.units, self.price.units),
            OrderSide::Bid => (self.price.units, other.price.units),
        };
        if hi < lo {
            Some(std::cmp::Ordering::Less)
        } else if hi == lo {
            Some(std::cmp::Ordering::Equal)
        } else {
            Some(std::cmp::Ordering::Greater)
        }
    }
}

impl vstd::std_specs::cmp::PartialOrdSpecImpl for Order {
    open spec fn obeys_partial_cmp_spec() -> bool {
        true
    }

    open spec fn partial_cmp_spec(&self, other: &Order) -> Option<std::cmp::Ordering> {
        let (hi, lo) = match self.side {
            OrderSide::Ask => (other.price.units, self.price.units),
            OrderSide::Bid => (self.price.units, other.price.units),
        };
        Some(
            if hi < lo {
                std::cmp::Ordering::Less
            } else if hi == lo {
                std::cmp::Ordering::Equal
            } else {
                std::cmp::Ordering::Greater
            },
        )
    }
}

} // verus!
