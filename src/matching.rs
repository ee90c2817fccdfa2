//! The matching engine: fills an incoming order against the opposite book, best price
//! first, then rests whatever is left of it on its own side.

use std::cmp::Ordering;
use vstd::prelude::*;

use crate::structs::amount::Amount;
use crate::structs::market::Market;
use crate::structs::order::{filled_by, open_qty, Order, OrderKind, OrderSide};
use crate::structs::order_book::{requirement_of, OrderBook};
use crate::ds::{Ranked, WithId};

verus! {

/// How `price` compares with `resting`.
pub open spec fn price_ordering(price: Amount, resting: Amount) -> Ordering {
    if price.units < resting.units {
        Ordering::Less
    } else if price.units == resting.units {
        Ordering::Equal
    } else {
        Ordering::Greater
    }
}

/// An incoming order at `price` trades with a resting order at `resting` on a book
/// whose crossing rule is `requirement`: the comparison gives the rule, or equality.
pub open spec fn crosses(price: Amount, resting: Amount, requirement: Ordering) -> bool {
    price_ordering(price, resting) == requirement || price_ordering(price, resting) == Ordering::Equal
}

/// Total open quantity of a sequence of orders.
pub open spec fn open_total(s: Seq<Order>) -> int
    decreases s.len(),
{
    if s.len() == 0 {
        0
    } else {
        open_total(s.drop_last()) + open_qty(s.last())
    }
}

/// The quantity an incoming order wanting `want` trades against `touched`, taken in
/// turn.
pub open spec fn traded(want: int, touched: Seq<Order>) -> int {
    if want <= open_total(touched) {
        want
    } else {
        open_total(touched)
    }
}

/// Some order of `s` has this id.
pub open spec fn listed(s: Seq<Order>, id: u64) -> bool {
    exists|i: int| 0 <= i < s.len() && s[i].id == id
}

/// `m` without the orders whose ids `s` lists.
pub open spec fn without(m: Map<u64, Order>, s: Seq<Order>) -> Map<u64, Order> {
    Map::new(|id: u64| m.contains_key(id) && !listed(s, id), |id: u64| m[id])
}

/// The orders of `touched` are orders of `book` as they stand there, with distinct ids.
pub open spec fn drawn_from(book: Map<u64, Order>, touched: Seq<Order>) -> bool {
    &&& forall|i: int|
        0 <= i < touched.len() ==> book.contains_key(#[trigger] touched[i].id) && book[touched[i].id]
            == touched[i]
    &&& forall|i: int, j: int|
        0 <= i < j < touched.len() ==> #[trigger] touched[i].id != #[trigger] touched[j].id
}

/// What is left of the orders `book` after an incoming order wanting `want` traded
/// against `touched` in turn: each order it used up is gone, and the last one, if
/// the incoming order was filled before using it up, carries the extra fill.
pub open spec fn rest_after(book: Map<u64, Order>, touched: Seq<Order>, want: int) -> Map<u64, Order> {
    if touched.len() > 0 && open_total(touched) > want {
        without(book, touched).insert(
            touched.last().id,
            filled_by(touched.last(), want - open_total(touched.drop_last())),
        )
    } else {
        without(book, touched)
    }
}

/// The limit-order pass of a match. `touched` lists, in the order they were met and as
/// they stood before, the resting limit orders that the incoming order `inc0` traded
/// against; `inc1` and `book1` are the incoming order and the resting limit orders
/// after the pass, whose crossing rule is `requirement`.
pub open spec fn limit_pass(
    inc0: Order,
    book0: Map<u64, Order>,
    requirement: Ordering,
    touched: Seq<Order>,
    inc1: Order,
    book1: Map<u64, Order>,
) -> bool {
    let want = open_qty(inc0);
    let n = touched.len();
    &&& drawn_from(book0, touched)
    &&& forall|i: int| 0 <= i < n ==> crosses(inc0.price, #[trigger] touched[i].price, requirement)
    // best price first, and nothing left resting outranks an order that traded
    &&& forall|i: int, j: int|
        0 <= i < j < n ==> #[trigger] touched[i].rank() >= #[trigger] touched[j].rank()
    &&& forall|i: int, id: u64|
        0 <= i < n && book1.contains_key(id) ==> #[trigger] touched[i].rank()
            >= #[trigger] book1[id].rank()
    // it stops once the incoming order is filled ...
    &&& n > 0 ==> open_total(touched.drop_last()) < want
    // ... and not before, unless no resting limit order crosses any more
    &&& traded(want, touched) == want || forall|id: u64| #[trigger]
        book1.contains_key(id) ==> !crosses(inc0.price, book1[id].price, requirement)
    &&& inc1 == filled_by(inc0, traded(want, touched))
    &&& book1 == rest_after(book0, touched, want)
}

/// What is left of the queue `list` after an incoming order wanting `want` traded
/// against its first `k` orders in turn.
pub open spec fn queue_after(list: Seq<Order>, k: int, want: int) -> Seq<Order> {
    if k > 0 && open_total(list.take(k)) > want {
        list.skip(k - 1).update(0, filled_by(list[k - 1], want - open_total(list.take(k - 1))))
    } else {
        list.skip(k)
    }
}

/// The market-order pass of a match: the incoming order `inc0` trades against the first
/// `k` orders of the queue `list0`, in arrival order, until it is filled or the queue
/// runs out; `inc1` and `list1` are the incoming order and the queue after it.
pub open spec fn market_pass(inc0: Order, list0: Seq<Order>, k: int, inc1: Order, list1: Seq<Order>) -> bool {
    let want = open_qty(inc0);
    &&& 0 <= k <= list0.len()
    &&& k > 0 ==> open_total(list0.take(k - 1)) < want
    &&& traded(want, list0.take(k)) == want || k == list0.len()
    &&& inc1 == filled_by(inc0, traded(want, list0.take(k)))
    &&& list1 == queue_after(list0, k, want)
}

/// The side an order trades against.
pub open spec fn opposite(side: OrderSide) -> OrderSide {
    match side {
        OrderSide::Ask => OrderSide::Bid,
        OrderSide::Bid => OrderSide::Ask,
    }
}

/// A whole match of `order` between its own side's book `own0` and the opposite book
/// `counter0`, leaving them as `own1` and `counter1`: the limit-order pass leaves the
/// order as `mid`; a limit order then takes the opposite book's market orders, leaving
/// it as `end` (a market order is `end` already); if `end` is not filled it rests on
/// its own side's book, else that book is untouched.
pub open spec fn book_match(
    order: Order,
    own0: OrderBook,
    counter0: OrderBook,
    touched: Seq<Order>,
    mid: Order,
    k: int,
    end: Order,
    own1: OrderBook,
    counter1: OrderBook,
) -> bool {
    &&& limit_pass(
        order,
        counter0.limit_orders.contents(),
        counter0.price_requirement,
        touched,
        mid,
        counter1.limit_orders.contents(),
    )
    &&& order.kind == OrderKind::Limit ==> market_pass(
        mid,
        counter0.market_orders@,
        k,
        end,
        counter1.market_orders@,
    )
    &&& order.kind == OrderKind::Market ==> end == mid && counter1.market_orders@
        == counter0.market_orders@
    &&& end.volume.units == end.filled.units ==> own1.limit_orders.contents()
        == own0.limit_orders.contents() && own1.market_orders@ == own0.market_orders@
    &&& end.volume.units != end.filled.units && order.kind == OrderKind::Limit
        ==> own1.limit_orders.contents() == own0.limit_orders.contents().insert(end.id, end)
        && own1.market_orders@ == own0.market_orders@
    &&& end.volume.units != end.filled.units && order.kind == OrderKind::Market
        ==> own1.market_orders@ == own0.market_orders@.push(end) && own1.limit_orders.contents()
        == own0.limit_orders.contents()
}

/// A whole match of `order` on market `m0`, leaving market `m1` (see `book_match`).
pub open spec fn match_outcome(
    order: Order,
    m0: Market,
    touched: Seq<Order>,
    mid: Order,
    k: int,
    end: Order,
    m1: Market,
) -> bool {
    book_match(
        order,
        m0.book(order.side),
        m0.book(opposite(order.side)),
        touched,
        mid,
        k,
        end,
        m1.book(order.side),
        m1.book(opposite(order.side)),
    )
}

/// Among orders of one side, a higher-ranked order crosses whenever a lower-ranked one
/// does.
proof fn lemma_crossing_follows_rank(price: Amount, a: Order, b: Order, side: OrderSide)
    requires
        a.side == side,
        b.side == side,
        a.rank() >= b.rank(),
        crosses(price, b.price, requirement_of(side)),
    ensures
        crosses(price, a.price, requirement_of(side)),
{
}

proof fn lemma_without_push(m: Map<u64, Order>, s: Seq<Order>, x: Order)
    ensures
        without(m, s.push(x)) == without(m, s).remove(x.id),
{
    let t = s.push(x);
    assert forall|id: u64| listed(t, id) == (listed(s, id) || x.id == id) by {
        if listed(s, id) {
            let i = choose|i: int| 0 <= i < s.len() && s[i].id == id;
            assert(t[i].id == id);
        }
        if x.id == id {
            assert(t[s.len() as int].id == id);
        }
        if listed(t, id) {
            let i = choose|i: int| 0 <= i < t.len() && t[i].id == id;
            if i < s.len() {
                assert(s[i].id == id);
            }
        }
    }
    assert(without(m, t) =~= without(m, s).remove(x.id));
}

/// Every order a well-formed heap holds ranks no higher than the one at its root.
proof fn lemma_top_ranks_highest(book: OrderBook)
    requires
        book.limit_orders.wf(),
        book.limit_orders@.len() > 0,
    ensures
        book.limit_orders.contents().contains_key(book.limit_orders@[0].id),
        book.limit_orders.contents()[book.limit_orders@[0].id] == book.limit_orders@[0],
        forall|id: u64| #[trigger]
            book.limit_orders.contents().contains_key(id) ==> book.limit_orders@[0].rank()
                >= book.limit_orders.contents()[id].rank(),
{
    let h = book.limit_orders;
    assert forall|id: u64| #[trigger] h.contents().contains_key(id) implies h@[0].rank()
        >= h.contents()[id].rank() by {
        crate::ds::heap::lemma_root_ranks_highest(h@, h.index_map()[id] as int);
    }
    assert(h.index_map().contains_key(h@[0].spec_id()));
}

/// Fills `order` against the book's resting limit orders, best first, for as long as
/// it is not fulfilled and the best of them crosses its price; each resting order that
/// becomes fulfilled leaves the book.
pub fn consume_limit_orders(order: &mut Order, order_book: &mut OrderBook)
    requires
        old(order).valid(),
        old(order_book).wf(),
    ensures
        final(order).valid(),
        final(order_book).wf(),
        final(order_book).side == old(order_book).side,
        final(order_book).price_requirement == old(order_book).price_requirement,
        final(order_book).market_orders == old(order_book).market_orders,
        exists|touched: Seq<Order>|
            #[trigger] limit_pass(
                *old(order),
                old(order_book).limit_orders.contents(),
                old(order_book).price_requirement,
                touched,
                *final(order),
                final(order_book).limit_orders.contents(),
            ),
        forall|lo: u64, hi: u64|
            #![trigger old(order_book).limit_orders.contents()[lo], old(order_book).limit_orders.contents()[hi]]
            old(order_book).limit_orders.contents().contains_key(lo)
                && old(order_book).limit_orders.contents().contains_key(hi)
                && old(order_book).limit_orders.contents()[hi].rank()
                > old(order_book).limit_orders.contents()[lo].rank() && (
            !final(order_book).limit_orders.contents().contains_key(lo)
                || final(order_book).limit_orders.contents()[lo]
                != old(order_book).limit_orders.contents()[lo])
                ==> !final(order_book).limit_orders.contents().contains_key(hi),
        forall|a: u64, b: u64|
            #![trigger final(order_book).limit_orders.contents()[a], final(order_book).limit_orders.contents()[b]]
            final(order_book).limit_orders.contents().contains_key(a)
                && final(order_book).limit_orders.contents().contains_key(b)
                && final(order_book).limit_orders.contents()[a]
                != old(order_book).limit_orders.contents()[a]
                && final(order_book).limit_orders.contents()[b]
                != old(order_book).limit_orders.contents()[b] ==> a == b,
{
    let ghost inc0 = *order;
    let ghost book0 = order_book.limit_orders.contents();
    let ghost want = open_qty(inc0);
    let ghost mut touched: Seq<Order> = Seq::empty();
    let price_requirement = order_book.price_requirement;
    proof {
        assert(without(book0, touched) =~= book0);
        assert(filled_by(inc0, 0) == inc0);
    }
    while !order.is_fulfilled()
        invariant
            order_book.wf(),
            order_book.side == old(order_book).side,
            order_book.price_requirement == price_requirement,
            price_requirement == old(order_book).price_requirement,
            order_book.market_orders == old(order_book).market_orders,
            inc0 == *old(order),
            book0 == old(order_book).limit_orders.contents(),
            want == open_qty(inc0),
            inc0.valid(),
            order.valid(),
            *order == filled_by(inc0, traded(want, touched)),
            drawn_from(book0, touched),
            forall|i: int|
                0 <= i < touched.len() ==> crosses(inc0.price, #[trigger] touched[i].price, price_requirement),
            forall|i: int, j: int|
                0 <= i < j < touched.len() ==> #[trigger] touched[i].rank() >= #[trigger] touched[j].rank(),
            forall|i: int, id: u64|
                0 <= i < touched.len() && order_book.limit_orders.contents().contains_key(id)
                    ==> #[trigger] touched[i].rank() >= #[trigger] order_book.limit_orders.contents()[id].rank(),
            touched.len() > 0 ==> open_total(touched.drop_last()) < want,
            open_total(touched) >= 0,
            order_book.limit_orders.contents() == rest_after(book0, touched, want),
        ensures
            order_book.wf(),
            order_book.side == old(order_book).side,
            order_book.price_requirement == old(order_book).price_requirement,
            order_book.market_orders == old(order_book).market_orders,
            order.valid(),
            limit_pass(inc0, book0, price_requirement, touched, *order, order_book.limit_orders.contents()),
        decreases 2 * order_book.limit_orders@.len() + if order.volume.units == order.filled.units {
            0int
        } else {
            1int
        },
    {
        let ghost h0 = order_book.limit_orders;
        let ghost cur = h0.contents();
        proof {
            if h0@.len() > 0 {
                lemma_top_ranks_highest(*order_book);
            }
            assert(traded(want, touched) < want);
            assert(cur == without(book0, touched));
        }
        let crosses_top = match order_book.limit_orders.peek() {
            Some(top_order) => price_crosses(order.price, top_order.price, price_requirement),
            None => false,
        };
        if !crosses_top {
            proof {
                assert forall|id: u64| #[trigger] cur.contains_key(id) implies !crosses(
                    inc0.price,
                    cur[id].price,
                    price_requirement,
                ) by {
                    if crosses(inc0.price, cur[id].price, price_requirement) {
                        lemma_crossing_follows_rank(inc0.price, h0@[0], cur[id], order_book.side);
                    }
                }
            }
            break;
        }
        let ghost top0 = h0@[0];
        let ghost q = if open_qty(*order) <= open_qty(top0) {
            open_qty(*order)
        } else {
            open_qty(top0)
        };
        match order_book.limit_orders.peek_mut() {
            Some(top_order) => {
                subtract_volume(order, top_order);
            },
            None => {},
        }
        let ghost h1 = order_book.limit_orders;
        proof {
            assert(h1@[0] == filled_by(top0, q));
            assert(open_qty(filled_by(inc0, traded(want, touched))) == want - open_total(touched));
            assert(h1.contents() =~= cur.insert(top0.id, filled_by(top0, q)));
            lemma_without_push(book0, touched, top0);
            let t2 = touched.push(top0);
            assert(t2.drop_last() =~= touched);
            assert(open_total(t2) == open_total(touched) + open_qty(top0));
        }
        let top_done = match order_book.limit_orders.peek() {
            Some(top_order) => top_order.is_fulfilled(),
            None => false,
        };
        if top_done {
            order_book.limit_orders.pop();
        }
        proof {
            let t2 = touched.push(top0);
            let now = order_book.limit_orders.contents();
            assert forall|i: int| 0 <= i < t2.len() implies book0.contains_key(#[trigger] t2[i].id)
                && book0[t2[i].id] == t2[i] by {
                if i < touched.len() {
                    assert(t2[i] == touched[i]);
                }
            }
            assert forall|i: int, j: int| 0 <= i < j < t2.len() implies #[trigger] t2[i].id
                != #[trigger] t2[j].id by {
                if j == touched.len() {
                    assert(listed(touched, t2[i].id));
                } else {
                    assert(touched[i].id != touched[j].id);
                }
            }
            assert(top0.valid());
            if top_done {
                assert(q == open_qty(top0));
                assert(now =~= rest_after(book0, t2, want));
            } else {
                assert(q < open_qty(top0));
                assert(q == want - open_total(touched));
                assert(open_total(t2) > want);
                assert(without(book0, t2) == cur.remove(top0.id));
                assert(now =~= rest_after(book0, t2, want));
            }
            assert(traded(want, t2) == traded(want, touched) + q);
            touched = t2;
        }
    }
    proof {
        assert(limit_pass(inc0, book0, price_requirement, touched, *order, order_book.limit_orders.contents()));
        lemma_price_priority(inc0, book0, price_requirement, touched, *order, order_book.limit_orders.contents());
    }
}

/// Fills `order` against the book's resting market orders in arrival order, for as
/// long as it is not fulfilled and the queue is not empty; each resting order that
/// becomes fulfilled leaves the queue.
pub fn consume_market_orders(order: &mut Order, order_book: &mut OrderBook)
    requires
        old(order).valid(),
        old(order_book).wf(),
    ensures
        final(order).valid(),
        final(order_book).wf(),
        final(order_book).side == old(order_book).side,
        final(order_book).price_requirement == old(order_book).price_requirement,
        final(order_book).limit_orders == old(order_book).limit_orders,
        exists|k: int|
            #[trigger] market_pass(
                *old(order),
                old(order_book).market_orders@,
                k,
                *final(order),
                final(order_book).market_orders@,
            ),
{
    let ghost inc0 = *order;
    let ghost list0 = order_book.market_orders@;
    let ghost want = open_qty(inc0);
    let ghost mut k: int = 0;
    proof {
        assert(list0.take(0) =~= Seq::<Order>::empty());
        assert(list0.skip(0) =~= list0);
        assert(filled_by(inc0, 0) == inc0);
    }
    while !order.is_fulfilled()
        invariant
            order_book.wf(),
            order_book.side == old(order_book).side,
            order_book.price_requirement == old(order_book).price_requirement,
            order_book.limit_orders == old(order_book).limit_orders,
            inc0 == *old(order),
            list0 == old(order_book).market_orders@,
            want == open_qty(inc0),
            inc0.valid(),
            order.valid(),
            0 <= k <= list0.len(),
            k > 0 ==> open_total(list0.take(k - 1)) < want,
            open_total(list0.take(k)) >= 0,
            *order == filled_by(inc0, traded(want, list0.take(k))),
            order_book.market_orders@ == queue_after(list0, k, want),
        ensures
            order_book.wf(),
            order_book.side == old(order_book).side,
            order_book.price_requirement == old(order_book).price_requirement,
            order_book.limit_orders == old(order_book).limit_orders,
            order.valid(),
            market_pass(inc0, list0, k, *order, order_book.market_orders@),
        decreases 2 * order_book.market_orders@.len() + if order.volume.units == order.filled.units {
            0int
        } else {
            1int
        },
    {
        let ghost l0 = order_book.market_orders@;
        proof {
            assert(traded(want, list0.take(k)) < want);
            assert(l0 == list0.skip(k));
            assert(open_qty(*order) == want - open_total(list0.take(k)));
        }
        let ghost front0 = if k < list0.len() {
            list0[k]
        } else {
            inc0
        };
        let ghost q = if open_qty(*order) <= open_qty(front0) {
            open_qty(*order)
        } else {
            open_qty(front0)
        };
        match order_book.market_orders.front_mut() {
            Some(top_order) => {
                subtract_volume(order, top_order);
            },
            None => {
                break;
            },
        }
        proof {
            assert(l0[0] == front0);
            assert(order_book.market_orders@[0] == filled_by(front0, q));
            let t = list0.take(k + 1);
            assert(t.drop_last() =~= list0.take(k));
            assert(open_total(t) == open_total(list0.take(k)) + open_qty(front0));
            assert(front0.valid());
        }
        let top_done = match order_book.market_orders.front() {
            Some(top_order) => top_order.is_fulfilled(),
            None => false,
        };
        if top_done {
            order_book.market_orders.pop_front();
        }
        proof {
            let now = order_book.market_orders@;
            if top_done {
                assert(q == open_qty(front0));
                assert(now =~= list0.skip(k + 1));
            } else {
                assert(q == want - open_total(list0.take(k)));
                assert(now =~= list0.skip(k).update(0, filled_by(list0[k], q)));
            }
            assert(traded(want, list0.take(k + 1)) == traded(want, list0.take(k)) + q);
            k = k + 1;
        }
    }
    proof {
        assert(market_pass(inc0, list0, k, *order, order_book.market_orders@));
    }
}

/// Matches `order` against `counter_book`, then rests what is left of it on `book`.
fn fill_and_rest(order: Order, book: &mut OrderBook, counter_book: &mut OrderBook)
    requires
        old(book).wf(),
        old(counter_book).wf(),
        old(book).accepts(order),
    ensures
        final(book).wf(),
        final(counter_book).wf(),
        final(book).side == old(book).side,
        final(counter_book).side == old(counter_book).side,
        exists|touched: Seq<Order>, mid: Order, k: int, end: Order|
            #[trigger] book_match(
                order,
                *old(book),
                *old(counter_book),
                touched,
                mid,
                k,
                end,
                *final(book),
                *final(counter_book),
            ),
{
    let mut order = order;
    let ghost inc0 = order;
    let ghost c0 = *counter_book;
    consume_limit_orders(&mut order, counter_book);
    let ghost mid = order;
    let ghost c1 = *counter_book;
    let ghost touched = choose|t: Seq<Order>|
        limit_pass(inc0, c0.limit_orders.contents(), c0.price_requirement, t, mid, c1.limit_orders.contents());
    match order.kind {
        OrderKind::Limit => {
            consume_market_orders(&mut order, counter_book);
        },
        OrderKind::Market => {},
    }
    let ghost end = order;
    let ghost k: int = if inc0.kind == OrderKind::Limit {
        choose|k: int| market_pass(mid, c1.market_orders@, k, end, counter_book.market_orders@)
    } else {
        0
    };
    if !order.is_fulfilled() {
        book.add_order(order);
    }
    proof {
        assert(book_match(inc0, *old(book), c0, touched, mid, k, end, *book, *counter_book));
    }
}

/// Matches an incoming order on a market: it trades against the opposite book's limit
/// orders while their prices cross, a limit order then against that book's market
/// orders, and what is left of it rests on its own side's book.
pub fn start_match(order: Order, market: &mut Market)
    requires
        old(market).wf(),
        old(market).book(order.side).accepts(order),
    ensures
        final(market).wf(),
        final(market).id == old(market).id,
        exists|touched: Seq<Order>, mid: Order, k: int, end: Order|
            #[trigger] match_outcome(order, *old(market), touched, mid, k, end, *final(market)),
{
    match order.side {
        OrderSide::Ask => fill_and_rest(order, &mut market.ask_book, &mut market.bid_book),
        OrderSide::Bid => fill_and_rest(order, &mut market.bid_book, &mut market.ask_book),
    }
    proof {
        let m0 = *old(market);
        let m1 = *market;
        let (touched, mid, k, end) = choose|touched: Seq<Order>, mid: Order, k: int, end: Order|
            book_match(
                order,
                m0.book(order.side),
                m0.book(opposite(order.side)),
                touched,
                mid,
                k,
                end,
                m1.book(order.side),
                m1.book(opposite(order.side)),
            );
        assert(match_outcome(order, m0, touched, mid, k, end, m1));
    }
}

/// Price priority of the limit-order pass: if a resting order traded (it left the book
/// or its fill changed), every resting order that ranked strictly higher before the
/// pass has left the book; and at most one order still resting was changed by it.
pub proof fn lemma_price_priority(
    inc0: Order,
    book0: Map<u64, Order>,
    requirement: Ordering,
    touched: Seq<Order>,
    inc1: Order,
    book1: Map<u64, Order>,
)
    requires
        limit_pass(inc0, book0, requirement, touched, inc1, book1),
    ensures
        forall|lo: u64, hi: u64|
            #![trigger book0[lo], book0[hi]]
            book0.contains_key(lo) && book0.contains_key(hi) && book0[hi].rank() > book0[lo].rank()
                && (!book1.contains_key(lo) || book1[lo] != book0[lo]) ==> !book1.contains_key(hi),
        forall|a: u64, b: u64|
            #![trigger book1[a], book1[b]]
            book1.contains_key(a) && book1.contains_key(b) && book1[a] != book0[a] && book1[b]
                != book0[b] ==> a == b,
{
    let want = open_qty(inc0);
    let n = touched.len();
    let rest = without(book0, touched);
    // an order left in the book either is as it was, or is the last one traded with
    assert forall|id: u64| #[trigger] book1.contains_key(id) && book1[id] != book0[id] implies n > 0
        && id == touched.last().id by {
        if !(n > 0 && open_total(touched) > want && id == touched.last().id) {
            assert(rest.contains_key(id));
        }
    }
    assert forall|lo: u64, hi: u64|
        #![trigger book0[lo], book0[hi]]
        book0.contains_key(lo) && book0.contains_key(hi) && book0[hi].rank() > book0[lo].rank()
            && (!book1.contains_key(lo) || book1[lo] != book0[lo]) implies !book1.contains_key(hi) by {
        if book1.contains_key(hi) {
            // `lo` traded, so it is listed in `touched`
            if !listed(touched, lo) {
                assert(rest.contains_key(lo));
                if n > 0 && open_total(touched) > want {
                    assert(touched[n - 1].id == touched.last().id);
                    assert(listed(touched, touched.last().id));
                }
                assert(book1.contains_key(lo) && book1[lo] == book0[lo]);
            }
            let i = choose|i: int| 0 <= i < n && touched[i].id == lo;
            assert(touched[i] == book0[lo]);
            assert(touched[i].rank() >= book1[hi].rank());
            if n > 0 && open_total(touched) > want && hi == touched.last().id {
                assert(book0[touched[n - 1].id] == touched[n - 1]);
            } else {
                assert(rest.contains_key(hi));
            }
            assert(book1[hi].rank() == book0[hi].rank());
        }
    }
}

/// Whether an incoming order at `price` trades with a resting order at `resting`.
fn price_crosses(price: Amount, resting: Amount, requirement: Ordering) -> (r: bool)
    ensures
        r == crosses(price, resting, requirement),
{
    let ordering = if price.units < resting.units {
        Ordering::Less
    } else if price.units == resting.units {
        Ordering::Equal
    } else {
        Ordering::Greater
    };
    match (ordering, requirement) {
        (Ordering::Equal, _) => true,
        (Ordering::Less, Ordering::Less) => true,
        (Ordering::Greater, Ordering::Greater) => true,
        _ => false,
    }
}

/// One trade: both orders fill by the smaller of their open quantities. Returns whether
/// each is then fulfilled.
pub fn subtract_volume(order_a: &mut Order, order_b: &mut Order) -> (r: (bool, bool))
    requires
        old(order_a).valid(),
        old(order_b).valid(),
    ensures
        ({
            let q = if open_qty(*old(order_a)) <= open_qty(*old(order_b)) {
                open_qty(*old(order_a))
            } else {
                open_qty(*old(order_b))
            };
            &&& *final(order_a) == filled_by(*old(order_a), q)
            &&& *final(order_b) == filled_by(*old(order_b), q)
        }),
        final(order_a).valid(),
        final(order_b).valid(),
        r.0 == (final(order_a).volume.units == final(order_a).filled.units),
        r.1 == (final(order_b).volume.units == final(order_b).filled.units),
{
    let remained_a = order_a.volume_remained();
    let remained_b = order_b.volume_remained();
    let min_volume = if remained_a.units <= remained_b.units {
        remained_a
    } else {
        remained_b
    };
    order_a.filled = Amount { units: order_a.filled.units + min_volume.units };
    order_b.filled = Amount { units: order_b.filled.units + min_volume.units };
    (order_a.is_fulfilled(), order_b.is_fulfilled())
}

} // verus!
