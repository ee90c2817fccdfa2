use orderbook::matching::{consume_limit_orders, consume_market_orders, start_match, subtract_volume};
use orderbook::structs::{Amount, Market, Order, OrderBook, OrderKind, OrderSide};

fn amount(text: &str) -> Amount {
    Amount::parse(text).unwrap()
}

fn order(id: u64, price: &str, volume: &str, kind: OrderKind, side: OrderSide) -> Order {
    Order::new(id, amount(price), amount(volume), kind, side)
}

#[test]
fn test_subtract_volume() {
    let mut order_a = order(1, "1", "2", OrderKind::Limit, OrderSide::Bid);
    let mut order_b = order(2, "1", "3", OrderKind::Limit, OrderSide::Ask);
    let (a_fulfilled, b_fulfilled) = subtract_volume(&mut order_a, &mut order_b);
    assert_eq!(order_a.filled, Amount::new(2, 0));
    assert_eq!(order_b.filled, Amount::new(2, 0));
    assert!(a_fulfilled);
    assert!(!b_fulfilled);
}

#[test]
fn subtract_volume_fills_both_by_the_smaller_remainder() {
    let mut a = order(1, "5", "4", OrderKind::Limit, OrderSide::Bid);
    let mut b = order(2, "5", "10", OrderKind::Limit, OrderSide::Ask);
    a.filled = amount("1.5");
    b.filled = amount("8");
    subtract_volume(&mut a, &mut b);
    assert_eq!(a.filled, amount("3.5"));
    assert_eq!(b.filled, Amount::new(10, 0));
    assert!(b.is_fulfilled());
    assert!(!a.is_fulfilled());
    assert_eq!(a.volume_remained(), Amount::new(5, 1));
}

#[test]
fn test_add_orders() {
    let mut market = Market::new(1);
    start_match(order(1, "1", "1", OrderKind::Limit, OrderSide::Bid), &mut market);
    start_match(order(2, "2", "1", OrderKind::Limit, OrderSide::Bid), &mut market);
    start_match(order(3, "3", "1", OrderKind::Market, OrderSide::Bid), &mut market);
    start_match(order(4, "4", "1", OrderKind::Market, OrderSide::Bid), &mut market);
    assert_eq!(market.bid_book.limit_orders.len(), 2);
    assert_eq!(market.bid_book.market_orders.len(), 2);
}

fn bids_one_to_four() -> Market {
    let mut market = Market::new(1);
    market.add_order(order(1, "1", "1", OrderKind::Limit, OrderSide::Bid));
    market.add_order(order(2, "2", "1", OrderKind::Limit, OrderSide::Bid));
    market.add_order(order(3, "3", "1", OrderKind::Limit, OrderSide::Bid));
    market.add_order(order(4, "4", "1", OrderKind::Limit, OrderSide::Bid));
    market
}

#[test]
fn test_matching_limit_order() {
    let mut market = bids_one_to_four();
    start_match(order(5, "3", "3", OrderKind::Limit, OrderSide::Ask), &mut market);
    assert_eq!(market.ask_book.limit_orders.peek().unwrap().id, 5);
    assert_eq!(market.bid_book.limit_orders.peek().unwrap().id, 2);
    assert_eq!(market.ask_book.limit_orders.peek().unwrap().filled, Amount::new(2, 0));
    assert_eq!(market.bid_book.limit_orders.len(), 2);

    let mut market = bids_one_to_four();
    start_match(order(5, "3", "1", OrderKind::Limit, OrderSide::Ask), &mut market);
    assert_eq!(market.bid_book.limit_orders.peek().unwrap().id, 3);
    assert_eq!(market.ask_book.limit_orders.peek(), None);
    assert_eq!(market.bid_book.limit_orders.len(), 3);
}

#[test]
fn test_matching_market_order() {
    let mut market = Market::new(1);
    for id in 1..=4 {
        market.add_order(order(id, "1", "1", OrderKind::Market, OrderSide::Bid));
    }
    start_match(order(5, "3", "3", OrderKind::Limit, OrderSide::Ask), &mut market);
    assert_eq!(market.bid_book.market_orders.front().unwrap().id, 4);
    assert_eq!(market.bid_book.market_orders.len(), 1);
    assert_eq!(market.ask_book.limit_orders.peek(), None);

    start_match(order(5, "3", "3", OrderKind::Market, OrderSide::Ask), &mut market);
    assert_eq!(market.bid_book.market_orders.front().unwrap().id, 4);
    assert_eq!(market.bid_book.market_orders.len(), 1);
    assert_eq!(market.ask_book.market_orders.front().unwrap().id, 5);
}

#[test]
fn test_matching_limit_order_then_market_other() {
    let mut market = Market::new(1);
    market.add_order(order(1, "1", "1", OrderKind::Limit, OrderSide::Bid));
    market.add_order(order(2, "1", "1", OrderKind::Market, OrderSide::Bid));
    market.add_order(order(3, "3", "1", OrderKind::Limit, OrderSide::Bid));
    market.add_order(order(4, "4", "1", OrderKind::Limit, OrderSide::Bid));
    start_match(order(5, "3", "2.5", OrderKind::Limit, OrderSide::Ask), &mut market);
    assert_eq!(market.bid_book.limit_orders.len(), 1);
    assert_eq!(market.bid_book.market_orders.len(), 1);
    assert_eq!(market.bid_book.limit_orders.peek().unwrap().id, 1);
    assert_eq!(market.bid_book.market_orders.front().unwrap().filled, Amount::new(5, 1));
}

/// An ask at 3 for 3 units against bids at 1, 2, 3 and 4 (one unit each): only the
/// bids at 4 and 3 cross, so two units trade, best price first, and the rest of the
/// ask rests.
#[test]
fn ask_at_three_takes_the_bids_at_four_and_three() {
    let mut market = bids_one_to_four();
    let mut ask = order(5, "3", "3", OrderKind::Limit, OrderSide::Ask);
    consume_limit_orders(&mut ask, &mut market.bid_book);
    assert_eq!(ask.filled, Amount::new(2, 0));
    assert_eq!(market.bid_book.limit_orders.len(), 2);
    assert_eq!(market.bid_book.limit_orders.peek().unwrap().price, Amount::new(2, 0));
    assert_eq!(market.bid_book.limit_orders.peek().unwrap().filled, Amount::zero());
}

/// A large ask at 1 sweeps bids at 4, 3, 2, 1 in that order: each cut off point leaves
/// exactly the lower-priced bids.
#[test]
fn bids_are_consumed_best_price_first() {
    for units in 1..=4u64 {
        let mut market = bids_one_to_four();
        let mut ask = order(9, "1", "1", OrderKind::Limit, OrderSide::Ask);
        ask.volume = Amount::new(units, 0);
        consume_limit_orders(&mut ask, &mut market.bid_book);
        assert!(ask.is_fulfilled());
        let left = market.bid_book.limit_orders.len() as u64;
        assert_eq!(left, 4 - units);
        if left > 0 {
            assert_eq!(market.bid_book.limit_orders.peek().unwrap().price, Amount::new(left, 0));
        }
    }
}

#[test]
fn equal_prices_cross() {
    let mut market = Market::new(1);
    market.add_order(order(1, "2", "1", OrderKind::Limit, OrderSide::Ask));
    start_match(order(2, "2", "1", OrderKind::Limit, OrderSide::Bid), &mut market);
    assert_eq!(market.ask_book.limit_orders.len(), 0);
    assert_eq!(market.bid_book.limit_orders.len(), 0);
}

#[test]
fn bid_below_best_ask_rests() {
    let mut market = Market::new(1);
    market.add_order(order(1, "2", "1", OrderKind::Limit, OrderSide::Ask));
    start_match(order(2, "1.5", "1", OrderKind::Limit, OrderSide::Bid), &mut market);
    assert_eq!(market.ask_book.limit_orders.len(), 1);
    assert_eq!(market.bid_book.limit_orders.peek().unwrap().id, 2);
    assert_eq!(market.bid_book.limit_orders.peek().unwrap().filled, Amount::zero());
}

#[test]
fn asks_are_consumed_lowest_price_first() {
    let mut market = Market::new(1);
    market.add_order(order(1, "5", "1", OrderKind::Limit, OrderSide::Ask));
    market.add_order(order(2, "3", "1", OrderKind::Limit, OrderSide::Ask));
    market.add_order(order(3, "4", "1", OrderKind::Limit, OrderSide::Ask));
    start_match(order(4, "4", "3", OrderKind::Limit, OrderSide::Bid), &mut market);
    assert_eq!(market.ask_book.limit_orders.len(), 1);
    assert_eq!(market.ask_book.limit_orders.peek().unwrap().id, 1);
    let rest = market.bid_book.limit_orders.peek().unwrap();
    assert_eq!(rest.id, 4);
    assert_eq!(rest.filled, Amount::new(2, 0));
}

#[test]
fn zero_volume_order_is_a_no_op() {
    let mut market = bids_one_to_four();
    let mut ask = order(5, "1", "0", OrderKind::Limit, OrderSide::Ask);
    consume_limit_orders(&mut ask, &mut market.bid_book);
    consume_market_orders(&mut ask, &mut market.bid_book);
    assert_eq!(ask.filled, Amount::zero());
    assert_eq!(market.bid_book.limit_orders.len(), 4);
    start_match(ask, &mut market);
    assert_eq!(market.bid_book.limit_orders.len(), 4);
    assert_eq!(market.ask_book.limit_orders.len(), 0);
}

/// Four resting bid market orders, ids 1 to 4, and an ask limit order for three units:
/// the three oldest are used up in arrival order, the fourth stays untouched.
#[test]
fn market_orders_are_consumed_in_arrival_order() {
    let mut book = OrderBook::new(OrderSide::Bid);
    for id in 1..=4 {
        book.add_order(order(id, "1", "1", OrderKind::Market, OrderSide::Bid));
    }
    let mut ask = order(5, "3", "3", OrderKind::Limit, OrderSide::Ask);
    consume_limit_orders(&mut ask, &mut book);
    assert_eq!(ask.filled, Amount::zero());
    consume_market_orders(&mut ask, &mut book);
    assert!(ask.is_fulfilled());
    assert_eq!(book.market_orders.len(), 1);
    assert_eq!(book.market_orders.front().unwrap().id, 4);
    assert_eq!(book.market_orders.front().unwrap().filled, Amount::zero());
}

#[test]
fn partial_fill_of_a_market_order_keeps_it_at_the_front() {
    let mut book = OrderBook::new(OrderSide::Ask);
    book.add_order(order(1, "0", "5", OrderKind::Market, OrderSide::Ask));
    book.add_order(order(2, "0", "5", OrderKind::Market, OrderSide::Ask));
    let mut bid = order(3, "9", "2", OrderKind::Limit, OrderSide::Bid);
    consume_market_orders(&mut bid, &mut book);
    assert!(bid.is_fulfilled());
    assert_eq!(book.market_orders.len(), 2);
    assert_eq!(book.market_orders.front().unwrap().id, 1);
    assert_eq!(book.market_orders.front().unwrap().filled, Amount::new(2, 0));
}
