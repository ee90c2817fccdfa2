//! Orders, quantities, order books and markets.

pub mod amount;
pub mod order;
pub mod order_book;
pub mod market;

pub use self::amount::Amount;
pub use self::order::{Order, OrderKind, OrderSide};
pub use self::order_book::OrderBook;
pub use self::market::Market;
