//! The matching core of a limit-order exchange: per-side order books built on an
//! id-indexed binary heap and an id-indexed doubly linked list, and the engine that
//! fills an incoming order against the opposite book.

pub mod ds;
pub mod structs;
pub mod matching;
