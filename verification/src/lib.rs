//! The matching core of a limit order book for one venue with many symbols:
//! resting orders sorted by price and time, the match of an incoming order
//! against them, the decisions of the engine and of the per-symbol workers,
//! and the layout under which orders and trades are persisted.

pub mod book;
pub mod cache;
pub mod config;
pub mod consumer;
pub mod engine;
pub mod guarantees;
pub mod handler_match;
pub mod http_server;
pub mod market;
pub mod order;
pub mod price;
pub mod record;
pub mod replay;
pub mod text;
pub mod trader;
pub mod utils;
