//! Getting orders to the broker and keeping track of them.
pub mod alpaca_client;
pub mod order_manager;

pub use order_manager::OrderManager;
