//! A cross-asset trading engine: signals from market data and news, strategies
//! that turn signals into orders, and the risk rules every order has to pass.
use vstd::prelude::*;

pub mod config;
pub mod decimal;
pub mod engine;
pub mod events;
pub mod execution;
pub mod ingestion;
pub mod number;
pub mod risk;
pub mod signals;
pub mod storage;
pub mod strategy;
pub mod symbol_map;
pub mod text;
pub mod time;
pub mod types;
pub mod window;

verus! {

} // verus!
