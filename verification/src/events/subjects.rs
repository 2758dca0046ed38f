//! NATS subjects used throughout the system.
use vstd::prelude::*;

verus! {

pub const TICK: &'static str = "market.tick";

pub const BAR: &'static str = "market.bar";

pub const SIGNAL: &'static str = "signal";

pub const ORDER_REQUEST: &'static str = "order.request";

pub const ORDER_UPDATE: &'static str = "order.update";

pub const PORTFOLIO_UPDATE: &'static str = "portfolio.update";

pub const NEWS: &'static str = "data.news";

pub const MACRO_DATA: &'static str = "data.macro";

pub const SYSTEM_COMMAND: &'static str = "system.command";

/// Wildcard to subscribe to all market data.
pub const ALL_MARKET: &'static str = "market.>";

/// Wildcard to subscribe to all events.
pub const ALL: &'static str = ">";

} // verus!
