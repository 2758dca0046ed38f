//! What every strategy offers.
use crate::number::{functional, Number};
use crate::types::{Order, PortfolioState, SignalValue};
use vstd::prelude::*;

verus! {

/// Every strategy implements this trait. Strategies receive signals and portfolio
/// state, and emit order requests.
pub trait Strategy<N: Number>: Send + Sync {
    /// The name of the strategy, which its orders carry.
    fn name(&self) -> &str;

    /// Reacts to a signal with orders.
    fn on_signal(&mut self, signal: &SignalValue<N>, portfolio: &PortfolioState) -> Vec<Order>
        requires
            functional::<N>(),
    ;

    /// Whether the strategy is switched on.
    fn is_enabled(&self) -> bool;
}

} // verus!
