//! The orders that strategies place, and the prices they reckon with.
use crate::decimal::{decimal_zero, make_decimal};
use crate::number::{decimal_or, functional, value_or, Number};
use crate::text::{copy_text, first_place, lemma_first_place, lemma_first_place_is, same_text};
use crate::time::Timestamp;
use crate::types::{
    Order, OrderSide, OrderStatus, OrderType, OrderView, Position, PositionView, Symbol, Terms,
    TimeInForce,
};
use rust_decimal::Decimal;
use uuid::Uuid;
use vstd::prelude::*;

verus! {

/// Draws a fresh id with `Uuid::new_v4` and writes it out in the hyphenated form. Chance
/// decides which; the claim is only that it has 36 characters.
#[verifier::external_body]
pub(crate) fn draw_id() -> (id: String)
    ensures
        id@.len() == 36,
{
    Uuid::new_v4().to_string()
}

/// The terms of a new market order, good for the day.
pub open spec fn market_terms(
    symbol: Seq<char>,
    side: OrderSide,
    quantity: Decimal,
    strategy_id: Seq<char>,
    now: Timestamp,
) -> Terms {
    Terms {
        symbol,
        side,
        order_type: OrderType::Market,
        quantity,
        limit_price: None,
        stop_price: None,
        time_in_force: TimeInForce::Day,
        status: OrderStatus::Pending,
        filled_qty: decimal_zero(),
        filled_avg_price: None,
        strategy_id,
        created_at: now,
        updated_at: now,
    }
}

/// A new market order under a given id.
pub fn order_with_id(
    id: String,
    symbol: &Symbol,
    side: OrderSide,
    quantity: Decimal,
    strategy_id: &str,
    now: Timestamp,
) -> (r: Order)
    ensures
        r@ == (OrderView {
            id: id@,
            terms: market_terms(symbol@, side, quantity, strategy_id@, now),
        }),
{
    Order {
        id,
        symbol: symbol.copy(),
        side,
        order_type: OrderType::Market,
        quantity,
        limit_price: None,
        stop_price: None,
        time_in_force: TimeInForce::Day,
        status: OrderStatus::Pending,
        filled_qty: make_decimal(0, 0),
        filled_avg_price: None,
        strategy_id: copy_text(strategy_id),
        created_at: now,
        updated_at: now,
    }
}

/// A new market order under an id drawn by chance.
pub fn make_order(
    symbol: &Symbol,
    side: OrderSide,
    quantity: Decimal,
    strategy_id: &str,
    now: Timestamp,
) -> (r: Order)
    ensures
        r@.terms == market_terms(symbol@, side, quantity, strategy_id@, now),
        r@.id.len() == 36,
{
    order_with_id(draw_id(), symbol, side, quantity, strategy_id, now)
}

/// The symbols of positions.
pub open spec fn position_symbols(positions: Seq<PositionView>) -> Seq<Seq<char>> {
    positions.map_values(|p: PositionView| p.symbol)
}

/// The price of the first position in a symbol; `otherwise` where there is no such
/// position or its price has no value.
pub open spec fn position_price<N: Number>(
    positions: Seq<PositionView>,
    symbol: Seq<char>,
    otherwise: N,
) -> N {
    match first_place(position_symbols(positions), symbol) {
        Some(i) => decimal_or(positions[i].current_price, otherwise),
        None => otherwise,
    }
}

/// The price of the first position in a symbol, or `otherwise`.
pub fn price_of<N: Number>(positions: &Vec<Position>, symbol: &str, otherwise: N) -> (r: N)
    requires
        functional::<N>(),
    ensures
        r == position_price(positions@.map_values(|p: Position| p@), symbol@, otherwise),
{
    let ghost views = positions@.map_values(|p: Position| p@);
    let ghost symbols = position_symbols(views);
    let mut i: usize = 0;
    while i < positions.len()
        invariant
            functional::<N>(),
            i <= positions@.len(),
            views == positions@.map_values(|p: Position| p@),
            symbols == position_symbols(views),
            forall|j: int| 0 <= j < i ==> symbols[j] != symbol@,
        decreases positions@.len() - i,
    {
        assert(symbols[i as int] == positions@[i as int].symbol@);
        if same_text(positions[i].symbol.as_str(), symbol) {
            proof {
                lemma_first_place_is(symbols, symbol@, i as int);
            }
            return value_or(positions[i].current_price, otherwise);
        }
        i = i + 1;
    }
    proof {
        lemma_first_place(symbols, symbol@);
    }
    otherwise
}

/// A new order asks for its quantity at the market on its day, and nothing has been done
/// about it: it is pending and nothing is filled.
pub proof fn law_new_orders_wait_at_the_market(
    symbol: Seq<char>,
    side: OrderSide,
    quantity: Decimal,
    strategy_id: Seq<char>,
    now: Timestamp,
)
    ensures
        ({
            let terms = market_terms(symbol, side, quantity, strategy_id, now);
            &&& terms.symbol == symbol && terms.side == side && terms.quantity == quantity
            &&& terms.strategy_id == strategy_id
            &&& terms.order_type == OrderType::Market && terms.time_in_force == TimeInForce::Day
            &&& terms.limit_price is None && terms.stop_price is None
            &&& terms.status == OrderStatus::Pending
            &&& terms.filled_qty == decimal_zero() && terms.filled_avg_price is None
            &&& terms.created_at == now && terms.updated_at == now
        }),
{
}

} // verus!
