//! The broker's messages: what is sent for an order, and what the replies mean.
use crate::decimal::{
    decimal_or_zero, decimal_text, decimal_zero, make_decimal, parse_decimal, parse_or_zero,
    parsed_decimal, write_decimal,
};
use crate::execution::order_manager::still_open;
use crate::text::{copy_text, same_text};
use crate::time::{utc_now, Timestamp};
use crate::types::{
    maybe_text, Order, OrderSide, OrderStatus, OrderType, OrderView, PortfolioState,
    PortfolioView, Position, PositionSide, PositionView, Symbol, Terms, TimeInForce,
};
use rust_decimal::Decimal;
use vstd::prelude::*;

verus! {

/// The body of a request to place an order.
#[derive(Debug)]
pub struct AlpacaOrderRequest {
    pub symbol: String,
    pub qty: Option<String>,
    pub notional: Option<String>,
    pub side: String,
    pub order_type: String,
    pub time_in_force: String,
    pub limit_price: Option<String>,
    pub stop_price: Option<String>,
}

/// A request as a mathematical value.
pub struct RequestView {
    pub symbol: Seq<char>,
    pub qty: Option<Seq<char>>,
    pub notional: Option<Seq<char>>,
    pub side: Seq<char>,
    pub order_type: Seq<char>,
    pub time_in_force: Seq<char>,
    pub limit_price: Option<Seq<char>>,
    pub stop_price: Option<Seq<char>>,
}

impl View for AlpacaOrderRequest {
    type V = RequestView;

    open spec fn view(&self) -> RequestView {
        RequestView {
            symbol: self.symbol@,
            qty: maybe_text(self.qty),
            notional: maybe_text(self.notional),
            side: self.side@,
            order_type: self.order_type@,
            time_in_force: self.time_in_force@,
            limit_price: maybe_text(self.limit_price),
            stop_price: maybe_text(self.stop_price),
        }
    }
}

/// The parts of the reply to a request that the engine uses.
#[derive(Debug)]
pub struct AlpacaOrderResponse {
    pub id: String,
    pub status: String,
    pub filled_qty: Option<String>,
    pub filled_avg_price: Option<String>,
}

/// A position as the broker reports it.
#[derive(Debug)]
pub struct AlpacaPosition {
    pub symbol: String,
    pub qty: String,
    pub avg_entry_price: String,
    pub current_price: String,
    pub market_value: String,
    pub unrealized_pl: String,
    pub side: String,
}

/// The account as the broker reports it.
#[derive(Debug)]
pub struct AlpacaAccount {
    pub equity: String,
    pub cash: String,
    pub buying_power: String,
}

/// The word for a side.
pub open spec fn side_word(side: OrderSide) -> Seq<char> {
    match side {
        OrderSide::Buy => "buy"@,
        OrderSide::Sell => "sell"@,
    }
}

/// The word for a type of order.
pub open spec fn type_word(order_type: OrderType) -> Seq<char> {
    match order_type {
        OrderType::Market => "market"@,
        OrderType::Limit => "limit"@,
        OrderType::Stop => "stop"@,
        OrderType::StopLimit => "stop_limit"@,
    }
}

/// The word for how long an order is good.
pub open spec fn duration_word(time_in_force: TimeInForce) -> Seq<char> {
    match time_in_force {
        TimeInForce::Day => "day"@,
        TimeInForce::Gtc => "gtc"@,
        TimeInForce::Ioc => "ioc"@,
        TimeInForce::Fok => "fok"@,
    }
}

/// A price that may be there, written out.
pub open spec fn price_text(price: Option<Decimal>) -> Option<Seq<char>> {
    match price {
        Some(p) => Some(decimal_text(p)),
        None => None,
    }
}

/// The request that places an order.
pub open spec fn request_for(terms: Terms) -> RequestView {
    RequestView {
        symbol: terms.symbol,
        qty: Some(decimal_text(terms.quantity)),
        notional: None,
        side: side_word(terms.side),
        order_type: type_word(terms.order_type),
        time_in_force: duration_word(terms.time_in_force),
        limit_price: price_text(terms.limit_price),
        stop_price: price_text(terms.stop_price),
    }
}

/// What a status in a reply means. An unknown one counts as pending.
pub open spec fn status_meant(status: Seq<char>) -> OrderStatus {
    if status == "new"@ || status == "accepted"@ {
        OrderStatus::Submitted
    } else if status == "partially_filled"@ {
        OrderStatus::PartiallyFilled
    } else if status == "filled"@ {
        OrderStatus::Filled
    } else if status == "canceled"@ || status == "cancelled"@ {
        OrderStatus::Cancelled
    } else if status == "rejected"@ {
        OrderStatus::Rejected
    } else if status == "expired"@ {
        OrderStatus::Expired
    } else {
        OrderStatus::Pending
    }
}

/// An amount that may be there and may be readable.
pub open spec fn amount_read(text: Option<String>) -> Option<Decimal> {
    match text {
        Some(t) => parsed_decimal(t@),
        None => None,
    }
}

/// The order after the broker's reply: it has the broker's id, status and fills, and
/// otherwise the terms that were asked for.
pub open spec fn order_after(
    response: AlpacaOrderResponse,
    asked: Terms,
    now: Timestamp,
) -> OrderView {
    OrderView {
        id: response.id@,
        terms: Terms {
            status: status_meant(response.status@),
            filled_qty: match amount_read(response.filled_qty) {
                Some(amount) => amount,
                None => decimal_zero(),
            },
            filled_avg_price: amount_read(response.filled_avg_price),
            updated_at: now,
            ..asked
        },
    }
}

/// The position that a report describes. Every side but `long` counts as short.
pub open spec fn position_meant(p: AlpacaPosition) -> PositionView {
    PositionView {
        symbol: p.symbol@,
        quantity: decimal_or_zero(p.qty@),
        avg_entry_price: decimal_or_zero(p.avg_entry_price@),
        current_price: decimal_or_zero(p.current_price@),
        market_value: decimal_or_zero(p.market_value@),
        unrealized_pnl: decimal_or_zero(p.unrealized_pl@),
        realized_pnl: decimal_zero(),
        side: if p.side@ == "long"@ {
            PositionSide::Long
        } else {
            PositionSide::Short
        },
    }
}

/// The portfolio that an account and its positions describe.
pub open spec fn portfolio_meant(
    account: AlpacaAccount,
    positions: Seq<PositionView>,
    now: Timestamp,
) -> PortfolioView {
    PortfolioView {
        equity: decimal_or_zero(account.equity@),
        cash: decimal_or_zero(account.cash@),
        buying_power: decimal_or_zero(account.buying_power@),
        positions,
        timestamp: now,
    }
}

/// The word for a side.
pub fn side_text(side: OrderSide) -> (r: &'static str)
    ensures
        r@ == side_word(side),
{
    match side {
        OrderSide::Buy => "buy",
        OrderSide::Sell => "sell",
    }
}

/// The word for a type of order.
pub fn type_text(order_type: OrderType) -> (r: &'static str)
    ensures
        r@ == type_word(order_type),
{
    match order_type {
        OrderType::Market => "market",
        OrderType::Limit => "limit",
        OrderType::Stop => "stop",
        OrderType::StopLimit => "stop_limit",
    }
}

/// The word for how long an order is good.
pub fn duration_text(time_in_force: TimeInForce) -> (r: &'static str)
    ensures
        r@ == duration_word(time_in_force),
{
    match time_in_force {
        TimeInForce::Day => "day",
        TimeInForce::Gtc => "gtc",
        TimeInForce::Ioc => "ioc",
        TimeInForce::Fok => "fok",
    }
}

fn write_price(price: Option<Decimal>) -> (r: Option<String>)
    ensures
        maybe_text(r) == price_text(price),
{
    match price {
        Some(p) => Some(write_decimal(p)),
        None => None,
    }
}

/// The request that places an order.
pub fn order_request(order: &Order) -> (r: AlpacaOrderRequest)
    ensures
        r@ == request_for(order@.terms),
{
    AlpacaOrderRequest {
        symbol: copy_text(order.symbol.as_str()),
        qty: Some(write_decimal(order.quantity)),
        notional: None,
        side: copy_text(side_text(order.side)),
        order_type: copy_text(type_text(order.order_type)),
        time_in_force: copy_text(duration_text(order.time_in_force)),
        limit_price: write_price(order.limit_price),
        stop_price: write_price(order.stop_price),
    }
}

/// What a status in a reply means.
pub fn convert_status(status: &str) -> (r: OrderStatus)
    ensures
        r == status_meant(status@),
{
    if same_text(status, "new") || same_text(status, "accepted") {
        OrderStatus::Submitted
    } else if same_text(status, "partially_filled") {
        OrderStatus::PartiallyFilled
    } else if same_text(status, "filled") {
        OrderStatus::Filled
    } else if same_text(status, "canceled") || same_text(status, "cancelled") {
        OrderStatus::Cancelled
    } else if same_text(status, "rejected") {
        OrderStatus::Rejected
    } else if same_text(status, "expired") {
        OrderStatus::Expired
    } else {
        OrderStatus::Pending
    }
}

fn read_amount(text: &Option<String>) -> (r: Option<Decimal>)
    ensures
        r == amount_read(*text),
{
    match text {
        Some(t) => parse_decimal(t.as_str()),
        None => None,
    }
}

/// The order after the broker's reply, at a given time.
pub fn convert_order_response_at(
    resp: AlpacaOrderResponse,
    asked: &Order,
    now: Timestamp,
) -> (r: Order)
    ensures
        r@ == order_after(resp, asked@.terms, now),
{
    let filled_qty = match read_amount(&resp.filled_qty) {
        Some(amount) => amount,
        None => make_decimal(0, 0),
    };
    let filled_avg_price = read_amount(&resp.filled_avg_price);
    let status = convert_status(resp.status.as_str());
    Order {
        id: resp.id,
        symbol: asked.symbol.copy(),
        side: asked.side,
        order_type: asked.order_type,
        quantity: asked.quantity,
        limit_price: asked.limit_price,
        stop_price: asked.stop_price,
        time_in_force: asked.time_in_force,
        status,
        filled_qty,
        filled_avg_price,
        strategy_id: copy_text(asked.strategy_id.as_str()),
        created_at: asked.created_at,
        updated_at: now,
    }
}

/// The order after the broker's reply.
pub fn convert_order_response(resp: AlpacaOrderResponse, asked: &Order) -> (r: Order)
    ensures
        r@ == order_after(resp, asked@.terms, r.updated_at),
{
    convert_order_response_at(resp, asked, utc_now())
}

/// The position that a report describes.
pub fn convert_position(p: &AlpacaPosition) -> (r: Position)
    ensures
        r@ == position_meant(*p),
{
    let side = if same_text(p.side.as_str(), "long") {
        PositionSide::Long
    } else {
        PositionSide::Short
    };
    Position {
        symbol: Symbol::new(p.symbol.as_str()),
        quantity: parse_or_zero(p.qty.as_str()),
        avg_entry_price: parse_or_zero(p.avg_entry_price.as_str()),
        current_price: parse_or_zero(p.current_price.as_str()),
        market_value: parse_or_zero(p.market_value.as_str()),
        unrealized_pnl: parse_or_zero(p.unrealized_pl.as_str()),
        realized_pnl: make_decimal(0, 0),
        side,
    }
}

/// The positions that reports describe, in order.
pub fn convert_positions(reports: &Vec<AlpacaPosition>) -> (r: Vec<Position>)
    ensures
        r@.map_values(|p: Position| p@) == reports@.map_values(
            |p: AlpacaPosition| position_meant(p),
        ),
{
    let mut positions: Vec<Position> = Vec::new();
    let mut i: usize = 0;
    while i < reports.len()
        invariant
            i <= reports@.len(),
            positions@.len() == i,
            forall|j: int|
                0 <= j < i ==> (#[trigger] positions@[j])@ == position_meant(reports@[j]),
        decreases reports@.len() - i,
    {
        positions.push(convert_position(&reports[i]));
        i = i + 1;
    }
    assert(positions@.map_values(|p: Position| p@) =~= reports@.map_values(
        |p: AlpacaPosition| position_meant(p),
    ));
    positions
}

/// The portfolio that an account and its positions describe, at a given time.
pub fn portfolio_at(account: &AlpacaAccount, positions: Vec<Position>, now: Timestamp) -> (r:
    PortfolioState)
    ensures
        r@ == portfolio_meant(*account, positions@.map_values(|p: Position| p@), now),
{
    PortfolioState {
        equity: parse_or_zero(account.equity.as_str()),
        cash: parse_or_zero(account.cash.as_str()),
        buying_power: parse_or_zero(account.buying_power.as_str()),
        positions,
        timestamp: now,
    }
}

/// The portfolio that an account and its positions describe now. Where the positions
/// could not be had, there are none.
pub fn portfolio_now(account: &AlpacaAccount, positions: Option<Vec<AlpacaPosition>>) -> (r:
    PortfolioState)
    ensures
        r@ == portfolio_meant(
            *account,
            match positions {
                Some(reports) => reports@.map_values(|p: AlpacaPosition| position_meant(p)),
                None => Seq::empty(),
            },
            r.timestamp,
        ),
{
    let held = match positions {
        Some(reports) => convert_positions(&reports),
        None => {
            let none: Vec<Position> = Vec::new();
            assert(none@.map_values(|p: Position| p@) =~= Seq::empty());
            none
        },
    };
    portfolio_at(account, held, utc_now())
}

fn under(base_url: &str, path: &str) -> (r: String)
    ensures
        r@ == base_url@ + path@,
{
    let mut url = copy_text(base_url);
    url.append(path);
    url
}

/// Where the account is asked for.
pub fn account_url(base_url: &str) -> (r: String)
    ensures
        r@ == base_url@ + "/account"@,
{
    under(base_url, "/account")
}

/// Where positions are asked for, and closed.
pub fn positions_url(base_url: &str) -> (r: String)
    ensures
        r@ == base_url@ + "/positions"@,
{
    under(base_url, "/positions")
}

/// Where orders are placed, and all of them cancelled.
pub fn orders_url(base_url: &str) -> (r: String)
    ensures
        r@ == base_url@ + "/orders"@,
{
    under(base_url, "/orders")
}

/// Where one order is cancelled.
pub fn order_url(base_url: &str, order_id: &str) -> (r: String)
    ensures
        r@ == base_url@ + "/orders/"@ + order_id@,
{
    let mut url = under(base_url, "/orders/");
    url.append(order_id);
    url
}

/// The broker's reply changes nothing of what was asked for: symbol, side, type,
/// quantity, prices, duration, strategy and time of creation stay.
pub proof fn law_replies_keep_the_terms(
    response: AlpacaOrderResponse,
    asked: Terms,
    now: Timestamp,
)
    ensures
        ({
            let terms = order_after(response, asked, now).terms;
            &&& terms.symbol == asked.symbol
            &&& terms.side == asked.side
            &&& terms.order_type == asked.order_type
            &&& terms.quantity == asked.quantity
            &&& terms.limit_price == asked.limit_price
            &&& terms.stop_price == asked.stop_price
            &&& terms.time_in_force == asked.time_in_force
            &&& terms.strategy_id == asked.strategy_id
            &&& terms.created_at == asked.created_at
        }),
{
}

/// An order's side, type and duration can be told from its request.
pub proof fn law_requests_tell_orders_apart(a: Terms, b: Terms)
    requires
        request_for(a) == request_for(b),
    ensures
        a.symbol == b.symbol,
        a.side == b.side,
        a.order_type == b.order_type,
        a.time_in_force == b.time_in_force,
        decimal_text(a.quantity) == decimal_text(b.quantity),
        a.limit_price is Some <==> b.limit_price is Some,
        a.stop_price is Some <==> b.stop_price is Some,
{
    reveal_strlit("buy");
    reveal_strlit("sell");
    reveal_strlit("market");
    reveal_strlit("limit");
    reveal_strlit("stop");
    reveal_strlit("stop_limit");
    reveal_strlit("day");
    reveal_strlit("gtc");
    reveal_strlit("ioc");
    reveal_strlit("fok");
    assert("buy"@.len() == 3 && "sell"@.len() == 4);
    assert("market"@.len() == 6 && "limit"@.len() == 5);
    assert("stop"@.len() == 4 && "stop_limit"@.len() == 10);
    assert("day"@[0] == 'd' && "gtc"@[0] == 'g' && "ioc"@[0] == 'i' && "fok"@[0] == 'f');
}

/// An order that the broker reports as filled, cancelled, rejected or expired is done with;
/// any other report leaves it open.
pub proof fn law_reports_close_orders(status: Seq<char>)
    ensures
        still_open(status_meant(status)) <==> status != "filled"@ && status != "canceled"@
            && status != "cancelled"@ && status != "rejected"@ && status != "expired"@,
        status_meant(status) == OrderStatus::Filled <==> status == "filled"@,
        status_meant(status) == OrderStatus::PartiallyFilled <==> status == "partially_filled"@,
        status_meant(status) == OrderStatus::Cancelled <==> status == "canceled"@ || status
            == "cancelled"@,
        status_meant(status) == OrderStatus::Rejected <==> status == "rejected"@,
        status_meant(status) == OrderStatus::Expired <==> status == "expired"@,
        status_meant(status) == OrderStatus::Submitted <==> status == "new"@ || status
            == "accepted"@,
{
    reveal_strlit("new");
    reveal_strlit("accepted");
    reveal_strlit("partially_filled");
    reveal_strlit("filled");
    reveal_strlit("canceled");
    reveal_strlit("cancelled");
    reveal_strlit("rejected");
    reveal_strlit("expired");
    assert("new"@.len() == 3 && "accepted"@.len() == 8 && "partially_filled"@.len() == 16);
    assert("filled"@.len() == 6 && "canceled"@.len() == 8 && "cancelled"@.len() == 9);
    assert("rejected"@.len() == 8 && "expired"@.len() == 7);
    assert("accepted"@[0] == 'a' && "canceled"@[0] == 'c' && "rejected"@[0] == 'r');
}

/// A reply brings the broker's id, and the fills that it tells and that can be read; where
/// it tells none, nothing is filled and there is no price.
pub proof fn law_replies_bring_id_and_fills(
    response: AlpacaOrderResponse,
    asked: Terms,
    now: Timestamp,
)
    ensures
        ({
            let order = order_after(response, asked, now);
            &&& order.id == response.id@
            &&& order.terms.updated_at == now
            &&& response.filled_qty matches Some(text) ==> (parsed_decimal(text@) matches Some(
                amount,
            ) ==> order.terms.filled_qty == amount)
            &&& response.filled_qty is None ==> order.terms.filled_qty == decimal_zero()
            &&& response.filled_avg_price matches Some(text) ==> order.terms.filled_avg_price
                == parsed_decimal(text@)
            &&& response.filled_avg_price is None ==> order.terms.filled_avg_price is None
            &&& response.status@ == "filled"@ ==> order.terms.status == OrderStatus::Filled
        }),
{
    law_reports_close_orders(response.status@);
}

/// What the broker reports of a position and of the account is taken over, each figure in
/// its own place.
pub proof fn law_reports_are_taken_over(
    report: AlpacaPosition,
    account: AlpacaAccount,
    positions: Seq<PositionView>,
    now: Timestamp,
)
    ensures
        ({
            let p = position_meant(report);
            let a = portfolio_meant(account, positions, now);
            &&& p.symbol == report.symbol@
            &&& parsed_decimal(report.qty@) matches Some(x) ==> p.quantity == x
            &&& parsed_decimal(report.avg_entry_price@) matches Some(x) ==> p.avg_entry_price == x
            &&& parsed_decimal(report.current_price@) matches Some(x) ==> p.current_price == x
            &&& parsed_decimal(report.market_value@) matches Some(x) ==> p.market_value == x
            &&& parsed_decimal(report.unrealized_pl@) matches Some(x) ==> p.unrealized_pnl == x
            &&& p.side == PositionSide::Long <==> report.side@ == "long"@
            &&& parsed_decimal(account.equity@) matches Some(x) ==> a.equity == x
            &&& parsed_decimal(account.cash@) matches Some(x) ==> a.cash == x
            &&& parsed_decimal(account.buying_power@) matches Some(x) ==> a.buying_power == x
            &&& a.positions == positions
            &&& a.timestamp == now
        }),
{
}

/// A request asks for what was ordered: the quantity, never an amount of money, on the side,
/// of the type and for as long as the order says, with a price exactly where it has one.
pub proof fn law_requests_ask_for_what_was_ordered(terms: Terms)
    ensures
        ({
            let request = request_for(terms);
            &&& request.symbol == terms.symbol
            &&& request.qty == Some(decimal_text(terms.quantity))
            &&& request.notional is None
            &&& terms.side == OrderSide::Buy ==> request.side == "buy"@
            &&& terms.side == OrderSide::Sell ==> request.side == "sell"@
            &&& terms.order_type == OrderType::Market ==> request.order_type == "market"@
            &&& terms.order_type == OrderType::Limit ==> request.order_type == "limit"@
            &&& terms.order_type == OrderType::Stop ==> request.order_type == "stop"@
            &&& terms.order_type == OrderType::StopLimit ==> request.order_type == "stop_limit"@
            &&& terms.time_in_force == TimeInForce::Day ==> request.time_in_force == "day"@
            &&& terms.time_in_force == TimeInForce::Gtc ==> request.time_in_force == "gtc"@
            &&& terms.time_in_force == TimeInForce::Ioc ==> request.time_in_force == "ioc"@
            &&& terms.time_in_force == TimeInForce::Fok ==> request.time_in_force == "fok"@
            &&& terms.limit_price matches Some(p) ==> request.limit_price == Some(decimal_text(p))
            &&& terms.stop_price matches Some(p) ==> request.stop_price == Some(decimal_text(p))
            &&& terms.limit_price is None ==> request.limit_price is None
            &&& terms.stop_price is None ==> request.stop_price is None
        }),
{
}

} // verus!
