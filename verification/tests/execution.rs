//! The book of orders and the broker's messages.
use algoquant::execution::alpaca_client::{
    account_url, convert_order_response, convert_order_response_at, convert_position,
    convert_positions, convert_status, order_request, order_url, orders_url, portfolio_at,
    portfolio_now, positions_url, AlpacaAccount, AlpacaOrderResponse, AlpacaPosition,
};
use algoquant::execution::OrderManager;
use algoquant::time::Timestamp;
use algoquant::types::{
    Order, OrderSide, OrderStatus, OrderType, PositionSide, Symbol, TimeInForce,
};
use rust_decimal::Decimal;

fn at(secs: i64) -> Timestamp {
    Timestamp { secs, nanos: 0 }
}

fn order(id: &str, status: OrderStatus) -> Order {
    Order {
        id: id.to_string(),
        symbol: Symbol::new("SPY"),
        side: OrderSide::Sell,
        order_type: OrderType::StopLimit,
        quantity: Decimal::new(125, 1),
        limit_price: Some(Decimal::new(50025, 2)),
        stop_price: Some(Decimal::from(499)),
        time_in_force: TimeInForce::Gtc,
        status,
        filled_qty: Decimal::ZERO,
        filled_avg_price: None,
        strategy_id: "mean_reversion".to_string(),
        created_at: at(1),
        updated_at: at(2),
    }
}

#[test]
fn what_was_entered_last_is_found() {
    let mut book = OrderManager::new();
    assert!(book.get("a").is_none());
    book.track(order("a", OrderStatus::Submitted));
    book.track(order("b", OrderStatus::Filled));
    book.update(order("a", OrderStatus::PartiallyFilled));
    assert_eq!(book.get("a").unwrap().status, OrderStatus::PartiallyFilled);
    assert_eq!(book.get("b").unwrap().status, OrderStatus::Filled);
    assert!(book.get("c").is_none());
}

#[test]
fn only_orders_that_can_be_filled_are_open() {
    let mut book = OrderManager::new();
    assert_eq!(book.open_order_count(), 0);
    book.track(order("a", OrderStatus::Pending));
    book.track(order("b", OrderStatus::Submitted));
    book.track(order("c", OrderStatus::PartiallyFilled));
    book.track(order("d", OrderStatus::Filled));
    book.track(order("e", OrderStatus::Cancelled));
    book.track(order("f", OrderStatus::Rejected));
    book.track(order("g", OrderStatus::Expired));
    let mut ids = Vec::new();
    for o in book.open_orders() {
        ids.push(o.id);
    }
    assert_eq!(ids, vec!["a", "b", "c"]);
    assert_eq!(book.open_order_count(), 3);
    book.update(order("b", OrderStatus::Filled));
    assert_eq!(book.open_order_count(), 2);
    assert_eq!(book.open_orders().len(), 2);
}

#[test]
fn requests_carry_the_terms_in_words() {
    let r = order_request(&order("x", OrderStatus::Pending));
    assert_eq!(r.symbol, "SPY");
    assert_eq!(r.qty, Some("12.5".to_string()));
    assert_eq!(r.notional, None);
    assert_eq!(r.side, "sell");
    assert_eq!(r.order_type, "stop_limit");
    assert_eq!(r.time_in_force, "gtc");
    assert_eq!(r.limit_price, Some("500.25".to_string()));
    assert_eq!(r.stop_price, Some("499".to_string()));
    let mut market = order("x", OrderStatus::Pending);
    market.side = OrderSide::Buy;
    market.order_type = OrderType::Market;
    market.time_in_force = TimeInForce::Day;
    market.limit_price = None;
    market.stop_price = None;
    let m = order_request(&market);
    assert_eq!(m.side, "buy");
    assert_eq!(m.order_type, "market");
    assert_eq!(m.time_in_force, "day");
    assert_eq!(m.limit_price, None);
    assert_eq!(m.stop_price, None);
    market.order_type = OrderType::Limit;
    market.time_in_force = TimeInForce::Ioc;
    assert_eq!(order_request(&market).order_type, "limit");
    assert_eq!(order_request(&market).time_in_force, "ioc");
    market.order_type = OrderType::Stop;
    market.time_in_force = TimeInForce::Fok;
    assert_eq!(order_request(&market).order_type, "stop");
    assert_eq!(order_request(&market).time_in_force, "fok");
}

#[test]
fn statuses_are_understood() {
    assert_eq!(convert_status("new"), OrderStatus::Submitted);
    assert_eq!(convert_status("accepted"), OrderStatus::Submitted);
    assert_eq!(convert_status("partially_filled"), OrderStatus::PartiallyFilled);
    assert_eq!(convert_status("filled"), OrderStatus::Filled);
    assert_eq!(convert_status("canceled"), OrderStatus::Cancelled);
    assert_eq!(convert_status("cancelled"), OrderStatus::Cancelled);
    assert_eq!(convert_status("rejected"), OrderStatus::Rejected);
    assert_eq!(convert_status("expired"), OrderStatus::Expired);
    assert_eq!(convert_status("pending_new"), OrderStatus::Pending);
    assert_eq!(convert_status("New"), OrderStatus::Pending);
}

fn response(filled: Option<&str>, price: Option<&str>) -> AlpacaOrderResponse {
    AlpacaOrderResponse {
        id: "broker-1".to_string(),
        status: "partially_filled".to_string(),
        filled_qty: filled.map(|s| s.to_string()),
        filled_avg_price: price.map(|s| s.to_string()),
    }
}

#[test]
fn replies_keep_the_terms() {
    let asked = order("mine", OrderStatus::Pending);
    let o = convert_order_response_at(response(Some("3.5"), Some("499.75")), &asked, at(9));
    assert_eq!(o.id, "broker-1");
    assert_eq!(o.status, OrderStatus::PartiallyFilled);
    assert_eq!(o.filled_qty, Decimal::new(35, 1));
    assert_eq!(o.filled_avg_price, Some(Decimal::new(49975, 2)));
    assert_eq!(o.quantity, asked.quantity);
    assert_eq!(o.side, asked.side);
    assert_eq!(o.limit_price, asked.limit_price);
    assert_eq!(o.strategy_id, asked.strategy_id);
    assert_eq!(o.created_at, at(1));
    assert_eq!(o.updated_at, at(9));
    let unread = convert_order_response_at(response(Some("many"), Some("?")), &asked, at(9));
    assert_eq!(unread.filled_qty, Decimal::ZERO);
    assert_eq!(unread.filled_avg_price, None);
    let none = convert_order_response(response(None, None), &asked);
    assert_eq!(none.filled_qty, Decimal::ZERO);
    assert_eq!(none.filled_avg_price, None);
    assert!(none.updated_at.secs > 1_600_000_000);
}

fn report(side: &str) -> AlpacaPosition {
    AlpacaPosition {
        symbol: "BTC/USD".to_string(),
        qty: "0.5".to_string(),
        avg_entry_price: "60000".to_string(),
        current_price: "61000.25".to_string(),
        market_value: "30500.125".to_string(),
        unrealized_pl: "-1".to_string(),
        side: side.to_string(),
    }
}

#[test]
fn positions_are_read() {
    let p = convert_position(&report("long"));
    assert_eq!(p.symbol.as_str(), "BTC/USD");
    assert_eq!(p.quantity, Decimal::new(5, 1));
    assert_eq!(p.avg_entry_price, Decimal::from(60000));
    assert_eq!(p.current_price, Decimal::new(6100025, 2));
    assert_eq!(p.market_value, Decimal::new(30500125, 3));
    assert_eq!(p.unrealized_pnl, Decimal::from(-1));
    assert_eq!(p.realized_pnl, Decimal::ZERO);
    assert_eq!(p.side, PositionSide::Long);
    assert_eq!(convert_position(&report("short")).side, PositionSide::Short);
    assert_eq!(convert_position(&report("LONG")).side, PositionSide::Short);
    let mut broken = report("long");
    broken.qty = "x".to_string();
    assert_eq!(convert_position(&broken).quantity, Decimal::ZERO);
    let two = convert_positions(&vec![report("long"), report("short")]);
    assert_eq!(two.len(), 2);
    assert_eq!(two[1].side, PositionSide::Short);
}

#[test]
fn accounts_are_read() {
    let account = AlpacaAccount {
        equity: "100000.5".to_string(),
        cash: "".to_string(),
        buying_power: "200001".to_string(),
    };
    let p = portfolio_at(&account, convert_positions(&vec![report("long")]), at(7));
    assert_eq!(p.equity, Decimal::new(1000005, 1));
    assert_eq!(p.cash, Decimal::ZERO);
    assert_eq!(p.buying_power, Decimal::from(200001));
    assert_eq!(p.positions.len(), 1);
    assert_eq!(p.timestamp, at(7));
    assert!(portfolio_now(&account, None).positions.is_empty());
    assert_eq!(portfolio_now(&account, Some(vec![report("long")])).positions.len(), 1);
}

#[test]
fn addresses_are_put_together() {
    let base = "https://paper-api.alpaca.markets/v2";
    assert_eq!(account_url(base), "https://paper-api.alpaca.markets/v2/account");
    assert_eq!(positions_url(base), "https://paper-api.alpaca.markets/v2/positions");
    assert_eq!(orders_url(base), "https://paper-api.alpaca.markets/v2/orders");
    assert_eq!(order_url(base, "b-1"), "https://paper-api.alpaca.markets/v2/orders/b-1");
}
