//! Strategies, and the way from a signal to a booked order.
use algoquant::config::{CryptoVolLeadsEquityConfig, MeanReversionConfig, RiskConfig};
use algoquant::engine::{Screened, Step, TradingEngine};
use algoquant::number::fixed::Fixed;
use algoquant::strategy::crypto_vol_equity::CryptoVolLeadsEquity;
use algoquant::strategy::mean_reversion::MeanReversion;
use algoquant::strategy::Strategy;
use algoquant::time::Timestamp;
use algoquant::types::{
    AssetClass, Exchange, Order, OrderSide, OrderStatus, OrderType, PortfolioState, Position,
    PositionSide, SignalValue,
    Symbol, Tick, TimeInForce,
};
use rust_decimal::Decimal;

fn fx(n: i64) -> Fixed {
    Fixed { units: n * 1_000_000 }
}

fn thousandths(n: i64) -> Fixed {
    Fixed { units: n * 1_000 }
}

fn at(secs: i64) -> Timestamp {
    Timestamp { secs, nanos: 0 }
}

fn hedging_config() -> CryptoVolLeadsEquityConfig<Fixed> {
    CryptoVolLeadsEquityConfig {
        enabled: true,
        crypto_symbol: "BTC/USD".to_string(),
        equity_symbols: vec!["SPY".to_string(), "QQQ".to_string(), "SPY".to_string()],
        position_size_pct: thousandths(20),
        vol_spike_threshold: fx(2),
        hold_duration_secs: 3600,
    }
}

fn reversion_config() -> MeanReversionConfig<Fixed> {
    MeanReversionConfig {
        enabled: true,
        symbols: vec!["AAPL".to_string(), "MSFT".to_string()],
        rsi_entry_threshold: fx(30),
        rsi_exit_threshold: fx(60),
        position_size_pct: thousandths(20),
        max_hold_secs: 7200,
    }
}

fn risk_config() -> RiskConfig<Fixed> {
    RiskConfig {
        max_position_pct: thousandths(50),
        max_total_exposure_pct: thousandths(500),
        max_drawdown_pct: thousandths(50),
        max_open_orders: 2,
        min_trade_interval_secs: 60,
        max_order_notional: fx(10000),
        daily_loss_limit_pct: thousandths(20),
    }
}

fn position(symbol: &str, price: i64) -> Position {
    Position {
        symbol: Symbol::new(symbol),
        quantity: Decimal::from(10),
        avg_entry_price: Decimal::from(price),
        current_price: Decimal::from(price),
        market_value: Decimal::from(10 * price),
        unrealized_pnl: Decimal::ZERO,
        realized_pnl: Decimal::ZERO,
        side: PositionSide::Long,
    }
}

fn portfolio(positions: Vec<Position>) -> PortfolioState {
    PortfolioState {
        equity: Decimal::from(100000),
        cash: Decimal::from(100000),
        buying_power: Decimal::from(200000),
        positions,
        timestamp: at(0),
    }
}

fn signal(name: &str, value: Fixed, direction: Fixed, symbols: &[&str], secs: i64) -> SignalValue<Fixed> {
    let mut list = Vec::new();
    for s in symbols {
        list.push(Symbol::new(s));
    }
    SignalValue {
        name: name.to_string(),
        value,
        direction,
        confidence: fx(1),
        symbols: list,
        timestamp: at(secs),
        metadata: vec![],
    }
}

fn risk_off(value: i64, secs: i64) -> SignalValue<Fixed> {
    signal("crypto_vol_leads_equity", fx(value), fx(-1), &["BTC/USD"], secs)
}

fn symbols_of(orders: &Vec<Order>) -> Vec<String> {
    let mut names = Vec::new();
    for o in orders {
        names.push(o.symbol.as_str().to_string());
    }
    names
}

#[test]
fn hedges_are_sold_in_each_configured_symbol_once() {
    let mut s = CryptoVolLeadsEquity::new(hedging_config());
    assert_eq!(s.name(), "crypto_vol_leads_equity");
    let orders = s.on_signal(&risk_off(3, 1000), &portfolio(vec![position("SPY", 500)]));
    assert_eq!(symbols_of(&orders), vec!["SPY", "QQQ"]);
    assert_eq!(s.open_hedges(), 2);
    // 4000 at 500, and 4000 at the price of a hundred for a symbol without position
    assert_eq!(orders[0].quantity, Decimal::from(8));
    assert_eq!(orders[1].quantity, Decimal::from(40));
    for o in &orders {
        assert_eq!(o.side, OrderSide::Sell);
        assert_eq!(o.order_type, OrderType::Market);
        assert_eq!(o.time_in_force, TimeInForce::Day);
        assert_eq!(o.status, OrderStatus::Pending);
        assert_eq!(o.strategy_id, "crypto_vol_leads_equity");
        assert_eq!(o.created_at, at(1000));
        assert_eq!(o.filled_qty, Decimal::ZERO);
    }
    assert_ne!(orders[0].id, orders[1].id);
    assert_eq!(orders[0].id.len(), 36);
    // a second signal opens nothing that is open already
    assert!(s.on_signal(&risk_off(3, 1001), &portfolio(vec![])).is_empty());
}

#[test]
fn hedges_need_a_signal_down_that_reaches_the_threshold() {
    let mut s = CryptoVolLeadsEquity::new(hedging_config());
    let p = portfolio(vec![]);
    let up = signal("crypto_vol_leads_equity", fx(3), fx(1), &["BTC/USD"], 0);
    assert!(s.on_signal(&up, &p).is_empty());
    let level = signal("crypto_vol_leads_equity", fx(3), fx(0), &["BTC/USD"], 0);
    assert!(s.on_signal(&level, &p).is_empty());
    let weak = signal("crypto_vol_leads_equity", thousandths(1999), fx(-1), &["BTC/USD"], 0);
    assert!(s.on_signal(&weak, &p).is_empty());
    let other = signal("news_sentiment", fx(3), fx(-1), &["BTC/USD"], 0);
    assert!(s.on_signal(&other, &p).is_empty());
    assert_eq!(s.on_signal(&risk_off(2, 0), &p).len(), 2);
    let strong_down = signal("crypto_vol_leads_equity", fx(-2), fx(-1), &["BTC/USD"], 0);
    let mut t = CryptoVolLeadsEquity::new(hedging_config());
    assert_eq!(t.on_signal(&strong_down, &p).len(), 2);
}

#[test]
fn hedges_are_bought_back_when_their_time_is_over() {
    let mut s = CryptoVolLeadsEquity::new(hedging_config());
    let p = portfolio(vec![]);
    let sold = s.on_signal(&risk_off(3, 1000), &p);
    assert!(!s.should_exit_hedge(&Symbol::new("SPY"), at(4599)));
    assert!(s.should_exit_hedge(&Symbol::new("SPY"), at(4600)));
    assert!(!s.should_exit_hedge(&Symbol::new("AAPL"), at(9999)));
    let calm = signal("crypto_vol_leads_equity", fx(3), fx(1), &["BTC/USD"], 4599);
    assert!(s.on_signal(&calm, &p).is_empty());
    let late = signal("crypto_vol_leads_equity", fx(3), fx(1), &["BTC/USD"], 4600);
    let bought = s.on_signal(&late, &p);
    assert_eq!(symbols_of(&bought), symbols_of(&sold));
    for (b, o) in bought.iter().zip(sold.iter()) {
        assert_eq!(b.side, OrderSide::Buy);
        assert_eq!(b.quantity, o.quantity);
    }
    assert_eq!(s.open_hedges(), 0);
}

#[test]
fn hedges_that_are_too_dear_or_unpriced_are_left() {
    let mut s = CryptoVolLeadsEquity::new(hedging_config());
    let p = portfolio(vec![position("SPY", 4001), position("QQQ", 0)]);
    assert!(s.on_signal(&risk_off(3, 0), &p).is_empty());
    let exact = portfolio(vec![position("SPY", 4000), position("QQQ", -5)]);
    let orders = s.on_signal(&risk_off(3, 0), &exact);
    assert_eq!(symbols_of(&orders), vec!["SPY"]);
    assert_eq!(orders[0].quantity, Decimal::from(1));
}

#[test]
fn oversold_symbols_are_bought_and_sold_when_they_recover() {
    let mut s = MeanReversion::new(reversion_config());
    assert_eq!(s.name(), "mean_reversion");
    let p = portfolio(vec![position("AAPL", 200), position("TSLA", 100)]);
    let low = signal("rsi_oversold", fx(25), fx(1), &["AAPL", "TSLA", "MSFT", "AAPL"], 100);
    let bought = s.on_signal(&low, &p);
    // TSLA is not configured, MSFT has no price, AAPL is held by then
    assert_eq!(symbols_of(&bought), vec!["AAPL"]);
    assert_eq!(bought[0].side, OrderSide::Buy);
    assert_eq!(bought[0].quantity, Decimal::from(10));
    assert_eq!(bought[0].strategy_id, "mean_reversion");
    assert_eq!(s.open_positions(), 1);
    let high = signal("rsi_overbought", fx(75), fx(-1), &["TSLA", "AAPL"], 200);
    let sold = s.on_signal(&high, &p);
    assert_eq!(symbols_of(&sold), vec!["AAPL"]);
    assert_eq!(sold[0].side, OrderSide::Sell);
    assert_eq!(sold[0].quantity, Decimal::from(10));
    assert_eq!(s.open_positions(), 0);
}

#[test]
fn entries_keep_to_the_entry_threshold() {
    let mut s = MeanReversion::new(reversion_config());
    let p = portfolio(vec![position("AAPL", 200)]);
    let above = signal("rsi_oversold", thousandths(30001), fx(1), &["AAPL"], 0);
    assert!(s.on_signal(&above, &p).is_empty());
    let equal = signal("rsi_oversold", fx(30), fx(1), &["AAPL"], 0);
    assert_eq!(s.on_signal(&equal, &p).len(), 1);
}

#[test]
fn exits_need_an_rsi_above_the_exit_threshold() {
    let mut s = MeanReversion::new(reversion_config());
    let p = portfolio(vec![position("AAPL", 200)]);
    s.on_signal(&signal("rsi_oversold", fx(20), fx(1), &["AAPL"], 0), &p);
    let not_above = signal("rsi_overbought", fx(60), fx(-1), &["AAPL"], 1);
    assert!(s.on_signal(&not_above, &p).is_empty());
    assert_eq!(s.open_positions(), 1);
    let above = signal("rsi_overbought", thousandths(60001), fx(-1), &["AAPL"], 1);
    assert_eq!(s.on_signal(&above, &p).len(), 1);
}

#[test]
fn positions_held_too_long_are_sold_on_any_signal() {
    let mut s = MeanReversion::new(reversion_config());
    let p = portfolio(vec![position("AAPL", 200)]);
    s.on_signal(&signal("rsi_oversold", fx(20), fx(1), &["AAPL"], 0), &p);
    assert!(s.on_signal(&signal("news_sentiment", fx(1), fx(1), &["AAPL"], 7199), &p).is_empty());
    let sold = s.on_signal(&signal("news_sentiment", fx(1), fx(1), &["AAPL"], 7200), &p);
    assert_eq!(symbols_of(&sold), vec!["AAPL"]);
    assert_eq!(sold[0].side, OrderSide::Sell);
    assert_eq!(s.open_positions(), 0);
}

#[test]
fn nothing_is_entered_while_hedges_are_open() {
    let mut s = MeanReversion::new(reversion_config());
    let p = portfolio(vec![position("AAPL", 200)]);
    let low = signal("rsi_oversold", fx(20), fx(1), &["AAPL"], 0);
    s.observe_hedges(1);
    assert!(s.on_signal(&low, &p).is_empty());
    s.observe_hedges(0);
    assert_eq!(s.on_signal(&low, &p).len(), 1);
}

fn engine() -> TradingEngine<Fixed> {
    TradingEngine::new(risk_config(), hedging_config(), reversion_config())
}

#[test]
fn hedges_hold_back_reversions_in_the_engine() {
    let mut e = engine();
    let p = portfolio(vec![position("AAPL", 200), position("SPY", 500), position("QQQ", 400)]);
    e.take_account(&p);
    let low = signal("rsi_oversold", fx(20), fx(1), &["AAPL"], 10);
    assert!(e.propose_hedges(&low, &p).is_empty());
    assert_eq!(e.propose_reversions(&low, &p).len(), 1);
    let mut f = engine();
    assert_eq!(f.propose_hedges(&risk_off(3, 5), &p).len(), 2);
    assert!(f.propose_reversions(&low, &p).is_empty());
}

#[test]
fn strategies_that_are_switched_off_propose_nothing() {
    let mut hedging = hedging_config();
    hedging.enabled = false;
    let mut reversion = reversion_config();
    reversion.enabled = false;
    let mut e = TradingEngine::new(risk_config(), hedging, reversion);
    let p = portfolio(vec![position("AAPL", 200)]);
    assert!(e.propose_hedges(&risk_off(3, 5), &p).is_empty());
    let low = signal("rsi_oversold", fx(20), fx(1), &["AAPL"], 10);
    assert!(e.propose_reversions(&low, &p).is_empty());
}

fn submitted(s: Screened) -> Order {
    match s {
        Screened::Submit(order) => order,
        other => panic!("not submitted: {other:?}"),
    }
}

fn refused(s: Screened) -> String {
    match s {
        Screened::Refuse { reason, .. } => reason,
        other => panic!("not refused: {other:?}"),
    }
}

#[test]
fn orders_are_screened_and_booked() {
    let mut e = engine();
    let p = portfolio(vec![position("SPY", 500), position("QQQ", 400)]);
    e.take_account(&p);
    let mut orders = e.propose_hedges(&risk_off(3, 5), &p);
    let second = orders.pop().unwrap();
    let first = orders.pop().unwrap();
    // 8 shares at 500, 10 shares at 400: both within all limits
    let mut taken = submitted(e.screen_at(first, &p, at(5)));
    assert_eq!(taken.quantity, Decimal::from(8));
    taken.id = "a".to_string();
    taken.status = OrderStatus::Submitted;
    let again = taken.copy();
    e.record_at(taken, at(5));
    assert_eq!(e.open_order_count(), 1);
    assert_eq!(
        refused(e.screen_at(again, &p, at(64))),
        "Trade cooldown: 59s < 60s since last trade on SPY"
    );
    let mut other = submitted(e.screen_at(second, &p, at(6)));
    other.id = "b".to_string();
    let third = other.copy();
    e.record(other);
    assert_eq!(e.open_order_count(), 2);
    assert_eq!(refused(e.screen(third, &p)), "Too many open orders (2 >= 2)");
}

#[test]
fn resized_orders_are_sent_with_the_new_quantity() {
    let mut e = engine();
    let p = portfolio(vec![position("SPY", 500)]);
    e.take_account(&p);
    let mut orders = e.propose_hedges(&risk_off(3, 5), &p);
    orders.pop();
    let mut big = orders.pop().unwrap();
    big.quantity = Decimal::from(15);
    // 7500 is over five percent of 100000, which buys ten
    match e.screen_at(big, &p, at(5)) {
        Screened::Resize { order, asked, reason } => {
            assert_eq!(order.quantity, Decimal::from(10));
            assert_eq!(order.symbol.as_str(), "SPY");
            assert_eq!(asked, Decimal::from(15));
            assert_eq!(reason, "Position 7.5% exceeds max 5%, reduced to 10 shares");
        }
        other => panic!("unexpected {other:?}"),
    }
}

#[test]
fn a_drawdown_halts_the_engine() {
    let mut e = engine();
    let mut p = portfolio(vec![position("SPY", 500)]);
    e.take_account(&p);
    assert!(!e.is_halted());
    let orders = e.propose_hedges(&risk_off(3, 5), &p);
    p.equity = Decimal::from(95000);
    e.watch_account(&p);
    assert!(e.is_halted());
    for o in orders {
        assert_eq!(
            refused(e.screen_at(o, &p, at(5))),
            "Circuit breaker is tripped — trading halted"
        );
    }
    p.equity = Decimal::from(200000);
    e.watch_account(&p);
    assert!(e.is_halted());
}

#[test]
fn settings_change_while_the_engine_runs() {
    let mut e = engine();
    let p = portfolio(vec![position("SPY", 500)]);
    e.take_account(&p);
    assert_eq!(e.propose_hedges(&risk_off(3, 5), &p).len(), 2);
    let mut risk = risk_config();
    risk.max_drawdown_pct = thousandths(10);
    let mut hedging = hedging_config();
    hedging.hold_duration_secs = 1;
    e.reconfigure(risk, hedging, reversion_config());
    // the open hedges stay, and are due after one second now
    let late = signal("crypto_vol_leads_equity", fx(3), fx(1), &["BTC/USD"], 6);
    assert_eq!(e.propose_hedges(&late, &p).len(), 2);
    // so does the peak of the equity
    let mut poorer = portfolio(vec![]);
    poorer.equity = Decimal::from(99000);
    e.watch_account(&poorer);
    assert!(e.is_halted());
}

#[test]
fn a_round_goes_through_all_orders_in_turn() {
    let mut e = engine();
    let p = portfolio(vec![position("SPY", 500), position("QQQ", 400)]);
    let mut round = e.begin(risk_off(3, 5), p);
    let mut sent = Vec::new();
    let mut refused = Vec::new();
    loop {
        match e.advance_at(&mut round, at(5)) {
            Step::Act(Screened::Submit(mut order)) => {
                assert_eq!(order.id.len(), 36);
                sent.push(order.symbol.as_str().to_string());
                order.id = order.symbol.as_str().to_string();
                e.record_at(order, at(5));
            }
            Step::Act(other) => refused.push(other),
            Step::Done => break,
        }
    }
    assert_eq!(sent, vec!["SPY", "QQQ"]);
    assert!(refused.is_empty());
    assert!(matches!(e.advance(&mut round), Step::Done));
    // the limit of two open orders is reached: the next round sends nothing
    let p = portfolio(vec![position("AAPL", 200)]);
    let late = signal("crypto_vol_leads_equity", fx(3), fx(1), &["BTC/USD"], 4000);
    let mut round = e.begin(late, p);
    let mut reasons = Vec::new();
    loop {
        match e.advance_at(&mut round, at(4000)) {
            Step::Act(Screened::Refuse { order, reason }) => {
                assert_eq!(order.strategy_id, "crypto_vol_leads_equity");
                reasons.push(reason);
            }
            Step::Act(other) => panic!("sent {other:?}"),
            Step::Done => break,
        }
    }
    assert_eq!(reasons, vec!["Too many open orders (2 >= 2)", "Too many open orders (2 >= 2)"]);
}

#[test]
fn a_round_asks_the_reversion_strategy_last() {
    let mut e = engine();
    let p = portfolio(vec![position("AAPL", 200)]);
    let low = signal("rsi_oversold", fx(20), fx(1), &["AAPL"], 10);
    let mut round = e.begin(low, p);
    match e.advance_at(&mut round, at(10)) {
        Step::Act(Screened::Submit(order)) => {
            assert_eq!(order.id.len(), 36);
            assert_eq!(order.symbol.as_str(), "AAPL");
            assert_eq!(order.strategy_id, "mean_reversion");
        }
        other => panic!("unexpected {other:?}"),
    }
    assert!(matches!(e.advance_at(&mut round, at(10)), Step::Done));
}

#[test]
fn ticks_give_prices_to_symbols_without_a_position() {
    let mut e = engine();
    let p = portfolio(vec![]);
    e.take_account(&p);
    let mut orders = e.propose_hedges(&risk_off(3, 5), &p);
    orders.pop();
    let order = orders.pop().unwrap();
    assert_eq!(
        refused(e.screen_at(order.copy(), &p, at(5))),
        "Cannot estimate order value for SPY — no price data available"
    );
    let mut tick = Tick {
        symbol: Symbol::new("SPY"),
        asset_class: AssetClass::Equity,
        exchange: Exchange::Alpaca,
        price: Decimal::from(100),
        bid: None,
        ask: None,
        volume: None,
        timestamp: at(5),
        received_at: at(5),
    };
    e.take_tick(&tick);
    assert_eq!(submitted(e.screen_at(order.copy(), &p, at(5))).quantity, Decimal::from(40));
    tick.price = Decimal::ZERO;
    e.take_tick(&tick);
    assert_eq!(submitted(e.screen_at(order, &p, at(5))).quantity, Decimal::from(40));
}

#[test]
fn orders_in_a_symbol_alternate() {
    let mut s = CryptoVolLeadsEquity::new(hedging_config());
    let mut placed = Vec::new();
    for i in 0..6 {
        // the price goes up, so that each hedge has another size
        let p = portfolio(vec![position("SPY", 100 + 50 * i)]);
        for order in s.on_signal(&risk_off(3, 2000 * i), &p) {
            assert_eq!(order.id.len(), 36);
            if order.symbol.as_str() == "SPY" {
                placed.push((order.side, order.quantity));
            }
        }
    }
    assert!(placed.len() >= 4);
    for (i, (side, quantity)) in placed.iter().enumerate() {
        if i % 2 == 0 {
            assert_eq!(*side, OrderSide::Sell);
        } else {
            assert_eq!(*side, OrderSide::Buy);
            assert_eq!(*quantity, placed[i - 1].1);
        }
    }
    assert_ne!(placed[0].1, placed[2].1);
}
