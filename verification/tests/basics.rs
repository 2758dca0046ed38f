//! Texts, times, tables, settings and fixed-point numbers.
use algoquant::config::{
    AlpacaConfig, AppConfig, CrossAssetSignalConfig, CryptoConfig, CryptoVolLeadsEquityConfig,
    Environment, FinnhubConfig, GeneralConfig, MeanReversionConfig, NatsConfig, QuestDbConfig,
    RedisConfig, RiskConfig, SignalsConfig, StrategiesConfig, TechnicalSignalConfig,
};
use algoquant::decimal::parse_or_zero;
use algoquant::events::subjects;
use algoquant::events::{Event, MacroDataPoint, SystemCommand};
use algoquant::number::fixed::Fixed;
use algoquant::number::{abs, add_up, amount_of, cap, value_or, Number};
use algoquant::risk::{RiskDecision, RiskManager};
use algoquant::strategy::orders::order_with_id;
use algoquant::symbol_map::SymbolMap;
use algoquant::text::{
    contains, fold_text, integer_text, join_texts, natural_text, split_text, trim_text,
    trimmed_list,
};
use algoquant::time::{from_epoch, parse_timestamp, utc_now, Timestamp};
use algoquant::types::{
    AssetClass, Bar, Exchange, NewsArticle, Order, OrderSide, PortfolioState, SignalValue, Symbol,
    Tick,
};
use algoquant::window::RollingWindow;
use rust_decimal::Decimal;

fn fx(n: i64) -> Fixed {
    Fixed { units: n * 1_000_000 }
}

fn at(secs: i64) -> Timestamp {
    Timestamp { secs, nanos: 0 }
}

#[test]
fn numbers_are_written_in_decimal() {
    assert_eq!(natural_text(0), "0");
    assert_eq!(natural_text(1234567890), "1234567890");
    assert_eq!(integer_text(-42), "-42");
    assert_eq!(integer_text(i128::MIN), "-170141183460469231731687303715884105728");
}

#[test]
fn texts_are_searched_split_and_joined() {
    assert!(contains("connection limit exceeded", "limit"));
    assert!(contains("abc", ""));
    assert!(contains("aab", "ab"));
    assert!(!contains("ab", "abc"));
    assert_eq!(split_text("a,,b", ','), vec!["a", "", "b"]);
    assert_eq!(split_text("", ','), vec![""]);
    assert_eq!(trim_text(" \tx y\n"), "x y");
    assert_eq!(trim_text("  "), "");
    assert_eq!(join_texts(&vec!["a".to_string(), "b".to_string()], ","), "a,b");
    assert_eq!(join_texts(&vec![], ","), "");
    assert_eq!(trimmed_list("SPY, QQQ,,", ','), vec!["SPY", "QQQ"]);
    assert_eq!(fold_text("Grüße, ABZ[az"), "grüße, abz[az");
}

#[test]
fn amounts_are_read_from_text() {
    assert_eq!(parse_or_zero("12.50"), Decimal::new(1250, 2));
    assert_eq!(parse_or_zero("-3"), Decimal::from(-3));
    assert_eq!(parse_or_zero("none"), Decimal::ZERO);
}

#[test]
fn times_are_reckoned_in_seconds() {
    let a = Timestamp { secs: 10, nanos: 500_000_000 };
    assert_eq!(a.seconds_since(at(5)), 5);
    assert_eq!(at(5).seconds_since(a), -5);
    assert_eq!(at(5).plus_seconds(-10), at(-5));
    assert_eq!(at(i64::MAX).plus_seconds(1), at(i64::MAX));
    assert_eq!(a.nanos_or_zero(), 10_500_000_000);
    assert_eq!(at(i64::MIN).nanos_or_zero(), 0);
    assert!(at(5).is_before(a));
    assert!(at(4).is_outdated(at(10), 5));
    assert!(!at(5).is_outdated(at(10), 5));
    assert!(a.is_past(at(0), 10));
    assert_eq!(at(-1).epoch(), u64::MAX);
    assert_eq!(from_epoch(7), Some(at(7)));
    assert_eq!(from_epoch(i64::MIN), None);
    assert_eq!(parse_timestamp("1970-01-01T00:00:01Z"), Some(at(1)));
    assert_eq!(parse_timestamp("1970-01-01T01:00:00+01:00"), Some(at(0)));
    assert_eq!(parse_timestamp("yesterday"), None);
    assert!(utc_now().secs > 1_600_000_000);
}

#[test]
fn tables_remember_the_order_of_symbols() {
    let mut m: SymbolMap<u64> = SymbolMap::new();
    m.insert("B", 1);
    m.insert("A", 2);
    m.insert("B", 3);
    *m.entry("C", 10) += 1;
    *m.entry("A", 10) += 1;
    assert_eq!(m.len(), 3);
    assert_eq!(m.symbol_at(0), "B");
    assert_eq!(m.symbol_at(2), "C");
    assert_eq!(*m.value_at(0), 3);
    assert_eq!(m.get("A"), Some(&3));
    assert_eq!(m.get("C"), Some(&11));
    assert_eq!(m.get("D"), None);
    assert!(m.contains("B"));
    assert!(!m.contains("b"));
}

#[test]
fn windows_forget_what_is_old() {
    let mut w: RollingWindow<u64> = RollingWindow::new();
    assert_eq!(w.last(), None);
    for i in 0..5 {
        w.push(i as u64, at(i), at(i), 2);
    }
    assert_eq!(w.items(), vec![2, 3, 4]);
    assert_eq!(w.len(), 3);
    assert_eq!(w.get(0).at, at(2));
    assert_eq!(w.last(), Some(4));
}

#[test]
fn fixed_point_numbers_follow_arithmetic() {
    assert_eq!(Fixed::ratio(1, 3), Fixed { units: 333_333 });
    assert_eq!(Fixed::ratio(-1, 3), Fixed { units: -333_333 });
    assert_eq!(Fixed::ratio(1, -4), Fixed { units: -250_000 });
    assert_eq!(Fixed::ratio(1, 0), Fixed { units: i64::MAX });
    assert_eq!(Fixed::ratio(-1, 0), Fixed { units: i64::MIN });
    assert_eq!(Fixed::ratio(0, 0), fx(0));
    assert_eq!(Fixed::count(3), fx(3));
    assert_eq!(fx(2).plus(fx(3)), fx(5));
    assert_eq!(Fixed { units: i64::MAX }.plus(fx(1)), Fixed { units: i64::MAX });
    assert_eq!(fx(2).minus(fx(3)), fx(-1));
    assert_eq!(fx(-2).times(Fixed { units: 1_500_000 }), fx(-3));
    assert_eq!(fx(1).over(fx(8)), Fixed { units: 125_000 });
    assert_eq!(Fixed { units: 2_900_000 }.floor(), fx(2));
    assert_eq!(Fixed { units: -2_100_000 }.floor(), fx(-3));
    assert_eq!(fx(-2).floor(), fx(-2));
    assert_eq!(fx(2).sqrt(), Fixed { units: 1_414_213 });
    assert_eq!(fx(-1).sqrt(), fx(0));
    assert_eq!(fx(1).ln(), fx(0));
    assert_eq!(fx(2).ln(), Fixed { units: 693_147 });
    assert_eq!(Fixed { units: 500_000 }.ln(), Fixed { units: -693_147 });
    assert_eq!(fx(0).ln(), Fixed { units: i64::MIN });
    // ln 10 = 2.302585...
    assert!((fx(10).ln().units - 2_302_585).abs() < 200);
    assert!(fx(1).below(fx(2)) && !fx(2).below(fx(2)));
    assert!(fx(2).at_most(fx(2)) && !fx(3).at_most(fx(2)));
}

#[test]
fn fixed_point_numbers_are_written_out() {
    assert_eq!(fx(-12).text(), "-12");
    assert_eq!(Fixed { units: 1_050_000 }.text(), "1.05");
    assert_eq!(Fixed { units: -1 }.text(), "-0.000001");
    assert_eq!(Fixed { units: 1_250_000 }.text_places(1), "1.3");
    assert_eq!(Fixed { units: 1_249_999 }.text_places(1), "1.2");
    assert_eq!(Fixed { units: 1_500_000 }.text_places(0), "2");
    assert_eq!(Fixed { units: 1_500_000 }.text_places(3), "1.500");
    assert_eq!(Fixed { units: 1_500_000 }.text_places(8), "1.50000000");
}

#[test]
fn amounts_keep_their_value() {
    assert_eq!(Fixed { units: 1_500_000 }.to_decimal(), Some(Decimal::new(15, 1)));
    assert_eq!(Fixed::from_decimal(Decimal::new(15, 1)), Some(Fixed { units: 1_500_000 }));
    assert_eq!(Fixed::from_decimal(Decimal::new(-123456789, 8)), Some(Fixed { units: -1_234_567 }));
    assert_eq!(Fixed::from_decimal(Decimal::from(12)), Some(fx(12)));
    assert_eq!(Fixed::from_decimal(Decimal::MAX), None);
    assert_eq!(value_or(Decimal::MAX, fx(7)), fx(7));
    assert_eq!(amount_of(fx(8)), Decimal::from(8));
    assert_eq!(abs(fx(-3)), fx(3));
    assert_eq!(cap(fx(3), fx(2)), fx(2));
    assert_eq!(add_up(&vec![fx(1), fx(2), fx(4)]), fx(7));
}

fn settings() -> AppConfig<Fixed> {
    AppConfig {
        general: GeneralConfig {
            log_level: "info".to_string(),
            paper_trading: true,
            warmup_secs: 60,
        },
        alpaca: AlpacaConfig {
            api_key: "file-key".to_string(),
            api_secret: "".to_string(),
            base_url: "base".to_string(),
            data_ws_url: "data".to_string(),
            trading_ws_url: "trading".to_string(),
            symbols: vec!["SPY".to_string()],
        },
        crypto: CryptoConfig { enabled: true, ws_url: "ws".to_string(), symbols: vec![] },
        finnhub: FinnhubConfig {
            enabled: true,
            api_key: "".to_string(),
            poll_interval_secs: 60,
            symbols: vec![],
        },
        nats: NatsConfig { url: "nats".to_string() },
        redis: RedisConfig { url: "redis".to_string() },
        questdb: QuestDbConfig { enabled: false, ilp_address: "q".to_string() },
        signals: SignalsConfig {
            cross_asset: CrossAssetSignalConfig {
                enabled: true,
                vol_window_secs: 1,
                min_ticks: 1,
                z_score_threshold: fx(2),
                correlation_window_secs: 1,
                signal_cooldown_secs: 1,
            },
            technical: TechnicalSignalConfig {
                enabled: true,
                rsi_period: 14,
                rsi_overbought: fx(70),
                rsi_oversold: fx(30),
                vwap_deviation_threshold: fx(1),
                volume_spike_multiplier: fx(3),
            },
        },
        risk: risk_settings(),
        strategies: StrategiesConfig {
            crypto_vol_leads_equity: CryptoVolLeadsEquityConfig {
                enabled: true,
                crypto_symbol: "BTC/USD".to_string(),
                equity_symbols: vec![],
                position_size_pct: fx(1),
                vol_spike_threshold: fx(1),
                hold_duration_secs: 1,
            },
            mean_reversion: MeanReversionConfig {
                enabled: true,
                symbols: vec![],
                rsi_entry_threshold: fx(1),
                rsi_exit_threshold: fx(1),
                position_size_pct: fx(1),
                max_hold_secs: 1,
            },
        },
    }
}

fn risk_settings() -> RiskConfig<Fixed> {
    RiskConfig {
        max_position_pct: Fixed { units: 50_000 },
        max_total_exposure_pct: Fixed { units: 500_000 },
        max_drawdown_pct: Fixed { units: 50_000 },
        max_open_orders: 10,
        min_trade_interval_secs: 60,
        max_order_notional: fx(10000),
        daily_loss_limit_pct: Fixed { units: 20_000 },
    }
}

#[test]
fn the_environment_takes_precedence() {
    let mut env = Environment::empty();
    env.alpaca_api_secret = Some("env-secret".to_string());
    env.nats_url = Some("env-nats".to_string());
    env.finnhub_api_key = Some("env-finnhub".to_string());
    env.risk_max_open_orders = Some(3);
    env.signals_cross_asset_z_score_threshold = Some(fx(5));
    env.strategies_mean_reversion_symbols = Some(vec!["AAPL".to_string()]);
    assert!(!settings().alpaca.has_credentials());
    let c = settings().with_environment(env);
    assert_eq!(c.alpaca.api_key, "file-key");
    assert_eq!(c.alpaca.api_secret, "env-secret");
    assert!(c.alpaca.has_credentials());
    assert_eq!(c.nats.url, "env-nats");
    assert_eq!(c.redis.url, "redis");
    assert_eq!(c.finnhub.api_key, "env-finnhub");
    assert_eq!(c.alpaca.base_url, "base");
    assert_eq!(c.risk.max_open_orders, 3);
    assert_eq!(c.risk.max_order_notional, fx(10000));
    assert_eq!(c.signals.cross_asset.z_score_threshold, fx(5));
    assert_eq!(c.strategies.mean_reversion.symbols, vec!["AAPL"]);
    assert_eq!(c.strategies.mean_reversion.max_hold_secs, 1);
}

#[test]
fn an_unset_environment_leaves_the_file() {
    let c = settings().with_environment(Environment::empty());
    assert_eq!(format!("{c:?}"), format!("{:?}", settings()));
}

fn order(symbol: &str, qty: i64) -> Order {
    let mut o = order_with_id(
        "id".to_string(),
        &Symbol::new(symbol),
        OrderSide::Buy,
        Decimal::from(qty),
        "test",
        at(1),
    );
    o.updated_at = at(2);
    o
}

fn portfolio(equity: i64) -> PortfolioState {
    PortfolioState {
        equity: Decimal::from(equity),
        cash: Decimal::ZERO,
        buying_power: Decimal::ZERO,
        positions: vec![],
        timestamp: at(3),
    }
}

fn reason(d: RiskDecision) -> String {
    match d {
        RiskDecision::Rejected(reason) => reason,
        other => panic!("unexpected {other:?}"),
    }
}

#[test]
fn every_refusal_gives_its_reason() {
    let mut rm = RiskManager::new(risk_settings());
    let rich = portfolio(100000);
    assert_eq!(
        reason(rm.evaluate_order_at(&order("SPY", 1), &rich, 10, at(0))),
        "Too many open orders (10 >= 10)"
    );
    assert_eq!(
        reason(rm.evaluate_order_at(&order("SPY", 1), &portfolio(0), 0, at(0))),
        "Portfolio equity is zero or negative"
    );
    assert_eq!(
        reason(rm.evaluate_order_at(&order("SPY", 1), &rich, 0, at(0))),
        "Cannot estimate order value for SPY — no price data available"
    );
    rm.update_price(&Symbol::new("BRK"), fx(20000));
    assert_eq!(
        reason(rm.evaluate_order_at(&order("BRK", 1), &rich, 0, at(0))),
        "Order notional $20000 exceeds max $10000 and can't reduce to 1 share"
    );
    rm.update_price(&Symbol::new("MID"), fx(6000));
    assert_eq!(
        reason(rm.evaluate_order_at(&order("MID", 1), &rich, 0, at(0))),
        "Position 0.1% of equity exceeds 5% and can't size down"
    );
    rm.record_trade_at(&Symbol::new("SPY"), at(100));
    assert_eq!(
        reason(rm.evaluate_order_at(&order("SPY", 1), &rich, 0, at(130))),
        "Trade cooldown: 30s < 60s since last trade on SPY"
    );
    let mut tight = risk_settings();
    tight.max_total_exposure_pct = Fixed { units: 10_000 };
    let mut strict = RiskManager::new(tight);
    strict.update_price(&Symbol::new("SPY"), fx(500));
    assert_eq!(
        reason(strict.evaluate_order_at(&order("SPY", 4), &rich, 0, at(0))),
        "Total exposure would be 2.0% > max 1.0%"
    );
}

fn reduced(decision: RiskDecision) -> Decimal {
    match decision {
        RiskDecision::ReducedSize { new_quantity, .. } => new_quantity,
        other => panic!("unexpected {other:?}"),
    }
}

#[test]
fn limit_orders_are_sized_at_the_greater_price() {
    let mut rm = RiskManager::new(risk_settings());
    let mut o = order("AMZN", 100);
    o.limit_price = Some(Decimal::from(200));
    let rich = portfolio(100000);
    // the limit price, where the last price is not known or is lower
    assert_eq!(reduced(rm.evaluate_order_at(&o, &rich, 0, at(0))), Decimal::from(50));
    rm.update_price(&Symbol::new("AMZN"), fx(1));
    assert_eq!(reduced(rm.evaluate_order_at(&o, &rich, 0, at(0))), Decimal::from(50));
    // the last price, where it is higher
    rm.update_price(&Symbol::new("AMZN"), fx(500));
    assert_eq!(reduced(rm.evaluate_order_at(&o, &rich, 0, at(0))), Decimal::from(20));
    rm.update_price(&Symbol::new("AMZN"), fx(100));
    let mut low = order("AMZN", 200);
    low.limit_price = Some(Decimal::from(90));
    assert_eq!(reduced(rm.evaluate_order_at(&low, &rich, 0, at(0))), Decimal::from(100));
    // one, where the last price is not known and the limit price is lower
    let mut cheap = order("DOGE", 40000);
    cheap.limit_price = Some(Decimal::new(5, 1));
    assert_eq!(reduced(rm.evaluate_order_at(&cheap, &rich, 0, at(0))), Decimal::from(10000));
    // 30 at 200 is within the notional limit, but over five percent of the equity
    o.quantity = Decimal::from(30);
    assert_eq!(reduced(rm.evaluate_order_at(&o, &rich, 0, at(0))), Decimal::from(25));
    rm.update_price(&Symbol::new("AMZN"), fx(250));
    assert_eq!(reduced(rm.evaluate_order_at(&o, &rich, 0, at(0))), Decimal::from(20));
    // the price of a stop order counts in the same way
    o.limit_price = None;
    o.stop_price = Some(Decimal::from(400));
    assert_eq!(reduced(rm.evaluate_order_at(&o, &rich, 0, at(0))), Decimal::from(25));
    o.stop_price = None;
    // what has no positive price cannot be sized
    rm.update_price(&Symbol::new("AMZN"), fx(0));
    o.quantity = Decimal::from(-100);
    o.limit_price = Some(Decimal::from(-200));
    assert_eq!(
        reason(rm.evaluate_order_at(&o, &rich, 0, at(0))),
        "Order notional $20000 exceeds max $10000 and can't reduce to 1 share"
    );
    o.quantity = Decimal::from(-30);
    assert_eq!(
        reason(rm.evaluate_order_at(&o, &rich, 0, at(0))),
        "Position 0.1% of equity exceeds 5% and can't size down"
    );
}

#[test]
fn white_space_is_what_unicode_says() {
    let listed = |c: char| {
        matches!(
            c,
            '\u{9}'..='\u{d}'
                | '\u{20}'
                | '\u{85}'
                | '\u{a0}'
                | '\u{1680}'
                | '\u{2000}'..='\u{200a}'
                | '\u{2028}'
                | '\u{2029}'
                | '\u{202f}'
                | '\u{205f}'
                | '\u{3000}'
        )
    };
    for c in '\u{0}'..=char::MAX {
        assert_eq!(trim_text(&c.to_string()).is_empty(), listed(c), "{:x}", c as u32);
    }
}

#[test]
fn the_loss_of_a_day_is_limited() {
    let mut rm = RiskManager::new(risk_settings());
    rm.update_price(&Symbol::new("SPY"), fx(500));
    let mut p = portfolio(100000);
    rm.update_portfolio(&p);
    p.equity = Decimal::from(98001);
    rm.update_portfolio(&p);
    assert!(matches!(
        rm.evaluate_order_at(&order("SPY", 5), &p, 0, at(0)),
        RiskDecision::Approved
    ));
    p.equity = Decimal::from(97000);
    rm.update_portfolio(&p);
    assert!(!rm.is_circuit_breaker_tripped());
    assert_eq!(
        reason(rm.evaluate_order_at(&order("SPY", 5), &p, 0, at(0))),
        "Daily loss 3.0% reaches limit 2.0% — no more orders today"
    );
    // the next day starts afresh
    p.timestamp = at(86_400);
    rm.update_portfolio(&p);
    assert!(matches!(
        rm.evaluate_order_at(&order("SPY", 5), &p, 0, at(0)),
        RiskDecision::Approved
    ));
    assert_eq!(at(-1).day(), -1);
    assert_eq!(at(86_399).day(), 0);
}

#[test]
fn leap_seconds_count_as_seconds() {
    let leap = parse_timestamp("2016-12-31T23:59:60.5Z").unwrap();
    let next = parse_timestamp("2017-01-01T00:00:00Z").unwrap();
    let before = parse_timestamp("2016-12-31T23:59:59Z").unwrap();
    assert_eq!(leap, Timestamp { secs: before.secs, nanos: 1_500_000_000 });
    assert!(leap.is_before(next) && before.is_before(leap));
    assert_eq!(leap.seconds_since(before), 1);
    let noon = Timestamp { secs: 43_199, nanos: 1_500_000_000 };
    assert_eq!(at(43_200).seconds_since(noon), 0);
    assert!(!at(43_200).is_past(noon, 1));
    assert_eq!(at(43_201).seconds_since(noon), 1);
    assert_eq!(noon.seconds_since(at(43_201)), -1);
    assert_eq!(noon.plus_seconds(1), Timestamp { secs: 43_200, nanos: 500_000_000 });
    assert_eq!(noon.plus_seconds(-1), Timestamp { secs: 43_199, nanos: 500_000_000 });
    assert_eq!(noon.plus_seconds(0), noon);
    assert!(at(43_199).is_outdated(noon, 1));
    assert!(!Timestamp { secs: 43_199, nanos: 500_000_000 }.is_outdated(noon, 1));
}

#[test]
fn limit_and_stop_prices_come_before_the_last_price() {
    let mut rm = RiskManager::new(risk_settings());
    rm.update_price(&Symbol::new("SPY"), fx(500));
    let mut o = order("SPY", 2);
    assert_eq!(rm.estimate_order_value(&o), fx(1000));
    o.stop_price = Some(Decimal::from(400));
    assert_eq!(rm.estimate_order_value(&o), fx(800));
    o.limit_price = Some(Decimal::from(300));
    assert_eq!(rm.estimate_order_value(&o), fx(600));
}

#[test]
fn the_breaker_latches_until_it_is_reset() {
    let mut rm = RiskManager::new(risk_settings());
    rm.update_portfolio(&portfolio(100000));
    rm.update_portfolio(&portfolio(95001));
    assert!(!rm.is_circuit_breaker_tripped());
    rm.update_portfolio(&portfolio(95000));
    assert!(rm.is_circuit_breaker_tripped());
    rm.update_portfolio(&portfolio(150000));
    assert!(rm.is_circuit_breaker_tripped());
    rm.reset_circuit_breaker();
    assert!(!rm.is_circuit_breaker_tripped());
    rm.record_trade(&Symbol::new("SPY"));
    rm.update_price(&Symbol::new("SPY"), fx(100));
    assert!(matches!(
        rm.evaluate_order(&order("SPY", 1), &portfolio(150000), 0),
        RiskDecision::Rejected(_)
    ));
}

#[test]
fn events_have_their_subject_and_moment() {
    let tick = Tick {
        symbol: Symbol::new("SPY"),
        asset_class: AssetClass::Equity,
        exchange: Exchange::Alpaca,
        price: Decimal::ZERO,
        bid: None,
        ask: None,
        volume: None,
        timestamp: at(1),
        received_at: at(9),
    };
    let bar = Bar {
        symbol: Symbol::new("SPY"),
        open: Decimal::ZERO,
        high: Decimal::ZERO,
        low: Decimal::ZERO,
        close: Decimal::ZERO,
        volume: Decimal::ZERO,
        bar_start: at(9),
        bar_end: at(2),
    };
    let signal = SignalValue {
        name: "n".to_string(),
        value: fx(0),
        direction: fx(0),
        confidence: fx(0),
        symbols: vec![],
        timestamp: at(3),
        metadata: vec![],
    };
    let news = NewsArticle {
        id: "1".to_string(),
        title: "t".to_string(),
        summary: None,
        source: "s".to_string(),
        url: None,
        symbols: vec![],
        sentiment_score: Some(fx(0)),
        published_at: at(4),
        received_at: at(9),
    };
    let point = MacroDataPoint {
        indicator: "cpi".to_string(),
        value: fx(3),
        previous: None,
        source: "s".to_string(),
        timestamp: at(5),
    };
    let cases: Vec<(Event<Fixed>, &str, i64)> = vec![
        (Event::Tick(tick), "market.tick", 1),
        (Event::Bar(bar), "market.bar", 2),
        (Event::Signal(signal), "signal", 3),
        (Event::OrderRequest(order("SPY", 1)), "order.request", 2),
        (Event::OrderUpdate(order("SPY", 1)), "order.update", 2),
        (Event::PortfolioUpdate(portfolio(1)), "portfolio.update", 3),
        (Event::News(news), "data.news", 4),
        (Event::MacroData(point), "data.macro", 5),
        (
            Event::SystemCommand(SystemCommand::PauseTrading { timestamp: at(6) }),
            "system.command",
            6,
        ),
    ];
    for (event, subject, secs) in cases {
        assert_eq!(event.nats_subject(), subject);
        assert_eq!(event.timestamp(), at(secs));
    }
    assert_eq!(subjects::ALL_MARKET, "market.>");
    assert_eq!(subjects::ALL, ">");
}
