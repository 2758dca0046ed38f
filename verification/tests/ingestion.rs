//! Streams, news, and the lines that are stored.
use algoquant::config::{AlpacaConfig, CryptoConfig, FinnhubConfig};
use algoquant::events::Event;
use algoquant::ingestion::crypto::{refusal, tick_at, AlpacaCryptoMsg, Backoff, CryptoFeed, SessionEnd};
use algoquant::ingestion::finnhub::{article_at, FeedState, FinnhubFeed, FinnhubNewsItem};
use algoquant::ingestion::Normalizer;
use algoquant::number::fixed::Fixed;
use algoquant::storage::questdb::{
    escape_tag, news_line, portfolio_line, signal_line, trade_line,
};
use algoquant::time::{last_two_dates, Timestamp};
use algoquant::types::{
    AssetClass, Exchange, NewsArticle, Order, OrderSide, OrderStatus, OrderType, PortfolioState,
    Position, PositionSide, SignalValue, Symbol, Tick, TimeInForce,
};
use rust_decimal::Decimal;

fn fx(n: i64) -> Fixed {
    Fixed { units: n * 1_000_000 }
}

fn at(secs: i64) -> Timestamp {
    Timestamp { secs, nanos: 0 }
}

fn message(kind: &str) -> AlpacaCryptoMsg<Fixed> {
    AlpacaCryptoMsg {
        msg_type: kind.to_string(),
        symbol: Some("BTC/USD".to_string()),
        price: Some(Fixed { units: 61000250000 }),
        size: Some(Fixed { units: 500000 }),
        timestamp: Some("2024-03-01T12:00:00.25Z".to_string()),
        bid_price: Some(fx(100)),
        ask_price: Some(fx(103)),
    }
}

#[test]
fn trades_become_ticks() {
    let tick = tick_at(&message("t"), at(5)).unwrap();
    assert_eq!(tick.symbol.as_str(), "BTC/USD");
    assert_eq!(tick.asset_class, AssetClass::Crypto);
    assert_eq!(tick.exchange, Exchange::Alpaca);
    assert_eq!(tick.price, Decimal::new(6100025, 2));
    assert_eq!(tick.volume, Some(Decimal::new(5, 1)));
    assert_eq!(tick.bid, None);
    assert_eq!(tick.timestamp, Timestamp { secs: 1709294400, nanos: 250_000_000 });
    assert_eq!(tick.received_at, at(5));
    let mut bare = message("t");
    bare.size = None;
    bare.timestamp = Some("noon".to_string());
    let tick = tick_at(&bare, at(5)).unwrap();
    assert_eq!(tick.volume, None);
    assert_eq!(tick.timestamp, at(5));
    bare.price = None;
    assert!(tick_at(&bare, at(5)).is_none());
}

#[test]
fn quotes_become_ticks_at_the_middle() {
    let tick = tick_at(&message("q"), at(5)).unwrap();
    assert_eq!(tick.price, Decimal::new(1015, 1));
    assert_eq!(tick.bid, Some(Decimal::from(100)));
    assert_eq!(tick.ask, Some(Decimal::from(103)));
    assert_eq!(tick.volume, None);
    let mut half = message("q");
    half.ask_price = None;
    assert!(tick_at(&half, at(5)).is_none());
    let mut nameless = message("q");
    nameless.symbol = None;
    assert!(tick_at(&nameless, at(5)).is_none());
}

fn account() -> AlpacaConfig {
    AlpacaConfig {
        api_key: "key".to_string(),
        api_secret: "word".to_string(),
        base_url: "".to_string(),
        data_ws_url: "".to_string(),
        trading_ws_url: "".to_string(),
        symbols: vec![],
    }
}

fn feed(enabled: bool) -> CryptoFeed {
    CryptoFeed::new(
        CryptoConfig {
            enabled,
            ws_url: "wss://stream".to_string(),
            symbols: vec!["BTC/USD".to_string(), "ETH/USD".to_string()],
        },
        account(),
    )
}

#[test]
fn only_trades_and_quotes_of_a_batch_become_ticks() {
    let batch = vec![message("success"), message("t"), message("b"), message("q")];
    let ticks = feed(true).process_message(&batch);
    assert_eq!(ticks.len(), 2);
    assert_eq!(ticks[0].price, Decimal::new(6100025, 2));
    assert_eq!(ticks[1].price, Decimal::new(1015, 1));
    assert!(ticks[0].received_at.secs > 1_600_000_000);
}

#[test]
fn the_stream_is_opened_with_account_and_symbols() {
    let f = feed(true);
    assert_eq!(f.address(), Some("wss://stream".to_string()));
    assert_eq!(feed(false).address(), None);
    let auth = f.auth_message();
    assert_eq!(auth.action, "auth");
    assert_eq!(auth.key, "key");
    assert_eq!(auth.secret, "word");
    let sub = f.subscribe_message();
    assert_eq!(sub.action, "subscribe");
    assert_eq!(sub.trades, vec!["BTC/USD", "ETH/USD"]);
    assert_eq!(sub.quotes, sub.trades);
    assert!(sub.bars.is_empty());
}

#[test]
fn refusals_are_told_apart() {
    assert_eq!(refusal("[{\"T\":\"success\",\"msg\":\"authenticated\"}]"), None);
    assert_eq!(
        refusal("[{\"T\":\"error\",\"msg\":\"auth failed\"}]"),
        Some("Crypto auth failed: [{\"T\":\"error\",\"msg\":\"auth failed\"}]".to_string())
    );
    assert_eq!(
        refusal("[{\"T\":\"error\",\"msg\":\"connection limit exceeded\"}]"),
        Some("Crypto connection limit exceeded — stale session may exist".to_string())
    );
}

#[test]
fn data_is_asked_for_once_the_account_is_let_in() {
    let f = feed(true);
    assert_eq!(f.after_reply(Some("authenticated")).unwrap().trades, vec!["BTC/USD", "ETH/USD"]);
    assert_eq!(f.after_reply(None).unwrap().action, "subscribe");
    let reason = f.after_reply(Some("\"error\"")).unwrap_err();
    assert_eq!(reason, "Crypto auth failed: \"error\"");
}

#[test]
fn waits_double_up_to_a_minute() {
    let mut b = Backoff::new();
    let failed = SessionEnd::Failed("broken pipe".to_string());
    let mut waits = Vec::new();
    for _i in 0..8 {
        waits.push(b.wait(&failed));
    }
    assert_eq!(waits, vec![1, 2, 4, 8, 16, 32, 60, 60]);
    assert_eq!(b.wait(&SessionEnd::Closed), 1);
    assert_eq!(b.wait(&failed), 2);
    let reason = refusal("\"error\" connection limit").unwrap();
    assert_eq!(b.wait(&SessionEnd::Failed(reason)), 30);
    assert_eq!(b.wait(&failed), 60);
}

fn item(id: u64) -> FinnhubNewsItem {
    FinnhubNewsItem {
        id,
        headline: "Shares SURGE".to_string(),
        summary: "despite risk".to_string(),
        source: "Wire".to_string(),
        url: "https://example.com/1".to_string(),
        related: "AAPL, MSFT,,".to_string(),
        datetime: 1_700_000_000,
    }
}

fn news_config() -> FinnhubConfig {
    FinnhubConfig {
        enabled: true,
        api_key: "token".to_string(),
        poll_interval_secs: 60,
        symbols: vec!["AAPL".to_string()],
    }
}

#[test]
fn items_become_articles() {
    let a: NewsArticle<Fixed> = article_at(&item(42), at(5));
    assert_eq!(a.id, "42");
    assert_eq!(a.title, "Shares SURGE");
    assert_eq!(a.summary, Some("despite risk".to_string()));
    assert_eq!(a.source, "Wire");
    assert_eq!(a.url, Some("https://example.com/1".to_string()));
    assert_eq!(a.symbols.len(), 2);
    assert_eq!(a.symbols[0].as_str(), "AAPL");
    assert_eq!(a.symbols[1].as_str(), "MSFT");
    // surge counts one, risk minus 0.4
    assert_eq!(a.sentiment_score, Some(Fixed { units: 300_000 }));
    assert_eq!(a.published_at, at(1_700_000_000));
    assert_eq!(a.received_at, at(5));
    let mut far = item(1);
    far.datetime = i64::MAX;
    let b: NewsArticle<Fixed> = article_at(&far, at(5));
    assert_eq!(b.published_at, at(5));
}

#[test]
fn scores_are_brought_within_bounds() {
    let mut bad = item(1);
    bad.headline = "crash".to_string();
    bad.summary = "".to_string();
    let a: NewsArticle<Fixed> = article_at(&bad, at(0));
    assert_eq!(a.sentiment_score, Some(fx(-1)));
    bad.headline = "no words".to_string();
    let b: NewsArticle<Fixed> = article_at(&bad, at(0));
    assert_eq!(b.sentiment_score, Some(fx(0)));
}

#[test]
fn news_are_not_repeated() {
    let mut f = FinnhubFeed::new(news_config());
    let first: Vec<NewsArticle<Fixed>> = f.take_in(&vec![item(1), item(2), item(1)]);
    assert_eq!(first.len(), 2);
    let again: Vec<NewsArticle<Fixed>> = f.take_in(&vec![item(2), item(3)]);
    assert_eq!(again.len(), 1);
    assert_eq!(again[0].id, "3");
}

#[test]
fn failed_replies_leave_the_feed_as_it_was() {
    let mut f = FinnhubFeed::new(news_config());
    let failed: Result<Vec<NewsArticle<Fixed>>, String> =
        f.take_reply(429, "429 Too Many Requests", &vec![item(1)]);
    assert_eq!(failed.unwrap_err(), "Finnhub returned 429 Too Many Requests");
    let first: Result<Vec<NewsArticle<Fixed>>, String> =
        f.take_reply(200, "200 OK", &vec![item(1)]);
    assert_eq!(first.unwrap().len(), 1);
    let edge: Result<Vec<NewsArticle<Fixed>>, String> = f.take_reply(300, "300", &vec![item(2)]);
    assert!(edge.is_err());
    let again: Result<Vec<NewsArticle<Fixed>>, String> =
        f.take_reply(299, "299", &vec![item(1), item(2)]);
    assert_eq!(again.unwrap()[0].id, "2");
}

#[test]
fn the_news_feed_needs_a_key() {
    assert_eq!(FinnhubFeed::new(news_config()).state(), FeedState::Polling);
    let mut keyless = news_config();
    keyless.api_key = "".to_string();
    assert_eq!(FinnhubFeed::new(keyless).state(), FeedState::NoKey);
    let mut off = news_config();
    off.enabled = false;
    assert_eq!(FinnhubFeed::new(off).state(), FeedState::Disabled);
}

#[test]
fn news_are_asked_for_by_symbol_and_dates() {
    let f = FinnhubFeed::new(news_config());
    let (from, to) = last_two_dates(at(1_709_294_400)).unwrap();
    assert_eq!(
        f.news_url("AAPL", &from, &to),
        "https://finnhub.io/api/v1/company-news?symbol=AAPL&from=2024-02-29&to=2024-03-01&token=token"
    );
    assert!(last_two_dates(at(i64::MAX)).is_none());
}

fn tick() -> Tick {
    Tick {
        symbol: Symbol::new("SPY"),
        asset_class: AssetClass::Equity,
        exchange: Exchange::Alpaca,
        price: Decimal::from(500),
        bid: None,
        ask: None,
        volume: None,
        timestamp: at(1),
        received_at: at(2),
    }
}

#[test]
fn ticks_become_events_and_are_counted() {
    let mut n = Normalizer::new();
    let event: Event<Fixed> = n.normalize(tick());
    match event {
        Event::Tick(t) => assert_eq!(t.symbol.as_str(), "SPY"),
        other => panic!("unexpected {other:?}"),
    }
    let mut reports = 0;
    for _i in 0..2500 {
        if n.note_delivery() {
            reports += 1;
        }
    }
    assert_eq!(reports, 2);
    assert_eq!(n.count(), 2500);
}

#[test]
fn tags_are_escaped() {
    assert_eq!(escape_tag("BTC/USD, a=b"), "BTC_USD\\,\\ a\\=b");
    assert_eq!(escape_tag("plain"), "plain");
    assert_eq!(escape_tag(""), "");
}

#[test]
fn signals_are_written_as_lines() {
    let s = SignalValue {
        name: "rsi oversold".to_string(),
        value: Fixed { units: 25_500_000 },
        direction: fx(-1),
        confidence: Fixed { units: 150_000 },
        symbols: vec![Symbol::new("AAPL"), Symbol::new("BTC/USD")],
        timestamp: Timestamp { secs: 1, nanos: 5 },
        metadata: vec![],
    };
    assert_eq!(
        signal_line(&s),
        "signals,name=rsi\\ oversold,symbols=AAPL\\,BTC_USD value=25.5,direction=-1,confidence=0.15 1000000005\n"
    );
}

fn order() -> Order {
    Order {
        id: "1".to_string(),
        symbol: Symbol::new("SPY"),
        side: OrderSide::Buy,
        order_type: OrderType::Market,
        quantity: Decimal::from(8),
        limit_price: None,
        stop_price: None,
        time_in_force: TimeInForce::Day,
        status: OrderStatus::Filled,
        filled_qty: Decimal::from(8),
        filled_avg_price: Some(Decimal::new(50025, 2)),
        strategy_id: "mean_reversion".to_string(),
        created_at: at(1),
        updated_at: at(-2),
    }
}

#[test]
fn trades_are_written_as_lines() {
    assert_eq!(
        trade_line::<Fixed>(&order()),
        "trades,symbol=SPY,side=buy,strategy=mean_reversion qty=8,filled_price=500.25 -2000000000\n"
    );
    let mut unfilled = order();
    unfilled.filled_avg_price = None;
    unfilled.side = OrderSide::Sell;
    unfilled.updated_at = at(i64::MAX);
    assert_eq!(
        trade_line::<Fixed>(&unfilled),
        "trades,symbol=SPY,side=sell,strategy=mean_reversion qty=8,filled_price=0 0\n"
    );
}

#[test]
fn portfolios_are_written_as_lines() {
    let mut positions = Vec::new();
    for gain in [5, -2] {
        positions.push(Position {
            symbol: Symbol::new("SPY"),
            quantity: Decimal::from(1),
            avg_entry_price: Decimal::from(1),
            current_price: Decimal::from(1),
            market_value: Decimal::from(1),
            unrealized_pnl: Decimal::new(gain, 1),
            realized_pnl: Decimal::ZERO,
            side: PositionSide::Long,
        });
    }
    let p = PortfolioState {
        equity: Decimal::from(100000),
        cash: Decimal::new(15, 1),
        buying_power: Decimal::ZERO,
        positions,
        timestamp: at(3),
    };
    assert_eq!(
        portfolio_line::<Fixed>(&p),
        "portfolio equity=100000,cash=1.5,positions=2,unrealized_pnl=0.3 3000000000\n"
    );
}

#[test]
fn news_are_written_as_lines() {
    let mut a: NewsArticle<Fixed> = article_at(&item(42), at(5));
    assert_eq!(
        news_line(&a),
        "news,source=Wire,symbols=AAPL\\,MSFT sentiment=0.3 1700000000000000000\n"
    );
    a.sentiment_score = None;
    a.source = "A B".to_string();
    assert_eq!(
        news_line(&a),
        "news,source=A\\ B,symbols=AAPL\\,MSFT sentiment=0 1700000000000000000\n"
    );
}
