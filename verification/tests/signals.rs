//! Signals from ticks and news.
use algoquant::config::{CrossAssetSignalConfig, SignalsConfig, TechnicalSignalConfig};
use algoquant::events::{Event, SystemCommand};
use algoquant::number::fixed::Fixed;
use algoquant::signals::{CrossAssetAnalyzer, SentimentAnalyzer, SignalEngine, TechnicalAnalyzer};
use algoquant::time::{utc_now, Timestamp};
use algoquant::types::{AssetClass, Detail, Exchange, NewsArticle, SignalValue, Symbol, Tick};
use rust_decimal::Decimal;

fn fx(n: i64) -> Fixed {
    Fixed { units: n * 1_000_000 }
}

fn at(secs: i64) -> Timestamp {
    Timestamp { secs, nanos: 0 }
}

fn tick(symbol: &str, asset_class: AssetClass, price: i64, volume: i64, secs: i64) -> Tick {
    Tick {
        symbol: Symbol::new(symbol),
        asset_class,
        exchange: Exchange::Alpaca,
        price: Decimal::from(price),
        bid: None,
        ask: None,
        volume: Some(Decimal::from(volume)),
        timestamp: at(secs),
        received_at: at(secs),
    }
}

fn equity(price: i64, secs: i64) -> Tick {
    tick("SPY", AssetClass::Equity, price, 10, secs)
}

fn crypto(price: i64, secs: i64) -> Tick {
    tick("BTC/USD", AssetClass::Crypto, price, 10, secs)
}

fn swing(i: i64) -> i64 {
    if i % 2 == 0 {
        1000
    } else {
        1100
    }
}

fn cross_asset() -> CrossAssetAnalyzer<Fixed> {
    CrossAssetAnalyzer::new(10, 2, fx(3), 100_000, 300)
}

fn calm(a: &mut CrossAssetAnalyzer<Fixed>) {
    for i in 0..30 {
        assert!(a.on_tick(&equity(swing(i), 1000 + i)).is_none());
    }
    for i in 0..50 {
        assert!(a.on_tick(&crypto(swing(i), 1000 + i)).is_none());
    }
}

#[test]
fn a_crypto_spike_over_calm_equities_is_a_signal() {
    let mut a = cross_asset();
    calm(&mut a);
    let s = a.on_tick(&crypto(9000, 1050)).unwrap();
    assert_eq!(s.name, "crypto_vol_leads_equity");
    assert_eq!(s.direction, fx(-1));
    assert!(s.value.units >= 3_000_000);
    assert!(s.confidence.units > 0 && s.confidence.units <= 1_000_000);
    assert_eq!(s.symbols.len(), 1);
    assert_eq!(s.symbols[0].as_str(), "BTC/USD");
    assert_eq!(s.timestamp, at(1050));
    let mut keys = Vec::new();
    for e in &s.metadata {
        keys.push(e.key.as_str());
    }
    assert_eq!(
        keys,
        vec![
            "crypto_z_score",
            "equity_z_score_avg",
            "divergence",
            "crypto_vol",
            "crypto_vol_mean",
            "equity_z_scores",
            "num_equity_symbols",
        ]
    );
    assert!(matches!(s.metadata[6].detail, Detail::Count(1)));
}

#[test]
fn signals_keep_the_cooldown() {
    let mut a = cross_asset();
    calm(&mut a);
    assert!(a.on_tick(&crypto(9000, 1050)).is_some());
    assert!(a.on_tick(&crypto(90000, 1051)).is_none());
    let mut brief = CrossAssetAnalyzer::new(10, 2, fx(3), 100_000, 1);
    calm(&mut brief);
    assert!(brief.on_tick(&crypto(9000, 1050)).is_some());
    assert!(brief.on_tick(&crypto(900000, 1051)).is_some());
}

#[test]
fn a_spike_without_an_equity_side_is_none() {
    let mut a = cross_asset();
    for i in 0..50 {
        a.on_tick(&crypto(swing(i), 1000 + i));
    }
    assert!(a.on_tick(&crypto(9000, 1050)).is_none());
}

#[test]
fn volatility_is_known_once_there_are_enough_ticks() {
    let mut a = CrossAssetAnalyzer::new(10, 3, fx(3), 100_000, 300);
    let spy = Symbol::new("SPY");
    a.on_tick(&equity(1000, 1));
    a.on_tick(&equity(1000, 2));
    assert!(a.get_vol(&spy).is_none());
    a.on_tick(&equity(1000, 3));
    assert_eq!(a.get_vol(&spy), Some(fx(0)));
    assert!(a.get_vol(&Symbol::new("QQQ")).is_none());
    // prices that are not positive are passed over
    a.on_tick(&equity(0, 4));
    assert_eq!(a.get_vol(&spy), Some(fx(0)));
}

fn technical() -> TechnicalAnalyzer<Fixed> {
    TechnicalAnalyzer::new(3, fx(70), fx(30), Fixed { units: 20_000 }, fx(3))
}

#[test]
fn rising_bars_are_overbought() {
    let mut a = technical();
    for i in 0..8 {
        assert!(a.on_tick(&equity(100 + i, 60 * i)).is_none());
    }
    assert_eq!(a.get_rsi(&Symbol::new("SPY")), Some(fx(100)));
    let s = a.on_tick(&equity(108, 480)).unwrap();
    assert_eq!(s.name, "rsi_overbought");
    assert_eq!(s.value, fx(100));
    assert_eq!(s.direction, fx(-1));
    assert_eq!(s.confidence, fx(1));
    assert_eq!(s.timestamp, at(480));
    // the next signal of the symbol comes two minutes later at the earliest
    assert!(a.on_tick(&equity(109, 540)).is_none());
    assert!(a.on_tick(&equity(110, 600)).is_some());
}

#[test]
fn falling_bars_are_oversold() {
    let mut a = technical();
    for i in 0..8 {
        assert!(a.on_tick(&equity(200 - i, 60 * i)).is_none());
    }
    let s = a.on_tick(&equity(190, 480)).unwrap();
    assert_eq!(s.name, "rsi_oversold");
    assert_eq!(s.value, fx(0));
    assert_eq!(s.direction, fx(1));
    assert_eq!(s.confidence, fx(1));
    assert_eq!(s.metadata.len(), 4);
}

#[test]
fn a_volume_spike_off_the_average_price_is_a_breakout() {
    let mut a = technical();
    let prices = [100, 102, 100, 102, 100, 102, 100, 110];
    for (i, p) in prices.iter().enumerate() {
        let volume = if i == 7 { 1000 } else { 10 };
        let t = tick("SPY", AssetClass::Equity, *p, volume, 60 * i as i64);
        assert!(a.on_tick(&t).is_none());
    }
    // rises 2 and 10, falls 2: the strength is above its upper bound
    let s = a.on_tick(&equity(110, 480)).unwrap();
    assert_eq!(s.name, "rsi_overbought");
    let mut b = TechnicalAnalyzer::new(3, fx(90), fx(30), Fixed { units: 5_000 }, fx(3));
    for (i, p) in prices.iter().enumerate() {
        let volume = if i == 7 { 1000 } else { 10 };
        b.on_tick(&tick("SPY", AssetClass::Equity, *p, volume, 60 * i as i64));
    }
    let s = b.on_tick(&equity(110, 480)).unwrap();
    assert_eq!(s.name, "volume_vwap_breakout");
    assert_eq!(s.direction, fx(1));
    // 1000 over (7 * 10 + 1000) / 8
    assert_eq!(s.value, Fixed { units: 7_476_635 });
    assert_eq!(s.confidence, fx(1));
}

#[test]
fn bars_are_built_of_a_minute_of_ticks() {
    let mut a = technical();
    let spy = Symbol::new("SPY");
    assert!(a.accumulate_tick(&spy, fx(10), fx(1), at(0)).is_none());
    assert!(a.accumulate_tick(&spy, fx(14), fx(2), at(59)).is_none());
    let bar = a.accumulate_tick(&spy, fx(20), fx(5), at(60)).unwrap();
    assert_eq!(bar.at, at(60));
    assert_eq!(bar.item.close, fx(14));
    assert_eq!(bar.item.volume, fx(3));
    assert_eq!(bar.item.vwap, fx(14));
    let mut b = technical();
    b.accumulate_tick(&spy, fx(10), fx(0), at(0));
    b.accumulate_tick(&spy, fx(18), fx(0), at(1));
    b.accumulate_tick(&spy, fx(12), fx(0), at(2));
    let quiet = b.accumulate_tick(&spy, fx(20), fx(5), at(60)).unwrap();
    // without volume, the mean of open, high, low and close
    assert_eq!(quiet.item.vwap, Fixed { units: 12_500_000 });
}

#[test]
fn crypto_ticks_do_not_concern_the_technical_analyzer() {
    let mut a = technical();
    for i in 0..20 {
        assert!(a.on_tick(&crypto(100 + i, 60 * i)).is_none());
    }
    assert!(a.get_rsi(&Symbol::new("BTC/USD")).is_none());
}

fn article(symbols: &[&str], score: Option<Fixed>) -> NewsArticle<Fixed> {
    let mut list = Vec::new();
    for s in symbols {
        list.push(Symbol::new(s));
    }
    NewsArticle {
        id: "1".to_string(),
        title: "Title".to_string(),
        summary: None,
        source: "Wire".to_string(),
        url: None,
        symbols: list,
        sentiment_score: score,
        published_at: at(0),
        received_at: at(0),
    }
}

#[test]
fn sentiment_needs_three_articles_that_agree() {
    let mut a = SentimentAnalyzer::new();
    let half = Some(Fixed { units: -500_000 });
    assert!(a.on_news_at(&article(&["AAPL"], half), at(0)).is_empty());
    assert!(a.on_news_at(&article(&["AAPL", "MSFT"], half), at(10)).is_empty());
    let signals = a.on_news_at(&article(&["AAPL", "MSFT"], half), at(20));
    assert_eq!(signals.len(), 1);
    let s: &SignalValue<Fixed> = &signals[0];
    assert_eq!(s.name, "news_sentiment");
    assert_eq!(s.value, Fixed { units: -500_000 });
    assert_eq!(s.direction, fx(-1));
    assert_eq!(s.confidence, Fixed { units: 500_000 });
    assert_eq!(s.symbols[0].as_str(), "AAPL");
    assert_eq!(s.timestamp, at(20));
    // opposite news bring the average below the threshold
    assert!(a.on_news_at(&article(&["AAPL"], Some(fx(1))), at(30)).is_empty());
}

#[test]
fn an_article_counts_once_for_a_symbol() {
    let mut a = SentimentAnalyzer::new();
    let strong = Some(Fixed { units: 900_000 });
    assert!(a.on_news_at(&article(&["AAPL", "AAPL", "AAPL"], strong), at(0)).is_empty());
    assert!(a.on_news_at(&article(&["AAPL", "MSFT", "AAPL"], strong), at(1)).is_empty());
    assert_eq!(a.on_news_at(&article(&["AAPL", "AAPL"], strong), at(2)).len(), 1);
}

#[test]
fn news_is_booked_as_it_comes_in() {
    let mut a = SentimentAnalyzer::new();
    let strong = Some(Fixed { units: 900_000 });
    assert!(a.on_news(&article(&["AAPL"], strong)).is_empty());
    assert!(a.on_news(&article(&["AAPL"], strong)).is_empty());
    let found = a.on_news(&article(&["AAPL"], strong));
    assert_eq!(found.len(), 1);
    assert_eq!(found[0].symbols[0].as_str(), "AAPL");
}

#[test]
fn coarse_numbers_see_flat_prices_too() {
    let mut a = technical();
    for i in 0..9 {
        let s = a.on_tick(&tick("SPY", AssetClass::Equity, 100, 0, 60 * i));
        if i == 8 {
            assert_eq!(s.unwrap().name, "rsi_overbought");
        } else {
            assert!(s.is_none());
        }
    }
    assert_eq!(a.get_rsi(&Symbol::new("SPY")), Some(fx(100)));
}

#[test]
fn faint_sentiment_is_passed_over() {
    let mut a = SentimentAnalyzer::new();
    let faint = Some(Fixed { units: 99_999 });
    let full = Some(fx(1));
    for _i in 0..5 {
        assert!(a.on_news_at(&article(&["AAPL"], faint), at(0)).is_empty());
        assert!(a.on_news_at(&article(&["AAPL"], None), at(0)).is_empty());
    }
    assert!(a.on_news_at(&article(&["AAPL"], full), at(0)).is_empty());
    assert!(a.on_news_at(&article(&["AAPL"], full), at(0)).is_empty());
    assert_eq!(a.on_news_at(&article(&["AAPL"], full), at(0)).len(), 1);
}

#[test]
fn old_articles_no_longer_count() {
    let mut a = SentimentAnalyzer::new();
    let full = Some(fx(1));
    a.on_news_at(&article(&["AAPL"], full), at(0));
    a.on_news_at(&article(&["AAPL"], full), at(0));
    assert!(a.on_news_at(&article(&["AAPL"], full), at(3601)).is_empty());
}

fn config() -> SignalsConfig<Fixed> {
    SignalsConfig {
        cross_asset: CrossAssetSignalConfig {
            enabled: true,
            vol_window_secs: 10,
            min_ticks: 2,
            z_score_threshold: fx(3),
            correlation_window_secs: 100_000,
            signal_cooldown_secs: 300,
        },
        technical: TechnicalSignalConfig {
            enabled: true,
            rsi_period: 3,
            rsi_overbought: fx(70),
            rsi_oversold: fx(30),
            vwap_deviation_threshold: Fixed { units: 20_000 },
            volume_spike_multiplier: fx(3),
        },
    }
}

#[test]
fn warmup_holds_signals_back_but_learns() {
    let mut e = SignalEngine::new_at(&config(), 500, at(0));
    for i in 0..9 {
        assert!(e.on_event_at(&Event::Tick(equity(100 + i, 60 * i)), at(60 * i)).is_empty());
    }
    assert_eq!(e.counts(), (9, 0, 1));
    assert!(e.technical_analyzer().get_rsi(&Symbol::new("SPY")).is_some());
    assert!(e.cross_asset_analyzer().get_vol(&Symbol::new("SPY")).is_none());
    assert!(e.on_event_at(&Event::Tick(equity(109, 540)), at(540)).is_empty());
    let signals = e.on_event_at(&Event::Tick(equity(110, 600)), at(600));
    assert_eq!(signals.len(), 1);
    assert_eq!(signals[0].name, "rsi_overbought");
    assert_eq!(e.counts(), (11, 1, 1));
}

#[test]
fn other_events_are_only_counted() {
    let mut e = SignalEngine::new(&config(), 0);
    let now = utc_now();
    let stop: Event<Fixed> = Event::SystemCommand(SystemCommand::Shutdown { timestamp: now });
    assert!(e.on_event(&stop).is_empty());
    assert_eq!(e.counts(), (1, 0, 0));
    let full = Some(fx(1));
    for _i in 0..2 {
        assert!(e.on_event(&Event::News(article(&["AAPL"], full))).is_empty());
    }
    assert_eq!(e.on_event(&Event::News(article(&["AAPL"], full))).len(), 1);
}

#[test]
fn changed_settings_keep_what_was_seen() {
    let mut e = SignalEngine::new_at(&config(), 0, at(0));
    for i in 0..8 {
        assert!(e.on_event_at(&Event::Tick(equity(100 + i, 60 * i)), at(60 * i)).is_empty());
    }
    let mut other = config();
    other.technical.rsi_overbought = fx(101);
    e.reconfigure(&other);
    assert!(e.on_event_at(&Event::Tick(equity(108, 480)), at(480)).is_empty());
    e.reconfigure(&config());
    assert_eq!(e.on_event_at(&Event::Tick(equity(109, 540)), at(540)).len(), 1);
}
