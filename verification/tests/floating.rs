//! The engine on hardware floating point.
use algoquant::config::RiskConfig;
use algoquant::ingestion::finnhub::{score_sentiment, score_words};
use algoquant::number::Number;
use algoquant::risk::{RiskDecision, RiskManager};
use algoquant::signals::cross_asset::{compute_realized_vol, mean, std_dev};
use algoquant::signals::technical::{MiniBar, TechnicalAnalyzer};
use algoquant::time::utc_now;
use algoquant::types::{
    Order, OrderSide, OrderStatus, OrderType, PortfolioState, Symbol, TimeInForce,
};
use algoquant::window::RollingWindow;
use rust_decimal::prelude::ToPrimitive;
use rust_decimal::Decimal;

#[derive(Clone, Copy, Debug)]
struct F64(f64);

impl Number for F64 {
    fn ratio(num: i64, den: i64) -> F64 {
        F64(num as f64 / den as f64)
    }

    fn count(n: usize) -> F64 {
        F64(n as f64)
    }

    fn plus(self, other: F64) -> F64 {
        F64(self.0 + other.0)
    }

    fn minus(self, other: F64) -> F64 {
        F64(self.0 - other.0)
    }

    fn times(self, other: F64) -> F64 {
        F64(self.0 * other.0)
    }

    fn over(self, other: F64) -> F64 {
        F64(self.0 / other.0)
    }

    fn below(self, other: F64) -> bool {
        self.0 < other.0
    }

    fn at_most(self, other: F64) -> bool {
        self.0 <= other.0
    }

    fn floor(self) -> F64 {
        F64(self.0.floor())
    }

    fn sqrt(self) -> F64 {
        F64(self.0.sqrt())
    }

    fn ln(self) -> F64 {
        F64(self.0.ln())
    }

    fn from_decimal(amount: Decimal) -> Option<F64> {
        match amount.to_f64() {
            Some(v) => Some(F64(v)),
            None => None,
        }
    }

    fn to_decimal(self) -> Option<Decimal> {
        Decimal::from_f64_retain(self.0)
    }

    fn text(self) -> String {
        self.0.to_string()
    }

    fn text_places(self, places: usize) -> String {
        format!("{:.*}", places, self.0)
    }
}

fn score(headline: &str, summary: &str) -> f64 {
    let s: F64 = score_sentiment(headline, summary);
    s.0
}

#[test]
fn test_strong_negative_sentiment() {
    let s = score("Markets crash on recession fears", "The stock market plunged today");
    assert!(s < -0.5, "Expected strong negative, got {s}");
}

#[test]
fn test_strong_positive_sentiment() {
    let s = score("NVDA beats earnings, stock surges to record", "Revenue growth exceeds expectations");
    assert!(s > 0.5, "Expected strong positive, got {s}");
}

#[test]
fn test_neutral_sentiment() {
    let s = score("Company reports quarterly results", "The company filed standard regulatory documents");
    assert!(s.abs() < 0.3, "Expected neutral, got {s}");
}

#[test]
fn test_mixed_sentiment() {
    let s = score("Stock rises despite concerns", "Positive earnings but weak guidance");
    // Mixed signals should land near zero
    assert!(s.abs() < 0.6, "Expected mild/mixed, got {s}");
}

fn test_config() -> RiskConfig<F64> {
    RiskConfig {
        max_position_pct: F64(0.05),
        max_total_exposure_pct: F64(0.50),
        max_drawdown_pct: F64(0.05),
        max_open_orders: 10,
        min_trade_interval_secs: 60,
        max_order_notional: F64(10000.0),
        daily_loss_limit_pct: F64(0.02),
    }
}

fn test_portfolio() -> PortfolioState {
    PortfolioState {
        equity: Decimal::from(100000),
        cash: Decimal::from(100000),
        buying_power: Decimal::from(200000),
        positions: vec![],
        timestamp: utc_now(),
    }
}

fn test_order(symbol: &str, qty: u32) -> Order {
    Order {
        id: "test".to_string(),
        symbol: Symbol::new(symbol),
        side: OrderSide::Sell,
        order_type: OrderType::Market,
        quantity: Decimal::from(qty),
        limit_price: None,
        stop_price: None,
        time_in_force: TimeInForce::Day,
        status: OrderStatus::Pending,
        filled_qty: Decimal::ZERO,
        filled_avg_price: None,
        strategy_id: "test".to_string(),
        created_at: utc_now(),
        updated_at: utc_now(),
    }
}

#[test]
fn test_market_order_without_price_data_is_rejected() {
    let rm = RiskManager::new(test_config());
    let order = test_order("SPY", 100);
    let decision = rm.evaluate_order(&order, &test_portfolio(), 0);
    assert!(
        matches!(decision, RiskDecision::Rejected(_)),
        "Market order with no price data should be rejected, got {decision:?}"
    );
}

#[test]
fn test_market_order_with_price_data_is_sized() {
    let mut rm = RiskManager::new(test_config());
    rm.update_price(&Symbol::new("SPY"), F64(500.0));
    // 100 * 500 = $50,000, half of the equity, over the 5% limit
    let order = test_order("SPY", 100);
    let decision = rm.evaluate_order(&order, &test_portfolio(), 0);
    assert!(
        matches!(decision, RiskDecision::ReducedSize { .. }),
        "Should reduce size, got {decision:?}"
    );
}

#[test]
fn test_small_order_approved() {
    let mut rm = RiskManager::new(test_config());
    rm.update_price(&Symbol::new("SPY"), F64(500.0));
    // 5 * 500 = $2,500, 2.5% of the equity, under the 5% limit
    let order = test_order("SPY", 5);
    let decision = rm.evaluate_order(&order, &test_portfolio(), 0);
    assert!(
        matches!(decision, RiskDecision::Approved),
        "Small order should be approved, got {decision:?}"
    );
}

#[test]
fn test_notional_cap() {
    let mut rm = RiskManager::new(test_config());
    rm.update_price(&Symbol::new("AMZN"), F64(200.0));
    // 100 * 200 = $20,000, over the $10k notional cap
    let order = test_order("AMZN", 100);
    let decision = rm.evaluate_order(&order, &test_portfolio(), 0);
    match decision {
        RiskDecision::ReducedSize { new_quantity, .. } => {
            let max_shares = new_quantity.to_f64().unwrap();
            assert!(max_shares <= 50.0, "Should cap at ~50 shares, got {max_shares}");
        }
        other => panic!("Expected ReducedSize, got {other:?}"),
    }
}

#[test]
fn test_circuit_breaker() {
    let mut rm = RiskManager::new(test_config());
    let mut portfolio = test_portfolio();
    rm.update_portfolio(&portfolio);

    portfolio.equity = Decimal::from(94000); // 6% drawdown > 5% limit
    rm.update_portfolio(&portfolio);

    assert!(rm.is_circuit_breaker_tripped());

    let order = test_order("SPY", 1);
    let decision = rm.evaluate_order(&order, &portfolio, 0);
    assert!(matches!(decision, RiskDecision::Rejected(_)));
}

#[test]
fn test_compute_realized_vol_basic() {
    let mut window = RollingWindow::new();
    let base = utc_now();
    // Constant prices have no volatility
    for i in 0..100 {
        let at = base.plus_seconds(i);
        window.push(F64(100.0), at, at, 3600);
    }
    let vol = compute_realized_vol(&window).0;
    assert!(vol < 1e-10, "Constant prices should have ~zero vol, got {vol}");
}

#[test]
fn test_compute_realized_vol_with_movement() {
    let mut window = RollingWindow::new();
    let base = utc_now();
    for i in 0..100 {
        let price = 100.0 + (i as f64 * 0.1).sin() * 2.0;
        let at = base.plus_seconds(i);
        window.push(F64(price), at, at, 3600);
    }
    let vol = compute_realized_vol(&window).0;
    assert!(vol > 0.0, "Oscillating prices should have positive vol");
    assert!(vol < 1.0, "Vol should be reasonable, got {vol}");
}

fn numbers(values: &[f64]) -> Vec<F64> {
    let mut out = Vec::new();
    for v in values {
        out.push(F64(*v));
    }
    out
}

#[test]
fn test_mean_and_std_dev() {
    let values = numbers(&[2.0, 4.0, 4.0, 4.0, 5.0, 5.0, 7.0, 9.0]);
    let m = mean(&values);
    assert!((m.0 - 5.0).abs() < 1e-10);
    let s = std_dev(&values, m).0;
    assert!((s - 2.0).abs() < 0.1, "Expected std ~2.0, got {s}");
}

#[test]
fn test_z_score_threshold() {
    let values = numbers(&[1.0, 1.0, 1.0, 1.0, 1.0, 1.0, 1.0, 1.0, 1.0, 5.0]);
    let m = mean(&values);
    let s = std_dev(&values, m);
    let z = (5.0 - m.0) / s.0;
    assert!(z > 2.0, "Outlier should have z > 2, got {z}");
}

fn make_bar(close: f64, volume: f64) -> MiniBar<F64> {
    MiniBar { close: F64(close), vwap: F64(close), volume: F64(volume) }
}

fn test_analyzer() -> TechnicalAnalyzer<F64> {
    TechnicalAnalyzer::new(14, F64(70.0), F64(30.0), F64(0.02), F64(3.0))
}

#[test]
fn test_rsi_overbought() {
    let analyzer = test_analyzer();
    let mut history = Vec::new();
    for i in 0..20 {
        history.push(make_bar(100.0 + i as f64, 1000.0));
    }
    let rsi = analyzer.compute_rsi(&history).unwrap().0;
    assert!(rsi > 90.0, "Steadily rising bars should have RSI > 90, got {rsi}");
}

#[test]
fn test_rsi_oversold() {
    let analyzer = test_analyzer();
    let mut history = Vec::new();
    for i in 0..20 {
        history.push(make_bar(100.0 - i as f64, 1000.0));
    }
    let rsi = analyzer.compute_rsi(&history).unwrap().0;
    assert!(rsi < 10.0, "Steadily falling bars should have RSI < 10, got {rsi}");
}

#[test]
fn test_rsi_neutral() {
    let analyzer = test_analyzer();
    let mut history = Vec::new();
    for i in 0..20 {
        let close = 100.0 + if i % 2 == 0 { 1.0 } else { -1.0 };
        history.push(make_bar(close, 1000.0));
    }
    let rsi = analyzer.compute_rsi(&history).unwrap().0;
    assert!(rsi > 40.0 && rsi < 60.0, "Alternating prices should have RSI ~50, got {rsi}");
}

#[test]
fn test_vwap_computation() {
    let analyzer = test_analyzer();
    let mut history = Vec::new();
    for _i in 0..10 {
        history.push(make_bar(100.0, 100.0));
    }
    let (vwap, dev) = analyzer.compute_vwap(&history);
    assert!((vwap.unwrap().0 - 100.0).abs() < 0.01);
    assert!(dev.unwrap().0.abs() < 0.001, "Zero deviation expected for constant prices");
}

#[test]
fn volume_ratio_is_the_last_volume_over_the_average() {
    let analyzer = test_analyzer();
    let mut history = Vec::new();
    for volume in [100.0, 100.0, 100.0, 0.0, 100.0, 600.0] {
        history.push(make_bar(100.0, volume));
    }
    // (100 + 100 + 100 + 100 + 600) / 5 = 200; the bar without volume does not count
    assert_eq!(analyzer.compute_volume_ratio(&history).unwrap().0, 3.0);
    history.pop();
    assert!(analyzer.compute_volume_ratio(&history).is_none());
}

#[test]
fn vwap_weighs_closes_by_volume() {
    let analyzer = test_analyzer();
    let history = vec![make_bar(100.0, 1.0), make_bar(200.0, 3.0), make_bar(500.0, 0.0)];
    let (vwap, dev) = analyzer.compute_vwap(&history);
    assert_eq!(vwap.unwrap().0, 175.0);
    assert_eq!(dev.unwrap().0, 325.0 / 175.0);
    let (none, no_dev) = analyzer.compute_vwap(&Vec::new());
    assert!(none.is_none() && no_dev.is_none());
}

#[test]
fn rsi_follows_its_formula() {
    let analyzer: TechnicalAnalyzer<F64> =
        TechnicalAnalyzer::new(3, F64(70.0), F64(30.0), F64(0.02), F64(3.0));
    let mut history = Vec::new();
    for close in [10.0, 11.0, 14.0, 13.0] {
        history.push(make_bar(close, 1.0));
    }
    // gains 4, losses 1: 100 - 100 / (1 + 4)
    assert!((analyzer.compute_rsi(&history).unwrap().0 - 80.0).abs() < 1e-9);
    history.pop();
    assert!(analyzer.compute_rsi(&history).is_none());
}

#[test]
fn sentiment_is_the_mean_weight_of_the_words() {
    // crash and recession, a word each
    assert_eq!(score("Markets crash", "recession"), -1.0);
    // beat counts one, weak minus 0.4
    assert_eq!(score("BEAT", "weak"), (1.0 - 0.4) / 2.0);
    assert_eq!(score("", ""), 0.0);
    // a word counts once, however often it stands there
    assert!((score("crash crash", "rise") - (-0.3)).abs() < 1e-9);
    assert_eq!(score("layoffs", ""), -1.0);
    assert_eq!(score("record earnings", ""), 1.0);
}

#[test]
fn letter_case_does_not_matter_to_the_score() {
    let a = score("Markets CRASH on Recession fears", "The Stock Market plunged today");
    let b = score("mARKETS crash ON rECESSION FEARS", "the stock market PLUNGED TODAY");
    assert_eq!(a, b);
    assert!(a < -0.5);
    let words: F64 = score_words("beat weak");
    assert_eq!(words.0, (1.0 - 0.4) / 2.0);
}

#[test]
fn prices_without_a_fall_have_full_strength() {
    let analyzer: TechnicalAnalyzer<F64> =
        TechnicalAnalyzer::new(2, F64(70.0), F64(30.0), F64(0.02), F64(3.0));
    let flat = vec![make_bar(5.0, 0.0), make_bar(5.0, 0.0), make_bar(5.0, 0.0)];
    assert_eq!(analyzer.compute_rsi(&flat).unwrap().0, 100.0);
    assert!(matches!(analyzer.compute_vwap(&flat), (None, None)));
    let (vwap, dev) = analyzer.compute_vwap(&vec![
        make_bar(100.0, 100.0),
        make_bar(500.0, 0.0),
        make_bar(200.0, 300.0),
    ]);
    assert!((vwap.unwrap().0 - 175.0).abs() < 1e-9);
    assert!((dev.unwrap().0 - 1.0 / 7.0).abs() < 1e-9);
}

fn is_number(x: F64) -> bool {
    x.at_most(x)
}

fn is_finite(x: F64) -> bool {
    is_number(x.minus(x))
}

fn magnitude(x: F64) -> F64 {
    if x.below(F64(0.0)) {
        F64(0.0).minus(x)
    } else {
        x
    }
}

#[test]
fn floating_point_fits_its_order() {
    let values = [
        0.0, -0.0, 1.0, -1.0, 0.4, 100.0, 99.99, 1e-300, 5e-324, -5e-324, 1.0 / 3.0, 1e16, 1e308,
        f64::MAX, f64::MIN, f64::INFINITY, f64::NEG_INFINITY, f64::NAN,
    ];
    let nothing = F64(0.0);
    let one = F64(1.0);
    for x in values {
        let a = F64(x);
        assert_eq!(is_number(a), !x.is_nan());
        assert_eq!(is_finite(a), x.is_finite());
        assert!(!nothing.at_most(a) || a.at_most(nothing) || nothing.below(a));
        assert!(!nothing.below(a) || nothing.at_most(a));
        assert!(!is_number(a) || nothing.at_most(magnitude(a)));
        assert!(!nothing.at_most(a) || one.at_most(one.plus(a)));
        for n in [1, 2, 14, 1000] {
            let average = a.over(F64::count(n));
            assert!(!is_finite(a) || is_finite(average));
            assert!(!nothing.at_most(a) || nothing.at_most(average));
            assert_eq!(nothing.over(F64::count(n)).0.to_bits(), 0);
        }
        for y in values {
            let b = F64(y);
            if is_finite(a) && is_finite(b) {
                let change = b.minus(a);
                assert!(is_number(change));
                if a.at_most(b) && !nothing.below(change) {
                    assert_eq!(nothing.plus(magnitude(change)).0.to_bits(), 0);
                }
            }
            if nothing.at_most(a) && nothing.at_most(b) {
                assert!(nothing.at_most(a.plus(b)));
                if nothing.below(b) && (is_finite(a) || is_finite(b)) {
                    assert!(nothing.at_most(a.over(b)));
                }
                if is_finite(a) && one.at_most(b) {
                    assert!(nothing.at_most(a.over(b)) && a.over(b).at_most(a));
                }
                if is_finite(a) && b.at_most(a) {
                    assert!(nothing.at_most(a.minus(b)) && a.minus(b).at_most(a));
                }
            }
        }
    }
}

#[test]
fn floating_point_weights_have_a_bounded_mean() {
    let within = |x: F64, n: usize| {
        F64(0.0).minus(F64::count(n)).at_most(x) && x.at_most(F64::count(n))
    };
    assert!(within(F64(0.0), 0));
    for n in 0..1000 {
        for share in [-1.0, -0.999, -1.0 / 3.0, 0.0, 0.1, 0.7, 1.0] {
            let x = F64(share * n as f64);
            assert!(within(x, n));
            for w in [0.0, 0.4, 1.0] {
                assert!(within(x.plus(F64(w)), n + 1));
                assert!(within(x.minus(F64(w)), n + 1));
            }
            if n > 0 {
                let mean = x.over(F64::count(n));
                assert!(F64(-1.0).at_most(mean) && mean.at_most(F64(1.0)));
            }
        }
    }
}

#[test]
fn the_strength_of_extreme_prices_is_an_index() {
    let analyzer: TechnicalAnalyzer<F64> =
        TechnicalAnalyzer::new(2, F64(70.0), F64(30.0), F64(0.02), F64(3.0));
    let strength = |closes: [f64; 3]| {
        let bars: Vec<_> = closes.iter().map(|c| make_bar(*c, 0.0)).collect();
        analyzer.compute_rsi(&bars).unwrap().0
    };
    // rises without end, and falls without end
    assert_eq!(strength([1.0, -f64::MAX, f64::MAX]), 100.0);
    assert_eq!(strength([f64::MAX, -f64::MAX, 1.0]), 0.0);
    assert_eq!(strength([0.0, -0.0, 0.0]), 100.0);
    assert_eq!(strength([1.0, 3.0, 2.0]), 100.0 - 100.0 / 3.0);
    // both at once have no ratio
    assert!(strength([f64::MAX, -f64::MAX, f64::MAX]).is_nan());
}

#[test]
fn a_day_of_losses_stops_orders() {
    let mut rm = RiskManager::new(test_config());
    rm.update_price(&Symbol::new("SPY"), F64(500.0));
    let mut portfolio = test_portfolio();
    rm.update_portfolio(&portfolio);
    portfolio.equity = Decimal::from(97000);
    rm.update_portfolio(&portfolio);
    let decision = rm.evaluate_order(&test_order("SPY", 5), &portfolio, 0);
    assert!(matches!(decision, RiskDecision::Rejected(_)));
    assert!(!rm.is_circuit_breaker_tripped());
}

#[test]
fn standard_deviation_divides_by_the_count() {
    let values = numbers(&[1.0, 3.0]);
    assert_eq!(std_dev(&values, F64(2.0)).0, 1.0);
    assert_eq!(std_dev(&numbers(&[7.0]), F64(7.0)).0, 0.0);
    assert_eq!(mean(&numbers(&[])).0, 0.0);
}

#[test]
fn refusals_show_their_figures() {
    let mut rm = RiskManager::new(test_config());
    rm.update_price(&Symbol::new("AMZN"), F64(200.0));
    let decision = rm.evaluate_order(&test_order("AMZN", 100), &test_portfolio(), 0);
    match decision {
        RiskDecision::ReducedSize { new_quantity, reason } => {
            assert_eq!(new_quantity, Decimal::from(50));
            assert_eq!(reason, "Notional $20000 exceeds max $10000, reduced to 50 shares");
        }
        other => panic!("Expected ReducedSize, got {other:?}"),
    }
    rm.update_price(&Symbol::new("SPY"), F64(500.0));
    let mut small = test_config();
    small.max_order_notional = F64(1000000.0);
    let mut rm = RiskManager::new(small);
    rm.update_price(&Symbol::new("SPY"), F64(500.0));
    match rm.evaluate_order(&test_order("SPY", 100), &test_portfolio(), 0) {
        RiskDecision::ReducedSize { new_quantity, reason } => {
            assert_eq!(new_quantity, Decimal::from(10));
            assert_eq!(reason, "Position 50.0% exceeds max 5%, reduced to 10 shares");
        }
        other => panic!("Expected ReducedSize, got {other:?}"),
    }
}
