//! The rules that every order has to pass, and the circuit breaker.
use crate::config::RiskConfig;
use crate::number::fixed::{law_fixed_rounds_down, lemma_parts_are_all, Fixed};
use crate::number::{
    abs, amount_of, decimal_or, decimal_value, difference, floored, functional, is_number,
    lemma_compared, lemma_difference_order, lemma_difference_sign, lemma_in_order, lemma_literals,
    lemma_magnitude, lemma_quotient_order, lemma_sum_follows, lemma_sum_order, less, lit, magnitude,
    monotone, no_more, one, ordered, product, quotient, rounds_down, shares_amount, shown,
    shown_places, sum, total, value_or, zero, Number,
};
use crate::symbol_map::SymbolMap;
use crate::text::{
    copy_text, digits, integer_digits, integer_text, law_texts_are_found_wherever_they_stand,
    natural_text, occurs,
};
use crate::time::{signed, signed_seconds, utc_now, Timestamp};
use crate::types::{
    Order, PortfolioState, PortfolioView, Position, PositionView, Symbol, Terms,
};
use rust_decimal::Decimal;
use vstd::prelude::*;

verus! {

/// Keeps track of prices, trades and equity, and judges orders by them.
pub struct RiskManager<N: Number> {
    config: RiskConfig<N>,
    last_trade_time: SymbolMap<Timestamp>,
    peak_equity: N,
    circuit_breaker_tripped: bool,
    /// Last known prices for market order value estimation.
    last_prices: SymbolMap<N>,
    /// The first look at the portfolio of the latest day.
    day_start: Option<DayStart<N>>,
}

/// What becomes of an order.
#[derive(Debug)]
pub enum RiskDecision {
    Approved,
    Rejected(String),
    ReducedSize { new_quantity: Decimal, reason: String },
}

/// A decision as a mathematical value.
pub enum DecisionView {
    Approved,
    Rejected(Seq<char>),
    ReducedSize { new_quantity: Decimal, reason: Seq<char> },
}

impl View for RiskDecision {
    type V = DecisionView;

    open spec fn view(&self) -> DecisionView {
        match self {
            RiskDecision::Approved => DecisionView::Approved,
            RiskDecision::Rejected(reason) => DecisionView::Rejected(reason@),
            RiskDecision::ReducedSize { new_quantity, reason } => DecisionView::ReducedSize {
                new_quantity: *new_quantity,
                reason: reason@,
            },
        }
    }
}

/// A day and the equity at its start.
#[derive(Debug)]
pub struct DayStart<N> {
    /// The number of the day since the epoch.
    pub day: i64,
    pub equity: N,
}

impl<N: Copy> Clone for DayStart<N> {
    fn clone(&self) -> (r: Self)
        ensures
            r == *self,
    {
        *self
    }
}

impl<N: Copy> Copy for DayStart<N> {

}

/// The state of a risk manager as a mathematical value.
#[verifier::ext_equal]
pub struct RiskView<N> {
    pub config: RiskConfig<N>,
    pub trades: Map<Seq<char>, Timestamp>,
    pub peak: N,
    pub tripped: bool,
    pub prices: Map<Seq<char>, N>,
    /// The first look at the portfolio of the latest day.
    pub day_start: Option<DayStart<N>>,
}

/// Why an order is let through, cut down or turned away, with the figures that
/// decided it.
pub enum Verdict<N> {
    Approved,
    Halted,
    TooManyOpen,
    Cooldown { elapsed: i128 },
    NoEquity,
    DailyLoss { loss: N },
    NotionalTooSmall { value: N },
    NotionalCapped { value: N, shares: N },
    PositionTooSmall { share: N },
    PositionCapped { share: N, shares: N },
    Exposed { share: N },
    Unpriced,
}

/// The price at which an order is valued: its limit price, else its stop price,
/// else the last known price of its symbol, else zero.
pub open spec fn order_price<N: Number>(state: RiskView<N>, order: Terms) -> N {
    if order.limit_price is Some && decimal_value::<N>(order.limit_price->0) is Some {
        decimal_value::<N>(order.limit_price->0)->0
    } else if order.stop_price is Some && decimal_value::<N>(order.stop_price->0) is Some {
        decimal_value::<N>(order.stop_price->0)->0
    } else if state.prices.contains_key(order.symbol) {
        state.prices[order.symbol]
    } else {
        zero::<N>()
    }
}

/// The value of an order: quantity times price.
pub open spec fn order_value<N: Number>(state: RiskView<N>, order: Terms) -> N {
    product(decimal_or(order.quantity, zero::<N>()), order_price(state, order))
}

/// What the account has at stake: the magnitudes of the positions' values, added
/// up in order.
pub open spec fn exposure<N: Number>(positions: Seq<PositionView>) -> N {
    total(
        positions.map_values(
            |p: PositionView| magnitude(decimal_or(p.market_value, zero::<N>())),
        ),
    )
}

/// Whether the symbol was traded too recently.
pub open spec fn cooling_down<N: Number>(
    state: RiskView<N>,
    symbol: Seq<char>,
    now: Timestamp,
) -> bool {
    &&& state.trades.contains_key(symbol)
    &&& now.elapsed(state.trades[symbol]) < signed_seconds(state.config.min_trade_interval_secs)
}

/// The price at which an order over a limit is sized: the last known price of its symbol,
/// or one where there is none, but no less than the price at which the order is valued.
pub open spec fn sizing_price<N: Number>(state: RiskView<N>, order: Terms) -> N {
    let known = if state.prices.contains_key(order.symbol) {
        state.prices[order.symbol]
    } else {
        one::<N>()
    };
    if less(order_price(state, order), known) {
        known
    } else {
        order_price(state, order)
    }
}

/// The number of shares that the notional limit allows at the price for sizing.
pub open spec fn notional_shares<N: Number>(state: RiskView<N>, order: Terms) -> N {
    floored(quotient(state.config.max_order_notional, sizing_price(state, order)))
}

/// The number of shares that the position limit allows at the price for sizing.
pub open spec fn position_shares<N: Number>(state: RiskView<N>, order: Terms, equity: N) -> N {
    floored(
        quotient(product(equity, state.config.max_position_pct), sizing_price(state, order)),
    )
}

/// The loss since the start of the portfolio's day, as a fraction of the equity then;
/// `None` where the start is not known or was not positive.
pub open spec fn daily_loss<N: Number>(state: RiskView<N>, portfolio: PortfolioView) -> Option<N> {
    match state.day_start {
        Some(start) => if start.day == portfolio.timestamp.day_number() && less(
            zero::<N>(),
            start.equity,
        ) {
            let equity = decimal_or(portfolio.equity, zero::<N>());
            Some(quotient(difference(start.equity, equity), start.equity))
        } else {
            None
        },
        None => None,
    }
}

/// Whether the loss of the day reaches its limit.
pub open spec fn daily_loss_reached<N: Number>(
    state: RiskView<N>,
    portfolio: PortfolioView,
) -> bool {
    match daily_loss(state, portfolio) {
        Some(loss) => no_more(state.config.daily_loss_limit_pct, loss),
        None => false,
    }
}

/// How an order is judged. The rules apply in turn: breaker, number of open
/// orders, cooldown, equity, loss of the day, notional, position size, total exposure,
/// price data.
pub open spec fn judge<N: Number>(
    state: RiskView<N>,
    order: Terms,
    portfolio: PortfolioView,
    open_orders: usize,
    now: Timestamp,
) -> Verdict<N> {
    let config = state.config;
    let equity = decimal_or(portfolio.equity, zero::<N>());
    let value = order_value(state, order);
    let priced = less(zero::<N>(), sizing_price(state, order));
    let share = quotient(value, equity);
    let total_share = quotient(sum(exposure(portfolio.positions), value), equity);
    if state.tripped {
        Verdict::Halted
    } else if open_orders >= config.max_open_orders {
        Verdict::TooManyOpen
    } else if cooling_down(state, order.symbol, now) {
        Verdict::Cooldown { elapsed: now.elapsed(state.trades[order.symbol]) as i128 }
    } else if no_more(equity, zero::<N>()) {
        Verdict::NoEquity
    } else if daily_loss_reached(state, portfolio) {
        Verdict::DailyLoss { loss: daily_loss(state, portfolio)->0 }
    } else if less(config.max_order_notional, value) {
        let shares = notional_shares(state, order);
        if !priced || less(shares, one::<N>()) {
            Verdict::NotionalTooSmall { value }
        } else {
            Verdict::NotionalCapped { value, shares }
        }
    } else if less(config.max_position_pct, share) {
        let shares = position_shares(state, order, equity);
        if !priced || less(shares, one::<N>()) {
            Verdict::PositionTooSmall { share }
        } else {
            Verdict::PositionCapped { share, shares }
        }
    } else if less(config.max_total_exposure_pct, total_share) {
        Verdict::Exposed { share: total_share }
    } else if less(value, lit::<N>(1, 100)) {
        Verdict::Unpriced
    } else {
        Verdict::Approved
    }
}

/// A fraction as a percentage.
pub open spec fn percent<N: Number>(fraction: N) -> N {
    product(fraction, lit::<N>(100, 1))
}

/// The decision that a verdict comes to, with the reason in words.
pub open spec fn decision<N: Number>(
    config: RiskConfig<N>,
    symbol: Seq<char>,
    open_orders: usize,
    verdict: Verdict<N>,
) -> DecisionView {
    match verdict {
        Verdict::Approved => DecisionView::Approved,
        Verdict::Halted => DecisionView::Rejected("Circuit breaker is tripped — trading halted"@),
        Verdict::TooManyOpen => DecisionView::Rejected(
            "Too many open orders ("@ + digits(open_orders as nat) + " >= "@ + digits(
                config.max_open_orders as nat,
            ) + ")"@,
        ),
        Verdict::Cooldown { elapsed } => DecisionView::Rejected(
            "Trade cooldown: "@ + integer_digits(elapsed as int) + "s < "@ + digits(
                config.min_trade_interval_secs as nat,
            ) + "s since last trade on "@ + symbol,
        ),
        Verdict::NoEquity => DecisionView::Rejected("Portfolio equity is zero or negative"@),
        Verdict::DailyLoss { loss } => DecisionView::Rejected(
            "Daily loss "@ + shown_places(percent(loss), 1) + "% reaches limit "@ + shown_places(
                percent(config.daily_loss_limit_pct),
                1,
            ) + "% — no more orders today"@,
        ),
        Verdict::NotionalTooSmall { value } => DecisionView::Rejected(
            "Order notional $"@ + shown_places(value, 0) + " exceeds max $"@ + shown_places(
                config.max_order_notional,
                0,
            ) + " and can't reduce to 1 share"@,
        ),
        Verdict::NotionalCapped { value, shares } => DecisionView::ReducedSize {
            new_quantity: shares_amount(shares),
            reason: "Notional $"@ + shown_places(value, 0) + " exceeds max $"@ + shown_places(
                config.max_order_notional,
                0,
            ) + ", reduced to "@ + shown(shares) + " shares"@,
        },
        Verdict::PositionTooSmall { share } => DecisionView::Rejected(
            "Position "@ + shown_places(share, 1) + "% of equity exceeds "@ + shown_places(
                percent(config.max_position_pct),
                0,
            ) + "% and can't size down"@,
        ),
        Verdict::PositionCapped { share, shares } => DecisionView::ReducedSize {
            new_quantity: shares_amount(shares),
            reason: "Position "@ + shown_places(percent(share), 1) + "% exceeds max "@
                + shown_places(percent(config.max_position_pct), 0) + "%, reduced to "@ + shown(
                shares,
            ) + " shares"@,
        },
        Verdict::Exposed { share } => DecisionView::Rejected(
            "Total exposure would be "@ + shown_places(percent(share), 1) + "% > max "@
                + shown_places(percent(config.max_total_exposure_pct), 1) + "%"@,
        ),
        Verdict::Unpriced => DecisionView::Rejected(
            "Cannot estimate order value for "@ + symbol + " — no price data available"@,
        ),
    }
}

/// The decision on an order at a moment.
pub open spec fn decide<N: Number>(
    state: RiskView<N>,
    order: Terms,
    portfolio: PortfolioView,
    open_orders: usize,
    now: Timestamp,
) -> DecisionView {
    decision(
        state.config,
        order.symbol,
        open_orders,
        judge(state, order, portfolio, open_orders, now),
    )
}

/// The prices after those of the positions have been taken over, as far as they
/// are positive.
pub open spec fn with_position_prices<N: Number>(
    prices: Map<Seq<char>, N>,
    positions: Seq<PositionView>,
) -> Map<Seq<char>, N>
    decreases positions.len(),
{
    if positions.len() == 0 {
        prices
    } else {
        let before = with_position_prices(prices, positions.drop_last());
        let last = positions.last();
        match decimal_value::<N>(last.current_price) {
            Some(price) if less(zero::<N>(), price) => before.insert(last.symbol, price),
            _ => before,
        }
    }
}

/// The highest equity after one more reading.
pub open spec fn raised_peak<N: Number>(peak: N, equity: N) -> N {
    if less(peak, equity) {
        equity
    } else {
        peak
    }
}

/// Whether the fall from the peak reaches the limit.
pub open spec fn drawdown_reached<N: Number>(peak: N, equity: N, limit: N) -> bool {
    less(zero::<N>(), peak) && no_more(limit, quotient(difference(peak, equity), peak))
}

/// The start of the day after a look: the look itself where it is the first of its day.
pub open spec fn day_start_after<N: Number>(
    start: Option<DayStart<N>>,
    day: i64,
    equity: N,
) -> Option<DayStart<N>> {
    match start {
        Some(known) if day <= known.day => start,
        _ => Some(DayStart { day, equity }),
    }
}

/// The state after a look at the portfolio.
pub open spec fn after_portfolio<N: Number>(
    state: RiskView<N>,
    portfolio: PortfolioView,
) -> RiskView<N> {
    let equity = decimal_or(portfolio.equity, zero::<N>());
    let peak = raised_peak(state.peak, equity);
    RiskView {
        peak,
        prices: with_position_prices(state.prices, portfolio.positions),
        tripped: state.tripped || drawdown_reached(peak, equity, state.config.max_drawdown_pct),
        day_start: day_start_after(state.day_start, portfolio.timestamp.day_number(), equity),
        ..state
    }
}

impl<N: Number> View for RiskManager<N> {
    type V = RiskView<N>;

    closed spec fn view(&self) -> RiskView<N> {
        RiskView {
            config: self.config,
            trades: self.last_trade_time@,
            peak: self.peak_equity,
            tripped: self.circuit_breaker_tripped,
            prices: self.last_prices@,
            day_start: self.day_start,
        }
    }
}

impl<N: Number> RiskManager<N> {
    /// The tables that the state is held in are in order.
    pub closed spec fn wf(&self) -> bool {
        self.last_trade_time.wf() && self.last_prices.wf()
    }

    /// A manager that has seen no price, no trade and no equity.
    pub fn new(config: RiskConfig<N>) -> (r: RiskManager<N>)
        requires
            functional::<N>(),
        ensures
            r.wf(),
            r@ == (RiskView {
                config,
                trades: Map::empty(),
                peak: zero::<N>(),
                tripped: false,
                prices: Map::empty(),
                day_start: None,
            }),
    {
        RiskManager {
            config,
            last_trade_time: SymbolMap::new(),
            peak_equity: N::ratio(0, 1),
            circuit_breaker_tripped: false,
            last_prices: SymbolMap::new(),
            day_start: None,
        }
    }

    /// Goes on under other settings with what it has seen.
    pub fn reconfigure(&mut self, config: RiskConfig<N>)
        requires
            old(self).wf(),
        ensures
            final(self).wf(),
            final(self)@ == (RiskView { config, ..old(self)@ }),
    {
        self.config = config;
    }

    /// Takes over the last known price of a symbol.
    pub fn update_price(&mut self, symbol: &Symbol, price: N)
        requires
            old(self).wf(),
        ensures
            final(self).wf(),
            final(self)@ == (RiskView {
                prices: old(self)@.prices.insert(symbol@, price),
                ..old(self)@
            }),
    {
        self.last_prices.insert(symbol.as_str(), price);
    }

    fn known_price(&self, symbol: &Symbol) -> (r: Option<N>)
        requires
            self.wf(),
        ensures
            r == if self@.prices.contains_key(symbol@) {
                Some(self@.prices[symbol@])
            } else {
                None
            },
    {
        match self.last_prices.get(symbol.as_str()) {
            Some(price) => Some(*price),
            None => None,
        }
    }

    /// The notional value of an order at the best available price.
    pub fn estimate_order_value(&self, order: &Order) -> (r: N)
        requires
            self.wf(),
            functional::<N>(),
        ensures
            r == order_value(self@, order@.terms),
    {
        let qty = value_or(order.quantity, N::ratio(0, 1));
        qty.times(self.price_of(order))
    }

    /// The price at which an order is valued.
    fn price_of(&self, order: &Order) -> (r: N)
        requires
            self.wf(),
            functional::<N>(),
        ensures
            r == order_price(self@, order@.terms),
    {
        let limit: Option<N> = match order.limit_price {
            Some(p) => N::from_decimal(p),
            None => None,
        };
        match limit {
            Some(p) => p,
            None => {
                let stop: Option<N> = match order.stop_price {
                    Some(p) => N::from_decimal(p),
                    None => None,
                };
                match stop {
                    Some(p) => p,
                    None => match self.known_price(&order.symbol) {
                        Some(p) => p,
                        None => N::ratio(0, 1),
                    },
                }
            },
        }
    }

    /// The price at which an order over a limit is sized.
    fn sizing_price_of(&self, order: &Order) -> (r: N)
        requires
            self.wf(),
            functional::<N>(),
        ensures
            r == sizing_price(self@, order@.terms),
    {
        let price = self.price_of(order);
        let known = match self.known_price(&order.symbol) {
            Some(p) => p,
            None => N::ratio(1, 1),
        };
        if price.below(known) {
            known
        } else {
            price
        }
    }

    fn loss_of_day(&self, portfolio: &PortfolioState, equity: N) -> (r: Option<N>)
        requires
            functional::<N>(),
            equity == decimal_or(portfolio@.equity, zero::<N>()),
        ensures
            r == daily_loss(self@, portfolio@),
    {
        match self.day_start {
            Some(start) => {
                if start.day == portfolio.timestamp.day() && N::ratio(0, 1).below(start.equity) {
                    Some(start.equity.minus(equity).over(start.equity))
                } else {
                    None
                }
            },
            None => None,
        }
    }

    fn judge_order(
        &self,
        order: &Order,
        portfolio: &PortfolioState,
        open_order_count: usize,
        now: Timestamp,
    ) -> (r: Verdict<N>)
        requires
            self.wf(),
            functional::<N>(),
        ensures
            r == judge(self@, order@.terms, portfolio@, open_order_count, now),
    {
        if self.circuit_breaker_tripped {
            return Verdict::Halted;
        }
        if open_order_count >= self.config.max_open_orders {
            return Verdict::TooManyOpen;
        }
        if let Some(last) = self.last_trade_time.get(order.symbol.as_str()) {
            let elapsed: i128 = now.seconds_since(*last);
            if elapsed < signed(self.config.min_trade_interval_secs) as i128 {
                return Verdict::Cooldown { elapsed };
            }
        }
        let zero = N::ratio(0, 1);
        let one = N::ratio(1, 1);
        let equity = value_or(portfolio.equity, zero);
        if equity.at_most(zero) {
            return Verdict::NoEquity;
        }
        if let Some(loss) = self.loss_of_day(portfolio, equity) {
            if self.config.daily_loss_limit_pct.at_most(loss) {
                return Verdict::DailyLoss { loss };
            }
        }
        let value = self.estimate_order_value(order);
        let price = self.sizing_price_of(order);
        if self.config.max_order_notional.below(value) {
            let shares = self.config.max_order_notional.over(price).floor();
            if !zero.below(price) || shares.below(one) {
                return Verdict::NotionalTooSmall { value };
            }
            return Verdict::NotionalCapped { value, shares };
        }
        let share = value.over(equity);
        if self.config.max_position_pct.below(share) {
            if !zero.below(price) {
                return Verdict::PositionTooSmall { share };
            }
            let shares = equity.times(self.config.max_position_pct).over(price).floor();
            if shares.below(one) {
                return Verdict::PositionTooSmall { share };
            }
            return Verdict::PositionCapped { share, shares };
        }
        let total_share = total_exposure::<N>(&portfolio.positions).plus(value).over(equity);
        if self.config.max_total_exposure_pct.below(total_share) {
            return Verdict::Exposed { share: total_share };
        }
        if value.below(N::ratio(1, 100)) {
            return Verdict::Unpriced;
        }
        Verdict::Approved
    }

    /// Judges an order at a given moment.
    pub fn evaluate_order_at(
        &self,
        order: &Order,
        portfolio: &PortfolioState,
        open_order_count: usize,
        now: Timestamp,
    ) -> (r: RiskDecision)
        requires
            self.wf(),
            functional::<N>(),
        ensures
            r@ == decide(self@, order@.terms, portfolio@, open_order_count, now),
    {
        let verdict = self.judge_order(order, portfolio, open_order_count, now);
        self.word_verdict(&order.symbol, open_order_count, verdict)
    }

    /// Judges an order at the present moment. Which moment that is, the clock
    /// decides; it matters to the cooldown alone.
    pub fn evaluate_order(
        &self,
        order: &Order,
        portfolio: &PortfolioState,
        open_order_count: usize,
    ) -> (r: RiskDecision)
        requires
            self.wf(),
            functional::<N>(),
        ensures
            exists|now: Timestamp|
                r@ == #[trigger] decide(self@, order@.terms, portfolio@, open_order_count, now),
            self@.tripped || open_order_count >= self@.config.max_open_orders
                || !self@.trades.contains_key(order@.terms.symbol) ==> forall|now: Timestamp|
                r@ == #[trigger] decide(self@, order@.terms, portfolio@, open_order_count, now),
    {
        let now = utc_now();
        self.evaluate_order_at(order, portfolio, open_order_count, now)
    }

    /// Takes a look at the portfolio: follows the highest equity and the equity at the
    /// start of the day, takes over the prices of the positions, and trips the breaker
    /// where equity has fallen too far below its peak.
    pub fn update_portfolio(&mut self, portfolio: &PortfolioState)
        requires
            old(self).wf(),
            functional::<N>(),
        ensures
            final(self).wf(),
            final(self)@ == after_portfolio(old(self)@, portfolio@),
    {
        let nothing = N::ratio(0, 1);
        let equity = value_or(portfolio.equity, nothing);
        if self.peak_equity.below(equity) {
            self.peak_equity = equity;
        }
        let day: i64 = portfolio.timestamp.day();
        let known = match self.day_start {
            Some(start) => day <= start.day,
            None => false,
        };
        if !known {
            self.day_start = Some(DayStart { day, equity });
        }
        let ghost positions = portfolio@.positions;
        let ghost before = self.last_prices@;
        let mut i: usize = 0;
        while i < portfolio.positions.len()
            invariant
                functional::<N>(),
                nothing == zero::<N>(),
                i <= portfolio.positions@.len(),
                positions == portfolio@.positions,
                self.wf(),
                self.last_prices@ == with_position_prices(before, positions.take(i as int)),
                self.config == old(self).config,
                self.last_trade_time == old(self).last_trade_time,
                self.peak_equity == raised_peak(old(self).peak_equity, equity),
                self.circuit_breaker_tripped == old(self).circuit_breaker_tripped,
                self.day_start == day_start_after(
                    old(self).day_start,
                    portfolio.timestamp.day_number(),
                    equity,
                ),
            decreases portfolio.positions@.len() - i,
        {
            assert(positions.take(i + 1).drop_last() =~= positions.take(i as int));
            if let Some(price) = N::from_decimal(portfolio.positions[i].current_price) {
                if nothing.below(price) {
                    self.last_prices.insert(portfolio.positions[i].symbol.as_str(), price);
                }
            }
            i = i + 1;
        }
        assert(positions.take(i as int) =~= positions);
        if nothing.below(self.peak_equity) {
            let drawdown = self.peak_equity.minus(equity).over(self.peak_equity);
            if self.config.max_drawdown_pct.at_most(drawdown) {
                self.circuit_breaker_tripped = true;
            }
        }
    }

    /// Remembers a trade in a symbol at a given moment.
    pub fn record_trade_at(&mut self, symbol: &Symbol, now: Timestamp)
        requires
            old(self).wf(),
        ensures
            final(self).wf(),
            final(self)@ == (RiskView {
                trades: old(self)@.trades.insert(symbol@, now),
                ..old(self)@
            }),
    {
        self.last_trade_time.insert(symbol.as_str(), now);
    }

    /// Remembers a trade in a symbol at the present moment.
    pub fn record_trade(&mut self, symbol: &Symbol)
        requires
            old(self).wf(),
        ensures
            final(self).wf(),
            exists|now: Timestamp|
                final(self)@ == (RiskView {
                    trades: (#[trigger] old(self)@.trades.insert(symbol@, now)),
                    ..old(self)@
                }),
    {
        let now = utc_now();
        self.record_trade_at(symbol, now);
    }

    /// Lets trading go on.
    pub fn reset_circuit_breaker(&mut self)
        requires
            old(self).wf(),
        ensures
            final(self).wf(),
            final(self)@ == (RiskView { tripped: false, ..old(self)@ }),
    {
        self.circuit_breaker_tripped = false;
    }

    /// Whether trading is halted.
    pub fn is_circuit_breaker_tripped(&self) -> (r: bool)
        ensures
            r == self@.tripped,
    {
        self.circuit_breaker_tripped
    }

    fn word_verdict(&self, symbol: &Symbol, open_order_count: usize, verdict: Verdict<N>) -> (r:
        RiskDecision)
        requires
            functional::<N>(),
        ensures
            r@ == decision(self@.config, symbol@, open_order_count, verdict),
    {
        let hundred = N::ratio(100, 1);
        match verdict {
            Verdict::Approved => RiskDecision::Approved,
            Verdict::Halted => RiskDecision::Rejected(
                copy_text("Circuit breaker is tripped — trading halted"),
            ),
            Verdict::TooManyOpen => {
                let mut reason = copy_text("Too many open orders (");
                reason.append(natural_text(open_order_count as u128).as_str());
                reason.append(" >= ");
                reason.append(natural_text(self.config.max_open_orders as u128).as_str());
                reason.append(")");
                RiskDecision::Rejected(reason)
            },
            Verdict::Cooldown { elapsed } => {
                let mut reason = copy_text("Trade cooldown: ");
                reason.append(integer_text(elapsed).as_str());
                reason.append("s < ");
                reason.append(natural_text(self.config.min_trade_interval_secs as u128).as_str());
                reason.append("s since last trade on ");
                reason.append(symbol.as_str());
                RiskDecision::Rejected(reason)
            },
            Verdict::NoEquity => RiskDecision::Rejected(
                copy_text("Portfolio equity is zero or negative"),
            ),
            Verdict::DailyLoss { loss } => {
                let mut reason = copy_text("Daily loss ");
                reason.append(loss.times(hundred).text_places(1).as_str());
                reason.append("% reaches limit ");
                reason.append(
                    self.config.daily_loss_limit_pct.times(hundred).text_places(1).as_str(),
                );
                reason.append("% — no more orders today");
                RiskDecision::Rejected(reason)
            },
            Verdict::NotionalTooSmall { value } => {
                let mut reason = copy_text("Order notional $");
                reason.append(value.text_places(0).as_str());
                reason.append(" exceeds max $");
                reason.append(self.config.max_order_notional.text_places(0).as_str());
                reason.append(" and can't reduce to 1 share");
                RiskDecision::Rejected(reason)
            },
            Verdict::NotionalCapped { value, shares } => {
                let mut reason = copy_text("Notional $");
                reason.append(value.text_places(0).as_str());
                reason.append(" exceeds max $");
                reason.append(self.config.max_order_notional.text_places(0).as_str());
                reason.append(", reduced to ");
                reason.append(shares.text().as_str());
                reason.append(" shares");
                RiskDecision::ReducedSize { new_quantity: amount_of(shares), reason }
            },
            Verdict::PositionTooSmall { share } => {
                let mut reason = copy_text("Position ");
                reason.append(share.text_places(1).as_str());
                reason.append("% of equity exceeds ");
                reason.append(self.config.max_position_pct.times(hundred).text_places(0).as_str());
                reason.append("% and can't size down");
                RiskDecision::Rejected(reason)
            },
            Verdict::PositionCapped { share, shares } => {
                let mut reason = copy_text("Position ");
                reason.append(share.times(hundred).text_places(1).as_str());
                reason.append("% exceeds max ");
                reason.append(self.config.max_position_pct.times(hundred).text_places(0).as_str());
                reason.append("%, reduced to ");
                reason.append(shares.text().as_str());
                reason.append(" shares");
                RiskDecision::ReducedSize { new_quantity: amount_of(shares), reason }
            },
            Verdict::Exposed { share } => {
                let mut reason = copy_text("Total exposure would be ");
                reason.append(share.times(hundred).text_places(1).as_str());
                reason.append("% > max ");
                reason.append(
                    self.config.max_total_exposure_pct.times(hundred).text_places(1).as_str(),
                );
                reason.append("%");
                RiskDecision::Rejected(reason)
            },
            Verdict::Unpriced => {
                let mut reason = copy_text("Cannot estimate order value for ");
                reason.append(symbol.as_str());
                reason.append(" — no price data available");
                RiskDecision::Rejected(reason)
            },
        }
    }
}

/// What the account has at stake.
pub fn total_exposure<N: Number>(positions: &Vec<Position>) -> (r: N)
    requires
        functional::<N>(),
    ensures
        r == exposure::<N>(positions@.map_values(|p: Position| p@)),
{
    let ghost views = positions@.map_values(|p: Position| p@);
    let ghost stakes = views.map_values(
        |p: PositionView| magnitude(decimal_or(p.market_value, zero::<N>())),
    );
    let nothing = N::ratio(0, 1);
    let mut acc = nothing;
    let mut i: usize = 0;
    while i < positions.len()
        invariant
            functional::<N>(),
            nothing == zero::<N>(),
            i <= positions@.len(),
            views == positions@.map_values(|p: Position| p@),
            stakes == views.map_values(
                |p: PositionView| magnitude(decimal_or(p.market_value, zero::<N>())),
            ),
            acc == total(stakes.take(i as int)),
        decreases positions@.len() - i,
    {
        assert(stakes.take(i + 1).drop_last() =~= stakes.take(i as int));
        acc = acc.plus(abs(value_or(positions[i].market_value, nothing)));
        i = i + 1;
    }
    assert(stakes.take(i as int) =~= stakes);
    acc
}

/// While the breaker is tripped every order is turned away, whatever it is.
pub proof fn law_tripped_breaker_rejects_everything<N: Number>(
    state: RiskView<N>,
    order: Terms,
    portfolio: PortfolioView,
    open_orders: usize,
    now: Timestamp,
)
    requires
        state.tripped,
    ensures
        decide(state, order, portfolio, open_orders, now) == DecisionView::Rejected(
            "Circuit breaker is tripped — trading halted"@,
        ),
{
}

/// A tripped breaker stays tripped over any number of looks at portfolios.
pub proof fn law_breaker_latches<N: Number>(state: RiskView<N>, looks: Seq<PortfolioView>)
    requires
        state.tripped,
    ensures
        after_looks(state, looks).tripped,
    decreases looks.len(),
{
    if looks.len() > 0 {
        law_breaker_latches(state, looks.drop_last());
    }
}

/// The breaker is tripped after a look exactly if it was before, or if equity has
/// fallen from a positive peak by the limit or more.
pub proof fn law_breaker_trips_on_drawdown<N: Number>(
    state: RiskView<N>,
    portfolio: PortfolioView,
)
    ensures
        after_portfolio(state, portfolio).tripped <==> state.tripped || {
            let equity = decimal_or(portfolio.equity, zero::<N>());
            let peak = if less(state.peak, equity) { equity } else { state.peak };
            less(zero::<N>(), peak) && no_more(
                state.config.max_drawdown_pct,
                quotient(difference(peak, equity), peak),
            )
        },
{
}

/// The peak never falls and is never below the equity last seen.
pub proof fn law_peak_never_falls<N: Number>(state: RiskView<N>, portfolio: PortfolioView)
    requires
        ordered::<N>(),
    ensures
        !less(after_portfolio(state, portfolio).peak, state.peak),
        !less(
            after_portfolio(state, portfolio).peak,
            decimal_or(portfolio.equity, zero::<N>()),
        ),
{
}

/// An order that is let through as it is breaks no rule: the breaker is in, there
/// is room for another open order, the symbol is not cooling down, equity is
/// positive, the loss of the day is below its limit, and the value is known and
/// within the notional, position and exposure limits.
pub proof fn law_approved_orders_keep_all_limits<N: Number>(
    state: RiskView<N>,
    order: Terms,
    portfolio: PortfolioView,
    open_orders: usize,
    now: Timestamp,
)
    requires
        decide(state, order, portfolio, open_orders, now) == DecisionView::Approved,
    ensures
        !state.tripped,
        open_orders < state.config.max_open_orders,
        !cooling_down(state, order.symbol, now),
        !no_more(decimal_or(portfolio.equity, zero::<N>()), zero::<N>()),
        !daily_loss_reached(state, portfolio),
        !less(state.config.max_order_notional, order_value(state, order)),
        !less(
            state.config.max_position_pct,
            quotient(order_value(state, order), decimal_or(portfolio.equity, zero::<N>())),
        ),
        !less(
            state.config.max_total_exposure_pct,
            quotient(
                sum(exposure(portfolio.positions), order_value(state, order)),
                decimal_or(portfolio.equity, zero::<N>()),
            ),
        ),
        !less(order_value(state, order), lit::<N>(1, 100)),
{
}

/// An order is only ever cut down to the whole number of shares that the notional
/// limit or the position limit allows at the price for sizing, and never to less than
/// one share.
pub proof fn law_reduced_orders_fit_a_limit<N: Number>(
    state: RiskView<N>,
    order: Terms,
    portfolio: PortfolioView,
    open_orders: usize,
    now: Timestamp,
)
    requires
        decide(state, order, portfolio, open_orders, now) is ReducedSize,
    ensures
        ({
            let shares = reduced_shares(state, order, portfolio);
            &&& decide(state, order, portfolio, open_orders, now)->new_quantity == shares_amount(
                shares,
            )
            &&& !less(shares, one::<N>())
            &&& less(zero::<N>(), sizing_price(state, order))
        }),
{
}

/// The number of shares that an order over a limit is cut down to.
pub open spec fn reduced_shares<N: Number>(
    state: RiskView<N>,
    order: Terms,
    portfolio: PortfolioView,
) -> N {
    if less(state.config.max_order_notional, order_value(state, order)) {
        notional_shares(state, order)
    } else {
        position_shares(state, order, decimal_or(portfolio.equity, zero::<N>()))
    }
}

/// No single order is worth more than the notional limit allows, be it let through as it
/// is or cut down, whatever its type, neither at the price by which it is valued nor at
/// the price by which it is sized.
pub proof fn law_orders_keep_the_notional_limit<N: Number>(
    state: RiskView<N>,
    order: Terms,
    portfolio: PortfolioView,
    open_orders: usize,
    now: Timestamp,
)
    requires
        rounds_down::<N>(),
        less(state.config.max_order_notional, order_value(state, order)),
    ensures
        decide(state, order, portfolio, open_orders, now) != DecisionView::Approved,
        decide(state, order, portfolio, open_orders, now) is ReducedSize ==> {
            let shares = notional_shares(state, order);
            let limit = state.config.max_order_notional;
            &&& !less(limit, product(shares, order_price(state, order)))
            &&& !less(limit, product(shares, sizing_price(state, order)))
        },
{
}

/// An order that is cut down keeps the limit that it was over: neither at the price by
/// which it was valued nor at the one by which it was sized are the shares that are left
/// worth more than the limit allows. An order at a positive price is never made larger:
/// the shares are no more than were asked for.
pub proof fn law_reduced_orders_keep_the_limit<N: Number>(
    state: RiskView<N>,
    order: Terms,
    portfolio: PortfolioView,
    open_orders: usize,
    now: Timestamp,
)
    requires
        rounds_down::<N>(),
        decide(state, order, portfolio, open_orders, now) is ReducedSize,
    ensures
        ({
            let equity = decimal_or(portfolio.equity, zero::<N>());
            let limit = if less(state.config.max_order_notional, order_value(state, order)) {
                state.config.max_order_notional
            } else {
                product(equity, state.config.max_position_pct)
            };
            let shares = reduced_shares(state, order, portfolio);
            &&& !less(limit, product(shares, order_price(state, order)))
            &&& !less(limit, product(shares, sizing_price(state, order)))
            &&& less(zero::<N>(), order_price(state, order)) ==> !less(
                decimal_or(order.quantity, zero::<N>()),
                shares,
            )
        }),
{
    let equity = decimal_or(portfolio.equity, zero::<N>());
    let value = order_value(state, order);
    let quantity = decimal_or(order.quantity, zero::<N>());
    let shares = reduced_shares(state, order, portfolio);
    if !less(state.config.max_order_notional, value) {
        let limit = product(equity, state.config.max_position_pct);
        assert(less(zero::<N>(), limit));
        assert(less(limit, value));
    }
    if less(zero::<N>(), order_price(state, order)) {
        assert(!less(quantity, shares));
    }
}

/// Once the loss of the day reaches its limit, no order passes that day, whether or not
/// the breaker is tripped.
pub proof fn law_daily_loss_turns_orders_away<N: Number>(
    state: RiskView<N>,
    order: Terms,
    portfolio: PortfolioView,
    open_orders: usize,
    now: Timestamp,
)
    requires
        daily_loss_reached(state, portfolio),
    ensures
        decide(state, order, portfolio, open_orders, now) is Rejected,
{
}

/// The state after a run of looks at portfolios.
pub open spec fn after_looks<N: Number>(
    state: RiskView<N>,
    looks: Seq<PortfolioView>,
) -> RiskView<N>
    decreases looks.len(),
{
    if looks.len() == 0 {
        state
    } else {
        after_portfolio(after_looks(state, looks.drop_last()), looks.last())
    }
}

/// Whether a look of a run finds the equity fallen from its peak by the limit.
pub open spec fn look_trips<N: Number>(
    state: RiskView<N>,
    looks: Seq<PortfolioView>,
    i: int,
) -> bool {
    drawdown_reached(
        after_looks(state, looks.take(i + 1)).peak,
        decimal_or(looks[i].equity, zero::<N>()),
        state.config.max_drawdown_pct,
    )
}

/// Over a run of looks the breaker is tripped at the end exactly if it was at the start or
/// if some look found the equity fallen from its peak by the limit.
pub proof fn law_breaker_over_a_run<N: Number>(state: RiskView<N>, looks: Seq<PortfolioView>)
    ensures
        after_looks(state, looks).tripped <==> state.tripped || exists|i: int|
            0 <= i < looks.len() && #[trigger] look_trips(state, looks, i),
        after_looks(state, looks).config == state.config,
    decreases looks.len(),
{
    if looks.len() > 0 {
        let front = looks.drop_last();
        let last = looks.len() - 1;
        law_breaker_over_a_run(state, front);
        assert(looks.take(last + 1) =~= looks);
        assert forall|i: int| 0 <= i < front.len() implies look_trips(state, looks, i)
            == #[trigger] look_trips(state, front, i) by {
            assert(looks.take(i + 1) =~= front.take(i + 1));
        }
        if exists|i: int| 0 <= i < looks.len() && #[trigger] look_trips(state, looks, i) {
            let i = choose|i: int| 0 <= i < looks.len() && #[trigger] look_trips(state, looks, i);
            if i < front.len() {
                assert(look_trips(state, front, i));
            }
        }
        if after_looks(state, looks).tripped && !state.tripped {
            if after_looks(state, front).tripped {
                let i = choose|i: int|
                    0 <= i < front.len() && #[trigger] look_trips(state, front, i);
                assert(look_trips(state, looks, i));
            } else {
                assert(look_trips(state, looks, last));
            }
        }
        if look_trips(state, looks, last) {
            assert(after_looks(state, looks).tripped);
        }
    }
}

/// Over the looks of one day the equity at its start is that of the first look, where
/// none of that day or a later one was taken before.
pub proof fn law_day_starts_with_its_first_look<N: Number>(
    state: RiskView<N>,
    looks: Seq<PortfolioView>,
    day: i64,
)
    requires
        looks.len() > 0,
        forall|i: int|
            0 <= i < looks.len() ==> (#[trigger] looks[i]).timestamp.day_number() == day,
        state.day_start matches Some(start) ==> start.day < day,
    ensures
        after_looks(state, looks).day_start == Some(
            DayStart { day, equity: decimal_or(looks[0].equity, zero::<N>()) },
        ),
    decreases looks.len(),
{
    let front = looks.drop_last();
    assert(looks[looks.len() - 1].timestamp.day_number() == day);
    if front.len() > 0 {
        assert forall|i: int|
            0 <= i < front.len() implies (#[trigger] front[i]).timestamp.day_number() == day by {
            assert(looks[i] == front[i]);
        }
        law_day_starts_with_its_first_look(state, front, day);
    }
}

/// An order whose value cannot be told, because it comes out below a cent, is not
/// let through: a market order in a symbol without a known price is valued at its
/// quantity times zero.
pub proof fn law_orders_without_a_price_are_not_approved<N: Number>(
    state: RiskView<N>,
    order: Terms,
    portfolio: PortfolioView,
    open_orders: usize,
    now: Timestamp,
)
    requires
        order.limit_price is None,
        order.stop_price is None,
        !state.prices.contains_key(order.symbol),
        less(
            product(decimal_or(order.quantity, zero::<N>()), zero::<N>()),
            lit::<N>(1, 100),
        ),
    ensures
        decide(state, order, portfolio, open_orders, now) != DecisionView::Approved,
{
}

/// After a trade in a symbol, orders in it are turned away until the cooldown is
/// over; orders in other symbols are judged as before.
pub proof fn law_trade_starts_a_cooldown<N: Number>(
    state: RiskView<N>,
    traded: Seq<char>,
    at: Timestamp,
    order: Terms,
    portfolio: PortfolioView,
    open_orders: usize,
    now: Timestamp,
)
    ensures
        ({
            let after = RiskView { trades: state.trades.insert(traded, at), ..state };
            &&& order.symbol == traded && now.elapsed(at) < signed_seconds(
                state.config.min_trade_interval_secs,
            ) ==> decide(after, order, portfolio, open_orders, now) is Rejected
            &&& order.symbol != traded ==> decide(after, order, portfolio, open_orders, now)
                == decide(state, order, portfolio, open_orders, now)
        }),
{
    let after = RiskView { trades: state.trades.insert(traded, at), ..state };
    if order.symbol != traded {
        assert(after.trades.contains_key(order.symbol) == state.trades.contains_key(order.symbol));
        assert(judge(after, order, portfolio, open_orders, now) == judge(
            state,
            order,
            portfolio,
            open_orders,
            now,
        ));
    }
}

/// Whether a position stands for another one: it has the same market value, or the one is
/// a short where the other is a long of the same size.
pub open spec fn same_but_side<N: Number>(a: PositionView, b: PositionView) -> bool {
    let nothing = zero::<N>();
    let x = decimal_or(a.market_value, nothing);
    let y = decimal_or(b.market_value, nothing);
    ||| x == y
    ||| less(x, nothing) && y == difference(nothing, x)
    ||| less(y, nothing) && x == difference(nothing, y)
}

/// Positions whose market values are numbers.
pub open spec fn valued<N: Number>(positions: Seq<PositionView>) -> bool {
    forall|i: int|
        0 <= i < positions.len() ==> is_number(
            decimal_or((#[trigger] positions[i]).market_value, zero::<N>()),
        )
}

proof fn lemma_exposure_step<N: Number>(positions: Seq<PositionView>)
    ensures
        positions.len() == 0 ==> exposure::<N>(positions) == zero::<N>(),
        positions.len() > 0 ==> exposure::<N>(positions) == sum(
            exposure::<N>(positions.drop_last()),
            magnitude(decimal_or(positions.last().market_value, zero::<N>())),
        ),
{
    let stakes = positions.map_values(
        |p: PositionView| magnitude(decimal_or(p.market_value, zero::<N>())),
    );
    if positions.len() > 0 {
        assert(stakes.drop_last() =~= positions.drop_last().map_values(
            |p: PositionView| magnitude(decimal_or(p.market_value, zero::<N>())),
        ));
    }
}

/// What the account has at stake does not depend on the side of its positions: where some
/// are turned from long to short or back, the exposure is the same.
pub proof fn law_exposure_ignores_sides<N: Number>(a: Seq<PositionView>, b: Seq<PositionView>)
    requires
        monotone::<N>(),
        valued::<N>(a),
        valued::<N>(b),
        a.len() == b.len(),
        forall|i: int| 0 <= i < a.len() ==> same_but_side::<N>(#[trigger] a[i], b[i]),
    ensures
        exposure::<N>(a) == exposure::<N>(b),
    decreases a.len(),
{
    lemma_exposure_step::<N>(a);
    lemma_exposure_step::<N>(b);
    if a.len() > 0 {
        let x = a.drop_last();
        let y = b.drop_last();
        assert forall|i: int| 0 <= i < x.len() implies same_but_side::<N>(
            #[trigger] x[i],
            y[i],
        ) by {
            assert(same_but_side::<N>(a[i], b[i]));
        }
        lemma_valued_front::<N>(a);
        lemma_valued_front::<N>(b);
        law_exposure_ignores_sides::<N>(x, y);
        let last = a.len() - 1;
        assert(same_but_side::<N>(a[last], b[last]));
        lemma_magnitude(decimal_or(a[last].market_value, zero::<N>()));
        lemma_magnitude(decimal_or(b[last].market_value, zero::<N>()));
    }
}

proof fn lemma_valued_front<N: Number>(positions: Seq<PositionView>)
    requires
        valued::<N>(positions),
        positions.len() > 0,
    ensures
        valued::<N>(positions.drop_last()),
        is_number(decimal_or(positions.last().market_value, zero::<N>())),
{
    assert(is_number(
        decimal_or(positions[positions.len() - 1].market_value, zero::<N>()),
    ));
    assert forall|i: int| 0 <= i < positions.drop_last().len() implies is_number(
        decimal_or((#[trigger] positions.drop_last()[i]).market_value, zero::<N>()),
    ) by {
        assert(positions.drop_last()[i] == positions[i]);
    }
}

/// Whether positions are long or short makes no difference to the decision on any order.
pub proof fn law_decisions_ignore_sides<N: Number>(
    state: RiskView<N>,
    order: Terms,
    a: PortfolioView,
    b: PortfolioView,
    open_orders: usize,
    now: Timestamp,
)
    requires
        monotone::<N>(),
        a.equity == b.equity,
        a.timestamp == b.timestamp,
        valued::<N>(a.positions),
        valued::<N>(b.positions),
        a.positions.len() == b.positions.len(),
        forall|i: int|
            0 <= i < a.positions.len() ==> same_but_side::<N>(
                #[trigger] a.positions[i],
                b.positions[i],
            ),
    ensures
        decide(state, order, a, open_orders, now) == decide(state, order, b, open_orders, now),
{
    law_exposure_ignores_sides::<N>(a.positions, b.positions);
}

proof fn lemma_exposure_not_negative<N: Number>(positions: Seq<PositionView>)
    requires
        monotone::<N>(),
        valued::<N>(positions),
    ensures
        no_more(zero::<N>(), exposure::<N>(positions)),
    decreases positions.len(),
{
    lemma_exposure_step::<N>(positions);
    lemma_literals::<N>();
    if positions.len() > 0 {
        lemma_valued_front::<N>(positions);
        lemma_exposure_not_negative::<N>(positions.drop_last());
        let stake = decimal_or(positions.last().market_value, zero::<N>());
        lemma_magnitude(stake);
        lemma_sum_order(exposure::<N>(positions.drop_last()), magnitude(stake));
    }
}

/// The exposure is at least what any single position has at stake, long or short.
pub proof fn law_exposure_covers_each_position<N: Number>(positions: Seq<PositionView>, i: int)
    requires
        monotone::<N>(),
        valued::<N>(positions),
        0 <= i < positions.len(),
    ensures
        no_more(
            magnitude(decimal_or(positions[i].market_value, zero::<N>())),
            exposure::<N>(positions),
        ),
    decreases positions.len(),
{
    let front = positions.drop_last();
    let stake = magnitude(decimal_or(positions.last().market_value, zero::<N>()));
    lemma_exposure_step::<N>(positions);
    lemma_valued_front::<N>(positions);
    lemma_exposure_not_negative::<N>(front);
    lemma_magnitude(decimal_or(positions.last().market_value, zero::<N>()));
    lemma_sum_order(exposure::<N>(front), stake);
    if i < front.len() {
        law_exposure_covers_each_position::<N>(front, i);
        lemma_in_order(
            magnitude(decimal_or(positions[i].market_value, zero::<N>())),
            exposure::<N>(front),
            exposure::<N>(positions),
        );
    }
}

/// One position more, long or short and wherever it stands, never lowers the exposure.
pub proof fn law_positions_never_lower_the_exposure<N: Number>(
    positions: Seq<PositionView>,
    i: int,
    position: PositionView,
)
    requires
        monotone::<N>(),
        valued::<N>(positions),
        is_number(decimal_or(position.market_value, zero::<N>())),
        0 <= i <= positions.len(),
    ensures
        no_more(exposure::<N>(positions), exposure::<N>(positions.insert(i, position))),
        valued::<N>(positions.insert(i, position)),
    decreases positions.len(),
{
    let more = positions.insert(i, position);
    assert forall|k: int| 0 <= k < more.len() implies is_number(
        decimal_or((#[trigger] more[k]).market_value, zero::<N>()),
    ) by {
        if k < i {
            assert(more[k] == positions[k]);
        } else if k > i {
            assert(more[k] == positions[k - 1]);
        }
    }
    lemma_exposure_step::<N>(more);
    lemma_exposure_step::<N>(positions);
    lemma_exposure_not_negative::<N>(positions);
    lemma_exposure_not_negative::<N>(more);
    if i == positions.len() {
        assert(more.drop_last() =~= positions);
        lemma_magnitude(decimal_or(position.market_value, zero::<N>()));
        lemma_sum_order(
            exposure::<N>(positions),
            magnitude(decimal_or(position.market_value, zero::<N>())),
        );
    } else {
        let front = positions.drop_last();
        lemma_valued_front::<N>(positions);
        law_positions_never_lower_the_exposure::<N>(front, i, position);
        assert(more.drop_last() =~= front.insert(i, position));
        lemma_compared(zero::<N>(), exposure::<N>(positions));
        lemma_compared(zero::<N>(), exposure::<N>(more));
        lemma_sum_follows(
            exposure::<N>(front),
            exposure::<N>(front.insert(i, position)),
            magnitude(decimal_or(positions.last().market_value, zero::<N>())),
        );
    }
}

/// An order that passes with more at stake passes with less, all else being the same.
pub proof fn law_less_exposure_never_turns_an_order_away<N: Number>(
    state: RiskView<N>,
    order: Terms,
    more: PortfolioView,
    less_at_stake: PortfolioView,
    open_orders: usize,
    now: Timestamp,
)
    requires
        monotone::<N>(),
        more.equity == less_at_stake.equity,
        more.timestamp == less_at_stake.timestamp,
        no_more(
            exposure::<N>(less_at_stake.positions),
            exposure::<N>(more.positions),
        ),
        is_number(decimal_or(more.equity, zero::<N>())),
        is_number(sum(exposure::<N>(more.positions), order_value(state, order))),
        is_number(sum(exposure::<N>(less_at_stake.positions), order_value(state, order))),
        is_number(
            quotient(
                sum(exposure::<N>(more.positions), order_value(state, order)),
                decimal_or(more.equity, zero::<N>()),
            ),
        ),
        is_number(
            quotient(
                sum(exposure::<N>(less_at_stake.positions), order_value(state, order)),
                decimal_or(more.equity, zero::<N>()),
            ),
        ),
        decide(state, order, more, open_orders, now) == DecisionView::Approved,
    ensures
        decide(state, order, less_at_stake, open_orders, now) == DecisionView::Approved,
{
    let value = order_value(state, order);
    let equity = decimal_or(more.equity, zero::<N>());
    let high = sum(exposure::<N>(more.positions), value);
    let low = sum(exposure::<N>(less_at_stake.positions), value);
    lemma_literals::<N>();
    lemma_compared(equity, zero::<N>());
    lemma_sum_follows(exposure::<N>(less_at_stake.positions), exposure::<N>(more.positions), value);
    lemma_quotient_order(low, high, equity);
    lemma_in_order(
        state.config.max_total_exposure_pct,
        quotient(low, equity),
        quotient(high, equity),
    );
}

/// The price at which an order is valued: its limit price where it has one that can be
/// read, else its stop price, else the last known price, else nothing. The value is the
/// quantity times that price.
pub proof fn law_orders_are_valued_by_the_best_price<N: Number>(state: RiskView<N>, order: Terms)
    ensures
        ({
            let quantity = decimal_or(order.quantity, zero::<N>());
            let limit = match order.limit_price {
                Some(p) => decimal_value::<N>(p),
                None => None,
            };
            let stop = match order.stop_price {
                Some(p) => decimal_value::<N>(p),
                None => None,
            };
            &&& limit matches Some(p) ==> order_value(state, order) == product(quantity, p)
            &&& limit is None && stop is Some ==> order_value(state, order) == product(
                quantity,
                stop->0,
            )
            &&& limit is None && stop is None && state.prices.contains_key(order.symbol)
                ==> order_value(state, order) == product(quantity, state.prices[order.symbol])
            &&& limit is None && stop is None && !state.prices.contains_key(order.symbol)
                ==> order_value(state, order) == product(quantity, zero::<N>())
        }),
{
}

/// Orders that agree in symbol, quantity, limit price and stop price are judged alike,
/// whatever their side, type and strategy are.
pub proof fn law_decisions_go_by_symbol_quantity_and_prices<N: Number>(
    state: RiskView<N>,
    a: Terms,
    b: Terms,
    portfolio: PortfolioView,
    open_orders: usize,
    now: Timestamp,
)
    requires
        a.symbol == b.symbol,
        a.quantity == b.quantity,
        a.limit_price == b.limit_price,
        a.stop_price == b.stop_price,
    ensures
        decide(state, a, portfolio, open_orders, now) == decide(
            state,
            b,
            portfolio,
            open_orders,
            now,
        ),
{
}

/// Of the account, only the equity, the day and the market values of the positions count:
/// cash, buying power and what else is known of the positions make no difference.
pub proof fn law_decisions_go_by_equity_day_and_market_values<N: Number>(
    state: RiskView<N>,
    order: Terms,
    a: PortfolioView,
    b: PortfolioView,
    open_orders: usize,
    now: Timestamp,
)
    requires
        a.equity == b.equity,
        a.timestamp.day_number() == b.timestamp.day_number(),
        a.positions.len() == b.positions.len(),
        forall|i: int|
            0 <= i < a.positions.len() ==> (#[trigger] a.positions[i]).market_value
                == b.positions[i].market_value,
    ensures
        decide(state, order, a, open_orders, now) == decide(state, order, b, open_orders, now),
{
    assert(a.positions.map_values(
        |p: PositionView| magnitude(decimal_or(p.market_value, zero::<N>())),
    ) =~= b.positions.map_values(
        |p: PositionView| magnitude(decimal_or(p.market_value, zero::<N>())),
    ));
}

/// An order that keeps every limit is let through as it is.
pub proof fn law_orders_within_all_limits_are_approved<N: Number>(
    state: RiskView<N>,
    order: Terms,
    portfolio: PortfolioView,
    open_orders: usize,
    now: Timestamp,
)
    requires
        !state.tripped,
        open_orders < state.config.max_open_orders,
        state.trades.contains_key(order.symbol) ==> now.elapsed(state.trades[order.symbol])
            >= signed_seconds(state.config.min_trade_interval_secs),
        !no_more(decimal_or(portfolio.equity, zero::<N>()), zero::<N>()),
        state.day_start matches Some(start) ==> start.day != portfolio.timestamp.day_number()
            || !less(zero::<N>(), start.equity) || !no_more(
            state.config.daily_loss_limit_pct,
            quotient(
                difference(start.equity, decimal_or(portfolio.equity, zero::<N>())),
                start.equity,
            ),
        ),
        !less(state.config.max_order_notional, order_value(state, order)),
        !less(
            state.config.max_position_pct,
            quotient(order_value(state, order), decimal_or(portfolio.equity, zero::<N>())),
        ),
        !less(
            state.config.max_total_exposure_pct,
            quotient(
                sum(exposure(portfolio.positions), order_value(state, order)),
                decimal_or(portfolio.equity, zero::<N>()),
            ),
        ),
        !less(order_value(state, order), lit::<N>(1, 100)),
    ensures
        decide(state, order, portfolio, open_orders, now) == DecisionView::Approved,
{
}

/// What cannot be cut down is turned away: an order over the notional limit or the
/// position limit never passes as it is.
pub proof fn law_orders_over_a_limit_do_not_pass<N: Number>(
    state: RiskView<N>,
    order: Terms,
    portfolio: PortfolioView,
    open_orders: usize,
    now: Timestamp,
)
    requires
        less(state.config.max_order_notional, order_value(state, order)) || less(
            state.config.max_position_pct,
            quotient(order_value(state, order), decimal_or(portfolio.equity, zero::<N>())),
        ),
    ensures
        decide(state, order, portfolio, open_orders, now) != DecisionView::Approved,
        decide(state, order, portfolio, open_orders, now) matches DecisionView::ReducedSize {
            new_quantity,
            ..
        } ==> new_quantity == shares_amount(reduced_shares(state, order, portfolio)),
{
}

/// An account that is worth no less than at the start of its day has no loss to be stopped
/// for.
pub proof fn law_no_loss_no_stop<N: Number>(state: RiskView<N>, portfolio: PortfolioView)
    requires
        monotone::<N>(),
        less(zero::<N>(), state.config.daily_loss_limit_pct),
        state.day_start matches Some(start) ==> no_more(
            start.equity,
            decimal_or(portfolio.equity, zero::<N>()),
        ),
    ensures
        !daily_loss_reached(state, portfolio),
{
    if let Some(start) = state.day_start {
        let equity = decimal_or(portfolio.equity, zero::<N>());
        let fall = difference(start.equity, equity);
        if daily_loss(state, portfolio) is Some {
            lemma_compared(start.equity, equity);
            lemma_difference_sign(equity, start.equity);
            lemma_quotient_order(fall, fall, start.equity);
            lemma_in_order(
                zero::<N>(),
                state.config.daily_loss_limit_pct,
                quotient(fall, start.equity),
            );
        }
    }
}

/// Where the loss of a day reaches its limit, it does so at any lower equity that day.
pub proof fn law_larger_losses_stop_too<N: Number>(
    state: RiskView<N>,
    portfolio: PortfolioView,
    poorer: PortfolioView,
)
    requires
        monotone::<N>(),
        portfolio.timestamp.day_number() == poorer.timestamp.day_number(),
        no_more(
            decimal_or(poorer.equity, zero::<N>()),
            decimal_or(portfolio.equity, zero::<N>()),
        ),
        daily_loss_reached(state, portfolio),
        daily_loss(state, poorer) matches Some(loss) ==> is_number(loss) && is_number(
            difference(state.day_start->0.equity, decimal_or(poorer.equity, zero::<N>())),
        ),
        is_number(
            difference(state.day_start->0.equity, decimal_or(portfolio.equity, zero::<N>())),
        ),
    ensures
        daily_loss_reached(state, poorer),
{
    let start = state.day_start->0.equity;
    let high = decimal_or(portfolio.equity, zero::<N>());
    let low = decimal_or(poorer.equity, zero::<N>());
    let loss = quotient(difference(start, high), start);
    lemma_difference_order(low, high, start);
    lemma_compared(state.config.daily_loss_limit_pct, loss);
    lemma_quotient_order(difference(start, high), difference(start, low), start);
    lemma_in_order(
        state.config.daily_loss_limit_pct,
        loss,
        quotient(difference(start, low), start),
    );
}

/// Equity that reaches a new peak, or stays at the peak, never trips the breaker.
pub proof fn law_the_breaker_holds_at_the_peak<N: Number>(
    state: RiskView<N>,
    portfolio: PortfolioView,
)
    requires
        monotone::<N>(),
        less(zero::<N>(), state.config.max_drawdown_pct),
        no_more(state.peak, decimal_or(portfolio.equity, zero::<N>())),
    ensures
        after_portfolio(state, portfolio).tripped == state.tripped,
{
    let equity = decimal_or(portfolio.equity, zero::<N>());
    let peak = after_portfolio(state, portfolio).peak;
    let fall = difference(peak, equity);
    lemma_compared(state.peak, equity);
    lemma_compared(equity, equity);
    lemma_difference_sign(equity, peak);
    if less(zero::<N>(), peak) {
        lemma_quotient_order(fall, fall, peak);
        lemma_in_order(zero::<N>(), state.config.max_drawdown_pct, quotient(fall, peak));
    }
}

/// Where a look trips the breaker, so would any lower equity.
pub proof fn law_deeper_drawdowns_trip_too<N: Number>(
    state: RiskView<N>,
    portfolio: PortfolioView,
    poorer: PortfolioView,
)
    requires
        monotone::<N>(),
        !state.tripped,
        no_more(decimal_or(portfolio.equity, zero::<N>()), state.peak),
        no_more(
            decimal_or(poorer.equity, zero::<N>()),
            decimal_or(portfolio.equity, zero::<N>()),
        ),
        after_portfolio(state, portfolio).tripped,
        is_number(difference(state.peak, decimal_or(portfolio.equity, zero::<N>()))),
        is_number(difference(state.peak, decimal_or(poorer.equity, zero::<N>()))),
        is_number(
            quotient(
                difference(state.peak, decimal_or(poorer.equity, zero::<N>())),
                state.peak,
            ),
        ),
    ensures
        after_portfolio(state, poorer).tripped,
{
    let high = decimal_or(portfolio.equity, zero::<N>());
    let low = decimal_or(poorer.equity, zero::<N>());
    let peak = state.peak;
    lemma_compared(high, peak);
    lemma_in_order(low, high, peak);
    lemma_compared(low, peak);
    lemma_difference_order(low, high, peak);
    let loss = quotient(difference(peak, high), peak);
    lemma_compared(state.config.max_drawdown_pct, loss);
    lemma_quotient_order(difference(peak, high), difference(peak, low), peak);
    lemma_in_order(state.config.max_drawdown_pct, loss, quotient(difference(peak, low), peak));
}

/// A look at the portfolio takes over the current price of each position that is positive,
/// of the last one where a symbol has several, and leaves other symbols alone.
pub proof fn law_looks_take_over_current_prices<N: Number>(
    state: RiskView<N>,
    portfolio: PortfolioView,
    i: int,
    other: Seq<char>,
)
    requires
        0 <= i < portfolio.positions.len(),
        decimal_value::<N>(portfolio.positions[i].current_price) is Some,
        less(zero::<N>(), decimal_value::<N>(portfolio.positions[i].current_price)->0),
        forall|k: int|
            i < k < portfolio.positions.len() ==> (#[trigger] portfolio.positions[k]).symbol
                != portfolio.positions[i].symbol,
        forall|k: int|
            0 <= k < portfolio.positions.len() ==> (#[trigger] portfolio.positions[k]).symbol
                != other,
    ensures
        ({
            let prices = after_portfolio(state, portfolio).prices;
            let symbol = portfolio.positions[i].symbol;
            &&& prices.contains_key(symbol)
            &&& prices[symbol] == decimal_value::<N>(portfolio.positions[i].current_price)->0
            &&& prices.contains_key(other) == state.prices.contains_key(other)
            &&& prices[other] == state.prices[other]
        }),
{
    lemma_prices_taken_over(state.prices, portfolio.positions, i);
    lemma_prices_left_alone(state.prices, portfolio.positions, other);
}

proof fn lemma_prices_left_alone<N: Number>(
    prices: Map<Seq<char>, N>,
    positions: Seq<PositionView>,
    other: Seq<char>,
)
    requires
        forall|k: int| 0 <= k < positions.len() ==> (#[trigger] positions[k]).symbol != other,
    ensures
        with_position_prices(prices, positions).contains_key(other) == prices.contains_key(other),
        with_position_prices(prices, positions)[other] == prices[other],
    decreases positions.len(),
{
    if positions.len() > 0 {
        let front = positions.drop_last();
        assert forall|k: int| 0 <= k < front.len() implies (#[trigger] front[k]).symbol
            != other by {
            assert(front[k] == positions[k]);
        }
        lemma_prices_left_alone(prices, front, other);
        assert(positions[positions.len() - 1].symbol != other);
    }
}

proof fn lemma_prices_taken_over<N: Number>(
    prices: Map<Seq<char>, N>,
    positions: Seq<PositionView>,
    i: int,
)
    requires
        0 <= i < positions.len(),
        decimal_value::<N>(positions[i].current_price) is Some,
        less(zero::<N>(), decimal_value::<N>(positions[i].current_price)->0),
        forall|k: int|
            i < k < positions.len() ==> (#[trigger] positions[k]).symbol != positions[i].symbol,
    ensures
        with_position_prices(prices, positions).contains_key(positions[i].symbol),
        with_position_prices(prices, positions)[positions[i].symbol] == decimal_value::<N>(
            positions[i].current_price,
        )->0,
    decreases positions.len(),
{
    let front = positions.drop_last();
    if i < front.len() {
        assert forall|k: int| i < k < front.len() implies (#[trigger] front[k]).symbol
            != front[i].symbol by {
            assert(front[k] == positions[k]);
        }
        lemma_prices_taken_over(prices, front, i);
        assert(positions[positions.len() - 1].symbol != positions[i].symbol);
    }
}

/// The shares that an order over the notional limit is cut down to are the most that the
/// limit allows, and so are those of an order over the position limit.
pub proof fn law_reduced_orders_use_the_limit(
    state: RiskView<Fixed>,
    order: Terms,
    portfolio: PortfolioView,
    open_orders: usize,
    now: Timestamp,
)
    requires
        decide(state, order, portfolio, open_orders, now) is ReducedSize,
        ({
            let equity = decimal_or(portfolio.equity, zero::<Fixed>());
            &&& state.config.max_order_notional.units < i64::MAX
            &&& product(equity, state.config.max_position_pct).units < i64::MAX
            &&& sum(reduced_shares(state, order, portfolio), one::<Fixed>()).units < i64::MAX
        }),
    ensures
        ({
            let limit = if less(state.config.max_order_notional, order_value(state, order)) {
                state.config.max_order_notional
            } else {
                product(
                    decimal_or(portfolio.equity, zero::<Fixed>()),
                    state.config.max_position_pct,
                )
            };
            less(
                limit,
                product(
                    sum(reduced_shares(state, order, portfolio), one::<Fixed>()),
                    sizing_price(state, order),
                ),
            )
        }),
{
    let limit = if less(state.config.max_order_notional, order_value(state, order)) {
        state.config.max_order_notional
    } else {
        product(decimal_or(portfolio.equity, zero::<Fixed>()), state.config.max_position_pct)
    };
    law_fixed_rounds_down();
    assert(!less(floored(quotient(limit, sizing_price(state, order))), one::<Fixed>()));
    assert(less(zero::<Fixed>(), limit));
    lemma_parts_are_all(limit, sizing_price(state, order));
}

/// A percentage is a hundred times its fraction.
pub proof fn law_percentages_are_hundredths(fraction: Fixed)
    requires
        -90_000_000_000_000_000 <= fraction.units <= 90_000_000_000_000_000,
    ensures
        percent(fraction).units == 100 * fraction.units,
{
    assert(lit::<Fixed>(100, 1).units == 100_000_000);
    let made = fraction.units * 100_000_000;
    assert(made / 1_000_000 == 100 * fraction.units && (-made) / 1_000_000 == -100
        * fraction.units);
}

proof fn lemma_said(before: Seq<char>, said: Seq<char>, behind: Seq<char>, text: Seq<char>)
    requires
        text =~= before + said + behind,
    ensures
        occurs(text, said),
{
    law_texts_are_found_wherever_they_stand(before, said, behind);
}

/// Where an order is turned away for the number of open orders, the loss of the
/// day or the exposure, the reason tells the figure and the limit, shares of equity as
/// percentages with one place.
pub proof fn law_reasons_tell_figure_and_limit<N: Number>(
    config: RiskConfig<N>,
    symbol: Seq<char>,
    open_orders: usize,
    share: N,
)
    ensures
        decision(config, symbol, open_orders, Verdict::TooManyOpen) matches DecisionView::Rejected(
            why,
        ) && occurs(why, digits(open_orders as nat) + " >= "@) && occurs(
            why,
            digits(config.max_open_orders as nat) + ")"@,
        ),
        decision(
            config,
            symbol,
            open_orders,
            Verdict::DailyLoss { loss: share },
        ) matches DecisionView::Rejected(why) && occurs(
            why,
            shown_places(percent(share), 1) + "% reaches limit "@,
        ) && occurs(
            why,
            shown_places(percent(config.daily_loss_limit_pct), 1) + "% — no more orders today"@,
        ),
        decision(
            config,
            symbol,
            open_orders,
            Verdict::Exposed { share },
        ) matches DecisionView::Rejected(why) && occurs(
            why,
            shown_places(percent(share), 1) + "% > max "@,
        ) && occurs(why, shown_places(percent(config.max_total_exposure_pct), 1) + "%"@),
        decision(
            config,
            symbol,
            open_orders,
            Verdict::<N>::Unpriced,
        ) matches DecisionView::Rejected(why) && occurs(why, symbol),
{
    let none = Seq::<char>::empty();
    assert(occurs(
        decision(config, symbol, open_orders, Verdict::TooManyOpen)->Rejected_0,
        digits(open_orders as nat) + " >= "@,
    ) && occurs(
        decision(config, symbol, open_orders, Verdict::TooManyOpen)->Rejected_0,
        digits(config.max_open_orders as nat) + ")"@,
    )) by {
        let why = decision(config, symbol, open_orders, Verdict::TooManyOpen)->Rejected_0;
        let first = digits(open_orders as nat) + " >= "@;
        let second = digits(config.max_open_orders as nat) + ")"@;
        let start = "Too many open orders ("@;
        lemma_said(start, first, second, why);
        lemma_said(start + first, second, none, why);
    }
    assert(occurs(
        decision(
            config,
            symbol,
            open_orders,
            Verdict::DailyLoss { loss: share },
        )->Rejected_0,
        shown_places(percent(share), 1) + "% reaches limit "@,
    ) && occurs(
        decision(
            config,
            symbol,
            open_orders,
            Verdict::DailyLoss { loss: share },
        )->Rejected_0,
        shown_places(percent(config.daily_loss_limit_pct), 1) + "% — no more orders today"@,
    )) by {
        let verdict = Verdict::DailyLoss { loss: share };
        let why = decision(config, symbol, open_orders, verdict)->Rejected_0;
        let first = shown_places(percent(share), 1) + "% reaches limit "@;
        let second = shown_places(percent(config.daily_loss_limit_pct), 1)
            + "% — no more orders today"@;
        let start = "Daily loss "@;
        lemma_said(start, first, second, why);
        lemma_said(start + first, second, none, why);
    }
    assert(occurs(
        decision(config, symbol, open_orders, Verdict::Exposed { share })->Rejected_0,
        shown_places(percent(share), 1) + "% > max "@,
    ) && occurs(
        decision(config, symbol, open_orders, Verdict::Exposed { share })->Rejected_0,
        shown_places(percent(config.max_total_exposure_pct), 1) + "%"@,
    )) by {
        let why = decision(config, symbol, open_orders, Verdict::Exposed { share })->Rejected_0;
        let first = shown_places(percent(share), 1) + "% > max "@;
        let second = shown_places(percent(config.max_total_exposure_pct), 1) + "%"@;
        let start = "Total exposure would be "@;
        lemma_said(start, first, second, why);
        lemma_said(start + first, second, none, why);
    }
    assert(occurs(
        decision(config, symbol, open_orders, Verdict::<N>::Unpriced)->Rejected_0,
        symbol,
    )) by {
        let why = decision(config, symbol, open_orders, Verdict::<N>::Unpriced)->Rejected_0;
        lemma_said(
            "Cannot estimate order value for "@,
            symbol,
            " — no price data available"@,
            why,
        );
    }
}

} // verus!
