//! Relative strength, volume-weighted price and volume anomalies.
use super::cross_asset::{is_negligible, lemma_capped_order, negligible};
use crate::number::fixed::{law_fixed_is_monotone, lemma_whole_scaled, Fixed, UNIT};
use crate::number::{
    abs, add_up, cap, capped, counted, decimal_or, decimal_value, difference, functional,
    is_finite, is_number, lemma_compared, lemma_count_is_positive, lemma_difference_order,
    lemma_difference_sign, lemma_in_order, lemma_literals, lemma_product_order,
    lemma_quotient_order, lemma_sum_follows, lemma_sum_follows_second, lemma_sum_order, less, lit,
    magnitude, measured, minus_one, monotone, no_more, one, ordered, product, quotient, sum, total,
    value_or, zero, Number,
};
use crate::symbol_map::SymbolMap;
use crate::text::copy_text;
use crate::time::{
    law_elapsed_time_is_a_difference, law_outdated_is_beyond_the_window, Timestamp,
};
use crate::types::{
    entry, maybe_signal, AssetClass, Detail, DetailView, Entry, SignalValue, SignalView, Symbol,
    Tick, TickView,
};
use crate::window::{
    items, law_window_keeps_the_recent, points_of, recent, series, Dated, RollingWindow,
};
use rust_decimal::Decimal;
use vstd::prelude::*;

verus! {

/// Length of a bar in seconds.
pub const BAR_SECS: i64 = 60;

/// How long bars are kept, in seconds.
pub const HISTORY_SECS: i64 = 7200;

/// Least number of whole seconds between two signals for one symbol.
pub const SIGNAL_GAP_SECS: i128 = 120;

/// The ticks of the bar that is being built.
#[derive(Debug)]
pub struct TickAccumulator<N> {
    pub open: N,
    pub high: N,
    pub low: N,
    pub close: N,
    pub volume: N,
    pub count: u32,
    pub bar_start: Timestamp,
}

/// A completed bar; its time is its end.
#[derive(Debug)]
pub struct MiniBar<N> {
    pub close: N,
    pub vwap: N,
    pub volume: N,
}

impl<N: Copy> Clone for MiniBar<N> {
    fn clone(&self) -> (r: Self)
        ensures
            r == *self,
    {
        *self
    }
}

impl<N: Copy> Copy for MiniBar<N> {

}

/// A bar in which nothing has happened yet.
pub open spec fn fresh_bar<N: Number>(price: N, now: Timestamp) -> TickAccumulator<N> {
    TickAccumulator {
        open: price,
        high: price,
        low: price,
        close: price,
        volume: zero::<N>(),
        count: 0,
        bar_start: now,
    }
}

/// The bar that an accumulator completes to.
pub open spec fn completed<N: Number>(acc: TickAccumulator<N>) -> Dated<MiniBar<N>> {
    Dated {
        item: MiniBar {
            close: acc.close,
            vwap: if less(zero::<N>(), acc.volume) {
                acc.close
            } else {
                quotient(sum(sum(sum(acc.open, acc.high), acc.low), acc.close), lit::<N>(4, 1))
            },
            volume: acc.volume,
        },
        at: acc.bar_start.later(BAR_SECS),
    }
}

/// What a tick does to the bar being built: it is added to the bar, or, where the
/// bar has lasted its time, completes it and opens the next one.
pub open spec fn bar_step<N: Number>(
    acc: TickAccumulator<N>,
    price: N,
    volume: N,
    now: Timestamp,
) -> (TickAccumulator<N>, Option<Dated<MiniBar<N>>>) {
    if now.span(acc.bar_start) >= BAR_SECS * 1_000_000_000 && acc.count > 0 {
        (
            TickAccumulator {
                open: price,
                high: price,
                low: price,
                close: price,
                volume,
                count: 1,
                bar_start: now,
            },
            Some(completed(acc)),
        )
    } else {
        (
            TickAccumulator {
                open: acc.open,
                high: if less(acc.high, price) {
                    price
                } else {
                    acc.high
                },
                low: if less(price, acc.low) {
                    price
                } else {
                    acc.low
                },
                close: price,
                volume: sum(acc.volume, volume),
                count: if acc.count < u32::MAX {
                    (acc.count + 1) as u32
                } else {
                    u32::MAX
                },
                bar_start: acc.bar_start,
            },
            None,
        )
    }
}

/// The closing prices of bars.
pub open spec fn closes<N>(bars: Seq<MiniBar<N>>) -> Seq<N> {
    bars.map_values(|b: MiniBar<N>| b.close)
}

/// The sum of the rises from each price to the next.
pub open spec fn gains<N: Number>(prices: Seq<N>) -> N
    decreases prices.len(),
{
    if prices.len() < 2 {
        zero::<N>()
    } else {
        let before = gains(prices.drop_last());
        let change = difference(prices.last(), prices[prices.len() - 2]);
        if less(zero::<N>(), change) {
            sum(before, change)
        } else {
            before
        }
    }
}

/// The sum of the falls from each price to the next.
pub open spec fn losses<N: Number>(prices: Seq<N>) -> N
    decreases prices.len(),
{
    if prices.len() < 2 {
        zero::<N>()
    } else {
        let before = losses(prices.drop_last());
        let change = difference(prices.last(), prices[prices.len() - 2]);
        if less(zero::<N>(), change) {
            before
        } else {
            sum(before, magnitude(change))
        }
    }
}

/// The prices that the last `period` changes go by.
pub open spec fn latest<N>(prices: Seq<N>, period: usize) -> Seq<N> {
    prices.skip(prices.len() - (period + 1))
}

/// The relative strength index of the last `period` changes of the closing prices:
/// a hundred less a hundred over one plus the ratio of average gain to average
/// loss; a hundred where there is no loss to speak of. There is none of fewer
/// changes, or of no change.
pub open spec fn relative_strength<N: Number>(prices: Seq<N>, period: usize) -> Option<N> {
    if prices.len() < period + 1 || period == 0 {
        None
    } else {
        let lookback = latest(prices, period);
        let gain = quotient(gains(lookback), counted::<N>(period));
        let loss = quotient(losses(lookback), counted::<N>(period));
        let hundred = lit::<N>(100, 1);
        if negligible(loss) {
            Some(hundred)
        } else {
            Some(
                difference(
                    hundred,
                    quotient(hundred, sum(one::<N>(), quotient(gain, loss))),
                ),
            )
        }
    }
}

/// The sum of close times volume over the bars with volume.
pub open spec fn traded_value<N: Number>(bars: Seq<MiniBar<N>>) -> N
    decreases bars.len(),
{
    if bars.len() == 0 {
        zero::<N>()
    } else {
        let before = traded_value(bars.drop_last());
        let bar = bars.last();
        if less(zero::<N>(), bar.volume) {
            sum(before, product(bar.close, bar.volume))
        } else {
            before
        }
    }
}

/// The volumes of the bars with volume.
pub open spec fn traded_volumes<N: Number>(bars: Seq<MiniBar<N>>) -> Seq<N>
    decreases bars.len(),
{
    if bars.len() == 0 {
        Seq::empty()
    } else {
        let before = traded_volumes(bars.drop_last());
        let bar = bars.last();
        if less(zero::<N>(), bar.volume) {
            before.push(bar.volume)
        } else {
            before
        }
    }
}

/// The volume-weighted average price, and how far the last close lies from it as a
/// fraction of it.
pub open spec fn vwap_reading<N: Number>(bars: Seq<MiniBar<N>>) -> (Option<N>, Option<N>) {
    let volume = total(traded_volumes(bars));
    if negligible(volume) {
        (None, None)
    } else {
        let vwap = quotient(traded_value(bars), volume);
        let price = if bars.len() > 0 {
            bars.last().close
        } else {
            zero::<N>()
        };
        if no_more(price, zero::<N>()) {
            (Some(vwap), None)
        } else {
            (Some(vwap), Some(quotient(difference(price, vwap), vwap)))
        }
    }
}

/// The volume of the last bar with volume over the average, where there are at
/// least five such bars.
pub open spec fn volume_reading<N: Number>(bars: Seq<MiniBar<N>>) -> Option<N> {
    let volumes = traded_volumes(bars);
    let avg = quotient(total(volumes), counted::<N>(volumes.len() as usize));
    if volumes.len() < 5 || negligible(avg) {
        None
    } else {
        Some(quotient(volumes.last(), avg))
    }
}

/// The state of an analyzer as a mathematical value.
#[verifier::ext_equal]
pub struct TechnicalView<N> {
    /// The bar being built of each symbol.
    pub building: Map<Seq<char>, TickAccumulator<N>>,
    /// The bars of each symbol.
    pub bars: Map<Seq<char>, Seq<Dated<MiniBar<N>>>>,
    /// When each symbol last gave a signal.
    pub signalled: Map<Seq<char>, Timestamp>,
    pub rsi_period: usize,
    pub rsi_overbought: N,
    pub rsi_oversold: N,
    pub vwap_deviation_threshold: N,
    pub volume_spike_multiplier: N,
}

/// The details that go with an extreme relative strength.
pub open spec fn strength_details<N: Number>(
    rsi: N,
    bars: Seq<MiniBar<N>>,
) -> Seq<(Seq<char>, DetailView<N>)> {
    seq![
        ("rsi"@, DetailView::Number(rsi)),
        ("vwap_deviation"@, DetailView::Maybe(vwap_reading(bars).1)),
        ("volume_ratio"@, DetailView::Maybe(volume_reading(bars))),
        ("bars"@, DetailView::Count(bars.len() as usize)),
    ]
}

/// The signal that the bars of a symbol give, if any: oversold, overbought, or a
/// volume spike together with a breakout from the average price.
pub open spec fn reading<N: Number>(
    state: TechnicalView<N>,
    symbol: Seq<char>,
    bars: Seq<MiniBar<N>>,
    rsi: N,
    now: Timestamp,
) -> Option<SignalView<N>> {
    let hundred = lit::<N>(100, 1);
    if no_more(rsi, state.rsi_oversold) {
        Some(
            SignalView {
                name: "rsi_oversold"@,
                value: rsi,
                direction: one::<N>(),
                confidence: capped(
                    quotient(difference(state.rsi_oversold, rsi), state.rsi_oversold),
                    one::<N>(),
                ),
                symbols: seq![symbol],
                timestamp: now,
                metadata: strength_details(rsi, bars),
            },
        )
    } else if no_more(state.rsi_overbought, rsi) {
        Some(
            SignalView {
                name: "rsi_overbought"@,
                value: rsi,
                direction: minus_one::<N>(),
                confidence: capped(
                    quotient(
                        difference(rsi, state.rsi_overbought),
                        difference(hundred, state.rsi_overbought),
                    ),
                    one::<N>(),
                ),
                symbols: seq![symbol],
                timestamp: now,
                metadata: strength_details(rsi, bars),
            },
        )
    } else {
        match (vwap_reading(bars).1, volume_reading(bars)) {
            (Some(off), Some(ratio)) => if no_more(state.volume_spike_multiplier, ratio)
                && no_more(state.vwap_deviation_threshold, magnitude(off)) {
                Some(
                    SignalView {
                        name: "volume_vwap_breakout"@,
                        value: ratio,
                        direction: if less(zero::<N>(), off) {
                            one::<N>()
                        } else {
                            minus_one::<N>()
                        },
                        confidence: capped(
                            product(
                                quotient(ratio, state.volume_spike_multiplier),
                                lit::<N>(5, 10),
                            ),
                            one::<N>(),
                        ),
                        symbols: seq![symbol],
                        timestamp: now,
                        metadata: seq![
                            ("volume_ratio"@, DetailView::Number(ratio)),
                            ("vwap_deviation"@, DetailView::Number(off)),
                            ("rsi"@, DetailView::Number(rsi)),
                        ],
                    },
                )
            } else {
                None
            },
            _ => None,
        }
    }
}

/// Whether a symbol gave a signal too recently for another one.
pub open spec fn signalled_recently<N>(
    state: TechnicalView<N>,
    symbol: Seq<char>,
    now: Timestamp,
) -> bool {
    state.signalled.contains_key(symbol) && now.elapsed(state.signalled[symbol]) < SIGNAL_GAP_SECS
}

/// The bars of a symbol after one more.
pub open spec fn history_with<N>(
    state: TechnicalView<N>,
    symbol: Seq<char>,
    bar: Dated<MiniBar<N>>,
    now: Timestamp,
) -> Seq<Dated<MiniBar<N>>> {
    recent(points_of(state.bars, symbol).push(bar), now, HISTORY_SECS as int)
}

/// The signal at the close of a bar, if any: there are five bars more than the
/// period, the symbol gave none in the last two minutes, and the bars give one.
pub open spec fn close_signal<N: Number>(
    state: TechnicalView<N>,
    symbol: Seq<char>,
    bar: Dated<MiniBar<N>>,
    now: Timestamp,
) -> Option<SignalView<N>> {
    let bars = items(history_with(state, symbol, bar, now));
    if bars.len() < state.rsi_period + 5 || signalled_recently(state, symbol, now) {
        None
    } else {
        match relative_strength(closes(bars), state.rsi_period) {
            Some(rsi) => reading(state, symbol, bars, rsi, now),
            None => None,
        }
    }
}

/// What the close of a bar leads to.
pub open spec fn close_outcome<N: Number>(
    state: TechnicalView<N>,
    symbol: Seq<char>,
    bar: Dated<MiniBar<N>>,
    now: Timestamp,
) -> (TechnicalView<N>, Option<SignalView<N>>) {
    let signal = close_signal(state, symbol, bar, now);
    (
        TechnicalView {
            bars: state.bars.insert(symbol, history_with(state, symbol, bar, now)),
            signalled: if signal is Some {
                state.signalled.insert(symbol, now)
            } else {
                state.signalled
            },
            ..state
        },
        signal,
    )
}

/// The bar that a symbol is building, or a fresh one.
pub open spec fn building_of<N: Number>(
    state: TechnicalView<N>,
    symbol: Seq<char>,
    price: N,
    now: Timestamp,
) -> TickAccumulator<N> {
    if state.building.contains_key(symbol) {
        state.building[symbol]
    } else {
        fresh_bar(price, now)
    }
}

/// The volume of a tick, zero where it has none.
pub open spec fn tick_volume<N: Number>(volume: Option<Decimal>) -> N {
    match volume {
        Some(v) => decimal_or(v, zero::<N>()),
        None => zero::<N>(),
    }
}

/// What a tick leads to: the state after it and the signal it gives rise to.
pub open spec fn tick_outcome<N: Number>(state: TechnicalView<N>, tick: TickView) -> (
    TechnicalView<N>,
    Option<SignalView<N>>,
) {
    match decimal_value::<N>(tick.price) {
        Some(price) if !no_more(price, zero::<N>()) && tick.asset_class == AssetClass::Equity => {
            let now = tick.timestamp;
            let (acc, bar) = bar_step(
                building_of(state, tick.symbol, price, now),
                price,
                tick_volume::<N>(tick.volume),
                now,
            );
            let built = TechnicalView {
                building: state.building.insert(tick.symbol, acc),
                ..state
            };
            match bar {
                Some(bar) => close_outcome(built, tick.symbol, bar, now),
                None => (built, None),
            }
        },
        _ => (state, None),
    }
}

/// Computes RSI, VWAP deviation, and volume anomaly for each symbol.
///
/// RSI is computed from one-minute bar closes, not raw ticks. Raw tick RSI is
/// noise: it flips between 0 and 100 within milliseconds as individual trades
/// arrive.
pub struct TechnicalAnalyzer<N: Number> {
    /// Ticks of the bar being built, per symbol.
    tick_accumulators: SymbolMap<TickAccumulator<N>>,
    /// One-minute bars per symbol, used for RSI and VWAP.
    bar_histories: SymbolMap<RollingWindow<MiniBar<N>>>,
    /// Last signal time per symbol to prevent spam.
    last_signal_time: SymbolMap<Timestamp>,
    rsi_period: usize,
    rsi_overbought: N,
    rsi_oversold: N,
    vwap_deviation_threshold: N,
    volume_spike_multiplier: N,
}

impl<N: Number> View for TechnicalAnalyzer<N> {
    type V = TechnicalView<N>;

    closed spec fn view(&self) -> TechnicalView<N> {
        TechnicalView {
            building: self.tick_accumulators@,
            bars: series(self.bar_histories@),
            signalled: self.last_signal_time@,
            rsi_period: self.rsi_period,
            rsi_overbought: self.rsi_overbought,
            rsi_oversold: self.rsi_oversold,
            vwap_deviation_threshold: self.vwap_deviation_threshold,
            volume_spike_multiplier: self.volume_spike_multiplier,
        }
    }
}

impl<N: Number> TechnicalAnalyzer<N> {
    /// The tables that the state is held in are in order.
    pub closed spec fn wf(&self) -> bool {
        self.tick_accumulators.wf() && self.bar_histories.wf() && self.last_signal_time.wf()
    }

    /// An analyzer that has seen nothing.
    pub fn new(
        rsi_period: usize,
        rsi_overbought: N,
        rsi_oversold: N,
        vwap_deviation_threshold: N,
        volume_spike_multiplier: N,
    ) -> (r: TechnicalAnalyzer<N>)
        ensures
            r.wf(),
            r@ == (TechnicalView {
                building: Map::empty(),
                bars: Map::empty(),
                signalled: Map::empty(),
                rsi_period,
                rsi_overbought,
                rsi_oversold,
                vwap_deviation_threshold,
                volume_spike_multiplier,
            }),
    {
        let r = TechnicalAnalyzer {
            tick_accumulators: SymbolMap::new(),
            bar_histories: SymbolMap::new(),
            last_signal_time: SymbolMap::new(),
            rsi_period,
            rsi_overbought,
            rsi_oversold,
            vwap_deviation_threshold,
            volume_spike_multiplier,
        };
        assert(r@.bars =~= Map::empty());
        r
    }

    /// Goes on under other settings with what it has seen.
    pub fn reconfigure(
        &mut self,
        rsi_period: usize,
        rsi_overbought: N,
        rsi_oversold: N,
        vwap_deviation_threshold: N,
        volume_spike_multiplier: N,
    )
        requires
            old(self).wf(),
        ensures
            final(self).wf(),
            final(self)@ == (TechnicalView {
                rsi_period,
                rsi_overbought,
                rsi_oversold,
                vwap_deviation_threshold,
                volume_spike_multiplier,
                ..old(self)@
            }),
    {
        self.rsi_period = rsi_period;
        self.rsi_overbought = rsi_overbought;
        self.rsi_oversold = rsi_oversold;
        self.vwap_deviation_threshold = vwap_deviation_threshold;
        self.volume_spike_multiplier = volume_spike_multiplier;
    }

    /// Takes in a tick of an equity symbol: adds it to the bar being built, and
    /// where it completes the bar, looks for a signal.
    pub fn on_tick(&mut self, tick: &Tick) -> (r: Option<SignalValue<N>>)
        requires
            old(self).wf(),
            functional::<N>(),
        ensures
            final(self).wf(),
            (final(self)@, maybe_signal(r)) == tick_outcome(old(self)@, tick@),
    {
        let nothing = N::ratio(0, 1);
        let price = match N::from_decimal(tick.price) {
            Some(price) => price,
            None => {
                return None;
            },
        };
        if price.at_most(nothing) {
            return None;
        }
        if tick.asset_class != AssetClass::Equity {
            return None;
        }
        let volume = match tick.volume {
            Some(v) => value_or(v, nothing),
            None => nothing,
        };
        let now = tick.timestamp;
        match self.accumulate_tick(&tick.symbol, price, volume, now) {
            Some(bar) => self.on_bar_close(&tick.symbol, bar, now),
            None => None,
        }
    }

    /// Adds a tick to the bar being built. Gives the bar when it is completed.
    pub fn accumulate_tick(&mut self, symbol: &Symbol, price: N, volume: N, now: Timestamp) -> (r:
        Option<Dated<MiniBar<N>>>)
        requires
            old(self).wf(),
            functional::<N>(),
        ensures
            final(self).wf(),
            ({
                let (acc, bar) = bar_step(
                    building_of(old(self)@, symbol@, price, now),
                    price,
                    volume,
                    now,
                );
                &&& r == bar
                &&& final(self)@ == (TechnicalView {
                    building: old(self)@.building.insert(symbol@, acc),
                    ..old(self)@
                })
            }),
    {
        let nothing = N::ratio(0, 1);
        let first = TickAccumulator {
            open: price,
            high: price,
            low: price,
            close: price,
            volume: nothing,
            count: 0,
            bar_start: now,
        };
        let acc = self.tick_accumulators.entry(symbol.as_str(), first);
        if now.is_past(acc.bar_start, BAR_SECS) && acc.count > 0 {
            let vwap = if nothing.below(acc.volume) {
                acc.close
            } else {
                acc.open.plus(acc.high).plus(acc.low).plus(acc.close).over(N::ratio(4, 1))
            };
            let bar = Dated {
                item: MiniBar { close: acc.close, vwap, volume: acc.volume },
                at: acc.bar_start.plus_seconds(BAR_SECS),
            };
            acc.open = price;
            acc.high = price;
            acc.low = price;
            acc.close = price;
            acc.volume = volume;
            acc.count = 1;
            acc.bar_start = now;
            return Some(bar);
        }
        if acc.high.below(price) {
            acc.high = price;
        }
        if price.below(acc.low) {
            acc.low = price;
        }
        acc.close = price;
        acc.volume = acc.volume.plus(volume);
        if acc.count < u32::MAX {
            acc.count = acc.count + 1;
        }
        None
    }

    /// Adds a completed bar to the history and looks for a signal.
    pub fn on_bar_close(&mut self, symbol: &Symbol, bar: Dated<MiniBar<N>>, now: Timestamp) -> (r:
        Option<SignalValue<N>>)
        requires
            old(self).wf(),
            functional::<N>(),
        ensures
            final(self).wf(),
            (final(self)@, maybe_signal(r)) == close_outcome(old(self)@, symbol@, bar, now),
    {
        let ghost start = self@;
        let history = self.bar_histories.entry(symbol.as_str(), RollingWindow::new());
        history.push(bar.item, bar.at, now, HISTORY_SECS);
        let bars = history.items();
        proof {
            assert(self@.bars =~= close_outcome(start, symbol@, bar, now).0.bars);
            assert(bars@ == items(history_with(start, symbol@, bar, now)));
        }
        if bars.len() < 5 || bars.len() - 5 < self.rsi_period {
            return None;
        }
        if let Some(last) = self.last_signal_time.get(symbol.as_str()) {
            if now.seconds_since(*last) < SIGNAL_GAP_SECS {
                return None;
            }
        }
        let rsi = match self.compute_rsi(&bars) {
            Some(rsi) => rsi,
            None => {
                return None;
            },
        };
        let signal = self.read_bars(symbol, &bars, rsi, now);
        if signal.is_some() {
            self.last_signal_time.insert(symbol.as_str(), now);
        }
        signal
    }

    fn read_bars(&self, symbol: &Symbol, bars: &Vec<MiniBar<N>>, rsi: N, now: Timestamp) -> (r:
        Option<SignalValue<N>>)
        requires
            functional::<N>(),
        ensures
            maybe_signal(r) == reading(self@, symbol@, bars@, rsi, now),
    {
        let one = N::ratio(1, 1);
        let (_, off) = self.compute_vwap(bars);
        let ratio = self.compute_volume_ratio(bars);
        let ghost expected = reading(self@, symbol@, bars@, rsi, now);
        if rsi.at_most(self.rsi_oversold) {
            let strength = self.rsi_oversold.minus(rsi).over(self.rsi_oversold);
            let signal = SignalValue {
                name: copy_text("rsi_oversold"),
                value: rsi,
                direction: one,
                confidence: cap(strength, one),
                symbols: vec![symbol.copy()],
                timestamp: now,
                metadata: strength_entries(rsi, off, ratio, bars.len()),
            };
            assert(signal@.symbols =~= expected->0.symbols);
            assert(signal@.metadata =~= expected->0.metadata);
            return Some(signal);
        }
        if self.rsi_overbought.at_most(rsi) {
            let strength = rsi.minus(self.rsi_overbought).over(
                N::ratio(100, 1).minus(self.rsi_overbought),
            );
            let signal = SignalValue {
                name: copy_text("rsi_overbought"),
                value: rsi,
                direction: N::ratio(-1, 1),
                confidence: cap(strength, one),
                symbols: vec![symbol.copy()],
                timestamp: now,
                metadata: strength_entries(rsi, off, ratio, bars.len()),
            };
            assert(signal@.symbols =~= expected->0.symbols);
            assert(signal@.metadata =~= expected->0.metadata);
            return Some(signal);
        }
        match (off, ratio) {
            (Some(off), Some(ratio)) => {
                if self.volume_spike_multiplier.at_most(ratio)
                    && self.vwap_deviation_threshold.at_most(abs(off)) {
                    let direction = if N::ratio(0, 1).below(off) {
                        one
                    } else {
                        N::ratio(-1, 1)
                    };
                    let strength = ratio.over(self.volume_spike_multiplier).times(N::ratio(5, 10));
                    let signal = SignalValue {
                        name: copy_text("volume_vwap_breakout"),
                        value: ratio,
                        direction,
                        confidence: cap(strength, one),
                        symbols: vec![symbol.copy()],
                        timestamp: now,
                        metadata: vec![
                            entry("volume_ratio", Detail::Number(ratio)),
                            entry("vwap_deviation", Detail::Number(off)),
                            entry("rsi", Detail::Number(rsi)),
                        ],
                    };
                    assert(signal@.symbols =~= expected->0.symbols);
                    assert(signal@.metadata =~= expected->0.metadata);
                    return Some(signal);
                }
                None
            },
            _ => None,
        }
    }

    /// The relative strength index of a symbol's bars.
    pub fn get_rsi(&self, symbol: &Symbol) -> (r: Option<N>)
        requires
            self.wf(),
            functional::<N>(),
        ensures
            r == if self@.bars.contains_key(symbol@) {
                relative_strength(closes(items(self@.bars[symbol@])), self@.rsi_period)
            } else {
                None
            },
    {
        match self.bar_histories.get(symbol.as_str()) {
            Some(history) => {
                assert(self@.bars[symbol@] == history@);
                self.compute_rsi(&history.items())
            },
            None => None,
        }
    }
}

fn strength_entries<N: Number>(
    rsi: N,
    off: Option<N>,
    ratio: Option<N>,
    bars: usize,
) -> (r: Vec<Entry<N>>)
    ensures
        r@.map_values(|e: Entry<N>| e@) == seq![
            ("rsi"@, DetailView::Number(rsi)),
            ("vwap_deviation"@, DetailView::Maybe(off)),
            ("volume_ratio"@, DetailView::Maybe(ratio)),
            ("bars"@, DetailView::Count(bars)),
        ],
{
    let r = vec![
        entry("rsi", Detail::Number(rsi)),
        entry("vwap_deviation", Detail::Maybe(off)),
        entry("volume_ratio", Detail::Maybe(ratio)),
        entry("bars", Detail::Count(bars)),
    ];
    assert(r@.map_values(|e: Entry<N>| e@) =~= seq![
        ("rsi"@, DetailView::Number(rsi)),
        ("vwap_deviation"@, DetailView::Maybe(off)),
        ("volume_ratio"@, DetailView::Maybe(ratio)),
        ("bars"@, DetailView::Count(bars)),
    ]);
    r
}

fn volumes_of<N: Number>(history: &Vec<MiniBar<N>>) -> (r: Vec<N>)
    requires
        functional::<N>(),
    ensures
        r@ == traded_volumes(history@),
{
    let nothing = N::ratio(0, 1);
    let mut volumes: Vec<N> = Vec::new();
    let mut i: usize = 0;
    while i < history.len()
        invariant
            functional::<N>(),
            nothing == zero::<N>(),
            i <= history@.len(),
            volumes@ == traded_volumes(history@.take(i as int)),
        decreases history@.len() - i,
    {
        assert(history@.take(i + 1).drop_last() =~= history@.take(i as int));
        if nothing.below(history[i].volume) {
            volumes.push(history[i].volume);
        }
        i = i + 1;
    }
    assert(history@.take(i as int) =~= history@);
    volumes
}

impl<N: Number> TechnicalAnalyzer<N> {
    /// The relative strength index of the latest changes.
    pub fn compute_rsi(&self, history: &Vec<MiniBar<N>>) -> (r: Option<N>)
        requires
            functional::<N>(),
        ensures
            r == relative_strength(closes(history@), self@.rsi_period),
    {
        let period: usize = self.rsi_period;
        let n: usize = history.len();
        if n == 0 || n - 1 < period || period == 0 {
            return None;
        }
        let nothing = N::ratio(0, 1);
        let start: usize = n - 1 - period;
        let ghost lookback = closes(history@).skip(start as int);
        let mut rises = nothing;
        let mut falls = nothing;
        let mut i: usize = start + 1;
        while i < n
            invariant
                functional::<N>(),
                nothing == zero::<N>(),
                n == history@.len(),
                start < i <= n,
                lookback == closes(history@).skip(start as int),
                rises == gains(lookback.take(i - start)),
                falls == losses(lookback.take(i - start)),
            decreases n - i,
        {
            let ghost upto = lookback.take(i - start + 1);
            assert(upto.drop_last() =~= lookback.take(i - start));
            assert(upto.last() == history@[i as int].close);
            assert(upto[upto.len() - 2] == history@[i - 1].close);
            let change = history[i].close.minus(history[i - 1].close);
            if nothing.below(change) {
                rises = rises.plus(change);
            } else {
                falls = falls.plus(abs(change));
            }
            i = i + 1;
        }
        assert(lookback.take(i - start) =~= lookback);
        let gain = rises.over(N::count(period));
        let loss = falls.over(N::count(period));
        let hundred = N::ratio(100, 1);
        if is_negligible(loss) {
            return Some(hundred);
        }
        Some(hundred.minus(hundred.over(N::ratio(1, 1).plus(gain.over(loss)))))
    }

    /// The volume-weighted average price and the last close's deviation from it.
    pub fn compute_vwap(&self, history: &Vec<MiniBar<N>>) -> (r: (Option<N>, Option<N>))
        requires
            functional::<N>(),
        ensures
            r == vwap_reading(history@),
    {
        let nothing = N::ratio(0, 1);
        let mut value = nothing;
        let mut i: usize = 0;
        while i < history.len()
            invariant
                functional::<N>(),
                nothing == zero::<N>(),
                i <= history@.len(),
                value == traded_value(history@.take(i as int)),
            decreases history@.len() - i,
        {
            assert(history@.take(i + 1).drop_last() =~= history@.take(i as int));
            if nothing.below(history[i].volume) {
                value = value.plus(history[i].close.times(history[i].volume));
            }
            i = i + 1;
        }
        assert(history@.take(i as int) =~= history@);
        let volume = add_up(&volumes_of(history));
        if is_negligible(volume) {
            return (None, None);
        }
        let vwap = value.over(volume);
        let price = if history.len() > 0 {
            history[history.len() - 1].close
        } else {
            nothing
        };
        if price.at_most(nothing) {
            return (Some(vwap), None);
        }
        (Some(vwap), Some(price.minus(vwap).over(vwap)))
    }

    /// The last volume over the average volume.
    pub fn compute_volume_ratio(&self, history: &Vec<MiniBar<N>>) -> (r: Option<N>)
        requires
            functional::<N>(),
        ensures
            r == volume_reading(history@),
    {
        let volumes = volumes_of(history);
        if volumes.len() < 5 {
            return None;
        }
        let avg = add_up(&volumes).over(N::count(volumes.len()));
        if is_negligible(avg) {
            return None;
        }
        Some(volumes[volumes.len() - 1].over(avg))
    }
}

proof fn lemma_gains_and_losses_not_negative<N: Number>(prices: Seq<N>)
    requires
        measured::<N>(),
        forall|i: int| 0 <= i < prices.len() ==> is_finite(#[trigger] prices[i]),
    ensures
        no_more(zero::<N>(), gains(prices)),
        no_more(zero::<N>(), losses(prices)),
    decreases prices.len(),
{
    if prices.len() >= 2 {
        let front = prices.drop_last();
        assert forall|i: int| 0 <= i < front.len() implies is_finite(#[trigger] front[i]) by {
            assert(front[i] == prices[i]);
        }
        lemma_gains_and_losses_not_negative(front);
        let last = prices.len() - 1;
        assert(is_finite(prices[last]) && is_finite(prices[last - 1]));
        let change = difference(prices[last], prices[last - 1]);
        assert(is_number(change));
    }
}

/// There is a relative strength exactly of `period` changes or more.
pub proof fn law_strength_needs_its_changes<N: Number>(prices: Seq<N>, period: usize)
    ensures
        relative_strength(prices, period) is None <==> prices.len() < period + 1 || period == 0,
{
}

/// The relative strength of finite prices lies between zero and a hundred, unless their
/// rises and their falls both add up to more than a finite number.
pub proof fn law_strength_is_an_index<N: Number>(prices: Seq<N>, period: usize)
    requires
        measured::<N>(),
        prices.len() >= period + 1,
        forall|i: int|
            prices.len() - (period + 1) <= i < prices.len() ==> is_finite(#[trigger] prices[i]),
        is_finite(gains(latest(prices, period))) || is_finite(losses(latest(prices, period))),
    ensures
        relative_strength(prices, period) matches Some(r) ==> no_more(zero::<N>(), r) && no_more(
            r,
            lit::<N>(100, 1),
        ),
{
    let start = prices.len() - (period + 1);
    let lookback = latest(prices, period);
    assert forall|i: int| 0 <= i < lookback.len() implies is_finite(#[trigger] lookback[i]) by {
        assert(lookback[i] == prices[start + i]);
    }
    if period > 0 {
        lemma_gains_and_losses_not_negative(lookback);
        let gain = quotient(gains(lookback), counted::<N>(period));
        let loss = quotient(losses(lookback), counted::<N>(period));
        let hundred = lit::<N>(100, 1);
        assert(no_more(zero::<N>(), gain) && no_more(zero::<N>(), loss));
        assert(is_finite(gain) || is_finite(loss));
        if !negligible(loss) {
            assert(less(zero::<N>(), loss));
            let ratio = quotient(gain, loss);
            assert(no_more(zero::<N>(), ratio));
            let share = quotient(hundred, sum(one::<N>(), ratio));
            assert(no_more(zero::<N>(), share) && no_more(share, hundred));
        }
    }
}

proof fn lemma_no_losses<N: Number>(prices: Seq<N>)
    requires
        measured::<N>(),
        forall|i: int| 0 <= i < prices.len() ==> is_finite(#[trigger] prices[i]),
        forall|i: int| 0 < i < prices.len() ==> no_more(prices[i - 1], #[trigger] prices[i]),
    ensures
        losses(prices) == zero::<N>(),
    decreases prices.len(),
{
    if prices.len() >= 2 {
        let front = prices.drop_last();
        assert forall|i: int| 0 <= i < front.len() implies is_finite(#[trigger] front[i]) by {
            assert(front[i] == prices[i]);
        }
        assert forall|i: int| 0 < i < front.len() implies no_more(
            front[i - 1],
            #[trigger] front[i],
        ) by {
            assert(front[i] == prices[i]);
        }
        lemma_no_losses(front);
        let last = prices.len() - 1;
        assert(no_more(prices[last - 1], prices[last]));
        assert(is_finite(prices[last]) && is_finite(prices[last - 1]));
        let change = difference(prices[last], prices[last - 1]);
        assert(less(zero::<N>(), change) || sum(zero::<N>(), magnitude(change)) == zero::<N>());
    }
}

/// Where the latest prices are finite and none of them falls, be they flat throughout, the
/// relative strength is a hundred.
pub proof fn law_strength_without_falls<N: Number>(prices: Seq<N>, period: usize)
    requires
        measured::<N>(),
        period > 0,
        prices.len() >= period + 1,
        forall|i: int|
            prices.len() - (period + 1) <= i < prices.len() ==> is_finite(#[trigger] prices[i]),
        forall|i: int|
            prices.len() - period <= i < prices.len() ==> no_more(
                prices[i - 1],
                #[trigger] prices[i],
            ),
    ensures
        relative_strength(prices, period) == Some(lit::<N>(100, 1)),
{
    let start = prices.len() - (period + 1);
    let lookback = latest(prices, period);
    assert forall|i: int| 0 <= i < lookback.len() implies is_finite(#[trigger] lookback[i]) by {
        assert(lookback[i] == prices[start + i]);
    }
    assert forall|i: int| 0 < i < lookback.len() implies no_more(
        lookback[i - 1],
        #[trigger] lookback[i],
    ) by {
        assert(lookback[i] == prices[start + i]);
    }
    lemma_no_losses(lookback);
}

/// Only the latest closes count: whatever bars come before them, the relative strength
/// is the same.
pub proof fn law_strength_counts_the_latest<N: Number>(
    before: Seq<N>,
    prices: Seq<N>,
    period: usize,
)
    requires
        prices.len() >= period + 1,
    ensures
        relative_strength(before + prices, period) == relative_strength(prices, period),
{
    assert((before + prices).skip((before + prices).len() - (period + 1)) =~= prices.skip(
        prices.len() - (period + 1),
    ));
}

/// Bars of which none has volume have no average price.
pub proof fn law_no_volume_no_average_price<N: Number>(bars: Seq<MiniBar<N>>)
    requires
        no_more(zero::<N>(), zero::<N>()),
        forall|i: int| 0 <= i < bars.len() ==> !less(zero::<N>(), (#[trigger] bars[i]).volume),
    ensures
        vwap_reading(bars) == (None::<N>, None::<N>),
{
    lemma_no_volumes(bars);
}

proof fn lemma_no_volumes<N: Number>(bars: Seq<MiniBar<N>>)
    requires
        forall|i: int| 0 <= i < bars.len() ==> !less(zero::<N>(), (#[trigger] bars[i]).volume),
    ensures
        traded_volumes(bars) == Seq::<N>::empty(),
    decreases bars.len(),
{
    if bars.len() > 0 {
        let front = bars.drop_last();
        assert forall|i: int| 0 <= i < front.len() implies !less(
            zero::<N>(),
            (#[trigger] front[i]).volume,
        ) by {
            assert(front[i] == bars[i]);
        }
        lemma_no_volumes(front);
        assert(!less(zero::<N>(), bars[bars.len() - 1].volume));
    }
}

/// The state after a run of ticks.
#[verifier::opaque]
pub open spec fn after_ticks<N: Number>(
    state: TechnicalView<N>,
    ticks: Seq<TickView>,
) -> TechnicalView<N>
    decreases ticks.len(),
{
    if ticks.len() == 0 {
        state
    } else {
        tick_outcome(after_ticks(state, ticks.drop_last()), ticks.last()).0
    }
}

/// The signal that a tick of a run gives rise to.
#[verifier::opaque]
pub open spec fn signal_of_tick<N: Number>(
    state: TechnicalView<N>,
    ticks: Seq<TickView>,
    i: int,
) -> Option<SignalView<N>> {
    tick_outcome(after_ticks(state, ticks.take(i)), ticks[i]).1
}

/// One tick of a run notes its signal, and leaves the other notes alone. A signal keeps its
/// distance from the one noted before.
proof fn lemma_tick_notes_its_signal<N: Number>(
    state: TechnicalView<N>,
    ticks: Seq<TickView>,
    k: int,
)
    requires
        0 <= k < ticks.len(),
    ensures
        ({
            let before = after_ticks(state, ticks.take(k)).signalled;
            let after = after_ticks(state, ticks.take(k + 1)).signalled;
            let tick = ticks[k];
            if signal_of_tick(state, ticks, k) is Some {
                &&& after == before.insert(tick.symbol, tick.timestamp)
                &&& before.contains_key(tick.symbol) ==> tick.timestamp.elapsed(
                    before[tick.symbol],
                ) >= SIGNAL_GAP_SECS
            } else {
                after == before
            }
        }),
{
    reveal(after_ticks);
    reveal(signal_of_tick);
    assert(ticks.take(k + 1).drop_last() =~= ticks.take(k));
    assert(ticks.take(k + 1).last() == ticks[k]);
}

proof fn lemma_signalled_since<N: Number>(
    state: TechnicalView<N>,
    ticks: Seq<TickView>,
    i: int,
    j: int,
)
    requires
        0 <= i < j <= ticks.len(),
        signal_of_tick(state, ticks, i) is Some,
        forall|k: int|
            i < k < j && (#[trigger] ticks[k]).symbol == ticks[i].symbol ==> signal_of_tick(
                state,
                ticks,
                k,
            ) is None,
    ensures
        ({
            let later = after_ticks(state, ticks.take(j)).signalled;
            later.contains_key(ticks[i].symbol) && later[ticks[i].symbol] == ticks[i].timestamp
        }),
    decreases j,
{
    lemma_tick_notes_its_signal(state, ticks, j - 1);
    if j > i + 1 {
        lemma_signalled_since(state, ticks, i, j - 1);
        assert(ticks[j - 1].symbol == ticks[i].symbol ==> signal_of_tick(state, ticks, j - 1)
            is None);
    }
}

/// Over any run of ticks, a signal for a symbol comes at least two minutes after the one
/// before it.
pub proof fn law_signals_of_a_symbol_keep_their_distance<N: Number>(
    state: TechnicalView<N>,
    ticks: Seq<TickView>,
    i: int,
    j: int,
)
    requires
        0 <= i < j < ticks.len(),
        ticks[i].symbol == ticks[j].symbol,
        signal_of_tick(state, ticks, i) is Some,
        signal_of_tick(state, ticks, j) is Some,
        forall|k: int|
            i < k < j && (#[trigger] ticks[k]).symbol == ticks[i].symbol ==> signal_of_tick(
                state,
                ticks,
                k,
            ) is None,
    ensures
        ticks[j].timestamp.elapsed(ticks[i].timestamp) >= SIGNAL_GAP_SECS,
{
    lemma_signalled_since(state, ticks, i, j);
    lemma_tick_notes_its_signal(state, ticks, j);
}

proof fn lemma_signalled_after_signal<N: Number>(
    state: TechnicalView<N>,
    ticks: Seq<TickView>,
    i: int,
    j: int,
)
    requires
        0 <= i < j <= ticks.len(),
        forall|k: int| 0 <= k < ticks.len() ==> !(#[trigger] ticks[k]).timestamp.in_leap(),
        signal_of_tick(state, ticks, i) is Some,
    ensures
        ({
            let later = after_ticks(state, ticks.take(j)).signalled;
            &&& later.contains_key(ticks[i].symbol)
            &&& !later[ticks[i].symbol].in_leap()
            &&& later[ticks[i].symbol].value() >= ticks[i].timestamp.value()
        }),
    decreases j,
{
    lemma_tick_notes_its_signal(state, ticks, j - 1);
    assert(!ticks[j - 1].timestamp.in_leap());
    if j > i + 1 {
        lemma_signalled_after_signal(state, ticks, i, j - 1);
    }
}

/// Over any run of ticks outside of leap seconds, any two signals for one symbol are at
/// least two minutes apart, be there others between them.
pub proof fn law_all_signals_of_a_symbol_keep_their_distance<N: Number>(
    state: TechnicalView<N>,
    ticks: Seq<TickView>,
    i: int,
    j: int,
)
    requires
        0 <= i < j < ticks.len(),
        ticks[i].symbol == ticks[j].symbol,
        forall|k: int| 0 <= k < ticks.len() ==> !(#[trigger] ticks[k]).timestamp.in_leap(),
        signal_of_tick(state, ticks, i) is Some,
        signal_of_tick(state, ticks, j) is Some,
    ensures
        ticks[j].timestamp.value() - ticks[i].timestamp.value() >= 120_000_000_000,
{
    lemma_signalled_after_signal(state, ticks, i, j);
    lemma_tick_notes_its_signal(state, ticks, j);
    assert(!ticks[j].timestamp.in_leap());
}

/// A signal names the equity symbol and the moment of the tick that it came with,
/// and where arithmetic is ordered its confidence is at most one.
pub proof fn law_signals_come_from_equity_ticks<N: Number>(
    state: TechnicalView<N>,
    tick: TickView,
)
    requires
        tick_outcome(state, tick).1 is Some,
    ensures
        ({
            let signal = tick_outcome(state, tick).1->0;
            &&& tick.asset_class == AssetClass::Equity
            &&& signal.symbols == seq![tick.symbol]
            &&& signal.timestamp == tick.timestamp
            &&& ordered::<N>() ==> !less(one::<N>(), signal.confidence)
        }),
{
}

/// The bar being built has no close above its high or below its low.
pub proof fn law_bars_contain_their_close<N: Number>(
    acc: TickAccumulator<N>,
    price: N,
    volume: N,
    now: Timestamp,
)
    requires
        ordered::<N>(),
    ensures
        !less(
            bar_step(acc, price, volume, now).0.high,
            bar_step(acc, price, volume, now).0.close,
        ),
        !less(
            bar_step(acc, price, volume, now).0.close,
            bar_step(acc, price, volume, now).0.low,
        ),
{
}

/// A bar is completed exactly when a tick comes a minute or more after its first
/// one; it ends a minute after that first tick, closes at the last price before
/// the tick, and the tick opens the next bar.
pub proof fn law_bars_last_a_minute<N: Number>(
    acc: TickAccumulator<N>,
    price: N,
    volume: N,
    now: Timestamp,
)
    requires
        acc.count > 0,
    ensures
        ({
            let (next, bar) = bar_step(acc, price, volume, now);
            &&& bar is Some <==> now.span(acc.bar_start) >= 60_000_000_000
            &&& bar is Some ==> bar->0.at == acc.bar_start.later(60) && bar->0.item.close
                == acc.close && bar->0.item.volume == acc.volume && next.bar_start == now
                && next.count == 1 && next.close == price
            &&& bar is None ==> next.bar_start == acc.bar_start && next.open == acc.open
        }),
{
}

/// A tick touches the state of its own symbol alone.
pub proof fn law_ticks_keep_to_their_symbol<N: Number>(
    state: TechnicalView<N>,
    tick: TickView,
    other: Seq<char>,
)
    requires
        other != tick.symbol,
    ensures
        points_of(tick_outcome(state, tick).0.bars, other) == points_of(state.bars, other),
        tick_outcome(state, tick).0.building.contains_key(other) == state.building.contains_key(
            other,
        ),
        tick_outcome(state, tick).0.building[other] == state.building[other],
        tick_outcome(state, tick).0.signalled.contains_key(other) == state.signalled.contains_key(
            other,
        ),
        tick_outcome(state, tick).0.signalled[other] == state.signalled[other],
{
}

/// Extremes are signalled: where the relative strength is at the lower bound or below, the
/// signal says oversold and points up; where it is not, and at the upper bound or above, it
/// says overbought and points down. The value is the relative strength.
pub proof fn law_oversold_points_up_and_overbought_down<N: Number>(
    state: TechnicalView<N>,
    symbol: Seq<char>,
    bars: Seq<MiniBar<N>>,
    rsi: N,
    now: Timestamp,
)
    ensures
        no_more(rsi, state.rsi_oversold) ==> ({
            let signal = reading(state, symbol, bars, rsi, now);
            &&& signal is Some
            &&& signal->0.name == "rsi_oversold"@
            &&& signal->0.value == rsi
            &&& signal->0.direction == one::<N>()
            &&& signal->0.symbols == seq![symbol]
            &&& signal->0.timestamp == now
        }),
        !no_more(rsi, state.rsi_oversold) && no_more(state.rsi_overbought, rsi) ==> ({
            let signal = reading(state, symbol, bars, rsi, now);
            &&& signal is Some
            &&& signal->0.name == "rsi_overbought"@
            &&& signal->0.value == rsi
            &&& signal->0.direction == minus_one::<N>()
            &&& signal->0.symbols == seq![symbol]
            &&& signal->0.timestamp == now
        }),
        !no_more(rsi, state.rsi_oversold) && !no_more(state.rsi_overbought, rsi) ==> (reading(
            state,
            symbol,
            bars,
            rsi,
            now,
        ) matches Some(signal) ==> signal.name == "volume_vwap_breakout"@ && signal.symbols
            == seq![symbol] && signal.timestamp == now),
{
}

/// A breakout points to the side of the average price on which the last close lies: up
/// where the close is above it, down where it is below. It is never given on a close at the
/// average.
pub proof fn law_breakouts_point_to_the_side_of_the_close<N: Number>(
    state: TechnicalView<N>,
    symbol: Seq<char>,
    bars: Seq<MiniBar<N>>,
    rsi: N,
    now: Timestamp,
)
    requires
        monotone::<N>(),
        bars.len() > 0,
        !no_more(rsi, state.rsi_oversold),
        !no_more(state.rsi_overbought, rsi),
        less(zero::<N>(), state.vwap_deviation_threshold),
        vwap_reading(bars).0 is Some,
        less(zero::<N>(), vwap_reading(bars).0->0),
        reading(state, symbol, bars, rsi, now) is Some,
    ensures
        ({
            let signal = reading(state, symbol, bars, rsi, now)->0;
            let average = vwap_reading(bars).0->0;
            let close = bars[bars.len() - 1].close;
            &&& less(average, close) ==> signal.direction == one::<N>()
            &&& less(close, average) ==> signal.direction == minus_one::<N>()
            &&& less(average, close) || less(close, average)
        }),
{
    let nothing = zero::<N>();
    let average = vwap_reading(bars).0->0;
    let close = bars[bars.len() - 1].close;
    let gap = difference(close, average);
    let off = quotient(gap, average);
    lemma_quotient_order(gap, gap, average);
    lemma_difference_sign(average, close);
    lemma_difference_sign(close, average);
    lemma_in_order(nothing, state.vwap_deviation_threshold, magnitude(off));
    lemma_compared(average, close);
    lemma_compared(close, average);
    lemma_compared(nothing, off);
    lemma_compared(off, nothing);
    assert(less(nothing, off) || less(off, nothing));
}

/// A spike in volume together with a deviation from the average price is signalled where
/// the relative strength is not extreme, with the volume ratio as its value.
pub proof fn law_breakouts_are_signalled<N: Number>(
    state: TechnicalView<N>,
    symbol: Seq<char>,
    bars: Seq<MiniBar<N>>,
    rsi: N,
    now: Timestamp,
)
    requires
        !no_more(rsi, state.rsi_oversold),
        !no_more(state.rsi_overbought, rsi),
    ensures
        reading(state, symbol, bars, rsi, now) is Some <==> {
            &&& vwap_reading(bars).1 is Some
            &&& volume_reading(bars) is Some
            &&& no_more(state.volume_spike_multiplier, volume_reading(bars)->0)
            &&& no_more(state.vwap_deviation_threshold, magnitude(vwap_reading(bars).1->0))
        },
        reading(state, symbol, bars, rsi, now) matches Some(signal) ==> signal.value
            == volume_reading(bars)->0,
{
}

/// The further the relative strength lies beyond a bound, the more confidence: a lower one
/// never comes with less confidence that a symbol is oversold, and there is none at the
/// bound and full confidence at zero.
pub proof fn law_oversold_confidence<N: Number>(
    state: TechnicalView<N>,
    symbol: Seq<char>,
    bars: Seq<MiniBar<N>>,
    lower: N,
    rsi: N,
    now: Timestamp,
)
    requires
        monotone::<N>(),
        no_more(lower, rsi),
        no_more(rsi, state.rsi_oversold),
        less(zero::<N>(), state.rsi_oversold),
        is_finite(state.rsi_oversold),
        is_number(difference(state.rsi_oversold, lower)),
        is_number(difference(state.rsi_oversold, rsi)),
        is_number(quotient(difference(state.rsi_oversold, lower), state.rsi_oversold)),
        is_number(quotient(difference(state.rsi_oversold, rsi), state.rsi_oversold)),
    ensures
        no_more(
            reading(state, symbol, bars, rsi, now)->0.confidence,
            reading(state, symbol, bars, lower, now)->0.confidence,
        ),
        rsi == state.rsi_oversold ==> reading(state, symbol, bars, rsi, now)->0.confidence
            == zero::<N>(),
        lower == zero::<N>() ==> reading(state, symbol, bars, lower, now)->0.confidence
            == one::<N>(),
{
    let bound = state.rsi_oversold;
    lemma_literals::<N>();
    lemma_in_order(lower, rsi, bound);
    lemma_difference_order(lower, rsi, bound);
    lemma_quotient_order(difference(bound, rsi), difference(bound, lower), bound);
    lemma_capped_order(
        quotient(difference(bound, rsi), bound),
        quotient(difference(bound, lower), bound),
        one::<N>(),
    );
    lemma_difference_sign(bound, bound);
    lemma_compared(one::<N>(), one::<N>());
}

/// A higher relative strength never comes with less confidence that a symbol is overbought,
/// and there is none at the bound and full confidence at a hundred.
pub proof fn law_overbought_confidence<N: Number>(
    state: TechnicalView<N>,
    symbol: Seq<char>,
    bars: Seq<MiniBar<N>>,
    rsi: N,
    higher: N,
    now: Timestamp,
)
    requires
        monotone::<N>(),
        no_more(rsi, higher),
        !no_more(rsi, state.rsi_oversold),
        !no_more(higher, state.rsi_oversold),
        no_more(state.rsi_overbought, rsi),
        less(zero::<N>(), difference(lit::<N>(100, 1), state.rsi_overbought)),
        is_finite(difference(lit::<N>(100, 1), state.rsi_overbought)),
        is_finite(state.rsi_overbought),
        is_number(difference(rsi, state.rsi_overbought)),
        is_number(difference(higher, state.rsi_overbought)),
        is_number(
            quotient(
                difference(rsi, state.rsi_overbought),
                difference(lit::<N>(100, 1), state.rsi_overbought),
            ),
        ),
        is_number(
            quotient(
                difference(higher, state.rsi_overbought),
                difference(lit::<N>(100, 1), state.rsi_overbought),
            ),
        ),
    ensures
        no_more(
            reading(state, symbol, bars, rsi, now)->0.confidence,
            reading(state, symbol, bars, higher, now)->0.confidence,
        ),
        rsi == state.rsi_overbought ==> reading(state, symbol, bars, rsi, now)->0.confidence
            == zero::<N>(),
        higher == lit::<N>(100, 1) ==> reading(state, symbol, bars, higher, now)->0.confidence
            == one::<N>(),
{
    let bound = state.rsi_overbought;
    let room = difference(lit::<N>(100, 1), bound);
    lemma_literals::<N>();
    lemma_in_order(bound, rsi, higher);
    lemma_difference_order(rsi, higher, bound);
    lemma_quotient_order(difference(rsi, bound), difference(higher, bound), room);
    lemma_capped_order(
        quotient(difference(rsi, bound), room),
        quotient(difference(higher, bound), room),
        one::<N>(),
    );
    lemma_difference_sign(bound, bound);
}

proof fn lemma_no_gains<N: Number>(prices: Seq<N>)
    requires
        monotone::<N>(),
        forall|i: int| 0 < i < prices.len() ==> no_more(#[trigger] prices[i], prices[i - 1]),
    ensures
        gains(prices) == zero::<N>(),
    decreases prices.len(),
{
    if prices.len() >= 2 {
        let front = prices.drop_last();
        assert forall|i: int| 0 < i < front.len() implies no_more(
            #[trigger] front[i],
            front[i - 1],
        ) by {
            assert(front[i] == prices[i]);
        }
        lemma_no_gains(front);
        let last = prices.len() - 1;
        assert(no_more(prices[last], prices[last - 1]));
        lemma_compared(prices[last], prices[last - 1]);
        lemma_difference_sign(prices[last - 1], prices[last]);
    }
}

/// Where no price of the latest changes rises and there is a loss to speak of, the relative
/// strength is zero.
pub proof fn law_strength_without_rises(prices: Seq<Fixed>, period: usize)
    requires
        0 < period <= 1_000_000,
        prices.len() >= period + 1,
        forall|i: int|
            prices.len() - period <= i < prices.len() ==> no_more(
                #[trigger] prices[i],
                prices[i - 1],
            ),
        !negligible(quotient(losses(latest(prices, period)), counted::<Fixed>(period))),
    ensures
        relative_strength(prices, period) == Some(zero::<Fixed>()),
{
    let start = prices.len() - (period + 1);
    let lookback = latest(prices, period);
    assert forall|i: int| 0 < i < lookback.len() implies no_more(
        #[trigger] lookback[i],
        lookback[i - 1],
    ) by {
        assert(lookback[i] == prices[start + i]);
    }
    law_fixed_is_monotone();
    lemma_no_gains(lookback);
    let loss = quotient(losses(lookback), counted::<Fixed>(period));
    lemma_count_is_positive::<Fixed>(period);
    lemma_quotient_order(zero::<Fixed>(), zero::<Fixed>(), counted::<Fixed>(period));
    lemma_quotient_order(zero::<Fixed>(), zero::<Fixed>(), loss);
    assert(sum(one::<Fixed>(), zero::<Fixed>()) == one::<Fixed>());
    let hundred = lit::<Fixed>(100, 1);
    assert(hundred.units == 100_000_000);
    assert(quotient(hundred, one::<Fixed>()) == hundred);
}

/// The volumes that count are those of the bars with volume, in order: each of them is
/// positive, none of them is missing, and the last is that of the last such bar.
pub proof fn law_only_traded_volumes_count<N: Number>(bars: Seq<MiniBar<N>>)
    ensures
        traded_volumes(bars).len() <= bars.len(),
        forall|i: int|
            0 <= i < traded_volumes(bars).len() ==> less(
                zero::<N>(),
                #[trigger] traded_volumes(bars)[i],
            ),
        forall|i: int|
            0 <= i < bars.len() && less(zero::<N>(), (#[trigger] bars[i]).volume)
                ==> traded_volumes(bars).contains(bars[i].volume),
        (forall|i: int| 0 <= i < bars.len() ==> less(zero::<N>(), (#[trigger] bars[i]).volume))
            ==> traded_volumes(bars) == bars.map_values(|b: MiniBar<N>| b.volume),
        bars.len() > 0 && less(zero::<N>(), bars[bars.len() - 1].volume) ==> traded_volumes(
            bars,
        ).len() > 0 && traded_volumes(bars).last() == bars[bars.len() - 1].volume,
    decreases bars.len(),
{
    let volumes = traded_volumes(bars);
    if bars.len() > 0 {
        let front = bars.drop_last();
        let before = traded_volumes(front);
        let last = bars.len() - 1;
        law_only_traded_volumes_count(front);
        assert forall|i: int| 0 <= i < volumes.len() implies less(
            zero::<N>(),
            #[trigger] volumes[i],
        ) by {
            if i < before.len() {
                assert(volumes[i] == before[i]);
            }
        }
        assert forall|i: int|
            0 <= i < bars.len() && less(
                zero::<N>(),
                (#[trigger] bars[i]).volume,
            ) implies volumes.contains(bars[i].volume) by {
            if i < last {
                assert(front[i] == bars[i]);
                let k = before.index_of(bars[i].volume);
                assert(volumes[k] == bars[i].volume);
            } else {
                assert(volumes[before.len() as int] == bars[i].volume);
            }
        }
        if forall|i: int| 0 <= i < bars.len() ==> less(zero::<N>(), (#[trigger] bars[i]).volume) {
            assert forall|i: int| 0 <= i < front.len() implies less(
                zero::<N>(),
                (#[trigger] front[i]).volume,
            ) by {
                assert(front[i] == bars[i]);
            }
            assert(less(zero::<N>(), bars[last].volume));
        }
    }
    if forall|i: int| 0 <= i < bars.len() ==> less(zero::<N>(), (#[trigger] bars[i]).volume) {
        assert(volumes =~= bars.map_values(|b: MiniBar<N>| b.volume));
    }
}

/// The volume ratio is that of the last traded volume to the mean of all of them, where
/// there are five or more.
pub proof fn law_volume_ratio_is_last_to_mean<N: Number>(bars: Seq<MiniBar<N>>)
    ensures
        traded_volumes(bars).len() < 5 ==> volume_reading(bars) is None,
        volume_reading(bars) matches Some(ratio) ==> ratio == quotient(
            traded_volumes(bars)[traded_volumes(bars).len() - 1],
            quotient(
                total(traded_volumes(bars)),
                counted::<N>(traded_volumes(bars).len() as usize),
            ),
        ),
{
}

/// Higher closes never lower the average price, all volumes being the same.
pub proof fn law_average_price_follows_the_closes<N: Number>(
    low: Seq<MiniBar<N>>,
    high: Seq<MiniBar<N>>,
)
    requires
        monotone::<N>(),
        low.len() == high.len(),
        forall|i: int|
            0 <= i < low.len() ==> (#[trigger] low[i]).volume == high[i].volume && no_more(
                low[i].close,
                high[i].close,
            ) && no_more(zero::<N>(), low[i].close),
        forall|i: int|
            0 <= i < low.len() && less(zero::<N>(), (#[trigger] low[i]).volume) ==> is_number(
                product(low[i].close, low[i].volume),
            ) && is_number(product(high[i].close, high[i].volume)),
        vwap_reading(low).0 is Some,
        vwap_reading(high).0 is Some,
        is_number(vwap_reading(low).0->0),
        is_number(vwap_reading(high).0->0),
        is_number(total(traded_volumes(low))),
    ensures
        no_more(vwap_reading(low).0->0, vwap_reading(high).0->0),
{
    lemma_traded_values_in_order(low, high);
    let volume = total(traded_volumes(low));
    lemma_literals::<N>();
    lemma_compared(volume, zero::<N>());
    lemma_quotient_order(traded_value(low), traded_value(high), volume);
}

proof fn lemma_traded_values_in_order<N: Number>(low: Seq<MiniBar<N>>, high: Seq<MiniBar<N>>)
    requires
        monotone::<N>(),
        low.len() == high.len(),
        forall|i: int|
            0 <= i < low.len() ==> (#[trigger] low[i]).volume == high[i].volume && no_more(
                low[i].close,
                high[i].close,
            ) && no_more(zero::<N>(), low[i].close),
        forall|i: int|
            0 <= i < low.len() && less(zero::<N>(), (#[trigger] low[i]).volume) ==> is_number(
                product(low[i].close, low[i].volume),
            ) && is_number(product(high[i].close, high[i].volume)),
    ensures
        no_more(zero::<N>(), traded_value(low)),
        no_more(traded_value(low), traded_value(high)),
        traded_volumes(low) == traded_volumes(high),
    decreases low.len(),
{
    lemma_literals::<N>();
    lemma_compared(zero::<N>(), zero::<N>());
    if low.len() > 0 {
        let x = low.drop_last();
        let y = high.drop_last();
        assert forall|i: int| 0 <= i < x.len() implies (#[trigger] x[i]).volume == y[i].volume
            && no_more(x[i].close, y[i].close) && no_more(zero::<N>(), x[i].close) by {
            assert(x[i] == low[i]);
        }
        assert forall|i: int|
            0 <= i < x.len() && less(zero::<N>(), (#[trigger] x[i]).volume) implies is_number(
            product(x[i].close, x[i].volume),
        ) && is_number(product(y[i].close, y[i].volume)) by {
            assert(x[i] == low[i]);
        }
        lemma_traded_values_in_order(x, y);
        let last = low.len() - 1;
        let a = low[last];
        let b = high[last];
        assert(a.volume == b.volume);
        if less(zero::<N>(), a.volume) {
            let less_value = product(a.close, a.volume);
            let more_value = product(b.close, a.volume);
            lemma_product_order(a.close, b.close, a.volume);
            lemma_in_order(zero::<N>(), less_value, more_value);
            lemma_in_order(zero::<N>(), traded_value(x), traded_value(y));
            lemma_sum_order(traded_value(x), less_value);
            lemma_sum_order(traded_value(y), less_value);
            lemma_sum_order(traded_value(y), more_value);
            lemma_compared(zero::<N>(), sum(traded_value(x), less_value));
            lemma_compared(zero::<N>(), sum(traded_value(y), less_value));
            lemma_compared(zero::<N>(), sum(traded_value(y), more_value));
            lemma_sum_follows(traded_value(x), traded_value(y), less_value);
            lemma_sum_follows_second(less_value, more_value, traded_value(y));
            lemma_in_order(
                sum(traded_value(x), less_value),
                sum(traded_value(y), less_value),
                sum(traded_value(y), more_value),
            );
        }
    }
}

/// The bar being built takes every tick in: it closes at the tick's price, keeps its open,
/// adds the tick's volume, and its high and low are the greater and the lesser of what they
/// were and the price.
pub proof fn law_bars_gather_their_ticks<N: Number>(
    acc: TickAccumulator<N>,
    price: N,
    volume: N,
    now: Timestamp,
)
    requires
        ordered::<N>(),
        acc.count == 0 || now.span(acc.bar_start) < 60_000_000_000,
    ensures
        ({
            let (next, bar) = bar_step(acc, price, volume, now);
            &&& bar is None
            &&& next.open == acc.open
            &&& next.close == price
            &&& next.volume == sum(acc.volume, volume)
            &&& next.high == acc.high || next.high == price
            &&& !less(next.high, price) && !less(next.high, acc.high)
            &&& next.low == acc.low || next.low == price
            &&& !less(price, next.low) && !less(acc.low, next.low)
            &&& next.bar_start == acc.bar_start
            &&& acc.count < u32::MAX ==> next.count == acc.count + 1
        }),
{
}

/// The first tick of a symbol opens its bar at its price, and a tick that completes a bar
/// opens the next one with its own price and volume.
pub proof fn law_ticks_open_bars<N: Number>(
    state: TechnicalView<N>,
    tick: TickView,
    acc: TickAccumulator<N>,
    price: N,
    volume: N,
    now: Timestamp,
)
    requires
        !state.building.contains_key(tick.symbol),
    ensures
        ({
            let first = building_of(state, tick.symbol, price, now);
            &&& first.open == price && first.high == price && first.low == price
            &&& first.volume == zero::<N>() && first.count == 0 && first.bar_start == now
        }),
        bar_step(acc, price, volume, now).1 is Some ==> ({
            let next = bar_step(acc, price, volume, now).0;
            &&& next.open == price && next.high == price && next.low == price
            &&& next.close == price && next.volume == volume && next.count == 1
        }),
{
}

/// A tick of another asset class, or without a positive price, changes nothing and gives no
/// signal.
pub proof fn law_only_priced_equity_ticks_count<N: Number>(
    state: TechnicalView<N>,
    tick: TickView,
)
    requires
        tick.asset_class != AssetClass::Equity || decimal_value::<N>(tick.price) is None || no_more(
            decimal_value::<N>(tick.price)->0,
            zero::<N>(),
        ),
    ensures
        tick_outcome(state, tick) == (state, None::<SignalView<N>>),
{
}

/// A completed bar is read with the bars of the last two hours, the bar itself the latest of
/// them. There is no signal of fewer than five bars more than the period, or within two
/// minutes of the last one; otherwise it is the one that the bars give.
pub proof fn law_closes_are_read_with_the_history<N: Number>(
    state: TechnicalView<N>,
    symbol: Seq<char>,
    bar: Dated<MiniBar<N>>,
    now: Timestamp,
)
    ensures
        ({
            let (after, signal) = close_outcome(state, symbol, bar, now);
            let history = points_of(after.bars, symbol);
            let before = points_of(state.bars, symbol).push(bar);
            let recent_signal = state.signalled.contains_key(symbol) && now.elapsed(
                state.signalled[symbol],
            ) < 120;
            &&& history == recent(before, now, 7200)
            &&& history.len() > 0 ==> history.last() == bar
            &&& history.len() < state.rsi_period + 5 || recent_signal ==> signal is None
            &&& history.len() >= state.rsi_period + 5 && !recent_signal ==> signal == match (
                relative_strength(closes(items(history)), state.rsi_period)) {
                Some(rsi) => reading(state, symbol, items(history), rsi, now),
                None => None,
            }
            &&& signal is Some ==> after.signalled[symbol] == now
            &&& signal is None ==> after.signalled == state.signalled
        }),
{
    let before = points_of(state.bars, symbol).push(bar);
    law_window_keeps_the_recent(before, now, HISTORY_SECS as int);
}

/// A symbol that gave a signal gives no other within two minutes, to the nanosecond; one that
/// gave none is never held back.
pub proof fn law_symbols_rest_for_two_minutes<N>(
    state: TechnicalView<N>,
    symbol: Seq<char>,
    now: Timestamp,
)
    requires
        !now.in_leap(),
        state.signalled.contains_key(symbol) ==> !state.signalled[symbol].in_leap(),
    ensures
        !state.signalled.contains_key(symbol) ==> !signalled_recently(state, symbol, now),
        state.signalled.contains_key(symbol) ==> (signalled_recently(state, symbol, now)
            <==> now.value() < state.signalled[symbol].value() + 120_000_000_000),
{
    if state.signalled.contains_key(symbol) {
        law_elapsed_time_is_a_difference(state.signalled[symbol], now);
    }
}

/// The bars that count are those of the last two hours: a new bar counts, and the bars of
/// before count as long as they are no older than that.
pub proof fn law_bars_count_for_two_hours<N>(
    state: TechnicalView<N>,
    symbol: Seq<char>,
    bar: Dated<MiniBar<N>>,
    now: Timestamp,
)
    requires
        !now.in_leap(),
        forall|i: int|
            0 <= i < points_of(state.bars, symbol).len() ==> !(#[trigger] points_of(
                state.bars,
                symbol,
            )[i]).at.in_leap(),
        !bar.at.in_leap(),
        forall|i: int|
            0 <= i < points_of(state.bars, symbol).len() ==> (#[trigger] points_of(
                state.bars,
                symbol,
            )[i]).at.value() >= now.value() - 7200 * 1_000_000_000,
        bar.at.value() >= now.value() - 7200 * 1_000_000_000,
    ensures
        history_with(state, symbol, bar, now) == points_of(state.bars, symbol).push(bar),
{
    let points = points_of(state.bars, symbol).push(bar);
    if points[0].at.outdated(now, 7200) {
        law_outdated_is_beyond_the_window(points[0].at, now, 7200);
        if points_of(state.bars, symbol).len() > 0 {
            assert(points[0] == points_of(state.bars, symbol)[0]);
        }
    }
}

/// What is too old is dropped: where the first bar that counts is not the new one, it is no
/// more than two hours old.
pub proof fn law_old_bars_do_not_count<N>(
    state: TechnicalView<N>,
    symbol: Seq<char>,
    bar: Dated<MiniBar<N>>,
    now: Timestamp,
)
    requires
        !now.in_leap(),
    ensures
        ({
            let bars = history_with(state, symbol, bar, now);
            bars.len() > 0 && !bars[0].at.in_leap() ==> bars[0].at.value() >= now.value() - 7200
                * 1_000_000_000
        }),
{
    let points = points_of(state.bars, symbol).push(bar);
    law_window_keeps_the_recent(points, now, 7200);
    let bars = history_with(state, symbol, bar, now);
    if bars.len() > 0 && !bars[0].at.in_leap() {
        law_outdated_is_beyond_the_window(bars[0].at, now, 7200);
    }
}

/// A tick that tells no volume adds none to its bar.
pub proof fn law_no_volume_adds_nothing<N: Number>(volume: Decimal)
    ensures
        tick_volume::<N>(None) == zero::<N>(),
        decimal_value::<N>(volume) is None ==> tick_volume::<N>(Some(volume)) == zero::<N>(),
        decimal_value::<N>(volume) matches Some(v) ==> tick_volume::<N>(Some(volume)) == v,
{
}

/// A bar without volume is priced at the mean of its first, highest, lowest and last price,
/// which never lies outside of them; one with volume at its last price.
pub proof fn law_bars_without_volume_take_the_mean_price(acc: TickAccumulator<Fixed>)
    requires
        0 <= acc.low.units <= acc.high.units <= 1_000_000_000_000_000_000,
        acc.low.units <= acc.open.units <= acc.high.units,
        acc.low.units <= acc.close.units <= acc.high.units,
    ensures
        ({
            let priced = completed(acc).item.vwap.units;
            &&& acc.volume.units > 0 ==> priced == acc.close.units
            &&& acc.volume.units <= 0 ==> priced == (acc.open.units + acc.high.units
                + acc.low.units + acc.close.units) / 4
            &&& acc.low.units <= priced <= acc.high.units
        }),
{
    let four = lit::<Fixed>(4, 1);
    assert(four.units == 4 * UNIT);
    lemma_whole_scaled(
        acc.open.units + acc.high.units + acc.low.units + acc.close.units,
        4,
    );
}

/// Without bars there is no average price, and so no distance from it.
pub proof fn law_no_bars_no_reading<N: Number>()
    requires
        negligible(zero::<N>()),
    ensures
        vwap_reading(Seq::<MiniBar<N>>::empty()) == (None::<N>, None::<N>),
{
}

/// The gains less the losses of a run of prices are what its last price is above its first,
/// and neither is below zero: each change counts once, on the side it goes to.
pub proof fn law_gains_less_losses_are_the_change(prices: Seq<Fixed>)
    requires
        0 < prices.len() <= 1_000_000,
        forall|i: int|
            0 <= i < prices.len() ==> 0 <= (#[trigger] prices[i]).units <= 1_000_000_000_000,
    ensures
        gains(prices).units - losses(prices).units == prices.last().units - prices[0].units,
        0 <= gains(prices).units <= 1_000_000_000_000 * prices.len(),
        0 <= losses(prices).units <= 1_000_000_000_000 * prices.len(),
    decreases prices.len(),
{
    if prices.len() > 1 {
        let front = prices.drop_last();
        let n = prices.len();
        assert forall|i: int| 0 <= i < front.len() implies 0 <= (#[trigger] front[i]).units
            <= 1_000_000_000_000 by {
            assert(front[i] == prices[i]);
        }
        law_gains_less_losses_are_the_change(front);
        assert(prices[n - 1].units == prices.last().units);
        assert(front.last() == prices[n - 2]);
        assert(prices[n - 2].units >= 0);
        let change = difference(prices.last(), prices[n - 2]);
        assert(change.units == prices.last().units - prices[n - 2].units);
    }
}

} // verus!
