//! Realized volatility across asset classes, and where it diverges.
use crate::number::fixed::{
    is_root, law_fixed_is_monotone, lemma_no_log, lemma_no_root, lemma_root_is_root,
    lemma_whole_scaled, whole, Fixed, UNIT,
};
use crate::number::{
    abs, add_up, cap, capped, counted, decimal_value, difference, functional, is_finite, is_number,
    lemma_compared, lemma_difference_order, lemma_difference_sign, lemma_in_order, lemma_literals,
    lemma_quotient_order, less, lit, logarithm, magnitude, minus_one, monotone, no_more, one,
    ordered, product, quotient, root, total, zero, Number,
};
use crate::symbol_map::SymbolMap;
use crate::text::{characters, copy_text};
use crate::time::{signed, signed_seconds, unsigned_seconds, Timestamp};
use crate::types::{
    entry, maybe_signal, AssetClass, Detail, DetailView, SignalValue, SignalView, Symbol, Tick,
    TickView,
};
use crate::window::{
    items, law_window_keeps_the_recent, points_of, recent, series, Dated, RollingWindow,
};
use vstd::prelude::*;

verus! {

/// The logarithms of the ratios of each price to the one before it, where both
/// are positive.
pub open spec fn log_returns<N: Number>(prices: Seq<N>) -> Seq<N>
    decreases prices.len(),
{
    if prices.len() < 2 {
        Seq::empty()
    } else {
        let before = log_returns(prices.drop_last());
        let previous = prices[prices.len() - 2];
        let current = prices.last();
        if less(zero::<N>(), previous) && less(zero::<N>(), current) {
            before.push(logarithm(quotient(current, previous)))
        } else {
            before
        }
    }
}

/// The arithmetic mean; zero of nothing.
pub open spec fn average<N: Number>(values: Seq<N>) -> N {
    if values.len() == 0 {
        zero::<N>()
    } else {
        quotient(total(values), counted::<N>(values.len() as usize))
    }
}

/// The squares of the distances from a mean.
pub open spec fn squares<N: Number>(values: Seq<N>, mean: N) -> Seq<N> {
    values.map_values(|v: N| product(difference(v, mean), difference(v, mean)))
}

/// The root of the mean square distance from a mean.
pub open spec fn deviation<N: Number>(values: Seq<N>, mean: N) -> N {
    root(quotient(total(squares(values, mean)), counted::<N>(values.len() as usize)))
}

/// The standard deviation around a mean; zero of fewer than two values.
pub open spec fn spread<N: Number>(values: Seq<N>, mean: N) -> N {
    if values.len() < 2 {
        zero::<N>()
    } else {
        deviation(values, mean)
    }
}

/// The realized volatility of a run of prices: the deviation of its log returns
/// around their mean; zero where there is no return.
pub open spec fn realized_vol<N: Number>(prices: Seq<N>) -> N {
    let changes = log_returns(prices);
    if changes.len() == 0 {
        zero::<N>()
    } else {
        deviation(changes, average(changes))
    }
}

/// The state of an analyzer as a mathematical value.
#[verifier::ext_equal]
pub struct AnalyzerView<N> {
    /// Recent prices of each symbol.
    pub prices: Map<Seq<char>, Seq<Dated<N>>>,
    /// Recent volatilities of each symbol.
    pub vols: Map<Seq<char>, Seq<Dated<N>>>,
    /// The symbols with volatilities, in the order in which they first came.
    pub order: Seq<Seq<char>>,
    pub vol_window_secs: i64,
    pub min_ticks: usize,
    pub z_score_threshold: N,
    pub correlation_window_secs: i64,
    pub signal_cooldown_secs: u64,
    /// The second of the last signal since the epoch; zero before the first.
    pub last_signal_epoch: u64,
}

/// The order of symbols after one more came.
pub open spec fn order_with<T>(
    order: Seq<Seq<char>>,
    known: Map<Seq<char>, T>,
    symbol: Seq<char>,
) -> Seq<Seq<char>> {
    if known.contains_key(symbol) {
        order
    } else {
        order.push(symbol)
    }
}

/// What a number has to reach to be told from nothing.
pub open spec fn tiny<N: Number>() -> N {
    lit::<N>(1, 1_000_000_000_000)
}

/// Whether a number that cannot be negative is nothing to speak of. It is where it is
/// nothing, however coarse the numbers are.
pub open spec fn negligible<N: Number>(x: N) -> bool {
    no_more(x, zero::<N>()) || less(x, tiny::<N>())
}

/// Whether a number that cannot be negative is nothing to speak of.
pub(crate) fn is_negligible<N: Number>(x: N) -> (r: bool)
    requires
        functional::<N>(),
    ensures
        r == negligible(x),
{
    x.at_most(N::ratio(0, 1)) || x.below(N::ratio(1, 1_000_000_000_000))
}

/// How far a value stands out, in deviations from the mean of a series.
pub open spec fn z_score<N: Number>(value: N, values: Seq<N>) -> N {
    let m = average(values);
    quotient(difference(value, m), spread(values, m))
}

/// Whether a series counts towards the equity side: the symbol is not a crypto
/// pair, there are enough volatilities, and they are not all alike.
pub open spec fn equity_counts<N: Number>(symbol: Seq<char>, points: Seq<Dated<N>>) -> bool {
    let vols = items(points);
    &&& !symbol.contains('/')
    &&& points.len() >= 20
    &&& !negligible(spread(vols, average(vols)))
}

/// The z-scores of the latest volatilities of the equity symbols, in order.
pub open spec fn equity_scores<N: Number>(
    order: Seq<Seq<char>>,
    vols: Map<Seq<char>, Seq<Dated<N>>>,
) -> Seq<N>
    decreases order.len(),
{
    if order.len() == 0 {
        Seq::empty()
    } else {
        let before = equity_scores(order.drop_last(), vols);
        let points = vols[order.last()];
        if equity_counts(order.last(), points) {
            before.push(z_score(points.last().item, items(points)))
        } else {
            before
        }
    }
}

/// Whether the last signal is too recent for another one.
pub open spec fn on_cooldown<N>(state: AnalyzerView<N>, now: Timestamp) -> bool {
    let since = unsigned_seconds(now.secs) - state.last_signal_epoch;
    &&& state.last_signal_epoch > 0
    &&& (if since < 0 { 0 } else { since }) < state.signal_cooldown_secs
}

/// The signal for a divergence between crypto and equity volatility.
pub open spec fn divergence_view<N: Number>(
    symbol: Seq<char>,
    vol: N,
    mean: N,
    crypto_z: N,
    scores: Seq<N>,
    threshold: N,
    now: Timestamp,
) -> SignalView<N> {
    let equity_z = average(scores);
    let gap = difference(crypto_z, equity_z);
    SignalView {
        name: "crypto_vol_leads_equity"@,
        value: gap,
        direction: if less(zero::<N>(), gap) {
            minus_one::<N>()
        } else {
            one::<N>()
        },
        confidence: capped(
            quotient(magnitude(gap), product(threshold, lit::<N>(2, 1))),
            one::<N>(),
        ),
        symbols: seq![symbol],
        timestamp: now,
        metadata: seq![
            ("crypto_z_score"@, DetailView::Number(crypto_z)),
            ("equity_z_score_avg"@, DetailView::Number(equity_z)),
            ("divergence"@, DetailView::Number(gap)),
            ("crypto_vol"@, DetailView::Number(vol)),
            ("crypto_vol_mean"@, DetailView::Number(mean)),
            ("equity_z_scores"@, DetailView::Numbers(scores)),
            ("num_equity_symbols"@, DetailView::Count(scores.len() as usize)),
        ],
    }
}

/// The signal, if any, that a crypto volatility gives rise to: the symbol has a
/// long enough history that is not flat, there is an equity side to compare with,
/// the divergence reaches the threshold, and the two sides are not both elevated.
pub open spec fn divergence<N: Number>(
    state: AnalyzerView<N>,
    symbol: Seq<char>,
    vol: N,
    now: Timestamp,
) -> Option<SignalView<N>> {
    let points = points_of(state.vols, symbol);
    let vols = items(points);
    let mean = average(vols);
    let crypto_z = z_score(vol, vols);
    let scores = equity_scores(state.order, state.vols);
    let equity_z = average(scores);
    let elevated = lit::<N>(15, 10);
    if on_cooldown(state, now) || points.len() < 30 || negligible(spread(vols, mean))
        || scores.len() == 0 || less(
        magnitude(difference(crypto_z, equity_z)),
        state.z_score_threshold,
    ) || (less(elevated, equity_z) && less(elevated, crypto_z)) {
        None
    } else {
        Some(divergence_view(symbol, vol, mean, crypto_z, scores, state.z_score_threshold, now))
    }
}

/// What a tick leads to: the state after it and the signal it gives rise to.
pub open spec fn tick_outcome<N: Number>(state: AnalyzerView<N>, tick: TickView) -> (
    AnalyzerView<N>,
    Option<SignalView<N>>,
) {
    match decimal_value::<N>(tick.price) {
        Some(price) if !no_more(price, zero::<N>()) => {
            let now = tick.timestamp;
            let window = recent(
                points_of(state.prices, tick.symbol).push(Dated { item: price, at: now }),
                now,
                state.vol_window_secs as int,
            );
            let priced = AnalyzerView {
                prices: state.prices.insert(tick.symbol, window),
                ..state
            };
            if window.len() < state.min_ticks {
                (priced, None)
            } else {
                let vol = realized_vol(items(window));
                let vols = recent(
                    points_of(state.vols, tick.symbol).push(Dated { item: vol, at: now }),
                    now,
                    state.correlation_window_secs as int,
                );
                let measured = AnalyzerView {
                    vols: state.vols.insert(tick.symbol, vols),
                    order: order_with(state.order, state.vols, tick.symbol),
                    ..priced
                };
                if tick.asset_class != AssetClass::Crypto {
                    (measured, None)
                } else {
                    let signal = divergence(measured, tick.symbol, vol, now);
                    (after_divergence(measured, signal, now), signal)
                }
            }
        },
        _ => (state, None),
    }
}

/// The state after a divergence was looked for.
pub open spec fn after_divergence<N>(
    state: AnalyzerView<N>,
    signal: Option<SignalView<N>>,
    now: Timestamp,
) -> AnalyzerView<N> {
    AnalyzerView {
        last_signal_epoch: if signal is Some {
            unsigned_seconds(now.secs) as u64
        } else {
            state.last_signal_epoch
        },
        ..state
    }
}

/// Tracks realized volatility across asset classes and detects divergences.
///
/// The signal is not "is crypto vol high?" but "is crypto vol high relative to
/// equity vol?" If both are spiking, that is just a volatile market. If crypto vol
/// is spiking and equity vol is calm, crypto is pricing in risk that equities have
/// not yet.
pub struct CrossAssetAnalyzer<N: Number> {
    price_windows: SymbolMap<RollingWindow<N>>,
    vol_cache: SymbolMap<RollingWindow<N>>,
    vol_window_secs: i64,
    min_ticks: usize,
    z_score_threshold: N,
    correlation_window_secs: i64,
    signal_cooldown_secs: u64,
    last_signal_epoch: u64,
}

impl<N: Number> View for CrossAssetAnalyzer<N> {
    type V = AnalyzerView<N>;

    closed spec fn view(&self) -> AnalyzerView<N> {
        AnalyzerView {
            prices: series(self.price_windows@),
            vols: series(self.vol_cache@),
            order: self.vol_cache.order(),
            vol_window_secs: self.vol_window_secs,
            min_ticks: self.min_ticks,
            z_score_threshold: self.z_score_threshold,
            correlation_window_secs: self.correlation_window_secs,
            signal_cooldown_secs: self.signal_cooldown_secs,
            last_signal_epoch: self.last_signal_epoch,
        }
    }
}

impl<N: Number> CrossAssetAnalyzer<N> {
    /// The tables that the state is held in are in order.
    pub closed spec fn wf(&self) -> bool {
        self.price_windows.wf() && self.vol_cache.wf()
    }

    /// An analyzer that has seen nothing.
    pub fn new(
        vol_window_secs: u64,
        min_ticks: usize,
        z_score_threshold: N,
        correlation_window_secs: u64,
        signal_cooldown_secs: u64,
    ) -> (r: CrossAssetAnalyzer<N>)
        ensures
            r.wf(),
            r@ == (AnalyzerView {
                prices: Map::empty(),
                vols: Map::empty(),
                order: Seq::empty(),
                vol_window_secs: signed_seconds(vol_window_secs) as i64,
                min_ticks,
                z_score_threshold,
                correlation_window_secs: signed_seconds(correlation_window_secs) as i64,
                signal_cooldown_secs,
                last_signal_epoch: 0,
            }),
    {
        let r = CrossAssetAnalyzer {
            price_windows: SymbolMap::new(),
            vol_cache: SymbolMap::new(),
            vol_window_secs: signed(vol_window_secs),
            min_ticks,
            z_score_threshold,
            correlation_window_secs: signed(correlation_window_secs),
            signal_cooldown_secs,
            last_signal_epoch: 0,
        };
        assert(r@.prices =~= Map::empty());
        assert(r@.vols =~= Map::empty());
        r
    }

    /// Goes on under other settings with what it has seen.
    pub fn reconfigure(
        &mut self,
        vol_window_secs: u64,
        min_ticks: usize,
        z_score_threshold: N,
        correlation_window_secs: u64,
        signal_cooldown_secs: u64,
    )
        requires
            old(self).wf(),
        ensures
            final(self).wf(),
            final(self)@ == (AnalyzerView {
                vol_window_secs: signed_seconds(vol_window_secs) as i64,
                min_ticks,
                z_score_threshold,
                correlation_window_secs: signed_seconds(correlation_window_secs) as i64,
                signal_cooldown_secs,
                ..old(self)@
            }),
    {
        self.vol_window_secs = signed(vol_window_secs);
        self.min_ticks = min_ticks;
        self.z_score_threshold = z_score_threshold;
        self.correlation_window_secs = signed(correlation_window_secs);
        self.signal_cooldown_secs = signal_cooldown_secs;
    }

    /// Takes in a tick: extends the symbol's price window and volatility series,
    /// and looks for a divergence where the symbol is a crypto pair.
    pub fn on_tick(&mut self, tick: &Tick) -> (r: Option<SignalValue<N>>)
        requires
            old(self).wf(),
            functional::<N>(),
        ensures
            final(self).wf(),
            (final(self)@, maybe_signal(r)) == tick_outcome(old(self)@, tick@),
    {
        let price = match N::from_decimal(tick.price) {
            Some(price) => price,
            None => {
                return None;
            },
        };
        if price.at_most(N::ratio(0, 1)) {
            return None;
        }
        let now = tick.timestamp;
        let symbol = tick.symbol.as_str();
        let vol_window: i64 = self.vol_window_secs;
        let ghost start = *self;
        let window = self.price_windows.entry(symbol, RollingWindow::new());
        window.push(price, now, now, vol_window);
        let size: usize = window.len();
        let vol = compute_realized_vol(window);
        proof {
            assert(self@.prices =~= tick_outcome(start@, tick@).0.prices);
            assert(self@.prices[symbol@].len() == size);
        }
        if size < self.min_ticks {
            return None;
        }
        let vol_span: i64 = self.correlation_window_secs;
        let vols = self.vol_cache.entry(symbol, RollingWindow::new());
        vols.push(vol, now, now, vol_span);
        proof {
            assert(self@.vols =~= tick_outcome(start@, tick@).0.vols);
            assert(self@.order =~= tick_outcome(start@, tick@).0.order);
        }
        if tick.asset_class != AssetClass::Crypto {
            return None;
        }
        self.evaluate_divergence(&tick.symbol, vol, now)
    }

    /// Looks for a divergence between a crypto symbol's volatility and that of the
    /// equity symbols.
    pub fn evaluate_divergence(&mut self, crypto_symbol: &Symbol, current_vol: N, now: Timestamp)
        -> (r: Option<SignalValue<N>>)
        requires
            old(self).wf(),
            functional::<N>(),
        ensures
            final(self).wf(),
            maybe_signal(r) == divergence(old(self)@, crypto_symbol@, current_vol, now),
            final(self)@ == after_divergence(old(self)@, maybe_signal(r), now),
    {
        let now_epoch: u64 = now.epoch();
        let since: u64 = if now_epoch < self.last_signal_epoch {
            0
        } else {
            now_epoch - self.last_signal_epoch
        };
        if self.last_signal_epoch > 0 && since < self.signal_cooldown_secs {
            return None;
        }
        let crypto_vols = match self.vol_cache.get(crypto_symbol.as_str()) {
            Some(points) => {
                assert(self@.vols[crypto_symbol@] == points@);
                points.items()
            },
            None => {
                return None;
            },
        };
        if crypto_vols.len() < 30 {
            return None;
        }
        let crypto_mean = mean(&crypto_vols);
        let crypto_std = std_dev(&crypto_vols, crypto_mean);
        if is_negligible(crypto_std) {
            return None;
        }
        let crypto_z = current_vol.minus(crypto_mean).over(crypto_std);
        let scores = self.equity_z_scores();
        if scores.len() == 0 {
            return None;
        }
        let equity_z = mean(&scores);
        let gap = crypto_z.minus(equity_z);
        let size = abs(gap);
        if size.below(self.z_score_threshold) {
            return None;
        }
        let elevated = N::ratio(15, 10);
        if elevated.below(equity_z) && elevated.below(crypto_z) {
            return None;
        }
        self.last_signal_epoch = now_epoch;
        let direction = if N::ratio(0, 1).below(gap) {
            N::ratio(-1, 1)
        } else {
            N::ratio(1, 1)
        };
        let full = self.z_score_threshold.times(N::ratio(2, 1));
        let confidence = cap(size.over(full), N::ratio(1, 1));
        let count: usize = scores.len();
        let signal = SignalValue {
            name: copy_text("crypto_vol_leads_equity"),
            value: gap,
            direction,
            confidence,
            symbols: vec![crypto_symbol.copy()],
            timestamp: now,
            metadata: vec![
                entry("crypto_z_score", Detail::Number(crypto_z)),
                entry("equity_z_score_avg", Detail::Number(equity_z)),
                entry("divergence", Detail::Number(gap)),
                entry("crypto_vol", Detail::Number(current_vol)),
                entry("crypto_vol_mean", Detail::Number(crypto_mean)),
                entry("equity_z_scores", Detail::Numbers(scores)),
                entry("num_equity_symbols", Detail::Count(count)),
            ],
        };
        proof {
            let expected = divergence(old(self)@, crypto_symbol@, current_vol, now)->0;
            assert(signal@.symbols =~= expected.symbols);
            assert(signal@.metadata =~= expected.metadata);
        }
        Some(signal)
    }

    fn equity_z_scores(&self) -> (r: Vec<N>)
        requires
            self.wf(),
            functional::<N>(),
        ensures
            r@ == equity_scores(self@.order, self@.vols),
    {
        let mut scores: Vec<N> = Vec::new();
        let mut place: usize = 0;
        while place < self.vol_cache.len()
            invariant
                self.wf(),
                functional::<N>(),
                place <= self@.order.len(),
                scores@ == equity_scores(self@.order.take(place as int), self@.vols),
            decreases self@.order.len() - place,
        {
            assert(self@.order.take(place + 1).drop_last() =~= self@.order.take(place as int));
            let symbol = self.vol_cache.symbol_at(place);
            let points = self.vol_cache.value_at(place);
            assert(self@.vols[symbol@] == points@);
            if !has_char(symbol, '/') && points.len() >= 20 {
                let vols = points.items();
                let m = mean(&vols);
                let s = std_dev(&vols, m);
                if !is_negligible(s) {
                    if let Some(last_vol) = points.last() {
                        scores.push(last_vol.minus(m).over(s));
                    }
                }
            }
            place = place + 1;
        }
        assert(self@.order.take(place as int) =~= self@.order);
        scores
    }

    /// The latest volatility of a symbol.
    pub fn get_vol(&self, symbol: &Symbol) -> (r: Option<N>)
        requires
            self.wf(),
        ensures
            r == if points_of(self@.vols, symbol@).len() > 0 {
                Some(points_of(self@.vols, symbol@).last().item)
            } else {
                None
            },
    {
        match self.vol_cache.get(symbol.as_str()) {
            Some(points) => {
                assert(self@.vols[symbol@] == points@);
                points.last()
            },
            None => None,
        }
    }
}

fn has_char(text: &str, wanted: char) -> (r: bool)
    ensures
        r == text@.contains(wanted),
{
    let chars = characters(text);
    let mut i: usize = 0;
    while i < chars.len()
        invariant
            i <= chars@.len(),
            chars@ == text@,
            forall|j: int| 0 <= j < i ==> chars@[j] != wanted,
        decreases chars@.len() - i,
    {
        if chars[i] == wanted {
            return true;
        }
        i = i + 1;
    }
    false
}

/// The realized volatility of the prices in a window.
pub fn compute_realized_vol<N: Number>(window: &RollingWindow<N>) -> (r: N)
    requires
        functional::<N>(),
    ensures
        r == realized_vol(items(window@)),
{
    let prices = window.items();
    let nothing = N::ratio(0, 1);
    let mut changes: Vec<N> = Vec::new();
    let mut i: usize = 1;
    if prices.len() < 2 {
        return nothing;
    }
    while i < prices.len()
        invariant
            functional::<N>(),
            nothing == zero::<N>(),
            1 <= i <= prices@.len(),
            changes@ == log_returns(prices@.take(i as int)),
        decreases prices@.len() - i,
    {
        let ghost upto = prices@.take(i + 1);
        assert(upto.drop_last() =~= prices@.take(i as int));
        let previous = prices[i - 1];
        let current = prices[i];
        assert(upto[upto.len() - 2] == previous);
        assert(upto.last() == current);
        if nothing.below(previous) && nothing.below(current) {
            changes.push(current.over(previous).ln());
        }
        i = i + 1;
    }
    assert(prices@.take(i as int) =~= prices@);
    if changes.len() == 0 {
        return nothing;
    }
    let m = mean(&changes);
    mean_square(&changes, m).sqrt()
}

/// The mean of the squared distances from `m`.
fn mean_square<N: Number>(values: &Vec<N>, m: N) -> (r: N)
    requires
        functional::<N>(),
    ensures
        r == quotient(total(squares(values@, m)), counted::<N>(values@.len() as usize)),
{
    let mut squared: Vec<N> = Vec::new();
    let mut i: usize = 0;
    while i < values.len()
        invariant
            functional::<N>(),
            i <= values@.len(),
            squared@ == squares(values@, m).take(i as int),
        decreases values@.len() - i,
    {
        let distance = values[i].minus(m);
        squared.push(distance.times(distance));
        assert(squared@ =~= squares(values@, m).take(i + 1));
        i = i + 1;
    }
    assert(squared@ =~= squares(values@, m));
    add_up(&squared).over(N::count(values.len()))
}

/// The arithmetic mean; zero of nothing.
pub fn mean<N: Number>(values: &Vec<N>) -> (r: N)
    requires
        functional::<N>(),
    ensures
        r == average(values@),
{
    if values.len() == 0 {
        return N::ratio(0, 1);
    }
    add_up(values).over(N::count(values.len()))
}

/// The standard deviation around a mean; zero of fewer than two values.
pub fn std_dev<N: Number>(values: &Vec<N>, mean: N) -> (r: N)
    requires
        functional::<N>(),
    ensures
        r == spread(values@, mean),
{
    if values.len() < 2 {
        return N::ratio(0, 1);
    }
    mean_square(values, mean).sqrt()
}

/// The state after a run of ticks.
pub open spec fn after_ticks<N: Number>(
    state: AnalyzerView<N>,
    ticks: Seq<TickView>,
) -> AnalyzerView<N>
    decreases ticks.len(),
{
    if ticks.len() == 0 {
        state
    } else {
        tick_outcome(after_ticks(state, ticks.drop_last()), ticks.last()).0
    }
}

/// The signal that a tick of a run gives rise to.
pub open spec fn signal_of_tick<N: Number>(
    state: AnalyzerView<N>,
    ticks: Seq<TickView>,
    i: int,
) -> Option<SignalView<N>> {
    tick_outcome(after_ticks(state, ticks.take(i)), ticks[i]).1
}

proof fn lemma_epoch_after_signal<N: Number>(
    state: AnalyzerView<N>,
    ticks: Seq<TickView>,
    i: int,
    j: int,
)
    requires
        0 <= i < j <= ticks.len(),
        signal_of_tick(state, ticks, i) is Some,
        unsigned_seconds(ticks[i].timestamp.secs) > 0,
        state.signal_cooldown_secs > 0,
    ensures
        after_ticks(state, ticks.take(j)).last_signal_epoch >= unsigned_seconds(
            ticks[i].timestamp.secs,
        ),
        after_ticks(state, ticks.take(j)).signal_cooldown_secs == state.signal_cooldown_secs,
    decreases j,
{
    lemma_settings_kept(state, ticks.take(j));
    assert(ticks.take(j).drop_last() =~= ticks.take(j - 1));
    assert(ticks.take(j).last() == ticks[j - 1]);
    if j > i + 1 {
        lemma_epoch_after_signal(state, ticks, i, j - 1);
    }
}

proof fn lemma_settings_kept<N: Number>(state: AnalyzerView<N>, ticks: Seq<TickView>)
    ensures
        after_ticks(state, ticks).signal_cooldown_secs == state.signal_cooldown_secs,
        after_ticks(state, ticks).z_score_threshold == state.z_score_threshold,
    decreases ticks.len(),
{
    if ticks.len() > 0 {
        lemma_settings_kept(state, ticks.drop_last());
    }
}

/// Over any run of ticks, two signals are at least the cooldown apart, in whole
/// seconds since the epoch.
pub proof fn law_signals_keep_the_cooldown<N: Number>(
    state: AnalyzerView<N>,
    ticks: Seq<TickView>,
    i: int,
    j: int,
)
    requires
        0 <= i < j < ticks.len(),
        signal_of_tick(state, ticks, i) is Some,
        signal_of_tick(state, ticks, j) is Some,
        unsigned_seconds(ticks[i].timestamp.secs) > 0,
        state.signal_cooldown_secs > 0,
    ensures
        unsigned_seconds(ticks[j].timestamp.secs) - unsigned_seconds(ticks[i].timestamp.secs)
            >= state.signal_cooldown_secs,
{
    lemma_epoch_after_signal(state, ticks, i, j);
}

/// A signal comes from a crypto pair only, names that pair and the moment of its
/// tick, and its divergence reaches the threshold. It is never given where both
/// sides are elevated, and where arithmetic is ordered its confidence is at most
/// one.
pub proof fn law_signals_are_divergences<N: Number>(state: AnalyzerView<N>, tick: TickView)
    requires
        tick_outcome(state, tick).1 is Some,
    ensures
        ({
            let signal = tick_outcome(state, tick).1->0;
            &&& tick.asset_class == AssetClass::Crypto
            &&& signal.name == "crypto_vol_leads_equity"@
            &&& signal.symbols == seq![tick.symbol]
            &&& signal.timestamp == tick.timestamp
            &&& !less(magnitude(signal.value), state.z_score_threshold)
            &&& less(zero::<N>(), signal.value) ==> signal.direction == minus_one::<N>()
            &&& !less(zero::<N>(), signal.value) ==> signal.direction == one::<N>()
            &&& ordered::<N>() ==> !less(one::<N>(), signal.confidence)
        }),
{
}

/// Where both the equity side and the crypto symbol stand out by more than one
/// and a half deviations, there is no signal: the move is priced in.
pub proof fn law_no_signal_when_both_are_elevated<N: Number>(
    state: AnalyzerView<N>,
    symbol: Seq<char>,
    vol: N,
    now: Timestamp,
)
    requires
        less(lit::<N>(15, 10), average(equity_scores(state.order, state.vols))),
        less(lit::<N>(15, 10), z_score(vol, items(points_of(state.vols, symbol)))),
    ensures
        divergence(state, symbol, vol, now) is None,
{
}

/// A tick touches the windows of its own symbol alone.
pub proof fn law_ticks_keep_to_their_symbol<N: Number>(
    state: AnalyzerView<N>,
    tick: TickView,
    other: Seq<char>,
)
    requires
        other != tick.symbol,
    ensures
        points_of(tick_outcome(state, tick).0.prices, other) == points_of(state.prices, other),
        points_of(tick_outcome(state, tick).0.vols, other) == points_of(state.vols, other),
{
}

/// A capped number follows the number.
pub proof fn lemma_capped_order<N: Number>(a: N, b: N, limit: N)
    requires
        monotone::<N>(),
        no_more(a, b),
        is_number(limit),
    ensures
        no_more(capped(a, limit), capped(b, limit)),
{
    lemma_compared(a, b);
    lemma_compared(a, limit);
    lemma_compared(b, limit);
    lemma_compared(limit, limit);
    lemma_compared(limit, b);
    lemma_in_order(limit, a, b);
    lemma_in_order(a, b, limit);
    lemma_compared(limit, a);
}

/// The z-score of a value tells on which side of the mean it lies: it is positive only
/// above the mean, negative only below, and zero at the mean.
pub proof fn law_z_scores_tell_the_side<N: Number>(value: N, values: Seq<N>)
    requires
        monotone::<N>(),
        less(zero::<N>(), spread(values, average(values))),
    ensures
        less(zero::<N>(), z_score(value, values)) ==> less(average(values), value),
        less(z_score(value, values), zero::<N>()) ==> less(value, average(values)),
        value == average(values) && is_finite(value) ==> z_score(value, values) == zero::<N>(),
{
    let m = average(values);
    lemma_difference_sign(m, value);
    lemma_difference_sign(value, m);
    lemma_quotient_order(difference(value, m), difference(value, m), spread(values, m));
}

/// Of two values measured by the same series, the greater one has no lesser z-score.
pub proof fn law_z_scores_follow_the_value<N: Number>(low: N, high: N, values: Seq<N>)
    requires
        monotone::<N>(),
        less(zero::<N>(), spread(values, average(values))),
        no_more(low, high),
        is_number(difference(low, average(values))),
        is_number(difference(high, average(values))),
        is_number(z_score(low, values)),
        is_number(z_score(high, values)),
    ensures
        no_more(z_score(low, values), z_score(high, values)),
{
    let m = average(values);
    lemma_difference_order(low, high, m);
    lemma_quotient_order(difference(low, m), difference(high, m), spread(values, m));
}

/// Whether a score is the z-score of the latest of twenty volatilities or more, not all
/// alike, of a symbol without a slash.
pub open spec fn is_score_of<N: Number>(
    score: N,
    symbol: Seq<char>,
    points: Seq<Dated<N>>,
) -> bool {
    &&& !symbol.contains('/')
    &&& points.len() >= 20
    &&& !no_more(spread(items(points), average(items(points))), zero::<N>())
    &&& score == z_score(points[points.len() - 1].item, items(points))
}

/// Whether a score is of one of the symbols.
pub open spec fn on_the_equity_side<N: Number>(
    score: N,
    order: Seq<Seq<char>>,
    vols: Map<Seq<char>, Seq<Dated<N>>>,
) -> bool {
    exists|i: int| 0 <= i < order.len() && #[trigger] is_score_of(score, order[i], vols[order[i]])
}

/// The equity side is made up of the symbols without a slash that have twenty
/// volatilities or more which are not all alike; each of them counts with the z-score of
/// its latest volatility, and no other symbol counts.
pub proof fn law_the_equity_side_is_equities<N: Number>(
    order: Seq<Seq<char>>,
    vols: Map<Seq<char>, Seq<Dated<N>>>,
)
    requires
        monotone::<N>(),
    ensures
        equity_scores(order, vols).len() <= order.len(),
        forall|i: int|
            0 <= i < order.len() && !(#[trigger] order[i]).contains('/') && vols[order[i]].len()
                >= 20 && less(
                zero::<N>(),
                spread(items(vols[order[i]]), average(items(vols[order[i]]))),
            ) && !less(
                spread(items(vols[order[i]]), average(items(vols[order[i]]))),
                lit::<N>(1, 1_000_000_000_000),
            ) ==> equity_scores(order, vols).contains(
                z_score(vols[order[i]][vols[order[i]].len() - 1].item, items(vols[order[i]])),
            ),
        forall|k: int|
            0 <= k < equity_scores(order, vols).len() ==> on_the_equity_side(
                #[trigger] equity_scores(order, vols)[k],
                order,
                vols,
            ),
    decreases order.len(),
{
    let scores = equity_scores(order, vols);
    if order.len() > 0 {
        let front = order.drop_last();
        let last = order.len() - 1;
        let before = equity_scores(front, vols);
        law_the_equity_side_is_equities(front, vols);
        assert forall|i: int|
            0 <= i < order.len() && !(#[trigger] order[i]).contains('/') && vols[order[i]].len()
                >= 20 && less(
                zero::<N>(),
                spread(items(vols[order[i]]), average(items(vols[order[i]]))),
            ) && !less(
                spread(items(vols[order[i]]), average(items(vols[order[i]]))),
                lit::<N>(1, 1_000_000_000_000),
            ) implies scores.contains(
            z_score(vols[order[i]][vols[order[i]].len() - 1].item, items(vols[order[i]])),
        ) by {
            let z = z_score(vols[order[i]][vols[order[i]].len() - 1].item, items(vols[order[i]]));
            if i < last {
                assert(front[i] == order[i]);
                let k = before.index_of(z);
                assert(scores[k] == z);
            } else {
                lemma_compared(
                    zero::<N>(),
                    spread(items(vols[order[i]]), average(items(vols[order[i]]))),
                );
                assert(equity_counts(order.last(), vols[order.last()]));
                assert(scores[before.len() as int] == z);
            }
        }
        assert forall|k: int| 0 <= k < scores.len() implies on_the_equity_side(
            #[trigger] scores[k],
            order,
            vols,
        ) by {
            if k < before.len() {
                assert(before[k] == scores[k]);
                assert(on_the_equity_side(before[k], front, vols));
                let i = choose|i: int|
                    0 <= i < front.len() && #[trigger] is_score_of(
                        before[k],
                        front[i],
                        vols[front[i]],
                    );
                assert(order[i] == front[i]);
                assert(is_score_of(scores[k], order[i], vols[order[i]]));
            } else {
                assert(is_score_of(scores[k], order[last], vols[order[last]]));
            }
        }
    }
}

/// The value of a signal is the z-score of the crypto volatility in its own series less
/// the average z-score of the equity side.
pub proof fn law_divergence_is_crypto_less_equity<N: Number>(
    state: AnalyzerView<N>,
    symbol: Seq<char>,
    vol: N,
    now: Timestamp,
)
    requires
        divergence(state, symbol, vol, now) is Some,
    ensures
        divergence(state, symbol, vol, now)->0.value == difference(
            z_score(vol, items(state.vols[symbol])),
            average(equity_scores(state.order, state.vols)),
        ),
        state.vols.contains_key(symbol),
{
}

/// With the crypto side held fixed, calmer equities never make the divergence smaller.
pub proof fn law_calmer_equities_never_lessen_the_divergence<N: Number>(
    calm: AnalyzerView<N>,
    tense: AnalyzerView<N>,
    symbol: Seq<char>,
    vol: N,
    now: Timestamp,
)
    requires
        monotone::<N>(),
        points_of(calm.vols, symbol) == points_of(tense.vols, symbol),
        no_more(
            average(equity_scores(calm.order, calm.vols)),
            average(equity_scores(tense.order, tense.vols)),
        ),
        divergence(calm, symbol, vol, now) is Some,
        divergence(tense, symbol, vol, now) is Some,
        is_number(divergence(calm, symbol, vol, now)->0.value),
        is_number(divergence(tense, symbol, vol, now)->0.value),
    ensures
        no_more(
            divergence(tense, symbol, vol, now)->0.value,
            divergence(calm, symbol, vol, now)->0.value,
        ),
{
    lemma_difference_order(
        average(equity_scores(calm.order, calm.vols)),
        average(equity_scores(tense.order, tense.vols)),
        z_score(vol, items(points_of(calm.vols, symbol))),
    );
}

/// Where equities are calmer and all else is the same, a warning that crypto runs ahead
/// stays one.
pub proof fn law_calmer_equities_keep_the_warning<N: Number>(
    calm: AnalyzerView<N>,
    tense: AnalyzerView<N>,
    symbol: Seq<char>,
    vol: N,
    now: Timestamp,
)
    requires
        monotone::<N>(),
        points_of(calm.vols, symbol) == points_of(tense.vols, symbol),
        calm.z_score_threshold == tense.z_score_threshold,
        calm.signal_cooldown_secs == tense.signal_cooldown_secs,
        calm.last_signal_epoch == tense.last_signal_epoch,
        equity_scores(calm.order, calm.vols).len() > 0,
        no_more(
            average(equity_scores(calm.order, calm.vols)),
            average(equity_scores(tense.order, tense.vols)),
        ),
        is_number(
            difference(
                z_score(vol, items(points_of(calm.vols, symbol))),
                average(equity_scores(calm.order, calm.vols)),
            ),
        ),
        divergence(tense, symbol, vol, now) is Some,
        divergence(tense, symbol, vol, now)->0.direction == minus_one::<N>(),
    ensures
        divergence(calm, symbol, vol, now) is Some,
        divergence(calm, symbol, vol, now)->0.direction == minus_one::<N>(),
{
    let nothing = zero::<N>();
    let crypto = z_score(vol, items(points_of(calm.vols, symbol)));
    let low = average(equity_scores(calm.order, calm.vols));
    let high = average(equity_scores(tense.order, tense.vols));
    let gap = difference(crypto, low);
    let lesser = difference(crypto, high);
    let elevated = lit::<N>(15, 10);
    lemma_literals::<N>();
    assert(less(nothing, lesser));
    lemma_compared(nothing, lesser);
    lemma_compared(lesser, lesser);
    lemma_difference_order(low, high, crypto);
    lemma_in_order(nothing, lesser, gap);
    lemma_compared(nothing, gap);
    lemma_in_order(lesser, gap, calm.z_score_threshold);
    lemma_in_order(elevated, low, high);
    assert(magnitude(gap) == gap && magnitude(lesser) == lesser);
}

/// Where the crypto symbol and the equity side stand out alike, there is no divergence
/// and no signal.
pub proof fn law_no_divergence_no_signal<N: Number>(
    state: AnalyzerView<N>,
    symbol: Seq<char>,
    vol: N,
    now: Timestamp,
)
    requires
        monotone::<N>(),
        less(zero::<N>(), state.z_score_threshold),
        z_score(vol, items(points_of(state.vols, symbol))) == average(
            equity_scores(state.order, state.vols),
        ),
        is_finite(average(equity_scores(state.order, state.vols))),
    ensures
        divergence(state, symbol, vol, now) is None,
{
    let equity = average(equity_scores(state.order, state.vols));
    lemma_difference_sign(equity, equity);
    lemma_literals::<N>();
    assert(magnitude(zero::<N>()) == zero::<N>());
}

/// A signal is owed where the crypto symbol has thirty volatilities that are not all
/// alike, there is an equity side, the last signal is long enough ago, the crypto z-score
/// exceeds the equity average by the threshold or more, and not both stand out by more
/// than one and a half. It points down, and warns of what crypto prices in already.
pub proof fn law_divergences_are_signalled<N: Number>(
    state: AnalyzerView<N>,
    symbol: Seq<char>,
    vol: N,
    now: Timestamp,
)
    requires
        monotone::<N>(),
        state.vols.contains_key(symbol),
        state.vols[symbol].len() >= 30,
        less(zero::<N>(), spread(items(state.vols[symbol]), average(items(state.vols[symbol])))),
        !less(
            spread(items(state.vols[symbol]), average(items(state.vols[symbol]))),
            lit::<N>(1, 1_000_000_000_000),
        ),
        equity_scores(state.order, state.vols).len() > 0,
        state.last_signal_epoch == 0 || unsigned_seconds(now.secs) >= state.last_signal_epoch
            + state.signal_cooldown_secs,
        less(zero::<N>(), state.z_score_threshold),
        no_more(
            state.z_score_threshold,
            difference(
                z_score(vol, items(state.vols[symbol])),
                average(equity_scores(state.order, state.vols)),
            ),
        ),
        !less(lit::<N>(15, 10), average(equity_scores(state.order, state.vols))) || !less(
            lit::<N>(15, 10),
            z_score(vol, items(state.vols[symbol])),
        ),
    ensures
        divergence(state, symbol, vol, now) is Some,
        divergence(state, symbol, vol, now)->0.direction == minus_one::<N>(),
        divergence(state, symbol, vol, now)->0.symbols == seq![symbol],
        divergence(state, symbol, vol, now)->0.timestamp == now,
{
    let nothing = zero::<N>();
    let vols = items(state.vols[symbol]);
    let gap = difference(z_score(vol, vols), average(equity_scores(state.order, state.vols)));
    lemma_compared(nothing, spread(vols, average(vols)));
    lemma_in_order(nothing, state.z_score_threshold, gap);
    lemma_compared(nothing, gap);
    lemma_compared(state.z_score_threshold, gap);
    assert(magnitude(gap) == gap);
}

/// A larger divergence, in either direction, never comes with less confidence, and one of
/// twice the threshold comes with full confidence.
pub proof fn law_confidence_follows_the_divergence<N: Number>(
    a: AnalyzerView<N>,
    b: AnalyzerView<N>,
    symbol: Seq<char>,
    vol: N,
    now: Timestamp,
)
    requires
        monotone::<N>(),
        divergence(a, symbol, vol, now) is Some,
        divergence(b, symbol, vol, now) is Some,
        a.z_score_threshold == b.z_score_threshold,
        less(zero::<N>(), product(a.z_score_threshold, lit::<N>(2, 1))),
        is_finite(product(a.z_score_threshold, lit::<N>(2, 1))),
        no_more(
            magnitude(divergence(a, symbol, vol, now)->0.value),
            magnitude(divergence(b, symbol, vol, now)->0.value),
        ),
        is_number(
            quotient(
                magnitude(divergence(a, symbol, vol, now)->0.value),
                product(a.z_score_threshold, lit::<N>(2, 1)),
            ),
        ),
        is_number(
            quotient(
                magnitude(divergence(b, symbol, vol, now)->0.value),
                product(a.z_score_threshold, lit::<N>(2, 1)),
            ),
        ),
    ensures
        no_more(
            divergence(a, symbol, vol, now)->0.confidence,
            divergence(b, symbol, vol, now)->0.confidence,
        ),
        no_more(
            product(a.z_score_threshold, lit::<N>(2, 1)),
            magnitude(divergence(b, symbol, vol, now)->0.value),
        ) ==> divergence(b, symbol, vol, now)->0.confidence == one::<N>(),
{
    let full = product(a.z_score_threshold, lit::<N>(2, 1));
    let small = magnitude(divergence(a, symbol, vol, now)->0.value);
    let large = magnitude(divergence(b, symbol, vol, now)->0.value);
    lemma_literals::<N>();
    lemma_quotient_order(small, large, full);
    lemma_quotient_order(full, large, full);
    lemma_capped_order(quotient(small, full), quotient(large, full), one::<N>());
    lemma_compared(one::<N>(), quotient(large, full));
}

/// A signal tells the figures that it comes from.
pub proof fn law_signals_tell_their_figures<N: Number>(
    state: AnalyzerView<N>,
    symbol: Seq<char>,
    vol: N,
    now: Timestamp,
)
    requires
        divergence(state, symbol, vol, now) is Some,
    ensures
        ({
            let signal = divergence(state, symbol, vol, now)->0;
            let scores = equity_scores(state.order, state.vols);
            let vols = items(state.vols[symbol]);
            let told = signal.metadata;
            &&& told.len() == 7
            &&& told[0] == ("crypto_z_score"@, DetailView::Number(z_score(vol, vols)))
            &&& told[1] == ("equity_z_score_avg"@, DetailView::Number(average(scores)))
            &&& told[2] == ("divergence"@, DetailView::Number(signal.value))
            &&& told[3] == ("crypto_vol"@, DetailView::Number(vol))
            &&& told[4] == ("crypto_vol_mean"@, DetailView::Number(average(vols)))
            &&& told[5] == ("equity_z_scores"@, DetailView::Numbers(scores))
            &&& told[6].0 == "num_equity_symbols"@
            &&& scores.len() <= usize::MAX ==> told[6].1 == DetailView::<N>::Count(
                scores.len() as usize,
            )
        }),
{
}

/// A tick at a positive price is remembered as the latest price of its symbol; one that
/// is not changes nothing.
pub proof fn law_prices_are_remembered<N: Number>(state: AnalyzerView<N>, tick: TickView)
    requires
        state.vol_window_secs >= 0,
    ensures
        match decimal_value::<N>(tick.price) {
            Some(price) => if no_more(price, zero::<N>()) {
                tick_outcome(state, tick) == (state, None::<SignalView<N>>)
            } else {
                let window = points_of(tick_outcome(state, tick).0.prices, tick.symbol);
                &&& window.len() > 0
                &&& window.last() == Dated { item: price, at: tick.timestamp }
                &&& window.len() <= points_of(state.prices, tick.symbol).len() + 1
            },
            None => tick_outcome(state, tick) == (state, None::<SignalView<N>>),
        },
{
    if let Some(price) = decimal_value::<N>(tick.price) {
        let all = points_of(state.prices, tick.symbol).push(
            Dated { item: price, at: tick.timestamp },
        );
        law_window_keeps_the_recent(all, tick.timestamp, state.vol_window_secs as int);
        assert(!all[all.len() - 1].at.outdated(tick.timestamp, state.vol_window_secs as int));
    }
}

/// Once enough prices of a symbol are in its window, each tick adds the volatility of the
/// prices in the window to the symbol's series; before, none is added.
pub proof fn law_volatilities_are_of_the_window<N: Number>(state: AnalyzerView<N>, tick: TickView)
    requires
        state.correlation_window_secs >= 0,
        decimal_value::<N>(tick.price) is Some,
        !no_more(decimal_value::<N>(tick.price)->0, zero::<N>()),
    ensures
        ({
            let after = tick_outcome(state, tick).0;
            let window = points_of(after.prices, tick.symbol);
            let vols = points_of(after.vols, tick.symbol);
            if window.len() >= state.min_ticks {
                &&& vols.len() > 0
                &&& vols.last() == Dated { item: realized_vol(items(window)), at: tick.timestamp }
                &&& vols.len() <= points_of(state.vols, tick.symbol).len() + 1
            } else {
                vols == points_of(state.vols, tick.symbol)
            }
        }),
{
    let after = tick_outcome(state, tick).0;
    let window = points_of(after.prices, tick.symbol);
    let all = points_of(state.vols, tick.symbol).push(
        Dated { item: realized_vol(items(window)), at: tick.timestamp },
    );
    law_window_keeps_the_recent(all, tick.timestamp, state.correlation_window_secs as int);
    assert(!all[all.len() - 1].at.outdated(tick.timestamp, state.correlation_window_secs as int));
}

/// Volatility is a matter of ratios: runs of positive prices of which each is to the one
/// before it as in the other run have the same volatility, however high the prices are.
pub proof fn law_volatility_goes_by_ratios<N: Number>(a: Seq<N>, b: Seq<N>)
    requires
        a.len() == b.len(),
        forall|i: int| 0 <= i < a.len() ==> less(zero::<N>(), #[trigger] a[i]),
        forall|i: int| 0 <= i < b.len() ==> less(zero::<N>(), #[trigger] b[i]),
        forall|i: int|
            0 < i < a.len() ==> quotient(#[trigger] a[i], a[i - 1]) == quotient(b[i], b[i - 1]),
    ensures
        realized_vol(a) == realized_vol(b),
{
    lemma_same_returns(a, b);
}

proof fn lemma_same_returns<N: Number>(a: Seq<N>, b: Seq<N>)
    requires
        a.len() == b.len(),
        forall|i: int| 0 <= i < a.len() ==> less(zero::<N>(), #[trigger] a[i]),
        forall|i: int| 0 <= i < b.len() ==> less(zero::<N>(), #[trigger] b[i]),
        forall|i: int|
            0 < i < a.len() ==> quotient(#[trigger] a[i], a[i - 1]) == quotient(b[i], b[i - 1]),
    ensures
        log_returns(a) == log_returns(b),
        a.len() > 0 ==> log_returns(a).len() == a.len() - 1,
    decreases a.len(),
{
    if a.len() >= 2 {
        let x = a.drop_last();
        let y = b.drop_last();
        assert forall|i: int| 0 <= i < x.len() implies less(zero::<N>(), #[trigger] x[i]) by {
            assert(x[i] == a[i]);
        }
        assert forall|i: int| 0 <= i < y.len() implies less(zero::<N>(), #[trigger] y[i]) by {
            assert(y[i] == b[i]);
        }
        assert forall|i: int| 0 < i < x.len() implies quotient(#[trigger] x[i], x[i - 1])
            == quotient(y[i], y[i - 1]) by {
            assert(x[i] == a[i]);
        }
        lemma_same_returns(x, y);
        let last = a.len() - 1;
        assert(quotient(a[last], a[last - 1]) == quotient(b[last], b[last - 1]));
        assert(less(zero::<N>(), a[last - 1]) && less(zero::<N>(), b[last - 1]));
    }
}

/// Prices that do not change have no volatility.
pub proof fn law_constant_prices_have_no_volatility(prices: Seq<Fixed>, price: Fixed)
    requires
        price.units > 0,
        forall|i: int| 0 <= i < prices.len() ==> (#[trigger] prices[i]) == price,
        prices.len() <= 1_000_000,
    ensures
        realized_vol(prices) == zero::<Fixed>(),
{
    let changes = log_returns(prices);
    lemma_no_returns(prices, price);
    if changes.len() > 0 {
        lemma_nothing_adds_up(changes);
        let n = changes.len() as usize;
        law_fixed_is_monotone();
        lemma_quotient_order(zero::<Fixed>(), zero::<Fixed>(), counted::<Fixed>(n));
        let squared = squares(changes, average(changes));
        assert forall|i: int| 0 <= i < squared.len() implies (#[trigger] squared[i]) == zero::<
            Fixed,
        >() by {
            assert(changes[i] == zero::<Fixed>());
            assert(average(changes) == zero::<Fixed>());
            assert(zero::<Fixed>().units == 0);
            assert(difference(changes[i], average(changes)).units == 0);
        }
        lemma_nothing_adds_up(squared);
        lemma_no_root();
    }
}

proof fn lemma_nothing_adds_up(values: Seq<Fixed>)
    requires
        forall|i: int| 0 <= i < values.len() ==> (#[trigger] values[i]) == zero::<Fixed>(),
    ensures
        total(values) == zero::<Fixed>(),
    decreases values.len(),
{
    if values.len() > 0 {
        let front = values.drop_last();
        assert forall|i: int| 0 <= i < front.len() implies (#[trigger] front[i]) == zero::<
            Fixed,
        >() by {
            assert(front[i] == values[i]);
        }
        lemma_nothing_adds_up(front);
        assert(values[values.len() - 1] == zero::<Fixed>());
    }
}

proof fn lemma_no_returns(prices: Seq<Fixed>, price: Fixed)
    requires
        price.units > 0,
        forall|i: int| 0 <= i < prices.len() ==> (#[trigger] prices[i]) == price,
    ensures
        forall|i: int|
            0 <= i < log_returns(prices).len() ==> (#[trigger] log_returns(prices)[i]) == zero::<
                Fixed,
            >(),
        log_returns(prices).len() <= prices.len(),
    decreases prices.len(),
{
    if prices.len() >= 2 {
        let front = prices.drop_last();
        assert forall|i: int| 0 <= i < front.len() implies (#[trigger] front[i]) == price by {
            assert(front[i] == prices[i]);
        }
        lemma_no_returns(front, price);
        assert(prices[prices.len() - 2] == price && prices[prices.len() - 1] == price);
        law_fixed_is_monotone();
        lemma_quotient_order(price, price, price);
        lemma_no_log();
    }
}

/// What values come to in units.
pub open spec fn units_in_all(values: Seq<Fixed>) -> int
    decreases values.len(),
{
    if values.len() == 0 {
        0
    } else {
        units_in_all(values.drop_last()) + values.last().units
    }
}

proof fn lemma_total_units(values: Seq<Fixed>, low: int, high: int)
    requires
        values.len() <= 1_000_000,
        -1_000_000_000_000 <= low <= high <= 1_000_000_000_000,
        forall|i: int| 0 <= i < values.len() ==> low <= (#[trigger] values[i]).units <= high,
    ensures
        total(values).units == units_in_all(values),
        low * values.len() <= units_in_all(values) <= high * values.len(),
        -1_000_000_000_000 * values.len() <= units_in_all(values) <= 1_000_000_000_000
            * values.len(),
    decreases values.len(),
{
    if values.len() > 0 {
        let front = values.drop_last();
        assert forall|i: int| 0 <= i < front.len() implies low <= (#[trigger] front[i]).units
            <= high by {
            assert(front[i] == values[i]);
        }
        lemma_total_units(front, low, high);
        let n = front.len() as int;
        assert(low * (n + 1) == low * n + low && high * (n + 1) == high * n + high)
            by (nonlinear_arith);
        assert(values[n].units == values.last().units);
    } else {
        assert(low * 0 == 0 && high * 0 == 0) by (nonlinear_arith);
    }
}

/// The mean of values is what they come to by their number, without what is below a unit,
/// and so lies between the least and the greatest of them.
pub proof fn law_the_mean_lies_between(values: Seq<Fixed>, low: int, high: int)
    requires
        0 < values.len() <= 1_000_000,
        -1_000_000_000_000 <= low <= high <= 1_000_000_000_000,
        forall|i: int| 0 <= i < values.len() ==> low <= (#[trigger] values[i]).units <= high,
    ensures
        average(values).units == whole(units_in_all(values), values.len() as int),
        low <= average(values).units <= high,
{
    let n = values.len() as int;
    let t = units_in_all(values);
    lemma_total_units(values, low, high);
    assert(counted::<Fixed>(values.len() as usize).units == n * UNIT);
    lemma_whole_scaled(t, n);
    assert(-1_000_000_000_000 <= whole(t, n) <= 1_000_000_000_000 && low <= whole(t, n) <= high)
        by {
        if t >= 0 {
            vstd::arithmetic::div_mod::lemma_fundamental_div_mod(t, n);
            assert(low <= t / n <= high && 0 <= t / n) by (nonlinear_arith)
                requires
                    t == n * (t / n) + t % n,
                    0 <= t % n < n,
                    0 <= t,
                    low * n <= t <= high * n,
                    n > 0,
            ;
        } else {
            let s = -t;
            vstd::arithmetic::div_mod::lemma_fundamental_div_mod(s, n);
            assert(low <= -(s / n) <= high) by (nonlinear_arith)
                requires
                    s == n * (s / n) + s % n,
                    0 <= s % n < n,
                    0 < s,
                    low * n <= -s <= high * n,
                    n > 0,
            ;
        }
    }
}

/// Of nothing there is no mean and no spread: both count as zero, and so does the spread of
/// a single value.
pub proof fn law_nothing_has_no_mean<N: Number>(value: N, mean: N)
    ensures
        average(Seq::<N>::empty()) == zero::<N>(),
        spread(Seq::<N>::empty(), mean) == zero::<N>(),
        spread(seq![value], mean) == zero::<N>(),
{
}

/// The spread of values around a mean is the root of the mean of the squares of their
/// distances from it, each step without what is below a unit: how far a value lies from the
/// mean counts, and not on which side.
pub proof fn law_the_spread_goes_by_distances(values: Seq<Fixed>, mean: Fixed)
    requires
        2 <= values.len() <= 1_000_000,
        forall|i: int|
            0 <= i < values.len() ==> -1_000_000_000 <= (#[trigger] values[i]).units - mean.units
                <= 1_000_000_000,
    ensures
        ({
            let far = squares(values, mean);
            &&& far.len() == values.len()
            &&& forall|i: int|
                0 <= i < values.len() ==> (#[trigger] far[i]).units == (values[i].units
                    - mean.units) * (values[i].units - mean.units) / 1_000_000
            &&& is_root(
                units_in_all(far) / values.len() as int * 1_000_000,
                spread(values, mean).units as int,
            )
        }),
{
    let far = squares(values, mean);
    let n = values.len() as int;
    assert forall|i: int| 0 <= i < values.len() implies (#[trigger] far[i]).units == (
    values[i].units - mean.units) * (values[i].units - mean.units) / 1_000_000 && 0
        <= far[i].units <= 1_000_000_000_000 by {
        let d = values[i].units - mean.units;
        assert(difference(values[i], mean).units == d);
        assert(0 <= d * d <= 1_000_000_000_000_000_000) by (nonlinear_arith)
            requires
                -1_000_000_000 <= d <= 1_000_000_000,
        ;
    }
    lemma_total_units(far, 0, 1_000_000_000_000);
    let t = units_in_all(far);
    assert(counted::<Fixed>(values.len() as usize).units == n * UNIT);
    lemma_whole_scaled(t, n);
    assert(0 <= t / n <= 1_000_000_000_000) by (nonlinear_arith)
        requires
            0 <= t <= 1_000_000_000_000 * n,
            n > 0,
    ;
    lemma_root_is_root(quotient(total(far), counted::<Fixed>(values.len() as usize)));
}

} // verus!
