//! The signal engine: hands events to the analyzers and holds signals back until
//! the warmup is over.
use super::cross_asset::{self, AnalyzerView, CrossAssetAnalyzer};
use super::sentiment::{self, SentimentAnalyzer, SentimentView};
use super::technical::{self, TechnicalAnalyzer, TechnicalView};
use crate::config::SignalsConfig;
use crate::events::Event;
use crate::number::{functional, lit, Number};
use crate::time::{
    law_points_come_in_order, law_seconds_are_taken_as_they_are, signed, signed_seconds, utc_now,
    Timestamp,
};
use crate::types::{maybe_signal, signal_views, SignalValue, SignalView};
use vstd::prelude::*;

verus! {

/// The state of the engine as a mathematical value.
#[verifier::ext_equal]
pub struct EngineView<N> {
    pub cross_asset: AnalyzerView<N>,
    pub technical: TechnicalView<N>,
    pub sentiment: SentimentView<N>,
    pub warmup_until: Timestamp,
    pub events: u64,
    pub emitted: u64,
    pub suppressed: u64,
}

/// A counter that goes up as far as it can.
pub open spec fn raised(counter: u64, by: nat) -> u64 {
    if counter + by <= u64::MAX {
        (counter + by) as u64
    } else {
        u64::MAX
    }
}

fn raise(counter: u64, by: usize) -> (r: u64)
    ensures
        r == raised(counter, by as nat),
{
    if (by as u128) <= (u64::MAX - counter) as u128 {
        counter + by as u64
    } else {
        u64::MAX
    }
}

/// The signal that may be there, as a sequence.
pub open spec fn as_sequence<N>(signal: Option<SignalView<N>>) -> Seq<SignalView<N>> {
    match signal {
        Some(s) => seq![s],
        None => Seq::empty(),
    }
}

/// What the analyzers make of an event: the state after it and all signals, of the
/// cross-asset analyzer first. Only ticks and news concern them.
pub open spec fn observed<N: Number>(state: EngineView<N>, event: Event<N>, now: Timestamp) -> (
    EngineView<N>,
    Seq<SignalView<N>>,
) {
    match event {
        Event::Tick(tick) => {
            let (cross_asset, first) = cross_asset::tick_outcome(state.cross_asset, tick@);
            let (technical, second) = technical::tick_outcome(state.technical, tick@);
            (
                EngineView { cross_asset, technical, ..state },
                as_sequence(first) + as_sequence(second),
            )
        },
        Event::News(article) => {
            let (sentiment, signals) = sentiment::news_outcome(state.sentiment, article@, now);
            (EngineView { sentiment, ..state }, signals)
        },
        _ => (state, Seq::empty()),
    }
}

/// Whether signals are held back.
pub open spec fn warming_up<N>(state: EngineView<N>, now: Timestamp) -> bool {
    now.before(state.warmup_until)
}

/// What an event leads to: the state after it and the signals that go out. During
/// warmup none go out; they are counted as suppressed.
pub open spec fn event_outcome<N: Number>(
    state: EngineView<N>,
    event: Event<N>,
    now: Timestamp,
) -> (EngineView<N>, Seq<SignalView<N>>) {
    let (next, signals) = observed(state, event, now);
    let events = raised(state.events, 1);
    if warming_up(state, now) {
        (
            EngineView { events, suppressed: raised(state.suppressed, signals.len()), ..next },
            Seq::empty(),
        )
    } else {
        (EngineView { events, emitted: raised(state.emitted, signals.len()), ..next }, signals)
    }
}

/// Turns events into signals.
pub struct SignalEngine<N: Number> {
    cross_asset: CrossAssetAnalyzer<N>,
    technical: TechnicalAnalyzer<N>,
    sentiment: SentimentAnalyzer<N>,
    warmup_until: Timestamp,
    events: u64,
    emitted: u64,
    suppressed: u64,
}

impl<N: Number> View for SignalEngine<N> {
    type V = EngineView<N>;

    closed spec fn view(&self) -> EngineView<N> {
        EngineView {
            cross_asset: self.cross_asset@,
            technical: self.technical@,
            sentiment: self.sentiment@,
            warmup_until: self.warmup_until,
            events: self.events,
            emitted: self.emitted,
            suppressed: self.suppressed,
        }
    }
}

/// The state of an engine that starts at a given moment.
pub open spec fn started<N: Number>(
    config: SignalsConfig<N>,
    warmup_secs: u64,
    now: Timestamp,
) -> EngineView<N> {
    EngineView {
        cross_asset: AnalyzerView {
            prices: Map::empty(),
            vols: Map::empty(),
            order: Seq::empty(),
            vol_window_secs: signed_seconds(config.cross_asset.vol_window_secs) as i64,
            min_ticks: config.cross_asset.min_ticks,
            z_score_threshold: config.cross_asset.z_score_threshold,
            correlation_window_secs: signed_seconds(
                config.cross_asset.correlation_window_secs,
            ) as i64,
            signal_cooldown_secs: config.cross_asset.signal_cooldown_secs,
            last_signal_epoch: 0,
        },
        technical: TechnicalView {
            building: Map::empty(),
            bars: Map::empty(),
            signalled: Map::empty(),
            rsi_period: config.technical.rsi_period,
            rsi_overbought: config.technical.rsi_overbought,
            rsi_oversold: config.technical.rsi_oversold,
            vwap_deviation_threshold: config.technical.vwap_deviation_threshold,
            volume_spike_multiplier: config.technical.volume_spike_multiplier,
        },
        sentiment: SentimentView {
            articles: Map::empty(),
            window_secs: 3600,
            min_articles: 3,
            threshold: lit::<N>(4, 10),
        },
        warmup_until: now.later(signed_seconds(warmup_secs) as i64),
        events: 0,
        emitted: 0,
        suppressed: 0,
    }
}

/// The state under other settings: what was seen stays.
pub open spec fn reconfigured<N: Number>(
    state: EngineView<N>,
    config: SignalsConfig<N>,
) -> EngineView<N> {
    EngineView {
        cross_asset: AnalyzerView {
            vol_window_secs: signed_seconds(config.cross_asset.vol_window_secs) as i64,
            min_ticks: config.cross_asset.min_ticks,
            z_score_threshold: config.cross_asset.z_score_threshold,
            correlation_window_secs: signed_seconds(
                config.cross_asset.correlation_window_secs,
            ) as i64,
            signal_cooldown_secs: config.cross_asset.signal_cooldown_secs,
            ..state.cross_asset
        },
        technical: TechnicalView {
            rsi_period: config.technical.rsi_period,
            rsi_overbought: config.technical.rsi_overbought,
            rsi_oversold: config.technical.rsi_oversold,
            vwap_deviation_threshold: config.technical.vwap_deviation_threshold,
            volume_spike_multiplier: config.technical.volume_spike_multiplier,
            ..state.technical
        },
        ..state
    }
}

impl<N: Number> SignalEngine<N> {
    /// The analyzers are in order.
    pub closed spec fn wf(&self) -> bool {
        self.cross_asset.wf() && self.technical.wf() && self.sentiment.wf()
    }

    /// An engine that starts at a given moment and warms up from there.
    pub fn new_at(config: &SignalsConfig<N>, warmup_secs: u64, now: Timestamp) -> (r: SignalEngine<
        N,
    >)
        requires
            functional::<N>(),
        ensures
            r.wf(),
            r@ == started(*config, warmup_secs, now),
    {
        SignalEngine {
            cross_asset: CrossAssetAnalyzer::new(
                config.cross_asset.vol_window_secs,
                config.cross_asset.min_ticks,
                config.cross_asset.z_score_threshold,
                config.cross_asset.correlation_window_secs,
                config.cross_asset.signal_cooldown_secs,
            ),
            technical: TechnicalAnalyzer::new(
                config.technical.rsi_period,
                config.technical.rsi_overbought,
                config.technical.rsi_oversold,
                config.technical.vwap_deviation_threshold,
                config.technical.volume_spike_multiplier,
            ),
            sentiment: SentimentAnalyzer::new(),
            warmup_until: now.plus_seconds(signed(warmup_secs)),
            events: 0,
            emitted: 0,
            suppressed: 0,
        }
    }

    /// An engine that starts now.
    pub fn new(config: &SignalsConfig<N>, warmup_secs: u64) -> (r: SignalEngine<N>)
        requires
            functional::<N>(),
        ensures
            r.wf(),
            exists|now: Timestamp| r@ == #[trigger] started(*config, warmup_secs, now),
    {
        let now = utc_now();
        SignalEngine::new_at(config, warmup_secs, now)
    }

    /// Goes on under other settings with what it has seen. The warmup is not affected.
    pub fn reconfigure(&mut self, config: &SignalsConfig<N>)
        requires
            old(self).wf(),
        ensures
            final(self).wf(),
            final(self)@ == reconfigured(old(self)@, *config),
    {
        self.cross_asset.reconfigure(
            config.cross_asset.vol_window_secs,
            config.cross_asset.min_ticks,
            config.cross_asset.z_score_threshold,
            config.cross_asset.correlation_window_secs,
            config.cross_asset.signal_cooldown_secs,
        );
        self.technical.reconfigure(
            config.technical.rsi_period,
            config.technical.rsi_overbought,
            config.technical.rsi_oversold,
            config.technical.vwap_deviation_threshold,
            config.technical.volume_spike_multiplier,
        );
    }

    /// The analyzer of volatility across asset classes.
    pub fn cross_asset_analyzer(&self) -> (r: &CrossAssetAnalyzer<N>)
        requires
            self.wf(),
        ensures
            r.wf(),
            r@ == self@.cross_asset,
    {
        &self.cross_asset
    }

    /// The analyzer of bars.
    pub fn technical_analyzer(&self) -> (r: &TechnicalAnalyzer<N>)
        requires
            self.wf(),
        ensures
            r.wf(),
            r@ == self@.technical,
    {
        &self.technical
    }

    /// How many events came, how many signals went out and how many were held back.
    pub fn counts(&self) -> (r: (u64, u64, u64))
        ensures
            r == (self@.events, self@.emitted, self@.suppressed),
    {
        (self.events, self.emitted, self.suppressed)
    }

    /// Takes in an event at a given moment and gives the signals that go out.
    pub fn on_event_at(&mut self, event: &Event<N>, now: Timestamp) -> (r: Vec<SignalValue<N>>)
        requires
            old(self).wf(),
            functional::<N>(),
        ensures
            final(self).wf(),
            (final(self)@, signal_views(r@)) == event_outcome(old(self)@, *event, now),
    {
        let warmup = now.is_before(self.warmup_until);
        self.events = raise(self.events, 1);
        let mut signals: Vec<SignalValue<N>> = Vec::new();
        match event {
            Event::Tick(tick) => {
                let first = self.cross_asset.on_tick(tick);
                let second = self.technical.on_tick(tick);
                let ghost expected = as_sequence(maybe_signal(first)) + as_sequence(
                    maybe_signal(second),
                );
                if let Some(signal) = first {
                    signals.push(signal);
                }
                if let Some(signal) = second {
                    signals.push(signal);
                }
                assert(signal_views(signals@) =~= expected);
            },
            Event::News(article) => {
                signals = self.sentiment.on_news_at(article, now);
            },
            _ => {
                assert(signal_views(signals@) =~= Seq::empty());
            },
        }
        assert(signal_views(signals@) == observed(old(self)@, *event, now).1);
        if warmup {
            self.suppressed = raise(self.suppressed, signals.len());
            let none: Vec<SignalValue<N>> = Vec::new();
            assert(signal_views(none@) =~= Seq::empty());
            none
        } else {
            self.emitted = raise(self.emitted, signals.len());
            signals
        }
    }

    /// Takes in an event at the present moment and gives the signals that go out.
    pub fn on_event(&mut self, event: &Event<N>) -> (r: Vec<SignalValue<N>>)
        requires
            old(self).wf(),
            functional::<N>(),
        ensures
            final(self).wf(),
            exists|now: Timestamp|
                (final(self)@, signal_views(r@)) == #[trigger] event_outcome(
                    old(self)@,
                    *event,
                    now,
                ),
    {
        let now = utc_now();
        self.on_event_at(event, now)
    }
}

/// During warmup no signal goes out, though the analyzers see every event: their
/// state afterwards is the one that they would have reached without a warmup.
pub proof fn law_warmup_suppresses_but_observes<N: Number>(
    state: EngineView<N>,
    event: Event<N>,
    now: Timestamp,
)
    requires
        warming_up(state, now),
    ensures
        event_outcome(state, event, now).1 == Seq::<SignalView<N>>::empty(),
        ({
            let open = EngineView { warmup_until: now, ..state };
            let (held, _) = event_outcome(state, event, now);
            let (free, _) = event_outcome(open, event, now);
            &&& held.cross_asset == free.cross_asset
            &&& held.technical == free.technical
            &&& held.sentiment == free.sentiment
        }),
{
}

/// Events other than ticks and news change nothing but the count of events, and
/// give no signal.
pub proof fn law_other_events_are_only_counted<N: Number>(
    state: EngineView<N>,
    event: Event<N>,
    now: Timestamp,
)
    requires
        !(event is Tick) && !(event is News),
    ensures
        event_outcome(state, event, now) == (
            EngineView { events: raised(state.events, 1), ..state },
            Seq::<SignalView<N>>::empty(),
        ),
{
}

/// After warmup every signal that an analyzer gives goes out, on a tick that of the
/// cross-asset analyzer first, and no other; each is counted.
pub proof fn law_all_signals_go_out_after_warmup<N: Number>(
    state: EngineView<N>,
    event: Event<N>,
    now: Timestamp,
)
    requires
        !now.before(state.warmup_until),
    ensures
        ({
            let (next, signals) = event_outcome(state, event, now);
            &&& event matches Event::Tick(tick) ==> {
                let first = cross_asset::tick_outcome(state.cross_asset, tick@).1;
                let second = technical::tick_outcome(state.technical, tick@).1;
                &&& first is None && second is None ==> signals.len() == 0
                &&& first matches Some(s) ==> signals.len() > 0 && signals[0] == s
                &&& second matches Some(s) ==> signals.len() > 0 && signals.last() == s
                &&& first is Some && second is Some ==> signals.len() == 2
                &&& first is Some != second is Some ==> signals.len() == 1
            }
            &&& event matches Event::News(article) ==> signals == sentiment::news_outcome(
                state.sentiment,
                article@,
                now,
            ).1
            &&& state.emitted + signals.len() <= u64::MAX ==> next.emitted == state.emitted
                + signals.len()
            &&& next.suppressed == state.suppressed
            &&& state.events < u64::MAX ==> next.events == state.events + 1
            &&& next.warmup_until == state.warmup_until
        }),
{
}

/// Each analyzer sees the events that concern it and no others: ticks change what the
/// cross-asset and the technical analyzer remember, news what the sentiment analyzer does.
pub proof fn law_analyzers_see_their_events<N: Number>(
    state: EngineView<N>,
    event: Event<N>,
    now: Timestamp,
)
    ensures
        ({
            let next = event_outcome(state, event, now).0;
            &&& event matches Event::Tick(tick) ==> {
                &&& next.cross_asset == cross_asset::tick_outcome(state.cross_asset, tick@).0
                &&& next.technical == technical::tick_outcome(state.technical, tick@).0
                &&& next.sentiment == state.sentiment
            }
            &&& event matches Event::News(article) ==> {
                &&& next.sentiment == sentiment::news_outcome(state.sentiment, article@, now).0
                &&& next.cross_asset == state.cross_asset
                &&& next.technical == state.technical
            }
        }),
{
}

/// Signals are held back for as many seconds as the warmup has, to the nanosecond, and a
/// signal that is held back is counted as such.
pub proof fn law_warmup_lasts_its_seconds<N: Number>(
    config: SignalsConfig<N>,
    warmup_secs: u64,
    start: Timestamp,
    now: Timestamp,
    state: EngineView<N>,
    event: Event<N>,
)
    requires
        !start.in_leap(),
        !now.in_leap(),
        start.secs + warmup_secs <= i64::MAX,
        warmup_secs <= i64::MAX,
    ensures
        warming_up(started(config, warmup_secs, start), now) <==> now.value() < start.value()
            + warmup_secs * 1_000_000_000,
        warming_up(state, now) ==> {
            let (next, _) = event_outcome(state, event, now);
            let held = event_outcome(EngineView { warmup_until: now, ..state }, event, now).1;
            &&& next.emitted == state.emitted
            &&& state.suppressed + held.len() <= u64::MAX ==> next.suppressed == state.suppressed
                + held.len()
        },
{
    law_seconds_are_taken_as_they_are(warmup_secs);
    let until = start.later(warmup_secs as i64);
    law_points_come_in_order(now, until, until);
    assert(until.value() == start.value() + warmup_secs * 1_000_000_000);
}

/// Other settings take effect as those of a new engine would, and change nothing that was
/// seen, counted or waited for.
pub proof fn law_settings_take_effect_and_keep_what_was_seen<N: Number>(
    state: EngineView<N>,
    config: SignalsConfig<N>,
    warmup_secs: u64,
    now: Timestamp,
)
    requires
        config.cross_asset.vol_window_secs <= i64::MAX,
        config.cross_asset.correlation_window_secs <= i64::MAX,
    ensures
        ({
            let next = reconfigured(state, config);
            let fresh = started(config, warmup_secs, now);
            &&& next.cross_asset.vol_window_secs == config.cross_asset.vol_window_secs
            &&& next.cross_asset.min_ticks == config.cross_asset.min_ticks
            &&& next.cross_asset.z_score_threshold == config.cross_asset.z_score_threshold
            &&& next.cross_asset.correlation_window_secs
                == config.cross_asset.correlation_window_secs
            &&& next.cross_asset.signal_cooldown_secs == config.cross_asset.signal_cooldown_secs
            &&& next.technical.rsi_period == config.technical.rsi_period
            &&& next.technical.rsi_overbought == config.technical.rsi_overbought
            &&& next.technical.rsi_oversold == config.technical.rsi_oversold
            &&& next.technical.vwap_deviation_threshold
                == config.technical.vwap_deviation_threshold
            &&& next.technical.volume_spike_multiplier == config.technical.volume_spike_multiplier
            &&& next.cross_asset.prices == state.cross_asset.prices
            &&& next.cross_asset.vols == state.cross_asset.vols
            &&& next.cross_asset.order == state.cross_asset.order
            &&& next.cross_asset.last_signal_epoch == state.cross_asset.last_signal_epoch
            &&& next.technical.building == state.technical.building
            &&& next.technical.bars == state.technical.bars
            &&& next.technical.signalled == state.technical.signalled
            &&& next.sentiment == state.sentiment
            &&& next.warmup_until == state.warmup_until
            &&& (next.events, next.emitted, next.suppressed) == (
                state.events,
                state.emitted,
                state.suppressed,
            )
            &&& reconfigured(fresh, config) == fresh
            &&& (fresh.events, fresh.emitted, fresh.suppressed) == (0u64, 0u64, 0u64)
        }),
{
    law_seconds_are_taken_as_they_are(config.cross_asset.vol_window_secs);
    law_seconds_are_taken_as_they_are(config.cross_asset.correlation_window_secs);
}

} // verus!
