//! Hedging equities when crypto volatility runs ahead.
use super::framework::Strategy;
use super::holdings::{
    close_due, closing_terms, due, exits, held_symbols, holding_views, holds,
    is_due, law_each_lot_stays_or_is_closed, law_each_new_lot_is_ordered,
    law_symbols_are_reckoned_at_their_own_price, law_whole_shares_are_the_most,
    lemma_exits_replayed, lemma_opened_alike, lemma_opened_lots, lemma_opened_replayed,
    lemma_quantity_if_held, lemma_replay_in_parts, lemma_still_held_distinct, most_shares,
    open_lots, opened, place_of, quantity_held, replay, same_prices, still_held, whole_shares,
    Holding, HoldingView, Opening,
};
use super::orders::market_terms;
use crate::config::CryptoVolLeadsEquityConfig;
use crate::number::fixed::{Fixed, UNIT};
use crate::number::{
    abs, decimal_or, decimal_value, less, lit, magnitude, no_more, product, shares_amount,
    value_or, zero, Number,
};
use crate::text::{first_place, same_text, views};
use crate::time::{signed_seconds, Timestamp};
use crate::types::{
    symbols_of, terms_of, Order, OrderSide, PortfolioState, PortfolioView, SignalValue,
    SignalView, Symbol, Terms,
};
use vstd::prelude::*;

verus! {

/// The name of the strategy and of the signal it waits for.
pub const NAME: &'static str = "crypto_vol_leads_equity";

/// Whether a signal calls for new hedges: it points down, and its value reaches the
/// threshold.
pub open spec fn calls_for_hedges<N: Number>(
    config: CryptoVolLeadsEquityConfig<N>,
    signal: SignalView<N>,
) -> bool {
    &&& !no_more(zero::<N>(), signal.direction)
    &&& !less(magnitude(signal.value), config.vol_spike_threshold)
}

/// What hedges are opened with: a share of the buying power goes into each, which is
/// sold short; a symbol without a position is reckoned at a price of a hundred.
pub open spec fn hedging<N: Number>(
    config: CryptoVolLeadsEquityConfig<N>,
    signal: SignalView<N>,
    portfolio: PortfolioView,
) -> Opening<N> {
    Opening {
        amount: product(
            decimal_or(portfolio.buying_power, zero::<N>()),
            config.position_size_pct,
        ),
        otherwise: lit::<N>(100, 1),
        side: OrderSide::Sell,
        value: signal.value,
        now: signal.timestamp,
    }
}

/// What a signal leads to: the hedges after it and the orders it gives rise to.
/// First the due hedges are closed, then, where the signal calls for it, new ones
/// are opened for the configured symbols in turn. Other strategies' signals are
/// passed over.
pub open spec fn signal_outcome<N: Number>(
    config: CryptoVolLeadsEquityConfig<N>,
    hedges: Seq<HoldingView<N>>,
    signal: SignalView<N>,
    portfolio: PortfolioView,
) -> (Seq<HoldingView<N>>, Seq<Terms>) {
    if signal.name != NAME@ {
        (hedges, Seq::empty())
    } else {
        let now = signal.timestamp;
        let held = still_held(hedges, config.hold_duration_secs, now);
        let closing = exits(hedges, config.hold_duration_secs, OrderSide::Buy, NAME@, now);
        if !calls_for_hedges(config, signal) {
            (held, closing)
        } else {
            opened(
                held,
                closing,
                views(config.equity_symbols@),
                portfolio.positions,
                hedging(config, signal, portfolio),
                NAME@,
            )
        }
    }
}

/// When BTC realized volatility spikes, this strategy takes it for an early
/// risk-off signal and reduces equity exposure or opens short hedges on broad
/// market ETFs.
///
/// Crypto markets trade around the clock and react faster to global risk events.
/// By the time US equity markets open (or during the trading day), the risk-off
/// move often is not fully priced in yet.
pub struct CryptoVolLeadsEquity<N: Number> {
    config: CryptoVolLeadsEquityConfig<N>,
    /// The hedges, so that exits can be timed.
    active_hedges: Vec<Holding<N>>,
}

impl<N: Number> CryptoVolLeadsEquity<N> {
    /// The settings.
    pub closed spec fn settings(&self) -> CryptoVolLeadsEquityConfig<N> {
        self.config
    }

    /// The open hedges, oldest first.
    pub closed spec fn hedges(&self) -> Seq<HoldingView<N>> {
        holding_views(self.active_hedges@)
    }

    /// There is at most one hedge in a symbol.
    pub open spec fn wf(&self) -> bool {
        held_symbols(self.hedges()).no_duplicates()
    }

    /// A strategy without hedges.
    pub fn new(config: CryptoVolLeadsEquityConfig<N>) -> (r: CryptoVolLeadsEquity<N>)
        ensures
            r.wf(),
            r.settings() == config,
            r.hedges() == Seq::<HoldingView<N>>::empty(),
    {
        let r = CryptoVolLeadsEquity { config, active_hedges: Vec::new() };
        assert(r.hedges() =~= Seq::<HoldingView<N>>::empty());
        r
    }

    /// Goes on under other settings with the hedges that are open.
    pub fn reconfigure(&mut self, config: CryptoVolLeadsEquityConfig<N>)
        ensures
            old(self).wf() ==> final(self).wf(),
            final(self).settings() == config,
            final(self).hedges() == old(self).hedges(),
    {
        self.config = config;
    }

    /// How many hedges are open.
    pub fn open_hedges(&self) -> (r: usize)
        ensures
            r == self.hedges().len(),
    {
        self.active_hedges.len()
    }

    /// Whether the hedge in a symbol has been held for its time.
    pub fn should_exit_hedge(&self, symbol: &Symbol, now: Timestamp) -> (r: bool)
        ensures
            r == match first_place(held_symbols(self.hedges()), symbol@) {
                Some(i) => due(self.hedges()[i], self.settings().hold_duration_secs, now),
                None => false,
            },
    {
        match place_of(&self.active_hedges, symbol.as_str()) {
            Some(i) => is_due(&self.active_hedges[i], self.config.hold_duration_secs, now),
            None => false,
        }
    }
}

impl<N: Number + Send + Sync> Strategy<N> for CryptoVolLeadsEquity<N> {
    fn name(&self) -> (r: &str)
        ensures
            r@ == NAME@,
    {
        NAME
    }

    fn on_signal(&mut self, signal: &SignalValue<N>, portfolio: &PortfolioState) -> (r: Vec<Order>)
        ensures
            old(self).wf() ==> final(self).wf(),
            final(self).settings() == old(self).settings(),
            (final(self).hedges(), terms_of(r@)) == signal_outcome(
                old(self).settings(),
                old(self).hedges(),
                signal@,
                portfolio@,
            ),
            forall|i: int| 0 <= i < r@.len() ==> (#[trigger] r@[i])@.id.len() == 36,
    {
        proof {
            if self.wf() {
                law_one_hedge_per_symbol(self.config, self.hedges(), signal@, portfolio@);
            }
        }
        if !same_text(signal.name.as_str(), NAME) {
            let none: Vec<Order> = Vec::new();
            assert(terms_of(none@) =~= Seq::empty());
            return none;
        }
        let now = signal.timestamp;
        let mut orders = close_due(
            &mut self.active_hedges,
            self.config.hold_duration_secs,
            OrderSide::Buy,
            NAME,
            now,
        );
        let nothing = N::ratio(0, 1);
        if nothing.at_most(signal.direction) {
            return orders;
        }
        if abs(signal.value).below(self.config.vol_spike_threshold) {
            return orders;
        }
        let amount = value_or(portfolio.buying_power, nothing).times(
            self.config.position_size_pct,
        );
        let symbols = symbols_of(&self.config.equity_symbols);
        let with = Opening {
            amount,
            otherwise: N::ratio(100, 1),
            side: OrderSide::Sell,
            value: signal.value,
            now,
        };
        open_lots(
            &mut self.active_hedges,
            &mut orders,
            &symbols,
            &portfolio.positions,
            with,
            NAME,
        );
        orders
    }

    fn is_enabled(&self) -> (r: bool)
        ensures
            r == self.settings().enabled,
    {
        self.config.enabled
    }
}

/// Signals of another name neither open nor close a hedge.
pub proof fn law_other_signals_leave_hedges_alone<N: Number>(
    config: CryptoVolLeadsEquityConfig<N>,
    hedges: Seq<HoldingView<N>>,
    signal: SignalView<N>,
    portfolio: PortfolioView,
)
    requires
        signal.name != NAME@,
    ensures
        signal_outcome(config, hedges, signal, portfolio) == (hedges, Seq::<Terms>::empty()),
{
}

/// There is never more than one hedge in a symbol: where that holds before a
/// signal, it holds after it.
pub proof fn law_one_hedge_per_symbol<N: Number>(
    config: CryptoVolLeadsEquityConfig<N>,
    hedges: Seq<HoldingView<N>>,
    signal: SignalView<N>,
    portfolio: PortfolioView,
)
    requires
        held_symbols(hedges).no_duplicates(),
    ensures
        held_symbols(signal_outcome(config, hedges, signal, portfolio).0).no_duplicates(),
{
    let now = signal.timestamp;
    let hold = config.hold_duration_secs;
    lemma_still_held_distinct(hedges, hold, now);
    law_each_new_lot_is_ordered(
        still_held(hedges, hold, now),
        exits(hedges, hold, OrderSide::Buy, NAME@, now),
        views(config.equity_symbols@),
        portfolio.positions,
        hedging(config, signal, portfolio),
        NAME@,
    );
}

/// Hedges are opened only in the configured symbols, only on a signal that points
/// down and reaches the threshold, and each with a sale of the quantity that its
/// exit buys back.
pub proof fn law_new_hedges_are_sold<N: Number>(
    config: CryptoVolLeadsEquityConfig<N>,
    hedges: Seq<HoldingView<N>>,
    signal: SignalView<N>,
    portfolio: PortfolioView,
    hedge: HoldingView<N>,
)
    requires
        !hedges.contains(hedge),
        signal_outcome(config, hedges, signal, portfolio).0.contains(hedge),
    ensures
        signal.name == NAME@,
        calls_for_hedges(config, signal),
        views(config.equity_symbols@).contains(hedge.symbol),
        hedge.entered_at == signal.timestamp,
        signal_outcome(config, hedges, signal, portfolio).1.contains(
            closing_terms(hedge, OrderSide::Sell, NAME@, signal.timestamp),
        ),
{
    let now = signal.timestamp;
    let hold = config.hold_duration_secs;
    let held = still_held(hedges, hold, now);
    let closing = exits(hedges, hold, OrderSide::Buy, NAME@, now);
    law_each_lot_stays_or_is_closed(hedges, hold, OrderSide::Buy, NAME@, now);
    assert(!held.contains(hedge));
    law_each_new_lot_is_ordered(
        held,
        closing,
        views(config.equity_symbols@),
        portfolio.positions,
        hedging(config, signal, portfolio),
        NAME@,
    );
    let (after, placed) = signal_outcome(config, hedges, signal, portfolio);
    let k = choose|k: int| 0 <= k < after.len() && after[k] == hedge;
    if k < held.len() {
        assert(held[k] == after[k]);
        assert(held.contains(hedge));
    }
    assert(placed[closing.len() + k - held.len()] == closing_terms(
        hedge,
        OrderSide::Sell,
        NAME@,
        now,
    ));
}

/// A hedge is closed by the first signal of the strategy's own name that comes when
/// it has been held for its time, with a purchase of the quantity that was sold;
/// until then it stays.
pub proof fn law_hedges_are_held_for_their_time<N: Number>(
    config: CryptoVolLeadsEquityConfig<N>,
    hedges: Seq<HoldingView<N>>,
    signal: SignalView<N>,
    portfolio: PortfolioView,
    hedge: HoldingView<N>,
)
    requires
        hedges.contains(hedge),
        signal.name == NAME@,
    ensures
        if due(hedge, config.hold_duration_secs, signal.timestamp) {
            signal_outcome(config, hedges, signal, portfolio).1.contains(
                closing_terms(hedge, OrderSide::Buy, NAME@, signal.timestamp),
            )
        } else {
            signal_outcome(config, hedges, signal, portfolio).0.contains(hedge)
        },
{
    let now = signal.timestamp;
    let hold = config.hold_duration_secs;
    let held = still_held(hedges, hold, now);
    let closing = exits(hedges, hold, OrderSide::Buy, NAME@, now);
    law_each_lot_stays_or_is_closed(hedges, hold, OrderSide::Buy, NAME@, now);
    law_each_new_lot_is_ordered(
        held,
        closing,
        views(config.equity_symbols@),
        portfolio.positions,
        hedging(config, signal, portfolio),
        NAME@,
    );
    let (after, placed) = signal_outcome(config, hedges, signal, portfolio);
    let i = choose|i: int| 0 <= i < hedges.len() && hedges[i] == hedge;
    assert(hedges[i] == hedge);
    if due(hedge, hold, now) {
        let terms = closing_terms(hedge, OrderSide::Buy, NAME@, now);
        let j = choose|j: int| 0 <= j < closing.len() && closing[j] == terms;
        assert(placed[j] == terms);
    } else {
        let j = choose|j: int| 0 <= j < held.len() && held[j] == hedge;
        assert(after[j] == hedge);
    }
}

/// The hedges and all orders after a run of signals, each with the account of its time.
pub open spec fn after_signals<N: Number>(
    config: CryptoVolLeadsEquityConfig<N>,
    hedges: Seq<HoldingView<N>>,
    signals: Seq<(SignalView<N>, PortfolioView)>,
) -> (Seq<HoldingView<N>>, Seq<Terms>)
    decreases signals.len(),
{
    if signals.len() == 0 {
        (hedges, Seq::empty())
    } else {
        let (held, placed) = after_signals(config, hedges, signals.drop_last());
        let (after, orders) = signal_outcome(config, held, signals.last().0, signals.last().1);
        (after, placed + orders)
    }
}

/// The orders of a signal in a symbol sell where no hedge is open, and where one is they
/// buy its quantity.
pub proof fn law_orders_of_a_signal_alternate<N: Number>(
    config: CryptoVolLeadsEquityConfig<N>,
    hedges: Seq<HoldingView<N>>,
    signal: SignalView<N>,
    portfolio: PortfolioView,
    symbol: Seq<char>,
)
    requires
        held_symbols(hedges).no_duplicates(),
    ensures
        ({
            let (after, orders) = signal_outcome(config, hedges, signal, portfolio);
            replay(
                Some(quantity_held(hedges, symbol)),
                orders,
                symbol,
                OrderSide::Sell,
                OrderSide::Buy,
            ) == Some(quantity_held(after, symbol))
        }),
{
    let now = signal.timestamp;
    let hold = config.hold_duration_secs;
    let held = quantity_held(hedges, symbol);
    lemma_quantity_if_held(hedges, symbol);
    lemma_quantity_if_held(still_held(hedges, hold, now), symbol);
    lemma_exits_replayed(
        hedges,
        hold,
        OrderSide::Sell,
        OrderSide::Buy,
        NAME@,
        now,
        symbol,
        held,
    );
    lemma_opened_replayed(
        still_held(hedges, hold, now),
        exits(hedges, hold, OrderSide::Buy, NAME@, now),
        views(config.equity_symbols@),
        portfolio.positions,
        hedging(config, signal, portfolio),
        OrderSide::Buy,
        NAME@,
        symbol,
        held,
    );
}

/// Over a run of signals the orders in a symbol alternate: a sale opens the hedge, a
/// purchase of the same quantity closes it, and the last of them tells whether it is open
/// and of what quantity.
pub proof fn law_orders_alternate<N: Number>(
    config: CryptoVolLeadsEquityConfig<N>,
    hedges: Seq<HoldingView<N>>,
    signals: Seq<(SignalView<N>, PortfolioView)>,
    symbol: Seq<char>,
)
    requires
        held_symbols(hedges).no_duplicates(),
    ensures
        ({
            let (after, orders) = after_signals(config, hedges, signals);
            &&& held_symbols(after).no_duplicates()
            &&& replay(
                Some(quantity_held(hedges, symbol)),
                orders,
                symbol,
                OrderSide::Sell,
                OrderSide::Buy,
            ) == Some(quantity_held(after, symbol))
        }),
    decreases signals.len(),
{
    if signals.len() > 0 {
        law_orders_alternate(config, hedges, signals.drop_last(), symbol);
        let (held, placed) = after_signals(config, hedges, signals.drop_last());
        let (signal, portfolio) = signals.last();
        law_one_hedge_per_symbol(config, held, signal, portfolio);
        law_orders_of_a_signal_alternate(config, held, signal, portfolio, symbol);
        lemma_replay_in_parts(
            Some(quantity_held(hedges, symbol)),
            placed,
            signal_outcome(config, held, signal, portfolio).1,
            symbol,
            OrderSide::Sell,
            OrderSide::Buy,
        );
    }
}

/// Of the account only the buying power and the positions' symbols and current prices count:
/// accounts that agree in these get the same orders, whatever their equity and cash are.
pub proof fn law_orders_go_by_buying_power_and_prices<N: Number>(
    config: CryptoVolLeadsEquityConfig<N>,
    hedges: Seq<HoldingView<N>>,
    signal: SignalView<N>,
    a: PortfolioView,
    b: PortfolioView,
)
    requires
        a.buying_power == b.buying_power,
        same_prices(a.positions, b.positions),
    ensures
        signal_outcome(config, hedges, signal, a) == signal_outcome(config, hedges, signal, b),
{
    let now = signal.timestamp;
    lemma_opened_alike(
        still_held(hedges, config.hold_duration_secs, now),
        exits(hedges, config.hold_duration_secs, OrderSide::Buy, NAME@, now),
        views(config.equity_symbols@),
        a.positions,
        b.positions,
        hedging(config, signal, a),
        NAME@,
    );
}

/// A hedge that a signal opens has the most whole shares whose value does not exceed the
/// configured share of the buying power, at the current price of the symbol's position, or
/// at a hundred where there is no position.
pub proof fn law_hedges_take_their_share_of_the_buying_power(
    config: CryptoVolLeadsEquityConfig<Fixed>,
    hedges: Seq<HoldingView<Fixed>>,
    signal: SignalView<Fixed>,
    portfolio: PortfolioView,
    hedge: HoldingView<Fixed>,
    price: Fixed,
    i: int,
)
    requires
        !hedges.contains(hedge),
        signal_outcome(config, hedges, signal, portfolio).0.contains(hedge),
        ({
            ||| {
                &&& 0 <= i < portfolio.positions.len()
                &&& portfolio.positions[i].symbol == hedge.symbol
                &&& forall|k: int|
                    0 <= k < i ==> (#[trigger] portfolio.positions[k]).symbol != hedge.symbol
                &&& decimal_value::<Fixed>(portfolio.positions[i].current_price) == Some(price)
            }
            ||| {
                &&& forall|k: int|
                    0 <= k < portfolio.positions.len() ==> (
                    #[trigger] portfolio.positions[k]).symbol != hedge.symbol
                &&& price.units == 100 * UNIT
            }
        }),
        price.units >= UNIT,
        0 <= product(
            decimal_or(portfolio.buying_power, zero::<Fixed>()),
            config.position_size_pct,
        ).units < 9_000_000_000_000_000_000,
    ensures
        ({
            let share = product(
                decimal_or(portfolio.buying_power, zero::<Fixed>()),
                config.position_size_pct,
            );
            exists|shares: Fixed| #[trigger]
                most_shares(shares, price, share) && hedge.quantity == shares_amount(shares)
        }),
{
    let now = signal.timestamp;
    let hold = config.hold_duration_secs;
    let held = still_held(hedges, hold, now);
    let closing = exits(hedges, hold, OrderSide::Buy, NAME@, now);
    let with = hedging(config, signal, portfolio);
    let symbols = views(config.equity_symbols@);
    law_new_hedges_are_sold(config, hedges, signal, portfolio, hedge);
    law_each_lot_stays_or_is_closed(hedges, hold, OrderSide::Buy, NAME@, now);
    law_each_new_lot_is_ordered(held, closing, symbols, portfolio.positions, with, NAME@);
    lemma_opened_lots(held, closing, symbols, portfolio.positions, with, NAME@);
    let after = signal_outcome(config, hedges, signal, portfolio).0;
    let k = choose|k: int| 0 <= k < after.len() && after[k] == hedge;
    if k < held.len() {
        assert(held[k] == after[k]);
        assert(held.contains(hedge));
    }
    law_symbols_are_reckoned_at_their_own_price(
        portfolio.positions,
        hedge.symbol,
        with.otherwise,
        i,
    );
    assert(lit::<Fixed>(100, 1).units == 100 * UNIT);
    law_whole_shares_are_the_most(
        portfolio.positions,
        hedge.symbol,
        with.amount,
        with.otherwise,
    );
    let shares = whole_shares(portfolio.positions, hedge.symbol, with.amount, with.otherwise)->0;
    assert(most_shares(
        shares,
        price,
        product(
            decimal_or(portfolio.buying_power, zero::<Fixed>()),
            config.position_size_pct,
        ),
    ));
}

/// A signal of the strategy's own name that points down, with a value that reaches the
/// threshold in size, leaves every configured symbol hedged of which the share of the buying
/// power buys a share. Any other signal opens no hedge.
pub proof fn law_spikes_are_hedged<N: Number>(
    config: CryptoVolLeadsEquityConfig<N>,
    hedges: Seq<HoldingView<N>>,
    signal: SignalView<N>,
    portfolio: PortfolioView,
    symbol: Seq<char>,
)
    ensures
        signal.name == "crypto_vol_leads_equity"@ && !no_more(zero::<N>(), signal.direction)
            && !less(magnitude(signal.value), config.vol_spike_threshold) && views(
            config.equity_symbols@,
        ).contains(symbol) && whole_shares(
            portfolio.positions,
            symbol,
            product(decimal_or(portfolio.buying_power, zero::<N>()), config.position_size_pct),
            lit::<N>(100, 1),
        ) is Some ==> holds(signal_outcome(config, hedges, signal, portfolio).0, symbol),
        signal.name != "crypto_vol_leads_equity"@ || no_more(zero::<N>(), signal.direction) || less(
            magnitude(signal.value),
            config.vol_spike_threshold,
        ) ==> forall|hedge: HoldingView<N>| #[trigger]
            signal_outcome(config, hedges, signal, portfolio).0.contains(hedge)
                ==> hedges.contains(hedge),
{
    let now = signal.timestamp;
    let hold = config.hold_duration_secs;
    lemma_opened_lots(
        still_held(hedges, hold, now),
        exits(hedges, hold, OrderSide::Buy, NAME@, now),
        views(config.equity_symbols@),
        portfolio.positions,
        hedging(config, signal, portfolio),
        NAME@,
    );
    law_each_lot_stays_or_is_closed(hedges, hold, OrderSide::Buy, NAME@, now);
}

/// Time is the only reason to close a hedge: with a signal of the strategy's own name one
/// that was held for its time or longer is bought back in full, and one that was not stays.
pub proof fn law_hedges_end_in_time<N: Number>(
    config: CryptoVolLeadsEquityConfig<N>,
    hedges: Seq<HoldingView<N>>,
    signal: SignalView<N>,
    portfolio: PortfolioView,
    hedge: HoldingView<N>,
)
    requires
        hedges.contains(hedge),
        signal.name == "crypto_vol_leads_equity"@,
    ensures
        if signal.timestamp.elapsed(hedge.entered_at) >= signed_seconds(
            config.hold_duration_secs,
        ) {
            signal_outcome(config, hedges, signal, portfolio).1.contains(
                market_terms(
                    hedge.symbol,
                    OrderSide::Buy,
                    hedge.quantity,
                    NAME@,
                    signal.timestamp,
                ),
            )
        } else {
            signal_outcome(config, hedges, signal, portfolio).0.contains(hedge)
        },
{
    law_hedges_are_held_for_their_time(config, hedges, signal, portfolio, hedge);
}

/// A hedge that a signal makes the strategy open is noted with the value of that signal.
pub proof fn law_hedges_note_their_signal<N: Number>(
    config: CryptoVolLeadsEquityConfig<N>,
    hedges: Seq<HoldingView<N>>,
    signal: SignalView<N>,
    portfolio: PortfolioView,
    hedge: HoldingView<N>,
)
    requires
        !hedges.contains(hedge),
        signal_outcome(config, hedges, signal, portfolio).0.contains(hedge),
    ensures
        hedge.entry_value == signal.value,
        hedge.entered_at == signal.timestamp,
{
    let now = signal.timestamp;
    let hold = config.hold_duration_secs;
    let held = still_held(hedges, hold, now);
    let closing = exits(hedges, hold, OrderSide::Buy, NAME@, now);
    let with = hedging(config, signal, portfolio);
    let symbols = views(config.equity_symbols@);
    law_new_hedges_are_sold(config, hedges, signal, portfolio, hedge);
    law_each_lot_stays_or_is_closed(hedges, hold, OrderSide::Buy, NAME@, now);
    law_each_new_lot_is_ordered(held, closing, symbols, portfolio.positions, with, NAME@);
    lemma_opened_lots(held, closing, symbols, portfolio.positions, with, NAME@);
    let after = signal_outcome(config, hedges, signal, portfolio).0;
    let k = choose|k: int| 0 <= k < after.len() && after[k] == hedge;
    if k < held.len() {
        assert(held[k] == after[k]);
        assert(held.contains(hedge));
    }
}

} // verus!
