//! Buying oversold equities until they recover.
use super::framework::Strategy;
use super::holdings::{
    close_due, closing_terms, due, exits, held_symbols, holding_views, holds,
    law_each_lot_stays_or_is_closed, law_each_new_lot_is_ordered,
    law_symbols_are_reckoned_at_their_own_price, law_whole_shares_are_the_most,
    lemma_exits_replayed, lemma_opened_alike, lemma_opened_lots, lemma_opened_replayed,
    lemma_quantity_if_held, lemma_quantity_of_lot, lemma_replay_in_parts,
    lemma_still_held_distinct, most_shares, open_lots, opened, place_of, quantity_held, replay,
    same_prices, still_held, whole_shares, Holding, HoldingView, Opening,
};
use super::orders::{make_order, market_terms};
use crate::config::MeanReversionConfig;
use crate::number::fixed::{Fixed, UNIT};
use crate::number::{
    decimal_or, decimal_value, less, product, shares_amount, value_or, zero, Number,
};
use crate::text::{first_place, lemma_first_place, same_text, views};
use crate::time::{signed_seconds, Timestamp};
use crate::types::{
    symbol_names, terms_of, Order, OrderSide, PortfolioState, PortfolioView, SignalValue,
    SignalView, Symbol, Terms,
};
use rust_decimal::Decimal;
use vstd::prelude::*;

verus! {

/// The name of the strategy.
pub const NAME: &'static str = "mean_reversion";

/// The signal on which positions are entered.
pub const OVERSOLD: &'static str = "rsi_oversold";

/// The signal on which positions are left.
pub const OVERBOUGHT: &'static str = "rsi_overbought";

/// The positions and orders after a list of symbols was gone through in turn and the
/// position in each, where there is one, was sold.
pub open spec fn sold<N>(
    lots: Seq<HoldingView<N>>,
    orders: Seq<Terms>,
    symbols: Seq<Seq<char>>,
    now: Timestamp,
) -> (Seq<HoldingView<N>>, Seq<Terms>)
    decreases symbols.len(),
{
    if symbols.len() == 0 {
        (lots, orders)
    } else {
        let (held, placed) = sold(lots, orders, symbols.drop_last(), now);
        match first_place(held_symbols(held), symbols.last()) {
            Some(i) => (
                held.remove(i),
                placed.push(closing_terms(held[i], OrderSide::Sell, NAME@, now)),
            ),
            None => (held, placed),
        }
    }
}

/// The symbols that are configured, in order.
pub open spec fn configured(symbols: Seq<Seq<char>>, names: Seq<Seq<char>>) -> Seq<Seq<char>>
    decreases symbols.len(),
{
    if symbols.len() == 0 {
        Seq::empty()
    } else {
        let before = configured(symbols.drop_last(), names);
        if names.contains(symbols.last()) {
            before.push(symbols.last())
        } else {
            before
        }
    }
}

/// Whether a signal calls for leaving positions: the RSI is above the exit
/// threshold.
pub open spec fn calls_for_exit<N: Number>(
    config: MeanReversionConfig<N>,
    signal: SignalView<N>,
) -> bool {
    signal.name == OVERBOUGHT@ && less(config.rsi_exit_threshold, signal.value)
}

/// Whether a signal calls for entering positions: the RSI is not above the entry
/// threshold, and there is no crisis.
pub open spec fn calls_for_entry<N: Number>(
    config: MeanReversionConfig<N>,
    crisis: bool,
    signal: SignalView<N>,
) -> bool {
    signal.name == OVERSOLD@ && !less(config.rsi_entry_threshold, signal.value) && !crisis
}

/// What positions are entered with: a share of the equity goes into each. A symbol
/// whose price is not known is not bought.
pub open spec fn buying<N: Number>(
    config: MeanReversionConfig<N>,
    signal: SignalView<N>,
    portfolio: PortfolioView,
) -> Opening<N> {
    Opening {
        amount: product(decimal_or(portfolio.equity, zero::<N>()), config.position_size_pct),
        otherwise: zero::<N>(),
        side: OrderSide::Buy,
        value: signal.value,
        now: signal.timestamp,
    }
}

/// What a signal leads to: the positions after it and the orders it gives rise to.
/// Whatever the signal, positions that were held too long are sold first.
pub open spec fn signal_outcome<N: Number>(
    config: MeanReversionConfig<N>,
    crisis: bool,
    lots: Seq<HoldingView<N>>,
    signal: SignalView<N>,
    portfolio: PortfolioView,
) -> (Seq<HoldingView<N>>, Seq<Terms>) {
    let now = signal.timestamp;
    let held = still_held(lots, config.max_hold_secs, now);
    let timed_out = exits(lots, config.max_hold_secs, OrderSide::Sell, NAME@, now);
    if calls_for_exit(config, signal) {
        sold(held, timed_out, signal.symbols, now)
    } else if calls_for_entry(config, crisis, signal) {
        opened(
            held,
            timed_out,
            configured(signal.symbols, views(config.symbols@)),
            portfolio.positions,
            buying(config, signal, portfolio),
            NAME@,
        )
    } else {
        (held, timed_out)
    }
}

/// Buys oversold equities (low RSI) and sells when the RSI recovers. Only enters
/// when the cross-asset regime is not in crisis mode (no open volatility hedges
/// of the other strategy).
pub struct MeanReversion<N: Number> {
    config: MeanReversionConfig<N>,
    active_positions: Vec<Holding<N>>,
    crisis: bool,
}

impl<N: Number> MeanReversion<N> {
    /// The settings.
    pub closed spec fn settings(&self) -> MeanReversionConfig<N> {
        self.config
    }

    /// The open positions, oldest first.
    pub closed spec fn lots(&self) -> Seq<HoldingView<N>> {
        holding_views(self.active_positions@)
    }

    /// Whether the other strategy was last seen with open hedges.
    pub closed spec fn in_crisis(&self) -> bool {
        self.crisis
    }

    /// There is at most one position in a symbol.
    pub open spec fn wf(&self) -> bool {
        held_symbols(self.lots()).no_duplicates()
    }

    /// A strategy without positions, out of crisis.
    pub fn new(config: MeanReversionConfig<N>) -> (r: MeanReversion<N>)
        ensures
            r.wf(),
            r.settings() == config,
            r.lots() == Seq::<HoldingView<N>>::empty(),
            !r.in_crisis(),
    {
        let r = MeanReversion { config, active_positions: Vec::new(), crisis: false };
        assert(r.lots() =~= Seq::<HoldingView<N>>::empty());
        r
    }

    /// Goes on under other settings with the positions that are open.
    pub fn reconfigure(&mut self, config: MeanReversionConfig<N>)
        ensures
            old(self).wf() ==> final(self).wf(),
            final(self).settings() == config,
            final(self).lots() == old(self).lots(),
            final(self).in_crisis() == old(self).in_crisis(),
    {
        self.config = config;
    }

    /// Takes note of how many hedges the other strategy has open. While there are
    /// any, no position is entered.
    pub fn observe_hedges(&mut self, open: usize)
        ensures
            old(self).wf() ==> final(self).wf(),
            final(self).in_crisis() == (open > 0),
            final(self).settings() == old(self).settings(),
            final(self).lots() == old(self).lots(),
    {
        self.crisis = open > 0;
    }

    /// How many positions are open.
    pub fn open_positions(&self) -> (r: usize)
        ensures
            r == self.lots().len(),
    {
        self.active_positions.len()
    }

    fn sell(&mut self, symbols: &Vec<Symbol>, now: Timestamp, orders: &mut Vec<Order>)
        ensures
            final(self).settings() == old(self).settings(),
            final(self).in_crisis() == old(self).in_crisis(),
            (final(self).lots(), terms_of(final(orders)@)) == sold(
                old(self).lots(),
                terms_of(old(orders)@),
                symbol_names(symbols@),
                now,
            ),
            old(orders)@.len() <= final(orders)@.len(),
            forall|i: int|
                0 <= i < old(orders)@.len() ==> #[trigger] final(orders)@[i] == old(orders)@[i],
            forall|i: int|
                old(orders)@.len() <= i < final(orders)@.len() ==> (#[trigger] final(orders)@[i])@
                .id.len() == 36,
    {
        let ghost names = symbol_names(symbols@);
        let mut i: usize = 0;
        while i < symbols.len()
            invariant
                i <= symbols@.len(),
                names == symbol_names(symbols@),
                self.config == old(self).config,
                self.crisis == old(self).crisis,
                (self.lots(), terms_of(orders@)) == sold(
                    old(self).lots(),
                    terms_of(old(orders)@),
                    names.take(i as int),
                    now,
                ),
                old(orders)@.len() <= orders@.len(),
                forall|k: int|
                    0 <= k < old(orders)@.len() ==> #[trigger] orders@[k] == old(orders)@[k],
                forall|k: int|
                    old(orders)@.len() <= k < orders@.len() ==> (#[trigger] orders@[k])@.id.len()
                        == 36,
            decreases symbols@.len() - i,
        {
            assert(names.take(i + 1).drop_last() =~= names.take(i as int));
            assert(names.take(i + 1).last() == symbols@[i as int]@);
            if let Some(place) = place_of(&self.active_positions, symbols[i].as_str()) {
                let ghost before = self.lots();
                let ghost placed = terms_of(orders@);
                let lot = self.active_positions.remove(place);
                assert(self.lots() =~= before.remove(place as int));
                let order = make_order(&lot.symbol, OrderSide::Sell, lot.quantity, NAME, now);
                orders.push(order);
                assert(terms_of(orders@) =~= placed.push(order@.terms));
            }
            i = i + 1;
        }
        assert(names.take(i as int) =~= names);
    }

    fn is_configured(&self, symbol: &str) -> (r: bool)
        ensures
            r == views(self.settings().symbols@).contains(symbol@),
    {
        let ghost names = views(self.config.symbols@);
        let mut i: usize = 0;
        while i < self.config.symbols.len()
            invariant
                i <= self.config.symbols@.len(),
                names == views(self.config.symbols@),
                forall|j: int| 0 <= j < i ==> names[j] != symbol@,
            decreases self.config.symbols@.len() - i,
        {
            assert(names[i as int] == self.config.symbols@[i as int]@);
            if same_text(self.config.symbols[i].as_str(), symbol) {
                return true;
            }
            i = i + 1;
        }
        false
    }

    fn configured_symbols(&self, symbols: &Vec<Symbol>) -> (r: Vec<Symbol>)
        ensures
            symbol_names(r@) == configured(
                symbol_names(symbols@),
                views(self.settings().symbols@),
            ),
    {
        let ghost names = symbol_names(symbols@);
        let ghost wanted = views(self.config.symbols@);
        let mut chosen: Vec<Symbol> = Vec::new();
        let mut i: usize = 0;
        assert(symbol_names(chosen@) =~= configured(names.take(0), wanted));
        while i < symbols.len()
            invariant
                i <= symbols@.len(),
                names == symbol_names(symbols@),
                wanted == views(self.config.symbols@),
                symbol_names(chosen@) == configured(names.take(i as int), wanted),
            decreases symbols@.len() - i,
        {
            assert(names.take(i + 1).drop_last() =~= names.take(i as int));
            assert(names.take(i + 1).last() == symbols@[i as int]@);
            if self.is_configured(symbols[i].as_str()) {
                let ghost before = symbol_names(chosen@);
                chosen.push(symbols[i].copy());
                assert(symbol_names(chosen@) =~= before.push(names[i as int]));
            }
            i = i + 1;
        }
        assert(names.take(i as int) =~= names);
        chosen
    }
}

impl<N: Number + Send + Sync> Strategy<N> for MeanReversion<N> {
    fn name(&self) -> (r: &str)
        ensures
            r@ == NAME@,
    {
        NAME
    }

    fn on_signal(&mut self, signal: &SignalValue<N>, portfolio: &PortfolioState) -> (r: Vec<Order>)
        ensures
            old(self).wf() ==> final(self).wf(),
            final(self).settings() == old(self).settings(),
            final(self).in_crisis() == old(self).in_crisis(),
            (final(self).lots(), terms_of(r@)) == signal_outcome(
                old(self).settings(),
                old(self).in_crisis(),
                old(self).lots(),
                signal@,
                portfolio@,
            ),
            forall|i: int| 0 <= i < r@.len() ==> (#[trigger] r@[i])@.id.len() == 36,
    {
        proof {
            if self.wf() {
                law_one_position_per_symbol(
                    self.config,
                    self.crisis,
                    self.lots(),
                    signal@,
                    portfolio@,
                );
            }
        }
        proof {
            reveal_strlit("rsi_overbought");
            reveal_strlit("rsi_oversold");
            assert(OVERBOUGHT@.len() != OVERSOLD@.len());
        }
        let now = signal.timestamp;
        let mut orders = close_due(
            &mut self.active_positions,
            self.config.max_hold_secs,
            OrderSide::Sell,
            NAME,
            now,
        );
        if same_text(signal.name.as_str(), OVERBOUGHT) {
            if self.config.rsi_exit_threshold.below(signal.value) {
                self.sell(&signal.symbols, now, &mut orders);
            }
        }
        if same_text(signal.name.as_str(), OVERSOLD) {
            if self.config.rsi_entry_threshold.below(signal.value) || self.crisis {
                return orders;
            }
            let nothing = N::ratio(0, 1);
            let with = Opening {
                amount: value_or(portfolio.equity, nothing).times(self.config.position_size_pct),
                otherwise: nothing,
                side: OrderSide::Buy,
                value: signal.value,
                now,
            };
            let symbols = self.configured_symbols(&signal.symbols);
            open_lots(
                &mut self.active_positions,
                &mut orders,
                &symbols,
                &portfolio.positions,
                with,
                NAME,
            );
        }
        orders
    }

    fn is_enabled(&self) -> (r: bool)
        ensures
            r == self.settings().enabled,
    {
        self.config.enabled
    }
}

/// Selling takes lots out and adds none: each lot either stays, or an order to sell
/// its quantity goes out. Where there is one lot to a symbol, none is left in the
/// symbols that are sold.
pub proof fn law_each_sold_lot_is_ordered<N>(
    lots: Seq<HoldingView<N>>,
    orders: Seq<Terms>,
    symbols: Seq<Seq<char>>,
    now: Timestamp,
)
    ensures
        ({
            let (held, placed) = sold(lots, orders, symbols, now);
            &&& orders.is_prefix_of(placed)
            &&& held.len() + placed.len() == lots.len() + orders.len()
            &&& forall|lot: HoldingView<N>| #[trigger] held.contains(lot) ==> lots.contains(lot)
            &&& forall|lot: HoldingView<N>| #[trigger]
                lots.contains(lot) ==> held.contains(lot) || placed.contains(
                    closing_terms(lot, OrderSide::Sell, NAME@, now),
                )
            &&& held_symbols(lots).no_duplicates() ==> {
                &&& held_symbols(held).no_duplicates()
                &&& forall|s: Seq<char>| #[trigger] symbols.contains(s) ==> !holds(held, s)
            }
        }),
    decreases symbols.len(),
{
    if symbols.len() > 0 {
        let rest = symbols.drop_last();
        let symbol = symbols.last();
        law_each_sold_lot_is_ordered(lots, orders, rest, now);
        let (before, placed_before) = sold(lots, orders, rest, now);
        let (held, placed) = sold(lots, orders, symbols, now);
        lemma_first_place(held_symbols(before), symbol);
        assert forall|s: Seq<char>| #[trigger] symbols.contains(s) implies s == symbol
            || rest.contains(s) by {
            let j = choose|j: int| 0 <= j < symbols.len() && symbols[j] == s;
            if j < rest.len() {
                assert(rest[j] == s);
            }
        }
        match first_place(held_symbols(before), symbol) {
            Some(i) => {
                let gone = before[i];
                let terms = closing_terms(gone, OrderSide::Sell, NAME@, now);
                assert(placed[placed.len() - 1] == terms);
                assert forall|t: Terms| #[trigger]
                    placed_before.contains(t) implies placed.contains(t) by {
                    let j = choose|j: int| 0 <= j < placed_before.len() && placed_before[j] == t;
                    assert(placed[j] == t);
                }
                assert forall|lot: HoldingView<N>| #[trigger]
                    held.contains(lot) implies before.contains(lot) by {
                    let j = choose|j: int| 0 <= j < held.len() && held[j] == lot;
                    if j < i {
                        assert(before[j] == lot);
                    } else {
                        assert(before[j + 1] == lot);
                    }
                }
                assert forall|lot: HoldingView<N>| #[trigger]
                    lots.contains(lot) implies held.contains(lot) || placed.contains(
                    closing_terms(lot, OrderSide::Sell, NAME@, now),
                ) by {
                    if before.contains(lot) {
                        let j = choose|j: int| 0 <= j < before.len() && before[j] == lot;
                        if j < i {
                            assert(held[j] == lot);
                        } else if j > i {
                            assert(held[j - 1] == lot);
                        }
                    } else {
                        assert(placed_before.contains(
                            closing_terms(lot, OrderSide::Sell, NAME@, now),
                        ));
                    }
                }
                if held_symbols(lots).no_duplicates() {
                    let all = held_symbols(before);
                    assert(held_symbols(held) =~= all.remove(i));
                    assert forall|a: int, b: int|
                        0 <= a < held.len() && 0 <= b < held.len() && a != b implies held_symbols(
                        held,
                    )[a] != held_symbols(held)[b] by {
                        let x = if a < i { a } else { a + 1 };
                        let y = if b < i { b } else { b + 1 };
                        assert(all[x] != all[y]);
                    }
                    assert forall|s: Seq<char>| #[trigger] symbols.contains(s) implies !holds(
                        held,
                        s,
                    ) by {
                        if holds(held, s) {
                            let a = choose|a: int|
                                0 <= a < held.len() && held_symbols(held)[a] == s;
                            let x = if a < i { a } else { a + 1 };
                            assert(all[x] == s);
                            if s == symbol {
                                assert(all[i] == all[x]);
                            } else {
                                assert(holds(before, s));
                            }
                        }
                    }
                }
            },
            None => {},
        }
    }
}

/// There is never more than one position in a symbol: where that holds before a
/// signal, it holds after it.
pub proof fn law_one_position_per_symbol<N: Number>(
    config: MeanReversionConfig<N>,
    crisis: bool,
    lots: Seq<HoldingView<N>>,
    signal: SignalView<N>,
    portfolio: PortfolioView,
)
    requires
        held_symbols(lots).no_duplicates(),
    ensures
        held_symbols(signal_outcome(config, crisis, lots, signal, portfolio).0).no_duplicates(),
{
    let now = signal.timestamp;
    let hold = config.max_hold_secs;
    let held = still_held(lots, hold, now);
    let timed_out = exits(lots, hold, OrderSide::Sell, NAME@, now);
    lemma_still_held_distinct(lots, hold, now);
    law_each_sold_lot_is_ordered(held, timed_out, signal.symbols, now);
    law_each_new_lot_is_ordered(
        held,
        timed_out,
        configured(signal.symbols, views(config.symbols@)),
        portfolio.positions,
        buying(config, signal, portfolio),
        NAME@,
    );
}

/// The configured symbols are symbols of the list that are configured.
proof fn lemma_configured(symbols: Seq<Seq<char>>, names: Seq<Seq<char>>)
    ensures
        forall|s: Seq<char>| #[trigger]
            configured(symbols, names).contains(s) ==> symbols.contains(s) && names.contains(s),
    decreases symbols.len(),
{
    if symbols.len() > 0 {
        let rest = symbols.drop_last();
        lemma_configured(rest, names);
        let before = configured(rest, names);
        let chosen = configured(symbols, names);
        assert forall|s: Seq<char>| #[trigger] chosen.contains(s) implies symbols.contains(s)
            && names.contains(s) by {
            let j = choose|j: int| 0 <= j < chosen.len() && chosen[j] == s;
            if j < before.len() {
                assert(before[j] == s);
                assert(before.contains(s));
                let k = choose|k: int| 0 <= k < rest.len() && rest[k] == s;
                assert(symbols[k] == s);
            } else {
                assert(symbols[symbols.len() - 1] == s);
            }
        }
    }
}

/// Positions are entered only while no hedges are open, only in configured symbols
/// that an oversold signal within the entry threshold names, and each with an order
/// to buy the quantity that its exit sells.
pub proof fn law_new_positions_are_bought<N: Number>(
    config: MeanReversionConfig<N>,
    crisis: bool,
    lots: Seq<HoldingView<N>>,
    signal: SignalView<N>,
    portfolio: PortfolioView,
    lot: HoldingView<N>,
)
    requires
        !lots.contains(lot),
        signal_outcome(config, crisis, lots, signal, portfolio).0.contains(lot),
    ensures
        !crisis,
        signal.name == OVERSOLD@,
        !less(config.rsi_entry_threshold, signal.value),
        signal.symbols.contains(lot.symbol),
        views(config.symbols@).contains(lot.symbol),
        lot.entered_at == signal.timestamp,
        signal_outcome(config, crisis, lots, signal, portfolio).1.contains(
            closing_terms(lot, OrderSide::Buy, NAME@, signal.timestamp),
        ),
{
    let now = signal.timestamp;
    let hold = config.max_hold_secs;
    let held = still_held(lots, hold, now);
    let timed_out = exits(lots, hold, OrderSide::Sell, NAME@, now);
    let symbols = configured(signal.symbols, views(config.symbols@));
    law_each_lot_stays_or_is_closed(lots, hold, OrderSide::Sell, NAME@, now);
    law_each_sold_lot_is_ordered(held, timed_out, signal.symbols, now);
    law_each_new_lot_is_ordered(
        held,
        timed_out,
        symbols,
        portfolio.positions,
        buying(config, signal, portfolio),
        NAME@,
    );
    lemma_configured(signal.symbols, views(config.symbols@));
    assert(!held.contains(lot));
    let (after, placed) = signal_outcome(config, crisis, lots, signal, portfolio);
    let k = choose|k: int| 0 <= k < after.len() && after[k] == lot;
    if calls_for_entry(config, crisis, signal) && !calls_for_exit(config, signal) {
        if k < held.len() {
            assert(held[k] == after[k]);
            assert(held.contains(lot));
        }
        assert(symbols.contains(lot.symbol));
        assert(placed[timed_out.len() + k - held.len()] == closing_terms(
            lot,
            OrderSide::Buy,
            NAME@,
            now,
        ));
    }
}

/// Every position is accounted for: after a signal it is either still open, and then
/// it has not been held too long, or an order to sell its quantity has gone out.
pub proof fn law_each_position_stays_or_is_sold<N: Number>(
    config: MeanReversionConfig<N>,
    crisis: bool,
    lots: Seq<HoldingView<N>>,
    signal: SignalView<N>,
    portfolio: PortfolioView,
    lot: HoldingView<N>,
)
    requires
        lots.contains(lot),
    ensures
        ({
            let (after, placed) = signal_outcome(config, crisis, lots, signal, portfolio);
            ||| after.contains(lot) && !due(lot, config.max_hold_secs, signal.timestamp)
            ||| placed.contains(closing_terms(lot, OrderSide::Sell, NAME@, signal.timestamp))
        }),
{
    let now = signal.timestamp;
    let hold = config.max_hold_secs;
    let held = still_held(lots, hold, now);
    let timed_out = exits(lots, hold, OrderSide::Sell, NAME@, now);
    let terms = closing_terms(lot, OrderSide::Sell, NAME@, now);
    law_each_lot_stays_or_is_closed(lots, hold, OrderSide::Sell, NAME@, now);
    law_each_sold_lot_is_ordered(held, timed_out, signal.symbols, now);
    law_each_new_lot_is_ordered(
        held,
        timed_out,
        configured(signal.symbols, views(config.symbols@)),
        portfolio.positions,
        buying(config, signal, portfolio),
        NAME@,
    );
    let (after, placed) = signal_outcome(config, crisis, lots, signal, portfolio);
    let i = choose|i: int| 0 <= i < lots.len() && lots[i] == lot;
    assert(lots[i] == lot);
    if due(lot, hold, now) {
        let j = choose|j: int| 0 <= j < timed_out.len() && timed_out[j] == terms;
        assert(placed[j] == terms);
    } else {
        assert(held.contains(lot));
        if !calls_for_exit(config, signal) {
            let j = choose|j: int| 0 <= j < held.len() && held[j] == lot;
            assert(after[j] == lot);
        }
    }
}

/// An overbought signal above the exit threshold leaves no position in the symbols
/// that it names, where there is one position to a symbol.
pub proof fn law_recovered_positions_are_left<N: Number>(
    config: MeanReversionConfig<N>,
    crisis: bool,
    lots: Seq<HoldingView<N>>,
    signal: SignalView<N>,
    portfolio: PortfolioView,
    symbol: Seq<char>,
)
    requires
        held_symbols(lots).no_duplicates(),
        calls_for_exit(config, signal),
        signal.symbols.contains(symbol),
    ensures
        !holds(signal_outcome(config, crisis, lots, signal, portfolio).0, symbol),
{
    let now = signal.timestamp;
    let hold = config.max_hold_secs;
    lemma_still_held_distinct(lots, hold, now);
    law_each_sold_lot_is_ordered(
        still_held(lots, hold, now),
        exits(lots, hold, OrderSide::Sell, NAME@, now),
        signal.symbols,
        now,
    );
}

proof fn lemma_sold_replayed<N>(
    lots: Seq<HoldingView<N>>,
    orders: Seq<Terms>,
    symbols: Seq<Seq<char>>,
    now: Timestamp,
    symbol: Seq<char>,
    held: Option<Decimal>,
)
    requires
        held_symbols(lots).no_duplicates(),
        replay(Some(held), orders, symbol, OrderSide::Buy, OrderSide::Sell) == Some(
            quantity_held(lots, symbol),
        ),
    ensures
        ({
            let (after, placed) = sold(lots, orders, symbols, now);
            replay(Some(held), placed, symbol, OrderSide::Buy, OrderSide::Sell) == Some(
                quantity_held(after, symbol),
            )
        }),
    decreases symbols.len(),
{
    if symbols.len() > 0 {
        let front = symbols.drop_last();
        lemma_sold_replayed(lots, orders, front, now, symbol, held);
        law_each_sold_lot_is_ordered(lots, orders, front, now);
        let (before, placed) = sold(lots, orders, front, now);
        let (after, all) = sold(lots, orders, symbols, now);
        let all_symbols = held_symbols(before);
        lemma_first_place(all_symbols, symbols.last());
        lemma_quantity_if_held(before, symbol);
        lemma_quantity_if_held(after, symbol);
        if let Some(i) = first_place(all_symbols, symbols.last()) {
            assert(all.drop_last() =~= placed);
            assert(held_symbols(after) =~= all_symbols.remove(i));
            lemma_quantity_of_lot(before, i);
            if symbol == symbols.last() {
                assert(all_symbols.contains(symbol));
                if holds(after, symbol) {
                    let a = held_symbols(after).index_of(symbol);
                    let x = if a < i { a } else { a + 1 };
                    assert(all_symbols[x] == all_symbols[i]);
                }
            } else {
                if holds(before, symbol) {
                    let x = all_symbols.index_of(symbol);
                    let a = if x < i { x } else { x - 1 };
                    assert(held_symbols(after)[a] == symbol);
                    law_each_sold_lot_is_ordered(lots, orders, symbols, now);
                    lemma_quantity_of_lot(before, x);
                    lemma_quantity_of_lot(after, a);
                }
                if holds(after, symbol) {
                    let a = held_symbols(after).index_of(symbol);
                    let x = if a < i { a } else { a + 1 };
                    assert(all_symbols[x] == symbol);
                }
            }
        }
    }
}

/// The orders of a signal in a symbol buy where no position is open, and where one is they
/// sell its quantity.
pub proof fn law_orders_of_a_signal_alternate<N: Number>(
    config: MeanReversionConfig<N>,
    crisis: bool,
    lots: Seq<HoldingView<N>>,
    signal: SignalView<N>,
    portfolio: PortfolioView,
    symbol: Seq<char>,
)
    requires
        held_symbols(lots).no_duplicates(),
    ensures
        ({
            let (after, orders) = signal_outcome(config, crisis, lots, signal, portfolio);
            replay(
                Some(quantity_held(lots, symbol)),
                orders,
                symbol,
                OrderSide::Buy,
                OrderSide::Sell,
            ) == Some(quantity_held(after, symbol))
        }),
{
    let now = signal.timestamp;
    let hold = config.max_hold_secs;
    let held = quantity_held(lots, symbol);
    let kept = still_held(lots, hold, now);
    lemma_quantity_if_held(lots, symbol);
    lemma_quantity_if_held(kept, symbol);
    let timed_out = exits(lots, hold, OrderSide::Sell, NAME@, now);
    lemma_still_held_distinct(lots, hold, now);
    lemma_exits_replayed(
        lots,
        hold,
        OrderSide::Buy,
        OrderSide::Sell,
        NAME@,
        now,
        symbol,
        held,
    );
    lemma_sold_replayed(kept, timed_out, signal.symbols, now, symbol, held);
    lemma_opened_replayed(
        kept,
        timed_out,
        configured(signal.symbols, views(config.symbols@)),
        portfolio.positions,
        buying(config, signal, portfolio),
        OrderSide::Sell,
        NAME@,
        symbol,
        held,
    );
}

/// A signal, the account of its time, and whether hedges were open then.
pub struct Occasion<N> {
    pub signal: SignalView<N>,
    pub portfolio: PortfolioView,
    pub crisis: bool,
}

/// The positions and all orders after a run of signals.
pub open spec fn after_signals<N: Number>(
    config: MeanReversionConfig<N>,
    lots: Seq<HoldingView<N>>,
    occasions: Seq<Occasion<N>>,
) -> (Seq<HoldingView<N>>, Seq<Terms>)
    decreases occasions.len(),
{
    if occasions.len() == 0 {
        (lots, Seq::empty())
    } else {
        let (held, placed) = after_signals(config, lots, occasions.drop_last());
        let last = occasions.last();
        let (after, orders) = signal_outcome(
            config,
            last.crisis,
            held,
            last.signal,
            last.portfolio,
        );
        (after, placed + orders)
    }
}

/// Over a run of signals the orders in a symbol alternate: a purchase opens the position,
/// a sale of the same quantity closes it, and the last of them tells whether it is open and
/// of what quantity.
pub proof fn law_orders_alternate<N: Number>(
    config: MeanReversionConfig<N>,
    lots: Seq<HoldingView<N>>,
    occasions: Seq<Occasion<N>>,
    symbol: Seq<char>,
)
    requires
        held_symbols(lots).no_duplicates(),
    ensures
        ({
            let (after, orders) = after_signals(config, lots, occasions);
            &&& held_symbols(after).no_duplicates()
            &&& replay(
                Some(quantity_held(lots, symbol)),
                orders,
                symbol,
                OrderSide::Buy,
                OrderSide::Sell,
            ) == Some(quantity_held(after, symbol))
        }),
    decreases occasions.len(),
{
    if occasions.len() > 0 {
        law_orders_alternate(config, lots, occasions.drop_last(), symbol);
        let (held, placed) = after_signals(config, lots, occasions.drop_last());
        let last = occasions.last();
        law_one_position_per_symbol(config, last.crisis, held, last.signal, last.portfolio);
        law_orders_of_a_signal_alternate(
            config,
            last.crisis,
            held,
            last.signal,
            last.portfolio,
            symbol,
        );
        lemma_replay_in_parts(
            Some(quantity_held(lots, symbol)),
            placed,
            signal_outcome(config, last.crisis, held, last.signal, last.portfolio).1,
            symbol,
            OrderSide::Buy,
            OrderSide::Sell,
        );
    }
}

/// Of the account only the equity and the positions' symbols and current prices count:
/// accounts that agree in these get the same orders, whatever their cash, buying power and
/// profits are.
pub proof fn law_orders_go_by_equity_and_prices<N: Number>(
    config: MeanReversionConfig<N>,
    crisis: bool,
    lots: Seq<HoldingView<N>>,
    signal: SignalView<N>,
    a: PortfolioView,
    b: PortfolioView,
)
    requires
        a.equity == b.equity,
        same_prices(a.positions, b.positions),
    ensures
        signal_outcome(config, crisis, lots, signal, a) == signal_outcome(
            config,
            crisis,
            lots,
            signal,
            b,
        ),
{
    let now = signal.timestamp;
    lemma_opened_alike(
        still_held(lots, config.max_hold_secs, now),
        exits(lots, config.max_hold_secs, OrderSide::Sell, NAME@, now),
        configured(signal.symbols, views(config.symbols@)),
        a.positions,
        b.positions,
        buying(config, signal, a),
        NAME@,
    );
}

/// A position that a signal opens has the most whole shares whose value at the current price
/// of the symbol's position does not exceed the configured share of the equity.
pub proof fn law_purchases_take_their_share_of_the_equity(
    config: MeanReversionConfig<Fixed>,
    crisis: bool,
    lots: Seq<HoldingView<Fixed>>,
    signal: SignalView<Fixed>,
    portfolio: PortfolioView,
    lot: HoldingView<Fixed>,
    i: int,
)
    requires
        !lots.contains(lot),
        signal_outcome(config, crisis, lots, signal, portfolio).0.contains(lot),
        0 <= i < portfolio.positions.len(),
        portfolio.positions[i].symbol == lot.symbol,
        forall|k: int|
            0 <= k < i ==> (#[trigger] portfolio.positions[k]).symbol != lot.symbol,
        decimal_value::<Fixed>(portfolio.positions[i].current_price) is Some,
        decimal_value::<Fixed>(portfolio.positions[i].current_price)->0.units >= UNIT,
        0 <= product(
            decimal_or(portfolio.equity, zero::<Fixed>()),
            config.position_size_pct,
        ).units < 9_000_000_000_000_000_000,
    ensures
        ({
            let price = decimal_value::<Fixed>(portfolio.positions[i].current_price)->0;
            let share = product(
                decimal_or(portfolio.equity, zero::<Fixed>()),
                config.position_size_pct,
            );
            exists|shares: Fixed| #[trigger]
                most_shares(shares, price, share) && lot.quantity == shares_amount(shares)
        }),
{
    let now = signal.timestamp;
    let hold = config.max_hold_secs;
    let held = still_held(lots, hold, now);
    let with = buying(config, signal, portfolio);
    let symbols = configured(signal.symbols, views(config.symbols@));
    let timed_out = exits(lots, hold, OrderSide::Sell, NAME@, now);
    law_new_positions_are_bought(config, crisis, lots, signal, portfolio, lot);
    law_each_lot_stays_or_is_closed(lots, hold, OrderSide::Sell, NAME@, now);
    lemma_names_differ();
    law_each_new_lot_is_ordered(held, timed_out, symbols, portfolio.positions, with, NAME@);
    lemma_opened_lots(held, timed_out, symbols, portfolio.positions, with, NAME@);
    let after = signal_outcome(config, crisis, lots, signal, portfolio).0;
    let k = choose|k: int| 0 <= k < after.len() && after[k] == lot;
    if k < held.len() {
        assert(held[k] == after[k]);
        assert(held.contains(lot));
    }
    law_symbols_are_reckoned_at_their_own_price(
        portfolio.positions,
        lot.symbol,
        with.otherwise,
        i,
    );
    law_whole_shares_are_the_most(
        portfolio.positions,
        lot.symbol,
        with.amount,
        with.otherwise,
    );
    let shares = whole_shares(portfolio.positions, lot.symbol, with.amount, with.otherwise)->0;
    assert(most_shares(
        shares,
        decimal_value::<Fixed>(portfolio.positions[i].current_price)->0,
        product(decimal_or(portfolio.equity, zero::<Fixed>()), config.position_size_pct),
    ));
}

proof fn lemma_names_differ()
    ensures
        OVERSOLD@ != OVERBOUGHT@,
{
    reveal_strlit("rsi_overbought");
    reveal_strlit("rsi_oversold");
    assert(OVERBOUGHT@.len() != OVERSOLD@.len());
}

/// An oversold symbol that is configured is held after the signal, unless there is a crisis,
/// the relative strength is above the entry threshold, or the share of the equity does not
/// buy a single share of it.
pub proof fn law_oversold_symbols_are_bought<N: Number>(
    config: MeanReversionConfig<N>,
    lots: Seq<HoldingView<N>>,
    signal: SignalView<N>,
    portfolio: PortfolioView,
    symbol: Seq<char>,
)
    requires
        signal.name == "rsi_oversold"@,
        !less(config.rsi_entry_threshold, signal.value),
        signal.symbols.contains(symbol),
        views(config.symbols@).contains(symbol),
        whole_shares(
            portfolio.positions,
            symbol,
            product(decimal_or(portfolio.equity, zero::<N>()), config.position_size_pct),
            zero::<N>(),
        ) is Some,
    ensures
        holds(signal_outcome(config, false, lots, signal, portfolio).0, symbol),
{
    let now = signal.timestamp;
    let symbols = configured(signal.symbols, views(config.symbols@));
    lemma_names_differ();
    lemma_configured_all(signal.symbols, views(config.symbols@), symbol);
    lemma_opened_lots(
        still_held(lots, config.max_hold_secs, now),
        exits(lots, config.max_hold_secs, OrderSide::Sell, NAME@, now),
        symbols,
        portfolio.positions,
        buying(config, signal, portfolio),
        NAME@,
    );
}

proof fn lemma_configured_all(symbols: Seq<Seq<char>>, names: Seq<Seq<char>>, symbol: Seq<char>)
    requires
        symbols.contains(symbol),
        names.contains(symbol),
    ensures
        configured(symbols, names).contains(symbol),
    decreases symbols.len(),
{
    let front = symbols.drop_last();
    let before = configured(front, names);
    let all = configured(symbols, names);
    let i = symbols.index_of(symbol);
    if i < front.len() {
        assert(front[i] == symbol);
        lemma_configured_all(front, names, symbol);
        let k = before.index_of(symbol);
        assert(all[k] == symbol);
    } else {
        assert(all[before.len() as int] == symbol);
    }
}

/// Time and recovery are the only reasons to sell: a position that was held for the longest
/// time or longer is sold with whatever signal comes, and one that was not stays, unless an
/// overbought signal above the exit threshold names its symbol.
pub proof fn law_positions_are_sold_in_time_or_recovered<N: Number>(
    config: MeanReversionConfig<N>,
    crisis: bool,
    lots: Seq<HoldingView<N>>,
    signal: SignalView<N>,
    portfolio: PortfolioView,
    lot: HoldingView<N>,
)
    requires
        lots.contains(lot),
    ensures
        signal.timestamp.elapsed(lot.entered_at) >= signed_seconds(config.max_hold_secs)
            ==> signal_outcome(config, crisis, lots, signal, portfolio).1.contains(
            market_terms(lot.symbol, OrderSide::Sell, lot.quantity, NAME@, signal.timestamp),
        ),
        signal.timestamp.elapsed(lot.entered_at) < signed_seconds(config.max_hold_secs) && (
        signal.name != "rsi_overbought"@ || !less(config.rsi_exit_threshold, signal.value)
            || !signal.symbols.contains(lot.symbol)) ==> signal_outcome(
            config,
            crisis,
            lots,
            signal,
            portfolio,
        ).0.contains(lot),
{
    let now = signal.timestamp;
    let hold = config.max_hold_secs;
    let held = still_held(lots, hold, now);
    let timed_out = exits(lots, hold, OrderSide::Sell, NAME@, now);
    let terms = closing_terms(lot, OrderSide::Sell, NAME@, now);
    law_each_lot_stays_or_is_closed(lots, hold, OrderSide::Sell, NAME@, now);
    law_each_sold_lot_is_ordered(held, timed_out, signal.symbols, now);
    law_each_new_lot_is_ordered(
        held,
        timed_out,
        configured(signal.symbols, views(config.symbols@)),
        portfolio.positions,
        buying(config, signal, portfolio),
        NAME@,
    );
    let (after, placed) = signal_outcome(config, crisis, lots, signal, portfolio);
    let i = choose|i: int| 0 <= i < lots.len() && lots[i] == lot;
    assert(lots[i] == lot);
    if now.elapsed(lot.entered_at) >= signed_seconds(hold) {
        assert(due(lot, hold, now));
        let j = choose|j: int| 0 <= j < timed_out.len() && timed_out[j] == terms;
        assert(placed[j] == terms);
    } else {
        assert(!due(lot, hold, now));
        assert(held.contains(lot));
        if calls_for_exit(config, signal) {
            if !signal.symbols.contains(lot.symbol) {
                lemma_others_are_kept(held, timed_out, signal.symbols, now, lot);
            }
        } else {
            let j = choose|j: int| 0 <= j < held.len() && held[j] == lot;
            assert(after[j] == lot);
        }
    }
}

proof fn lemma_others_are_kept<N>(
    lots: Seq<HoldingView<N>>,
    orders: Seq<Terms>,
    symbols: Seq<Seq<char>>,
    now: Timestamp,
    lot: HoldingView<N>,
)
    requires
        lots.contains(lot),
        !symbols.contains(lot.symbol),
    ensures
        sold(lots, orders, symbols, now).0.contains(lot),
    decreases symbols.len(),
{
    if symbols.len() > 0 {
        let front = symbols.drop_last();
        if front.contains(lot.symbol) {
            let i = front.index_of(lot.symbol);
            assert(symbols[i] == lot.symbol);
        }
        assert(symbols[symbols.len() - 1] == symbols.last());
        lemma_others_are_kept(lots, orders, front, now, lot);
        let (before, placed) = sold(lots, orders, front, now);
        let after = sold(lots, orders, symbols, now).0;
        lemma_first_place(held_symbols(before), symbols.last());
        if let Some(i) = first_place(held_symbols(before), symbols.last()) {
            let k = before.index_of(lot);
            assert(before[k] == lot);
            assert(k != i);
            if k < i {
                assert(after[k] == lot);
            } else {
                assert(after[k - 1] == lot);
            }
        }
    }
}

/// A position that a signal makes the strategy take is noted with the value of that signal.
pub proof fn law_positions_note_their_signal<N: Number>(
    config: MeanReversionConfig<N>,
    crisis: bool,
    lots: Seq<HoldingView<N>>,
    signal: SignalView<N>,
    portfolio: PortfolioView,
    lot: HoldingView<N>,
)
    requires
        !lots.contains(lot),
        signal_outcome(config, crisis, lots, signal, portfolio).0.contains(lot),
    ensures
        lot.entry_value == signal.value,
        lot.entered_at == signal.timestamp,
{
    let now = signal.timestamp;
    let hold = config.max_hold_secs;
    let held = still_held(lots, hold, now);
    let with = buying(config, signal, portfolio);
    let symbols = configured(signal.symbols, views(config.symbols@));
    let timed_out = exits(lots, hold, OrderSide::Sell, NAME@, now);
    law_new_positions_are_bought(config, crisis, lots, signal, portfolio, lot);
    law_each_lot_stays_or_is_closed(lots, hold, OrderSide::Sell, NAME@, now);
    lemma_names_differ();
    lemma_opened_lots(held, timed_out, symbols, portfolio.positions, with, NAME@);
    let after = signal_outcome(config, crisis, lots, signal, portfolio).0;
    let k = choose|k: int| 0 <= k < after.len() && after[k] == lot;
    law_each_new_lot_is_ordered(held, timed_out, symbols, portfolio.positions, with, NAME@);
    if k < held.len() {
        assert(held[k] == after[k]);
        assert(held.contains(lot));
    }
}

} // verus!
