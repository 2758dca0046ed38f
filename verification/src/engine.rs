//! From signals to orders: strategies propose, the risk rules screen, and what the
//! broker took is booked.
//!
//! The program around the library asks the broker for the account, hands it in, and
//! sends what is to be submitted; every decision between is taken here.
use crate::config::{CryptoVolLeadsEquityConfig, MeanReversionConfig, RiskConfig};
use crate::execution::order_manager::{
    entered, open_ones, order_ids, order_views, still_open, OrderManager,
};
use crate::number::{decimal_value, functional, less, zero, Number};
use crate::risk::{
    after_portfolio, decide, DecisionView, RiskDecision, RiskManager, RiskView,
};
use crate::strategy::crypto_vol_equity::CryptoVolLeadsEquity;
use crate::strategy::holdings::HoldingView;
use crate::strategy::mean_reversion::MeanReversion;
use crate::strategy::{crypto_vol_equity, mean_reversion, Strategy};
use crate::text::{first_place, lemma_first_place};
use crate::time::{signed_seconds, utc_now, Timestamp};
use crate::types::{
    terms_of, Order, OrderView, PortfolioState, PortfolioView, PositionView, SignalValue,
    SignalView, Terms, Tick, TickView,
};
use rust_decimal::Decimal;
use vstd::prelude::*;

verus! {

/// The prices after those of all positions that have one were taken over.
pub open spec fn with_all_prices<N: Number>(
    prices: Map<Seq<char>, N>,
    positions: Seq<PositionView>,
) -> Map<Seq<char>, N>
    decreases positions.len(),
{
    if positions.len() == 0 {
        prices
    } else {
        let before = with_all_prices(prices, positions.drop_last());
        match decimal_value::<N>(positions.last().current_price) {
            Some(price) => before.insert(positions.last().symbol, price),
            None => before,
        }
    }
}

/// The risk state after the prices of all positions were taken over.
pub open spec fn after_prices<N: Number>(
    state: RiskView<N>,
    positions: Seq<PositionView>,
) -> RiskView<N> {
    RiskView { prices: with_all_prices(state.prices, positions), ..state }
}

/// The risk state after a tick: its price, where it is positive, is the last price of its
/// symbol.
pub open spec fn after_tick<N: Number>(state: RiskView<N>, tick: TickView) -> RiskView<N> {
    match decimal_value::<N>(tick.price) {
        Some(price) if less(zero::<N>(), price) => RiskView {
            prices: state.prices.insert(tick.symbol, price),
            ..state
        },
        _ => state,
    }
}

/// What is to be done with an order.
#[derive(Debug)]
pub enum Screened {
    /// Send it to the broker.
    Submit(Order),
    /// Send it to the broker with another quantity than was asked for, for the reason given.
    Resize { order: Order, asked: Decimal, reason: String },
    /// Leave it, for the reason given.
    Refuse { order: Order, reason: String },
}

/// What is to be done with an order, as a mathematical value.
pub enum ScreenedView {
    Submit(OrderView),
    Resize { order: OrderView, asked: Decimal, reason: Seq<char> },
    Refuse { order: OrderView, reason: Seq<char> },
}

impl View for Screened {
    type V = ScreenedView;

    open spec fn view(&self) -> ScreenedView {
        match self {
            Screened::Submit(order) => ScreenedView::Submit(order@),
            Screened::Resize { order, asked, reason } => ScreenedView::Resize {
                order: order@,
                asked: *asked,
                reason: reason@,
            },
            Screened::Refuse { order, reason } => ScreenedView::Refuse {
                order: order@,
                reason: reason@,
            },
        }
    }
}

/// The order that is to be sent to the broker, if any.
pub open spec fn sent(screened: ScreenedView) -> Option<OrderView> {
    match screened {
        ScreenedView::Submit(order) => Some(order),
        ScreenedView::Resize { order, .. } => Some(order),
        ScreenedView::Refuse { .. } => None,
    }
}

/// An order with another quantity.
pub open spec fn resized(order: OrderView, quantity: Decimal) -> OrderView {
    OrderView { terms: Terms { quantity, ..order.terms }, ..order }
}

/// What a decision means for an order: it is sent as it is, sent with another
/// quantity, or left.
pub open spec fn carried_out(decision: DecisionView, order: OrderView) -> ScreenedView {
    match decision {
        DecisionView::Approved => ScreenedView::Submit(order),
        DecisionView::Rejected(reason) => ScreenedView::Refuse { order, reason },
        DecisionView::ReducedSize { new_quantity, reason } => ScreenedView::Resize {
            order: resized(order, new_quantity),
            asked: order.terms.quantity,
            reason,
        },
    }
}

/// What is to be done with an order at a moment.
pub open spec fn screening<N: Number>(
    risk: RiskView<N>,
    book: Seq<OrderView>,
    order: OrderView,
    portfolio: PortfolioView,
    now: Timestamp,
) -> ScreenedView {
    carried_out(
        decide(risk, order.terms, portfolio, open_ones(book).len() as usize, now),
        order,
    )
}

/// What the decision on an order means for it.
pub fn carry_out(decision: RiskDecision, order: Order) -> (r: Screened)
    ensures
        r@ == carried_out(decision@, order@),
{
    match decision {
        RiskDecision::Approved => Screened::Submit(order),
        RiskDecision::Rejected(reason) => Screened::Refuse { order, reason },
        RiskDecision::ReducedSize { new_quantity, reason } => {
            let asked = order.quantity;
            let mut adjusted = order;
            adjusted.quantity = new_quantity;
            Screened::Resize { order: adjusted, asked, reason }
        },
    }
}

/// What the hedging strategy answers a signal with, where it is switched on: the hedges
/// after it, and its orders.
pub open spec fn hedging_answer<N: Number>(
    config: CryptoVolLeadsEquityConfig<N>,
    hedges: Seq<HoldingView<N>>,
    signal: SignalView<N>,
    portfolio: PortfolioView,
) -> (Seq<HoldingView<N>>, Seq<Terms>) {
    if config.enabled {
        crypto_vol_equity::signal_outcome(config, hedges, signal, portfolio)
    } else {
        (hedges, Seq::empty())
    }
}

/// What the reversion strategy answers a signal with, where it is switched on: the
/// positions after it, and its orders. Open hedges are a crisis to it.
pub open spec fn reversion_answer<N: Number>(
    config: MeanReversionConfig<N>,
    hedges: Seq<HoldingView<N>>,
    lots: Seq<HoldingView<N>>,
    signal: SignalView<N>,
    portfolio: PortfolioView,
) -> (Seq<HoldingView<N>>, Seq<Terms>) {
    if config.enabled {
        mean_reversion::signal_outcome(config, hedges.len() > 0, lots, signal, portfolio)
    } else {
        (lots, Seq::empty())
    }
}

/// What to do next in the round that a signal set off.
#[derive(Debug)]
pub enum Step {
    /// Do with an order what its screening came to, and book it if it is sent and taken.
    Act(Screened),
    /// The round is over.
    Done,
}

/// What to do next, as a mathematical value.
pub enum StepView {
    Act(ScreenedView),
    Done,
}

impl View for Step {
    type V = StepView;

    open spec fn view(&self) -> StepView {
        match self {
            Step::Act(screened) => StepView::Act(screened@),
            Step::Done => StepView::Done,
        }
    }
}

/// Whether `queue` is what waits in a round: what waited before, or, where the
/// reversion strategy had to be asked, orders of the terms that it proposed, each under
/// an id of its full length.
pub open spec fn queued<N>(
    round: &Round<N>,
    proposed: Seq<Terms>,
    queue: Seq<OrderView>,
) -> bool {
    if round.at_turn() {
        &&& queue_terms(queue) == proposed
        &&& forall|i: int| 0 <= i < queue.len() ==> (#[trigger] queue[i]).id.len() == 36
    } else {
        queue == round.queue()
    }
}

/// The next step of a round: the first order that waits is screened; where none waits,
/// the round is over.
pub open spec fn next_step<N: Number>(
    risk: RiskView<N>,
    book: Seq<OrderView>,
    queue: Seq<OrderView>,
    portfolio: PortfolioView,
    now: Timestamp,
) -> (StepView, Seq<OrderView>) {
    if queue.len() == 0 {
        (StepView::Done, queue)
    } else {
        (
            StepView::Act(screening(risk, book, queue[0], portfolio, now)),
            queue.drop_first(),
        )
    }
}

/// The round that a signal sets off: the orders of the hedging strategy one after the
/// other, then those of the reversion strategy.
pub struct Round<N> {
    signal: SignalValue<N>,
    portfolio: PortfolioState,
    waiting: Vec<Order>,
    all_asked: bool,
}

impl<N> Round<N> {
    /// The signal.
    pub closed spec fn cause(&self) -> SignalView<N> {
        self.signal@
    }

    /// The account when the signal came.
    pub closed spec fn account(&self) -> PortfolioView {
        self.portfolio@
    }

    /// The orders that were proposed and not screened yet.
    pub closed spec fn queue(&self) -> Seq<OrderView> {
        order_views(self.waiting@)
    }

    /// Whether both strategies were asked.
    pub closed spec fn asked(&self) -> bool {
        self.all_asked
    }

    /// Whether it is the reversion strategy's turn to be asked.
    pub open spec fn at_turn(&self) -> bool {
        self.queue().len() == 0 && !self.asked()
    }
}

/// The terms of orders.
pub open spec fn queue_terms(orders: Seq<OrderView>) -> Seq<Terms> {
    orders.map_values(|o: OrderView| o.terms)
}

/// The strategies, the risk rules and the book of orders.
pub struct TradingEngine<N: Number> {
    risk: RiskManager<N>,
    orders: OrderManager,
    hedging: CryptoVolLeadsEquity<N>,
    reversion: MeanReversion<N>,
}

impl<N: Number + Send + Sync> TradingEngine<N> {
    /// The state of the risk rules.
    pub closed spec fn risk_state(&self) -> RiskView<N> {
        self.risk@
    }

    /// The orders that the broker took.
    pub closed spec fn book(&self) -> Seq<OrderView> {
        self.orders.book()
    }

    /// The open hedges.
    pub closed spec fn hedges(&self) -> Seq<HoldingView<N>> {
        self.hedging.hedges()
    }

    /// The positions bought on oversold signals.
    pub closed spec fn lots(&self) -> Seq<HoldingView<N>> {
        self.reversion.lots()
    }

    /// The settings of the hedging strategy.
    pub closed spec fn hedging_settings(&self) -> CryptoVolLeadsEquityConfig<N> {
        self.hedging.settings()
    }

    /// The settings of the reversion strategy.
    pub closed spec fn reversion_settings(&self) -> MeanReversionConfig<N> {
        self.reversion.settings()
    }

    /// The tables that the state is held in are in order: ids are distinct in the
    /// book, and symbols among the hedges and among the positions.
    pub closed spec fn wf(&self) -> bool {
        self.risk.wf() && self.orders.wf() && self.hedging.wf() && self.reversion.wf()
    }

    /// Nothing but the risk state differs from another engine.
    pub open spec fn same_but_risk(&self, other: &TradingEngine<N>) -> bool {
        &&& self.book() == other.book()
        &&& self.hedges() == other.hedges()
        &&& self.lots() == other.lots()
        &&& self.hedging_settings() == other.hedging_settings()
        &&& self.reversion_settings() == other.reversion_settings()
    }

    /// An engine that has seen nothing.
    pub fn new(
        risk: RiskConfig<N>,
        hedging: CryptoVolLeadsEquityConfig<N>,
        reversion: MeanReversionConfig<N>,
    ) -> (r: TradingEngine<N>)
        requires
            functional::<N>(),
        ensures
            r.wf(),
            r.risk_state() == (RiskView {
                config: risk,
                trades: Map::empty(),
                peak: zero::<N>(),
                tripped: false,
                prices: Map::empty(),
                day_start: None,
            }),
            r.book() == Seq::<OrderView>::empty(),
            r.hedges() == Seq::<HoldingView<N>>::empty(),
            r.lots() == Seq::<HoldingView<N>>::empty(),
            r.hedging_settings() == hedging,
            r.reversion_settings() == reversion,
    {
        TradingEngine {
            risk: RiskManager::new(risk),
            orders: OrderManager::new(),
            hedging: CryptoVolLeadsEquity::new(hedging),
            reversion: MeanReversion::new(reversion),
        }
    }

    /// Goes on under other settings: prices, trades, equity, orders, hedges and
    /// positions stay.
    pub fn reconfigure(
        &mut self,
        risk: RiskConfig<N>,
        hedging: CryptoVolLeadsEquityConfig<N>,
        reversion: MeanReversionConfig<N>,
    )
        requires
            old(self).wf(),
        ensures
            final(self).wf(),
            final(self).risk_state() == (RiskView { config: risk, ..old(self).risk_state() }),
            final(self).book() == old(self).book(),
            final(self).hedges() == old(self).hedges(),
            final(self).lots() == old(self).lots(),
            final(self).hedging_settings() == hedging,
            final(self).reversion_settings() == reversion,
    {
        self.risk.reconfigure(risk);
        self.hedging.reconfigure(hedging);
        self.reversion.reconfigure(reversion);
    }

    fn take_prices(&mut self, portfolio: &PortfolioState)
        requires
            old(self).wf(),
            functional::<N>(),
        ensures
            final(self).wf(),
            final(self).risk_state() == after_prices(
                old(self).risk_state(),
                portfolio@.positions,
            ),
            final(self).same_but_risk(old(self)),
    {
        let ghost positions = portfolio@.positions;
        let mut i: usize = 0;
        assert(self.risk_state() =~= after_prices(old(self).risk_state(), positions.take(0)));
        while i < portfolio.positions.len()
            invariant
                functional::<N>(),
                i <= portfolio.positions@.len(),
                positions == portfolio@.positions,
                self.wf(),
                self.risk_state() == after_prices(
                    old(self).risk_state(),
                    positions.take(i as int),
                ),
                self.same_but_risk(old(self)),
            decreases portfolio.positions@.len() - i,
        {
            assert(positions.take(i + 1).drop_last() =~= positions.take(i as int));
            if let Some(price) = N::from_decimal(portfolio.positions[i].current_price) {
                self.risk.update_price(&portfolio.positions[i].symbol, price);
            }
            i = i + 1;
        }
        assert(positions.take(i as int) =~= positions);
    }

    /// Takes over the price of a tick as the last price of its symbol. A tick without a
    /// positive price changes nothing.
    pub fn take_tick(&mut self, tick: &Tick)
        requires
            old(self).wf(),
            functional::<N>(),
        ensures
            final(self).wf(),
            final(self).risk_state() == after_tick(old(self).risk_state(), tick@),
            final(self).same_but_risk(old(self)),
    {
        if let Some(price) = N::from_decimal(tick.price) {
            if N::ratio(0, 1).below(price) {
                self.risk.update_price(&tick.symbol, price);
            }
        }
    }

    /// Takes in the account before orders are proposed: equity first, then all prices.
    pub fn take_account(&mut self, portfolio: &PortfolioState)
        requires
            old(self).wf(),
            functional::<N>(),
        ensures
            final(self).wf(),
            final(self).risk_state() == after_prices(
                after_portfolio(old(self).risk_state(), portfolio@),
                portfolio@.positions,
            ),
            final(self).same_but_risk(old(self)),
    {
        self.risk.update_portfolio(portfolio);
        self.take_prices(portfolio);
    }

    /// Takes in the account between signals: all prices first, then equity.
    pub fn watch_account(&mut self, portfolio: &PortfolioState)
        requires
            old(self).wf(),
            functional::<N>(),
        ensures
            final(self).wf(),
            final(self).risk_state() == after_portfolio(
                after_prices(old(self).risk_state(), portfolio@.positions),
                portfolio@,
            ),
            final(self).same_but_risk(old(self)),
    {
        self.take_prices(portfolio);
        self.risk.update_portfolio(portfolio);
    }

    /// The orders that the hedging strategy answers a signal with, where it is
    /// switched on.
    pub fn propose_hedges(
        &mut self,
        signal: &SignalValue<N>,
        portfolio: &PortfolioState,
    ) -> (r: Vec<Order>)
        requires
            old(self).wf(),
            functional::<N>(),
        ensures
            final(self).wf(),
            final(self).risk_state() == old(self).risk_state(),
            final(self).book() == old(self).book(),
            final(self).lots() == old(self).lots(),
            final(self).hedging_settings() == old(self).hedging_settings(),
            final(self).reversion_settings() == old(self).reversion_settings(),
            (final(self).hedges(), terms_of(r@)) == hedging_answer(
                old(self).hedging_settings(),
                old(self).hedges(),
                signal@,
                portfolio@,
            ),
            forall|i: int| 0 <= i < r@.len() ==> (#[trigger] r@[i])@.id.len() == 36,
    {
        if !self.hedging.is_enabled() {
            let none: Vec<Order> = Vec::new();
            assert(terms_of(none@) =~= Seq::empty());
            return none;
        }
        self.hedging.on_signal(signal, portfolio)
    }

    /// The orders that the reversion strategy answers a signal with, where it is
    /// switched on. It knows whether hedges are open.
    pub fn propose_reversions(
        &mut self,
        signal: &SignalValue<N>,
        portfolio: &PortfolioState,
    ) -> (r: Vec<Order>)
        requires
            old(self).wf(),
            functional::<N>(),
        ensures
            final(self).wf(),
            final(self).risk_state() == old(self).risk_state(),
            final(self).book() == old(self).book(),
            final(self).hedges() == old(self).hedges(),
            final(self).hedging_settings() == old(self).hedging_settings(),
            final(self).reversion_settings() == old(self).reversion_settings(),
            (final(self).lots(), terms_of(r@)) == reversion_answer(
                old(self).reversion_settings(),
                old(self).hedges(),
                old(self).lots(),
                signal@,
                portfolio@,
            ),
            forall|i: int| 0 <= i < r@.len() ==> (#[trigger] r@[i])@.id.len() == 36,
    {
        if !self.reversion.is_enabled() {
            let none: Vec<Order> = Vec::new();
            assert(terms_of(none@) =~= Seq::empty());
            return none;
        }
        self.reversion.observe_hedges(self.hedging.open_hedges());
        self.reversion.on_signal(signal, portfolio)
    }

    /// What is to be done with an order at a given moment.
    pub fn screen_at(&self, order: Order, portfolio: &PortfolioState, now: Timestamp) -> (r:
        Screened)
        requires
            self.wf(),
            functional::<N>(),
        ensures
            r@ == screening(self.risk_state(), self.book(), order@, portfolio@, now),
    {
        let open = self.orders.open_order_count();
        let decision = self.risk.evaluate_order_at(&order, portfolio, open, now);
        carry_out(decision, order)
    }

    /// What is to be done with an order now. The moment matters to the cooldown alone.
    pub fn screen(&self, order: Order, portfolio: &PortfolioState) -> (r: Screened)
        requires
            self.wf(),
            functional::<N>(),
        ensures
            exists|now: Timestamp|
                r@ == #[trigger] screening(
                    self.risk_state(),
                    self.book(),
                    order@,
                    portfolio@,
                    now,
                ),
            self.risk_state().tripped || !self.risk_state().trades.contains_key(
                order@.terms.symbol,
            ) ==> forall|now: Timestamp|
                r@ == #[trigger] screening(
                    self.risk_state(),
                    self.book(),
                    order@,
                    portfolio@,
                    now,
                ),
    {
        let now = utc_now();
        self.screen_at(order, portfolio, now)
    }

    /// Starts the round that a signal sets off: takes in the account and asks the
    /// hedging strategy.
    pub fn begin(&mut self, signal: SignalValue<N>, portfolio: PortfolioState) -> (r: Round<N>)
        requires
            old(self).wf(),
            functional::<N>(),
        ensures
            final(self).wf(),
            final(self).risk_state() == after_prices(
                after_portfolio(old(self).risk_state(), portfolio@),
                portfolio@.positions,
            ),
            final(self).book() == old(self).book(),
            final(self).lots() == old(self).lots(),
            final(self).hedging_settings() == old(self).hedging_settings(),
            final(self).reversion_settings() == old(self).reversion_settings(),
            (final(self).hedges(), queue_terms(r.queue())) == hedging_answer(
                old(self).hedging_settings(),
                old(self).hedges(),
                signal@,
                portfolio@,
            ),
            forall|i: int| 0 <= i < r.queue().len() ==> (#[trigger] r.queue()[i]).id.len() == 36,
            r.cause() == signal@,
            r.account() == portfolio@,
            !r.asked(),
    {
        self.take_account(&portfolio);
        let waiting = self.propose_hedges(&signal, &portfolio);
        assert(queue_terms(order_views(waiting@)) =~= terms_of(waiting@));
        Round { signal, portfolio, waiting, all_asked: false }
    }

    /// Takes the next step of a round at a given moment: screens the next order, or,
    /// where none is waiting, asks the reversion strategy first. The book and the
    /// trades that count are those of that moment.
    pub fn advance_at(&mut self, round: &mut Round<N>, now: Timestamp) -> (r: Step)
        requires
            old(self).wf(),
            functional::<N>(),
        ensures
            final(self).wf(),
            final(self).risk_state() == old(self).risk_state(),
            final(self).book() == old(self).book(),
            final(self).hedges() == old(self).hedges(),
            final(self).hedging_settings() == old(self).hedging_settings(),
            final(self).reversion_settings() == old(self).reversion_settings(),
            final(round).cause() == old(round).cause(),
            final(round).account() == old(round).account(),
            final(round).asked() == (old(round).asked() || old(round).queue().len() == 0),
            ({
                let answer = reversion_answer(
                    old(self).reversion_settings(),
                    old(self).hedges(),
                    old(self).lots(),
                    old(round).cause(),
                    old(round).account(),
                );
                &&& final(self).lots() == if old(round).at_turn() {
                    answer.0
                } else {
                    old(self).lots()
                }
                &&& exists|queue: Seq<OrderView>| #[trigger]
                    queued(old(round), answer.1, queue) && next_step(
                        old(self).risk_state(),
                        old(self).book(),
                        queue,
                        old(round).account(),
                        now,
                    ) == (r@, final(round).queue())
            }),
    {
        if round.waiting.len() == 0 && !round.all_asked {
            let proposed = self.propose_reversions(&round.signal, &round.portfolio);
            assert(queue_terms(order_views(proposed@)) =~= terms_of(proposed@));
            round.waiting = proposed;
            round.all_asked = true;
        }
        let ghost queue = round.queue();
        let ghost answer = reversion_answer(
            old(self).reversion_settings(),
            old(self).hedges(),
            old(self).lots(),
            old(round).cause(),
            old(round).account(),
        );
        assert(queued(old(round), answer.1, queue));
        if round.waiting.len() == 0 {
            return Step::Done;
        }
        let order = round.waiting.remove(0);
        assert(round.queue() =~= queue.drop_first());
        assert(queue[0] == order@);
        Step::Act(self.screen_at(order, &round.portfolio, now))
    }

    /// Takes the next step of a round now.
    pub fn advance(&mut self, round: &mut Round<N>) -> (r: Step)
        requires
            old(self).wf(),
            functional::<N>(),
        ensures
            final(self).wf(),
            final(self).risk_state() == old(self).risk_state(),
            final(self).book() == old(self).book(),
            final(self).hedges() == old(self).hedges(),
            final(self).hedging_settings() == old(self).hedging_settings(),
            final(self).reversion_settings() == old(self).reversion_settings(),
            final(round).cause() == old(round).cause(),
            final(round).account() == old(round).account(),
            final(round).asked() == (old(round).asked() || old(round).queue().len() == 0),
            ({
                let answer = reversion_answer(
                    old(self).reversion_settings(),
                    old(self).hedges(),
                    old(self).lots(),
                    old(round).cause(),
                    old(round).account(),
                );
                &&& final(self).lots() == if old(round).at_turn() {
                    answer.0
                } else {
                    old(self).lots()
                }
                &&& exists|queue: Seq<OrderView>, now: Timestamp|
                    queued(old(round), answer.1, queue) && #[trigger] next_step(
                        old(self).risk_state(),
                        old(self).book(),
                        queue,
                        old(round).account(),
                        now,
                    ) == (r@, final(round).queue())
            }),
    {
        let now = utc_now();
        self.advance_at(round, now)
    }

    /// Books an order that the broker took at a given moment.
    pub fn record_at(&mut self, submitted: Order, now: Timestamp)
        requires
            old(self).wf(),
        ensures
            final(self).wf(),
            final(self).risk_state() == (RiskView {
                trades: old(self).risk_state().trades.insert(submitted@.terms.symbol, now),
                ..old(self).risk_state()
            }),
            final(self).book() == entered(old(self).book(), submitted@),
            final(self).hedges() == old(self).hedges(),
            final(self).lots() == old(self).lots(),
            final(self).hedging_settings() == old(self).hedging_settings(),
            final(self).reversion_settings() == old(self).reversion_settings(),
    {
        self.risk.record_trade_at(&submitted.symbol, now);
        self.orders.track(submitted);
    }

    /// Books an order that the broker took now.
    pub fn record(&mut self, submitted: Order)
        requires
            old(self).wf(),
        ensures
            final(self).wf(),
            exists|now: Timestamp|
                final(self).risk_state() == (RiskView {
                    trades: #[trigger] old(self).risk_state().trades.insert(
                        submitted@.terms.symbol,
                        now,
                    ),
                    ..old(self).risk_state()
                }),
            final(self).book() == entered(old(self).book(), submitted@),
            final(self).hedges() == old(self).hedges(),
            final(self).lots() == old(self).lots(),
            final(self).hedging_settings() == old(self).hedging_settings(),
            final(self).reversion_settings() == old(self).reversion_settings(),
    {
        let now = utc_now();
        self.record_at(submitted, now);
    }

    /// Whether trading is halted.
    pub fn is_halted(&self) -> (r: bool)
        ensures
            r == self.risk_state().tripped,
    {
        self.risk.is_circuit_breaker_tripped()
    }

    /// How many orders can still be filled.
    pub fn open_order_count(&self) -> (r: usize)
        ensures
            r == open_ones(self.book()).len(),
    {
        self.orders.open_order_count()
    }
}

/// A round goes through its orders one by one: each step takes the first that waits and
/// no other, and the round is over exactly when none waits.
pub proof fn law_each_order_is_screened_once<N: Number>(
    risk: RiskView<N>,
    book: Seq<OrderView>,
    queue: Seq<OrderView>,
    portfolio: PortfolioView,
    now: Timestamp,
)
    ensures
        ({
            let (step, rest) = next_step(risk, book, queue, portfolio, now);
            &&& step is Done <==> queue.len() == 0
            &&& queue.len() > 0 ==> rest == queue.drop_first()
            &&& step matches StepView::Act(screened) ==> (sent(screened) matches Some(order) ==>
                order == resized(queue[0], order.terms.quantity))
            &&& step matches StepView::Act(ScreenedView::Refuse { order, .. }) ==> order
                == queue[0]
        }),
{
}

/// While the breaker is tripped no order is sent.
pub proof fn law_nothing_is_sent_while_halted<N: Number>(
    risk: RiskView<N>,
    book: Seq<OrderView>,
    order: OrderView,
    portfolio: PortfolioView,
    now: Timestamp,
)
    requires
        risk.tripped,
    ensures
        screening(risk, book, order, portfolio, now) is Refuse,
{
}

/// An order that is sent is the one that was proposed, but for its quantity at most, and
/// where that is another, the screening tells what was asked for.
pub proof fn law_screening_changes_the_quantity_at_most<N: Number>(
    risk: RiskView<N>,
    book: Seq<OrderView>,
    order: OrderView,
    portfolio: PortfolioView,
    now: Timestamp,
)
    ensures
        match screening(risk, book, order, portfolio, now) {
            ScreenedView::Submit(out) => out == order,
            ScreenedView::Resize { order: out, asked, .. } => {
                &&& out == resized(order, out.terms.quantity)
                &&& asked == order.terms.quantity
            },
            ScreenedView::Refuse { order: left, .. } => left == order,
        },
{
}

/// Once an order in a symbol was booked, no order in that symbol is sent until the
/// least interval between trades is over.
pub proof fn law_booked_symbols_cool_down<N: Number>(
    risk: RiskView<N>,
    book: Seq<OrderView>,
    order: OrderView,
    portfolio: PortfolioView,
    booked: Timestamp,
    now: Timestamp,
)
    requires
        now.elapsed(booked) < signed_seconds(risk.config.min_trade_interval_secs),
    ensures
        screening(
            RiskView { trades: risk.trades.insert(order.terms.symbol, booked), ..risk },
            book,
            order,
            portfolio,
            now,
        ) is Refuse,
{
}

proof fn lemma_open_at_most(book: Seq<OrderView>)
    ensures
        open_ones(book).len() <= book.len(),
    decreases book.len(),
{
    if book.len() > 0 {
        lemma_open_at_most(book.drop_last());
    }
}

proof fn lemma_open_after_update(book: Seq<OrderView>, i: int, order: OrderView)
    requires
        0 <= i < book.len(),
    ensures
        open_ones(book.update(i, order)).len() <= open_ones(book).len() + 1,
    decreases book.len(),
{
    let after = book.update(i, order);
    if i == book.len() - 1 {
        assert(after.drop_last() =~= book.drop_last());
    } else {
        assert(after.drop_last() =~= book.drop_last().update(i, order));
        lemma_open_after_update(book.drop_last(), i, order);
    }
}

/// Booking an order adds one open order at most, and exactly one where its id is new
/// and it can still be filled.
pub proof fn law_booking_adds_one_open_order(book: Seq<OrderView>, order: OrderView)
    ensures
        open_ones(entered(book, order)).len() <= open_ones(book).len() + 1,
        !order_ids(book).contains(order.id) && still_open(order.terms.status) ==> open_ones(
            entered(book, order),
        ) == open_ones(book).push(order),
{
    lemma_first_place(order_ids(book), order.id);
    match first_place(order_ids(book), order.id) {
        Some(i) => {
            lemma_open_after_update(book, i, order);
        },
        None => {
            assert(book.push(order).drop_last() =~= book);
        },
    }
}

/// The limit on open orders holds: an order is sent only while fewer are open, so
/// that booking it does not bring their number over the limit.
pub proof fn law_open_orders_keep_to_their_limit<N: Number>(
    risk: RiskView<N>,
    book: Seq<OrderView>,
    order: OrderView,
    portfolio: PortfolioView,
    now: Timestamp,
    taken: OrderView,
)
    requires
        book.len() <= usize::MAX,
        sent(screening(risk, book, order, portfolio, now)) is Some,
    ensures
        open_ones(book).len() < risk.config.max_open_orders,
        open_ones(entered(book, taken)).len() <= risk.config.max_open_orders,
{
    lemma_open_at_most(book);
    law_booking_adds_one_open_order(book, taken);
}

/// The last price of a symbol is that of the last position in it that has one; a symbol
/// without such a position keeps the price that it had.
pub proof fn law_positions_set_the_prices_of_their_symbols<N: Number>(
    prices: Map<Seq<char>, N>,
    positions: Seq<PositionView>,
    i: int,
    symbol: Seq<char>,
)
    requires
        0 <= i < positions.len(),
        forall|k: int|
            i < k < positions.len() ==> (#[trigger] positions[k]).symbol != positions[i].symbol,
    ensures
        decimal_value::<N>(positions[i].current_price) matches Some(price) ==> with_all_prices(
            prices,
            positions,
        ).contains_pair(positions[i].symbol, price),
        (forall|k: int| 0 <= k < positions.len() ==> (#[trigger] positions[k]).symbol != symbol)
            ==> (with_all_prices(prices, positions).contains_key(symbol) == prices.contains_key(
            symbol,
        ) && with_all_prices(prices, positions)[symbol] == prices[symbol]),
{
    lemma_last_price_counts(prices, positions, i);
    lemma_other_prices_stay(prices, positions, symbol);
}

proof fn lemma_last_price_counts<N: Number>(
    prices: Map<Seq<char>, N>,
    positions: Seq<PositionView>,
    i: int,
)
    requires
        0 <= i < positions.len(),
        forall|k: int|
            i < k < positions.len() ==> (#[trigger] positions[k]).symbol != positions[i].symbol,
    ensures
        decimal_value::<N>(positions[i].current_price) matches Some(price) ==> with_all_prices(
            prices,
            positions,
        ).contains_pair(positions[i].symbol, price),
    decreases positions.len(),
{
    if i < positions.len() - 1 {
        let front = positions.drop_last();
        assert forall|k: int| i < k < front.len() implies (#[trigger] front[k]).symbol
            != front[i].symbol by {
            assert(front[k] == positions[k]);
        }
        lemma_last_price_counts(prices, front, i);
        assert(positions[positions.len() - 1].symbol != positions[i].symbol);
    }
}

proof fn lemma_other_prices_stay<N: Number>(
    prices: Map<Seq<char>, N>,
    positions: Seq<PositionView>,
    symbol: Seq<char>,
)
    ensures
        (forall|k: int| 0 <= k < positions.len() ==> (#[trigger] positions[k]).symbol != symbol)
            ==> (with_all_prices(prices, positions).contains_key(symbol) == prices.contains_key(
            symbol,
        ) && with_all_prices(prices, positions)[symbol] == prices[symbol]),
    decreases positions.len(),
{
    if positions.len() > 0 && (forall|k: int|
        0 <= k < positions.len() ==> (#[trigger] positions[k]).symbol != symbol) {
        let front = positions.drop_last();
        assert forall|k: int| 0 <= k < front.len() implies (#[trigger] front[k]).symbol
            != symbol by {
            assert(front[k] == positions[k]);
        }
        lemma_other_prices_stay(prices, front, symbol);
        assert(positions[positions.len() - 1].symbol != symbol);
    }
}

/// A tick with a positive price sets the last price of its symbol and nothing else; one
/// without leaves all as it is.
pub proof fn law_ticks_set_the_price_of_their_symbol<N: Number>(
    state: RiskView<N>,
    tick: TickView,
    symbol: Seq<char>,
)
    ensures
        ({
            let next = after_tick(state, tick);
            &&& decimal_value::<N>(tick.price) matches Some(price) ==> {
                &&& less(zero::<N>(), price) ==> next.prices.contains_pair(tick.symbol, price)
                &&& !less(zero::<N>(), price) ==> next == state
            }
            &&& decimal_value::<N>(tick.price) is None ==> next == state
            &&& symbol != tick.symbol ==> next.prices.contains_key(symbol)
                == state.prices.contains_key(symbol) && next.prices[symbol]
                == state.prices[symbol]
            &&& (RiskView { prices: state.prices, ..next }) == state
        }),
{
}

/// A strategy that is switched off proposes nothing and keeps what it holds. While hedges
/// are open, the reversion strategy buys nothing.
pub proof fn law_strategies_are_held_back<N: Number>(
    hedging: CryptoVolLeadsEquityConfig<N>,
    reversion: MeanReversionConfig<N>,
    hedges: Seq<HoldingView<N>>,
    lots: Seq<HoldingView<N>>,
    signal: SignalView<N>,
    portfolio: PortfolioView,
)
    ensures
        !hedging.enabled ==> ({
            let (after, orders) = hedging_answer(hedging, hedges, signal, portfolio);
            after == hedges && orders.len() == 0
        }),
        !reversion.enabled ==> ({
            let (after, orders) = reversion_answer(reversion, hedges, lots, signal, portfolio);
            after == lots && orders.len() == 0
        }),
        hedges.len() > 0 ==> forall|lot: HoldingView<N>|
            reversion_answer(reversion, hedges, lots, signal, portfolio).0.contains(lot)
                ==> lots.contains(lot),
{
    let (after, _) = reversion_answer(reversion, hedges, lots, signal, portfolio);
    if hedges.len() > 0 && reversion.enabled {
        assert forall|lot: HoldingView<N>| after.contains(lot) implies lots.contains(lot) by {
            if !lots.contains(lot) {
                mean_reversion::law_new_positions_are_bought(
                    reversion,
                    true,
                    lots,
                    signal,
                    portfolio,
                    lot,
                );
            }
        }
    }
}

/// Orders are screened one after the other as they wait, each under its own id, and none is
/// left out.
pub proof fn law_orders_are_taken_in_turn<N: Number>(
    risk: RiskView<N>,
    book: Seq<OrderView>,
    queue: Seq<OrderView>,
    portfolio: PortfolioView,
    now: Timestamp,
)
    ensures
        ({
            let (step, rest) = next_step(risk, book, queue, portfolio, now);
            &&& queue.len() == 0 ==> step == StepView::Done
            &&& queue.len() > 0 ==> step is Act && seq![queue[0]] + rest == queue
            &&& step matches StepView::Act(screened) ==> match screened {
                ScreenedView::Submit(order) => order == queue[0],
                ScreenedView::Resize { order, asked, .. } => order.id == queue[0].id
                    && order.terms.symbol == queue[0].terms.symbol && order.terms.side
                    == queue[0].terms.side && asked == queue[0].terms.quantity,
                ScreenedView::Refuse { order, .. } => order == queue[0],
            }
        }),
{
    if queue.len() > 0 {
        assert(seq![queue[0]] + queue.drop_first() =~= queue);
    }
}

/// Each strategy answers the signals that are meant for it: divergences of volatility the
/// hedging strategy, strength that is too low or too high the reversion strategy. Another
/// signal makes neither of them take anything new.
pub proof fn law_signals_reach_their_strategy<N: Number>(
    hedging: CryptoVolLeadsEquityConfig<N>,
    reversion: MeanReversionConfig<N>,
    hedges: Seq<HoldingView<N>>,
    lots: Seq<HoldingView<N>>,
    signal: SignalView<N>,
    portfolio: PortfolioView,
)
    ensures
        signal.name != "crypto_vol_leads_equity"@ ==> hedging_answer(
            hedging,
            hedges,
            signal,
            portfolio,
        ) == (hedges, Seq::<Terms>::empty()),
        signal.name != "rsi_oversold"@ ==> forall|lot: HoldingView<N>|
            reversion_answer(reversion, hedges, lots, signal, portfolio).0.contains(lot)
                ==> lots.contains(lot),
{
    if hedging.enabled && signal.name != crypto_vol_equity::NAME@ {
        crypto_vol_equity::law_other_signals_leave_hedges_alone(
            hedging,
            hedges,
            signal,
            portfolio,
        );
    }
    let (after, _) = reversion_answer(reversion, hedges, lots, signal, portfolio);
    if reversion.enabled && signal.name != "rsi_oversold"@ {
        assert forall|lot: HoldingView<N>| after.contains(lot) implies lots.contains(lot) by {
            if !lots.contains(lot) {
                mean_reversion::law_new_positions_are_bought(
                    reversion,
                    hedges.len() > 0,
                    lots,
                    signal,
                    portfolio,
                    lot,
                );
            }
        }
    }
}

/// Where the reversion strategy had to be asked, what waits then are its proposals, one
/// order for each, in their order; else nothing new waits.
pub proof fn law_proposals_wait_in_order<N>(
    round: &Round<N>,
    proposed: Seq<Terms>,
    queue: Seq<OrderView>,
    i: int,
)
    requires
        queued(round, proposed, queue),
        0 <= i < queue.len(),
    ensures
        round.at_turn() ==> queue.len() == proposed.len() && queue[i].terms == proposed[i],
        !round.at_turn() ==> queue == round.queue(),
{
    if round.at_turn() {
        assert(queue_terms(queue).len() == proposed.len());
        assert(queue_terms(queue)[i] == queue[i].terms);
    }
}

/// What leaves all but the risk state alone leaves the book, what the strategies hold and
/// how they are set as they were.
pub proof fn law_only_the_risk_state_changes<N: Number + Send + Sync>(
    before: TradingEngine<N>,
    after: TradingEngine<N>,
)
    requires
        after.same_but_risk(&before),
    ensures
        after.book() == before.book(),
        after.hedges() == before.hedges(),
        after.lots() == before.lots(),
        after.hedging_settings() == before.hedging_settings(),
        after.reversion_settings() == before.reversion_settings(),
{
}

/// The reversion strategy is asked once in a round, and only when no order waits any more:
/// while one waits, or once it was asked, what waits stays.
pub proof fn law_reversions_come_after_hedges<N>(
    round: &Round<N>,
    proposed: Seq<Terms>,
    queue: Seq<OrderView>,
)
    requires
        queued(round, proposed, queue),
    ensures
        round.queue().len() > 0 ==> queue == round.queue(),
        round.asked() ==> queue == round.queue(),
        round.queue().len() == 0 && !round.asked() ==> queue.len() == proposed.len(),
{
    if round.at_turn() {
        assert(queue_terms(queue).len() == proposed.len());
    }
}

} // verus!
