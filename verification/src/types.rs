//! Market data, signals, orders and portfolios.
use crate::text::{copy_text, views};
use crate::time::Timestamp;
use rust_decimal::Decimal;
use vstd::prelude::*;

verus! {

/// A tradable symbol, such as `SPY` or `BTC/USD`.
#[derive(Debug)]
pub struct Symbol(pub String);

impl View for Symbol {
    type V = Seq<char>;

    open spec fn view(&self) -> Seq<char> {
        self.0@
    }
}

impl Symbol {
    /// The symbol with the given name.
    pub fn new(name: &str) -> (r: Symbol)
        ensures
            r@ == name@,
    {
        Symbol(copy_text(name))
    }

    /// The name of the symbol.
    pub fn as_str(&self) -> (r: &str)
        ensures
            r@ == self@,
    {
        self.0.as_str()
    }

    /// Another value for the same symbol.
    pub fn copy(&self) -> (r: Symbol)
        ensures
            r@ == self@,
    {
        Symbol::new(self.as_str())
    }
}

/// The names of a list of symbols.
pub open spec fn symbol_names(symbols: Seq<Symbol>) -> Seq<Seq<char>> {
    symbols.map_values(|s: Symbol| s@)
}

/// The symbols of the given names, in order.
pub fn symbols_of(names: &Vec<String>) -> (r: Vec<Symbol>)
    ensures
        symbol_names(r@) == views(names@),
{
    let mut symbols: Vec<Symbol> = Vec::new();
    let mut i: usize = 0;
    while i < names.len()
        invariant
            i <= names@.len(),
            symbols@.len() == i,
            forall|j: int| 0 <= j < i ==> (#[trigger] symbols@[j])@ == names@[j]@,
        decreases names@.len() - i,
    {
        symbols.push(Symbol::new(names[i].as_str()));
        i = i + 1;
    }
    assert(symbol_names(symbols@) =~= views(names@));
    symbols
}

/// What kind of asset a symbol stands for.
#[derive(Clone, Copy, Debug, PartialEq, Eq, Structural)]
pub enum AssetClass {
    Equity,
    Crypto,
}

/// Where a tick comes from.
#[derive(Clone, Copy, Debug, PartialEq, Eq, Structural)]
pub enum Exchange {
    Alpaca,
    Binance,
}

#[derive(Clone, Copy, Debug, PartialEq, Eq, Structural)]
pub enum OrderSide {
    Buy,
    Sell,
}

#[derive(Clone, Copy, Debug, PartialEq, Eq, Structural)]
pub enum OrderType {
    Market,
    Limit,
    Stop,
    StopLimit,
}

#[derive(Clone, Copy, Debug, PartialEq, Eq, Structural)]
pub enum TimeInForce {
    Day,
    Gtc,
    Ioc,
    Fok,
}

#[derive(Clone, Copy, Debug, PartialEq, Eq, Structural)]
pub enum OrderStatus {
    Pending,
    Submitted,
    PartiallyFilled,
    Filled,
    Cancelled,
    Rejected,
    Expired,
}

#[derive(Clone, Copy, Debug, PartialEq, Eq, Structural)]
pub enum PositionSide {
    Long,
    Short,
}

/// A trade or quote of one symbol.
#[derive(Debug)]
pub struct Tick {
    pub symbol: Symbol,
    pub asset_class: AssetClass,
    pub exchange: Exchange,
    pub price: Decimal,
    pub bid: Option<Decimal>,
    pub ask: Option<Decimal>,
    pub volume: Option<Decimal>,
    pub timestamp: Timestamp,
    pub received_at: Timestamp,
}

/// A tick with its symbol as a sequence of characters.
pub struct TickView {
    pub symbol: Seq<char>,
    pub asset_class: AssetClass,
    pub exchange: Exchange,
    pub price: Decimal,
    pub bid: Option<Decimal>,
    pub ask: Option<Decimal>,
    pub volume: Option<Decimal>,
    pub timestamp: Timestamp,
    pub received_at: Timestamp,
}

impl View for Tick {
    type V = TickView;

    open spec fn view(&self) -> TickView {
        TickView {
            symbol: self.symbol@,
            asset_class: self.asset_class,
            exchange: self.exchange,
            price: self.price,
            bid: self.bid,
            ask: self.ask,
            volume: self.volume,
            timestamp: self.timestamp,
            received_at: self.received_at,
        }
    }
}

/// Open, high, low and close of one symbol over a span of time.
#[derive(Debug)]
pub struct Bar {
    pub symbol: Symbol,
    pub open: Decimal,
    pub high: Decimal,
    pub low: Decimal,
    pub close: Decimal,
    pub volume: Decimal,
    pub bar_start: Timestamp,
    pub bar_end: Timestamp,
}

/// A detail that a signal carries along.
#[derive(Debug)]
pub enum Detail<N> {
    Number(N),
    Maybe(Option<N>),
    Count(usize),
    Numbers(Vec<N>),
    Text(String),
}

/// A detail as a mathematical value.
pub enum DetailView<N> {
    Number(N),
    Maybe(Option<N>),
    Count(usize),
    Numbers(Seq<N>),
    Text(Seq<char>),
}

impl<N> View for Detail<N> {
    type V = DetailView<N>;

    open spec fn view(&self) -> DetailView<N> {
        match self {
            Detail::Number(n) => DetailView::Number(*n),
            Detail::Maybe(n) => DetailView::Maybe(*n),
            Detail::Count(n) => DetailView::Count(*n),
            Detail::Numbers(v) => DetailView::Numbers(v@),
            Detail::Text(s) => DetailView::Text(s@),
        }
    }
}

/// A named detail of a signal.
#[derive(Debug)]
pub struct Entry<N> {
    pub key: String,
    pub detail: Detail<N>,
}

impl<N> View for Entry<N> {
    type V = (Seq<char>, DetailView<N>);

    open spec fn view(&self) -> (Seq<char>, DetailView<N>) {
        (self.key@, self.detail@)
    }
}

/// A named detail.
pub fn entry<N>(key: &str, detail: Detail<N>) -> (r: Entry<N>)
    ensures
        r@ == (key@, detail@),
{
    Entry { key: copy_text(key), detail }
}

/// Something that the engine noticed in the market or in the news.
#[derive(Debug)]
pub struct SignalValue<N> {
    pub name: String,
    pub value: N,
    pub direction: N,
    pub confidence: N,
    pub symbols: Vec<Symbol>,
    pub timestamp: Timestamp,
    pub metadata: Vec<Entry<N>>,
}

/// A signal as a mathematical value.
#[verifier::ext_equal]
pub struct SignalView<N> {
    pub name: Seq<char>,
    pub value: N,
    pub direction: N,
    pub confidence: N,
    pub symbols: Seq<Seq<char>>,
    pub timestamp: Timestamp,
    pub metadata: Seq<(Seq<char>, DetailView<N>)>,
}

impl<N> View for SignalValue<N> {
    type V = SignalView<N>;

    open spec fn view(&self) -> SignalView<N> {
        SignalView {
            name: self.name@,
            value: self.value,
            direction: self.direction,
            confidence: self.confidence,
            symbols: symbol_names(self.symbols@),
            timestamp: self.timestamp,
            metadata: self.metadata@.map_values(|e: Entry<N>| e@),
        }
    }
}

/// The views of a list of signals.
pub open spec fn signal_views<N>(signals: Seq<SignalValue<N>>) -> Seq<SignalView<N>> {
    signals.map_values(|s: SignalValue<N>| s@)
}

/// The view of a signal that may be there.
pub open spec fn maybe_signal<N>(signal: Option<SignalValue<N>>) -> Option<SignalView<N>> {
    match signal {
        Some(s) => Some(s@),
        None => None,
    }
}

/// An order to buy or sell.
#[derive(Debug)]
pub struct Order {
    pub id: String,
    pub symbol: Symbol,
    pub side: OrderSide,
    pub order_type: OrderType,
    pub quantity: Decimal,
    pub limit_price: Option<Decimal>,
    pub stop_price: Option<Decimal>,
    pub time_in_force: TimeInForce,
    pub status: OrderStatus,
    pub filled_qty: Decimal,
    pub filled_avg_price: Option<Decimal>,
    pub strategy_id: String,
    pub created_at: Timestamp,
    pub updated_at: Timestamp,
}

/// All of an order but its id.
pub struct Terms {
    pub symbol: Seq<char>,
    pub side: OrderSide,
    pub order_type: OrderType,
    pub quantity: Decimal,
    pub limit_price: Option<Decimal>,
    pub stop_price: Option<Decimal>,
    pub time_in_force: TimeInForce,
    pub status: OrderStatus,
    pub filled_qty: Decimal,
    pub filled_avg_price: Option<Decimal>,
    pub strategy_id: Seq<char>,
    pub created_at: Timestamp,
    pub updated_at: Timestamp,
}

/// An order as a mathematical value.
pub struct OrderView {
    pub id: Seq<char>,
    pub terms: Terms,
}

impl View for Order {
    type V = OrderView;

    open spec fn view(&self) -> OrderView {
        OrderView {
            id: self.id@,
            terms: Terms {
                symbol: self.symbol@,
                side: self.side,
                order_type: self.order_type,
                quantity: self.quantity,
                limit_price: self.limit_price,
                stop_price: self.stop_price,
                time_in_force: self.time_in_force,
                status: self.status,
                filled_qty: self.filled_qty,
                filled_avg_price: self.filled_avg_price,
                strategy_id: self.strategy_id@,
                created_at: self.created_at,
                updated_at: self.updated_at,
            },
        }
    }
}

impl Order {
    /// Another value for the same order.
    pub fn copy(&self) -> (r: Order)
        ensures
            r@ == self@,
    {
        Order {
            id: copy_text(self.id.as_str()),
            symbol: self.symbol.copy(),
            side: self.side,
            order_type: self.order_type,
            quantity: self.quantity,
            limit_price: self.limit_price,
            stop_price: self.stop_price,
            time_in_force: self.time_in_force,
            status: self.status,
            filled_qty: self.filled_qty,
            filled_avg_price: self.filled_avg_price,
            strategy_id: copy_text(self.strategy_id.as_str()),
            created_at: self.created_at,
            updated_at: self.updated_at,
        }
    }
}

/// The terms of a list of orders.
pub open spec fn terms_of(orders: Seq<Order>) -> Seq<Terms> {
    orders.map_values(|o: Order| o@.terms)
}

/// A holding in one symbol.
#[derive(Debug)]
pub struct Position {
    pub symbol: Symbol,
    pub quantity: Decimal,
    pub avg_entry_price: Decimal,
    pub current_price: Decimal,
    pub market_value: Decimal,
    pub unrealized_pnl: Decimal,
    pub realized_pnl: Decimal,
    pub side: PositionSide,
}

/// A position with its symbol as a sequence of characters.
pub struct PositionView {
    pub symbol: Seq<char>,
    pub quantity: Decimal,
    pub avg_entry_price: Decimal,
    pub current_price: Decimal,
    pub market_value: Decimal,
    pub unrealized_pnl: Decimal,
    pub realized_pnl: Decimal,
    pub side: PositionSide,
}

impl View for Position {
    type V = PositionView;

    open spec fn view(&self) -> PositionView {
        PositionView {
            symbol: self.symbol@,
            quantity: self.quantity,
            avg_entry_price: self.avg_entry_price,
            current_price: self.current_price,
            market_value: self.market_value,
            unrealized_pnl: self.unrealized_pnl,
            realized_pnl: self.realized_pnl,
            side: self.side,
        }
    }
}

/// The account at a moment.
#[derive(Debug)]
pub struct PortfolioState {
    pub equity: Decimal,
    pub cash: Decimal,
    pub buying_power: Decimal,
    pub positions: Vec<Position>,
    pub timestamp: Timestamp,
}

/// A portfolio as a mathematical value.
pub struct PortfolioView {
    pub equity: Decimal,
    pub cash: Decimal,
    pub buying_power: Decimal,
    pub positions: Seq<PositionView>,
    pub timestamp: Timestamp,
}

impl View for PortfolioState {
    type V = PortfolioView;

    open spec fn view(&self) -> PortfolioView {
        PortfolioView {
            equity: self.equity,
            cash: self.cash,
            buying_power: self.buying_power,
            positions: self.positions@.map_values(|p: Position| p@),
            timestamp: self.timestamp,
        }
    }
}

/// A piece of news.
#[derive(Debug)]
pub struct NewsArticle<N> {
    pub id: String,
    pub title: String,
    pub summary: Option<String>,
    pub source: String,
    pub url: Option<String>,
    pub symbols: Vec<Symbol>,
    pub sentiment_score: Option<N>,
    pub published_at: Timestamp,
    pub received_at: Timestamp,
}

/// The view of a text that may be there.
pub open spec fn maybe_text(text: Option<String>) -> Option<Seq<char>> {
    match text {
        Some(s) => Some(s@),
        None => None,
    }
}

/// A piece of news as a mathematical value.
#[verifier::ext_equal]
pub struct NewsView<N> {
    pub id: Seq<char>,
    pub title: Seq<char>,
    pub summary: Option<Seq<char>>,
    pub source: Seq<char>,
    pub url: Option<Seq<char>>,
    pub symbols: Seq<Seq<char>>,
    pub sentiment_score: Option<N>,
    pub published_at: Timestamp,
    pub received_at: Timestamp,
}

impl<N> View for NewsArticle<N> {
    type V = NewsView<N>;

    open spec fn view(&self) -> NewsView<N> {
        NewsView {
            id: self.id@,
            title: self.title@,
            summary: maybe_text(self.summary),
            source: self.source@,
            url: maybe_text(self.url),
            symbols: symbol_names(self.symbols@),
            sentiment_score: self.sentiment_score,
            published_at: self.published_at,
            received_at: self.received_at,
        }
    }
}

} // verus!
