//! Everything that flows through the engine.
use crate::time::Timestamp;
use crate::types::{Bar, NewsArticle, Order, PortfolioState, SignalValue, Tick};
use vstd::prelude::*;

pub mod subjects;

verus! {

/// Every piece of data flowing through the system is an event.
#[derive(Debug)]
pub enum Event<N> {
    Tick(Tick),
    Bar(Bar),
    Signal(SignalValue<N>),
    OrderRequest(Order),
    OrderUpdate(Order),
    PortfolioUpdate(PortfolioState),
    News(NewsArticle<N>),
    MacroData(MacroDataPoint<N>),
    SystemCommand(SystemCommand),
}

/// A reading of an economic indicator.
#[derive(Debug)]
pub struct MacroDataPoint<N> {
    pub indicator: String,
    pub value: N,
    pub previous: Option<N>,
    pub source: String,
    pub timestamp: Timestamp,
}

/// An instruction to the engine.
#[derive(Clone, Copy, Debug, PartialEq, Eq, Structural)]
pub enum SystemCommand {
    Shutdown { timestamp: Timestamp },
    ReloadConfig { timestamp: Timestamp },
    PauseTrading { timestamp: Timestamp },
    ResumeTrading { timestamp: Timestamp },
}

impl SystemCommand {
    /// When the command was given.
    pub open spec fn moment(self) -> Timestamp {
        match self {
            SystemCommand::Shutdown { timestamp } => timestamp,
            SystemCommand::ReloadConfig { timestamp } => timestamp,
            SystemCommand::PauseTrading { timestamp } => timestamp,
            SystemCommand::ResumeTrading { timestamp } => timestamp,
        }
    }

    /// When the command was given.
    pub fn timestamp(&self) -> (r: Timestamp)
        ensures
            r == self.moment(),
    {
        match *self {
            SystemCommand::Shutdown { timestamp } => timestamp,
            SystemCommand::ReloadConfig { timestamp } => timestamp,
            SystemCommand::PauseTrading { timestamp } => timestamp,
            SystemCommand::ResumeTrading { timestamp } => timestamp,
        }
    }
}

impl<N> Event<N> {
    /// The moment that an event belongs to: of a tick, signal, portfolio, macro
    /// reading or command its timestamp, of a bar its end, of an order its last
    /// update, of an article its publication.
    pub open spec fn moment(self) -> Timestamp {
        match self {
            Event::Tick(t) => t.timestamp,
            Event::Bar(b) => b.bar_end,
            Event::Signal(s) => s.timestamp,
            Event::OrderRequest(o) => o.updated_at,
            Event::OrderUpdate(o) => o.updated_at,
            Event::PortfolioUpdate(p) => p.timestamp,
            Event::News(n) => n.published_at,
            Event::MacroData(m) => m.timestamp,
            Event::SystemCommand(c) => c.moment(),
        }
    }

    /// The subject that an event is published under.
    pub open spec fn subject(self) -> Seq<char> {
        match self {
            Event::Tick(_) => subjects::TICK@,
            Event::Bar(_) => subjects::BAR@,
            Event::Signal(_) => subjects::SIGNAL@,
            Event::OrderRequest(_) => subjects::ORDER_REQUEST@,
            Event::OrderUpdate(_) => subjects::ORDER_UPDATE@,
            Event::PortfolioUpdate(_) => subjects::PORTFOLIO_UPDATE@,
            Event::News(_) => subjects::NEWS@,
            Event::MacroData(_) => subjects::MACRO_DATA@,
            Event::SystemCommand(_) => subjects::SYSTEM_COMMAND@,
        }
    }

    /// The moment that an event belongs to.
    pub fn timestamp(&self) -> (r: Timestamp)
        ensures
            r == self.moment(),
    {
        match self {
            Event::Tick(t) => t.timestamp,
            Event::Bar(b) => b.bar_end,
            Event::Signal(s) => s.timestamp,
            Event::OrderRequest(o) => o.updated_at,
            Event::OrderUpdate(o) => o.updated_at,
            Event::PortfolioUpdate(p) => p.timestamp,
            Event::News(n) => n.published_at,
            Event::MacroData(m) => m.timestamp,
            Event::SystemCommand(c) => c.timestamp(),
        }
    }

    /// The subject that an event is published under.
    pub fn nats_subject(&self) -> (r: &'static str)
        ensures
            r@ == self.subject(),
    {
        match self {
            Event::Tick(_) => subjects::TICK,
            Event::Bar(_) => subjects::BAR,
            Event::Signal(_) => subjects::SIGNAL,
            Event::OrderRequest(_) => subjects::ORDER_REQUEST,
            Event::OrderUpdate(_) => subjects::ORDER_UPDATE,
            Event::PortfolioUpdate(_) => subjects::PORTFOLIO_UPDATE,
            Event::News(_) => subjects::NEWS,
            Event::MacroData(_) => subjects::MACRO_DATA,
            Event::SystemCommand(_) => subjects::SYSTEM_COMMAND,
        }
    }
}

/// Market data and nothing else is published under a subject that starts with
/// `market.`, which is what a subscription to all market data relies on.
pub proof fn law_market_subjects<N>(event: Event<N>)
    ensures
        "market."@.is_prefix_of(event.subject()) <==> event is Tick || event is Bar,
{
    reveal_strlit("market.");
    reveal_strlit("market.tick");
    reveal_strlit("market.bar");
    reveal_strlit("signal");
    reveal_strlit("order.request");
    reveal_strlit("order.update");
    reveal_strlit("portfolio.update");
    reveal_strlit("data.news");
    reveal_strlit("data.macro");
    reveal_strlit("system.command");
    let s = event.subject();
    if event is Tick || event is Bar {
        assert(s.subrange(0, 7) =~= "market."@);
    } else {
        assert(s[0] != "market."@[0]);
        assert(s.len() >= 7 ==> s.subrange(0, 7)[0] == s[0]);
    }
}

/// Each kind of event is published under a subject of its own, so the subject tells the kind.
pub proof fn law_subjects_tell_the_kind<N>(a: Event<N>, b: Event<N>)
    ensures
        a is Tick ==> a.subject() == "market.tick"@,
        a is Bar ==> a.subject() == "market.bar"@,
        a is Signal ==> a.subject() == "signal"@,
        a is OrderRequest ==> a.subject() == "order.request"@,
        a is OrderUpdate ==> a.subject() == "order.update"@,
        a is PortfolioUpdate ==> a.subject() == "portfolio.update"@,
        a is News ==> a.subject() == "data.news"@,
        a is MacroData ==> a.subject() == "data.macro"@,
        a is SystemCommand ==> a.subject() == "system.command"@,
        a.subject() == b.subject() ==> {
            &&& a is Tick == b is Tick && a is Bar == b is Bar && a is Signal == b is Signal
            &&& a is OrderRequest == b is OrderRequest && a is OrderUpdate == b is OrderUpdate
            &&& a is PortfolioUpdate == b is PortfolioUpdate && a is News == b is News
            &&& a is MacroData == b is MacroData && a is SystemCommand == b is SystemCommand
        },
{
    reveal_strlit("market.tick");
    reveal_strlit("market.bar");
    reveal_strlit("signal");
    reveal_strlit("order.request");
    reveal_strlit("order.update");
    reveal_strlit("portfolio.update");
    reveal_strlit("data.news");
    reveal_strlit("data.macro");
    reveal_strlit("system.command");
    assert("market.tick"@.len() == 11 && "market.bar"@.len() == 10 && "signal"@.len() == 6);
    assert("order.request"@.len() == 13 && "order.update"@.len() == 12);
    assert("portfolio.update"@.len() == 16 && "data.news"@.len() == 9);
    assert("data.macro"@.len() == 10 && "system.command"@.len() == 14);
    assert("data.macro"@[0] == 'd' && "market.bar"@[0] == 'm');
}

/// An order belongs to the moment of its last update and a bar to its end, not to the moment
/// that they were made or began at; an article belongs to its publication.
pub proof fn law_events_belong_to_what_they_last_tell<N>(event: Event<N>)
    ensures
        event matches Event::Tick(t) ==> event.moment() == t.timestamp,
        event matches Event::Bar(b) ==> event.moment() == b.bar_end,
        event matches Event::Signal(s) ==> event.moment() == s.timestamp,
        event matches Event::OrderRequest(o) ==> event.moment() == o.updated_at,
        event matches Event::OrderUpdate(o) ==> event.moment() == o.updated_at,
        event matches Event::PortfolioUpdate(p) ==> event.moment() == p.timestamp,
        event matches Event::News(n) ==> event.moment() == n.published_at,
        event matches Event::MacroData(m) ==> event.moment() == m.timestamp,
{
}

} // verus!
