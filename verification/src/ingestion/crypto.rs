//! The crypto stream: what is said to open it, what its messages mean, and how long
//! to wait before it is opened again.
use crate::config::{AlpacaConfig, CryptoConfig};
use crate::decimal::{decimal_or_zero, parse_or_zero};
use crate::number::fixed::{lemma_whole_scaled, Fixed, UNIT};
use crate::number::{functional, lit, quotient, shown, sum, Number};
use crate::text::{
    contains, copy_text, law_texts_are_found_wherever_they_stand, occurs, occurs_at, same_text,
    views,
};
use crate::time::{instant_of, parse_timestamp, utc_now, Timestamp};
use crate::types::{maybe_text, AssetClass, Exchange, Symbol, Tick, TickView};
use rust_decimal::Decimal;
use vstd::prelude::*;

verus! {

/// The message that identifies the account.
#[derive(Debug)]
pub struct AuthMessage {
    pub action: String,
    pub key: String,
    pub secret: String,
}

/// The message that asks for data.
#[derive(Debug)]
pub struct SubscribeMessage {
    pub action: String,
    pub trades: Vec<String>,
    pub quotes: Vec<String>,
    pub bars: Vec<String>,
}

/// A message of the stream, as far as it is used.
#[derive(Debug)]
pub struct AlpacaCryptoMsg<N> {
    pub msg_type: String,
    pub symbol: Option<String>,
    pub price: Option<N>,
    pub size: Option<N>,
    pub timestamp: Option<String>,
    pub bid_price: Option<N>,
    pub ask_price: Option<N>,
}

fn copy_texts(texts: &Vec<String>) -> (r: Vec<String>)
    ensures
        views(r@) == views(texts@),
{
    let mut copies: Vec<String> = Vec::new();
    let mut i: usize = 0;
    while i < texts.len()
        invariant
            i <= texts@.len(),
            copies@.len() == i,
            forall|j: int| 0 <= j < i ==> (#[trigger] copies@[j])@ == texts@[j]@,
        decreases texts@.len() - i,
    {
        copies.push(copy_text(texts[i].as_str()));
        i = i + 1;
    }
    assert(views(copies@) =~= views(texts@));
    copies
}

/// What the stream says where too many connections are open.
pub const CONNECTION_LIMIT: &'static str = "connection limit";

/// Why the stream did not open, by its answer to the account; `None` where it did.
pub open spec fn refusal_meant(reply: Seq<char>) -> Option<Seq<char>> {
    if !occurs(reply, "\"error\""@) {
        None
    } else if occurs(reply, CONNECTION_LIMIT@) {
        Some("Crypto connection limit exceeded — stale session may exist"@)
    } else {
        Some("Crypto auth failed: "@ + reply)
    }
}

/// Why the stream did not open, by its answer to the account; `None` where it did.
pub fn refusal(reply: &str) -> (r: Option<String>)
    ensures
        match r {
            Some(reason) => refusal_meant(reply@) == Some(reason@),
            None => refusal_meant(reply@) == None::<Seq<char>>,
        },
{
    if !contains(reply, "\"error\"") {
        return None;
    }
    if contains(reply, CONNECTION_LIMIT) {
        return Some(copy_text("Crypto connection limit exceeded — stale session may exist"));
    }
    let mut reason = copy_text("Crypto auth failed: ");
    reason.append(reply);
    Some(reason)
}

/// The amount that a number writes out as.
pub open spec fn amount_shown<N: Number>(a: N) -> Decimal {
    decimal_or_zero(shown(a))
}

fn amount<N: Number>(a: N) -> (r: Decimal)
    requires
        functional::<N>(),
    ensures
        r == amount_shown(a),
{
    parse_or_zero(a.text().as_str())
}

/// The time that a message gives, or `now` where it gives none that can be read.
pub open spec fn stamp(text: Option<String>, now: Timestamp) -> Timestamp {
    match text {
        Some(t) => match instant_of(t@) {
            Some(at) => at,
            None => now,
        },
        None => now,
    }
}

/// The price midway between bid and ask.
pub open spec fn midway<N: Number>(bid: N, ask: N) -> N {
    quotient(sum(bid, ask), lit::<N>(2, 1))
}

/// The tick that a message of the stream stands for. A trade needs a symbol and a
/// price, a quote a symbol, a bid and an ask; no other message stands for one.
pub open spec fn tick_meant<N: Number>(msg: AlpacaCryptoMsg<N>, now: Timestamp) -> Option<
    TickView,
> {
    if msg.msg_type@ == "t"@ {
        match (msg.symbol, msg.price) {
            (Some(symbol), Some(price)) => Some(
                TickView {
                    symbol: symbol@,
                    asset_class: AssetClass::Crypto,
                    exchange: Exchange::Alpaca,
                    price: amount_shown(price),
                    bid: None,
                    ask: None,
                    volume: match msg.size {
                        Some(size) => Some(amount_shown(size)),
                        None => None,
                    },
                    timestamp: stamp(msg.timestamp, now),
                    received_at: now,
                },
            ),
            _ => None,
        }
    } else if msg.msg_type@ == "q"@ {
        match (msg.symbol, msg.bid_price, msg.ask_price) {
            (Some(symbol), Some(bid), Some(ask)) => Some(
                TickView {
                    symbol: symbol@,
                    asset_class: AssetClass::Crypto,
                    exchange: Exchange::Alpaca,
                    price: amount_shown(midway(bid, ask)),
                    bid: Some(amount_shown(bid)),
                    ask: Some(amount_shown(ask)),
                    volume: None,
                    timestamp: stamp(msg.timestamp, now),
                    received_at: now,
                },
            ),
            _ => None,
        }
    } else {
        None
    }
}

fn time_of(text: &Option<String>, now: Timestamp) -> (r: Timestamp)
    ensures
        r == stamp(*text, now),
{
    match text {
        Some(t) => match parse_timestamp(t.as_str()) {
            Some(at) => at,
            None => now,
        },
        None => now,
    }
}

/// The tick that a message stands for, if it came in at a given time.
pub fn tick_at<N: Number>(msg: &AlpacaCryptoMsg<N>, now: Timestamp) -> (r: Option<Tick>)
    requires
        functional::<N>(),
    ensures
        match r {
            Some(tick) => tick_meant(*msg, now) == Some(tick@),
            None => tick_meant(*msg, now) == None::<TickView>,
        },
{
    proof {
        reveal_strlit("t");
        reveal_strlit("q");
        assert("t"@[0] != "q"@[0]);
    }
    if same_text(msg.msg_type.as_str(), "t") {
        if let Some(symbol) = &msg.symbol {
            if let Some(price) = msg.price {
                let volume = match msg.size {
                    Some(size) => Some(amount(size)),
                    None => None,
                };
                return Some(
                    Tick {
                        symbol: Symbol::new(symbol.as_str()),
                        asset_class: AssetClass::Crypto,
                        exchange: Exchange::Alpaca,
                        price: amount(price),
                        bid: None,
                        ask: None,
                        volume,
                        timestamp: time_of(&msg.timestamp, now),
                        received_at: now,
                    },
                );
            }
        }
    } else if same_text(msg.msg_type.as_str(), "q") {
        if let Some(symbol) = &msg.symbol {
            if let Some(bid) = msg.bid_price {
                if let Some(ask) = msg.ask_price {
                    let mid = bid.plus(ask).over(N::ratio(2, 1));
                    return Some(
                        Tick {
                            symbol: Symbol::new(symbol.as_str()),
                            asset_class: AssetClass::Crypto,
                            exchange: Exchange::Alpaca,
                            price: amount(mid),
                            bid: Some(amount(bid)),
                            ask: Some(amount(ask)),
                            volume: None,
                            timestamp: time_of(&msg.timestamp, now),
                            received_at: now,
                        },
                    );
                }
            }
        }
    }
    None
}

/// The ticks that messages stand for, in order, where each came in at its time.
pub open spec fn ticks_meant<N: Number>(
    messages: Seq<AlpacaCryptoMsg<N>>,
    times: Seq<Timestamp>,
) -> Seq<TickView>
    decreases messages.len(),
{
    if messages.len() == 0 {
        Seq::empty()
    } else {
        let before = ticks_meant(messages.drop_last(), times.drop_last());
        match tick_meant(messages.last(), times.last()) {
            Some(tick) => before.push(tick),
            None => before,
        }
    }
}

/// Ticks as mathematical values.
pub open spec fn tick_views(ticks: Seq<Tick>) -> Seq<TickView> {
    ticks.map_values(|t: Tick| t@)
}

/// Whether a message asks for the trades and quotes of the configured symbols, and for
/// no bars.
pub open spec fn subscribes(message: SubscribeMessage, config: CryptoConfig) -> bool {
    &&& message.action@ == "subscribe"@
    &&& views(message.trades@) == views(config.symbols@)
    &&& views(message.quotes@) == views(config.symbols@)
    &&& message.bars@.len() == 0
}

/// The crypto stream and the account it is opened with.
pub struct CryptoFeed {
    crypto_config: CryptoConfig,
    alpaca_config: AlpacaConfig,
}

impl CryptoFeed {
    /// The settings of the stream.
    pub closed spec fn settings(&self) -> CryptoConfig {
        self.crypto_config
    }

    /// The settings of the account.
    pub closed spec fn account(&self) -> AlpacaConfig {
        self.alpaca_config
    }

    /// The stream under given settings.
    pub fn new(crypto_config: CryptoConfig, alpaca_config: AlpacaConfig) -> (r: CryptoFeed)
        ensures
            r.settings() == crypto_config,
            r.account() == alpaca_config,
    {
        CryptoFeed { crypto_config, alpaca_config }
    }

    /// Where the stream is to be found, where it is switched on.
    pub fn address(&self) -> (r: Option<String>)
        ensures
            maybe_text(r) == if self.settings().enabled {
                Some(self.settings().ws_url@)
            } else {
                None
            },
    {
        if self.crypto_config.enabled {
            Some(copy_text(self.crypto_config.ws_url.as_str()))
        } else {
            None
        }
    }

    /// The message that identifies the account.
    pub fn auth_message(&self) -> (r: AuthMessage)
        ensures
            r.action@ == "auth"@,
            r.key@ == self.account().api_key@,
            r.secret@ == self.account().api_secret@,
    {
        AuthMessage {
            action: copy_text("auth"),
            key: copy_text(self.alpaca_config.api_key.as_str()),
            secret: copy_text(self.alpaca_config.api_secret.as_str()),
        }
    }

    /// The message that asks for the trades and quotes of the configured symbols, and for
    /// no bars.
    pub fn subscribe_message(&self) -> (r: SubscribeMessage)
        ensures
            subscribes(r, self.settings()),
    {
        SubscribeMessage {
            action: copy_text("subscribe"),
            trades: copy_texts(&self.crypto_config.symbols),
            quotes: copy_texts(&self.crypto_config.symbols),
            bars: Vec::new(),
        }
    }

    /// What follows the stream's answer to the account, if there is one: the message that
    /// asks for data, or, where the account was refused, the reason to give up.
    pub fn after_reply(&self, reply: Option<&str>) -> (r: Result<SubscribeMessage, String>)
        ensures
            r is Err <==> reply is Some && refusal_meant(reply->0@) is Some,
            match r {
                Ok(message) => subscribes(message, self.settings()),
                Err(reason) => refusal_meant(reply->0@) == Some(reason@),
            },
    {
        if let Some(text) = reply {
            if let Some(reason) = refusal(text) {
                return Err(reason);
            }
        }
        Ok(self.subscribe_message())
    }

    /// The ticks that a batch of messages stands for. The clock is read for each message.
    pub fn process_message<N: Number>(&self, messages: &Vec<AlpacaCryptoMsg<N>>) -> (r: Vec<Tick>)
        requires
            functional::<N>(),
        ensures
            exists|times: Seq<Timestamp>|
                times.len() == messages@.len() && tick_views(r@) == #[trigger] ticks_meant(
                    messages@,
                    times,
                ),
    {
        let ghost mut times: Seq<Timestamp> = Seq::empty();
        let mut ticks: Vec<Tick> = Vec::new();
        let mut i: usize = 0;
        assert(tick_views(ticks@) =~= ticks_meant(messages@.take(0), times));
        while i < messages.len()
            invariant
                functional::<N>(),
                i <= messages@.len(),
                times.len() == i,
                tick_views(ticks@) == ticks_meant(messages@.take(i as int), times),
            decreases messages@.len() - i,
        {
            let now = utc_now();
            let ghost before = tick_views(ticks@);
            proof {
                let earlier = times;
                times = times.push(now);
                assert(times.drop_last() =~= earlier);
                assert(messages@.take(i + 1).drop_last() =~= messages@.take(i as int));
            }
            if let Some(tick) = tick_at(&messages[i], now) {
                let ghost view = tick@;
                ticks.push(tick);
                assert(tick_views(ticks@) =~= before.push(view));
            }
            i = i + 1;
        }
        assert(messages@.take(i as int) =~= messages@);
        ticks
    }
}

/// How a session of the stream ended.
#[derive(Debug)]
pub enum SessionEnd {
    /// The stream was closed.
    Closed,
    /// The session failed, for the reason given.
    Failed(String),
}

/// The shortest wait before the stream is opened again, in seconds.
pub const FIRST_WAIT: u64 = 1;

/// The shortest wait where too many connections were open.
pub const LIMIT_WAIT: u64 = 30;

/// The longest wait.
pub const LONGEST_WAIT: u64 = 60;

/// How long to wait after a session, where `backoff` would be next.
pub open spec fn wait_after(backoff: u64, end: SessionEnd) -> u64 {
    match end {
        SessionEnd::Closed => FIRST_WAIT,
        SessionEnd::Failed(reason) => if occurs(reason@, CONNECTION_LIMIT@) && backoff
            < LIMIT_WAIT {
            LIMIT_WAIT
        } else {
            backoff
        },
    }
}

/// The wait that comes after a wait.
pub open spec fn doubled(wait: u64) -> u64 {
    if 2 * wait > LONGEST_WAIT {
        LONGEST_WAIT
    } else {
        (2 * wait) as u64
    }
}

/// How long to wait before the stream is opened again.
pub struct Backoff {
    secs: u64,
}

impl Backoff {
    /// The next wait, if nothing else is learned.
    pub closed spec fn next(&self) -> u64 {
        self.secs
    }

    /// Waits are between the shortest and the longest.
    pub open spec fn wf(&self) -> bool {
        FIRST_WAIT <= self.next() <= LONGEST_WAIT
    }

    /// Starts with the shortest wait.
    pub fn new() -> (r: Backoff)
        ensures
            r.wf(),
            r.next() == FIRST_WAIT,
    {
        Backoff { secs: FIRST_WAIT }
    }

    /// How many seconds to wait after a session. The wait after that is twice as long,
    /// up to the longest.
    pub fn wait(&mut self, end: &SessionEnd) -> (r: u64)
        requires
            old(self).wf(),
        ensures
            final(self).wf(),
            r == wait_after(old(self).next(), *end),
            final(self).next() == doubled(r),
    {
        let wait: u64 = match end {
            SessionEnd::Closed => FIRST_WAIT,
            SessionEnd::Failed(reason) => if contains(reason.as_str(), CONNECTION_LIMIT)
                && self.secs < LIMIT_WAIT {
                LIMIT_WAIT
            } else {
                self.secs
            },
        };
        self.secs = if 2 * wait > LONGEST_WAIT {
            LONGEST_WAIT
        } else {
            2 * wait
        };
        wait
    }
}

/// Waits never leave their bounds, start over when the stream was closed, and are
/// long where too many connections were open; failures never shorten them.
pub proof fn law_waits_keep_their_bounds(backoff: u64, end: SessionEnd)
    requires
        FIRST_WAIT <= backoff <= LONGEST_WAIT,
    ensures
        FIRST_WAIT <= wait_after(backoff, end) <= LONGEST_WAIT,
        wait_after(backoff, end) <= doubled(wait_after(backoff, end)) <= LONGEST_WAIT,
        end is Closed ==> wait_after(backoff, end) == FIRST_WAIT,
        end matches SessionEnd::Failed(reason) ==> {
            &&& wait_after(backoff, end) >= backoff
            &&& occurs(reason@, CONNECTION_LIMIT@) ==> wait_after(backoff, end) >= LIMIT_WAIT
        },
{
}

/// A refusal for too many connections leads to a long wait.
pub proof fn law_connection_limit_leads_to_a_long_wait(
    backoff: u64,
    reply: Seq<char>,
    reason: String,
)
    requires
        FIRST_WAIT <= backoff <= LONGEST_WAIT,
        occurs(reply, "\"error\""@),
        occurs(reply, CONNECTION_LIMIT@),
        refusal_meant(reply) == Some(reason@),
    ensures
        wait_after(backoff, SessionEnd::Failed(reason)) >= LIMIT_WAIT,
{
    reveal_strlit("connection limit");
    reveal_strlit("Crypto connection limit exceeded — stale session may exist");
    assert(reason@.subrange(7, 23) =~= CONNECTION_LIMIT@);
    assert(occurs_at(reason@, CONNECTION_LIMIT@, 7));
}

/// Only trades and quotes become ticks, always of the crypto class, and a batch gives
/// no more ticks than it has messages.
pub proof fn law_only_trades_and_quotes_become_ticks<N: Number>(
    messages: Seq<AlpacaCryptoMsg<N>>,
    times: Seq<Timestamp>,
)
    requires
        messages.len() == times.len(),
    ensures
        ticks_meant(messages, times).len() <= messages.len(),
        forall|k: int|
            0 <= k < ticks_meant(messages, times).len() ==> (#[trigger] ticks_meant(
                messages,
                times,
            )[k]).asset_class == AssetClass::Crypto,
        (forall|i: int|
            0 <= i < messages.len() ==> (#[trigger] messages[i]).msg_type@ != "t"@
                && messages[i].msg_type@ != "q"@) ==> ticks_meant(messages, times).len() == 0,
    decreases messages.len(),
{
    if messages.len() > 0 {
        law_only_trades_and_quotes_become_ticks(messages.drop_last(), times.drop_last());
        let rest = messages.drop_last();
        if forall|i: int|
            0 <= i < messages.len() ==> (#[trigger] messages[i]).msg_type@ != "t"@
                && messages[i].msg_type@ != "q"@ {
            assert forall|i: int| 0 <= i < rest.len() implies (#[trigger] rest[i]).msg_type@
                != "t"@ && rest[i].msg_type@ != "q"@ by {
                assert(messages[i] == rest[i]);
            }
            assert(messages[messages.len() - 1].msg_type@ != "t"@);
        }
    }
}

/// A quote is priced midway between its bid and its ask, so never outside of them; the
/// order of the two does not matter.
pub proof fn law_quotes_are_priced_midway(bid: Fixed, ask: Fixed)
    requires
        -4_000_000_000_000_000_000 < bid.units < 4_000_000_000_000_000_000,
        -4_000_000_000_000_000_000 < ask.units < 4_000_000_000_000_000_000,
    ensures
        midway(bid, ask) == midway(ask, bid),
        midway(bid, bid) == bid,
        bid.units <= ask.units ==> bid.units <= midway(bid, ask).units <= ask.units,
        -1 <= 2 * midway(bid, ask).units - (bid.units + ask.units) <= 1,
{
    let two = lit::<Fixed>(2, 1);
    assert(two.units == 2 * UNIT);
    lemma_whole_scaled(bid.units + ask.units, 2);
    lemma_whole_scaled(bid.units + bid.units, 2);
    assert(midway(bid, bid).units == bid.units);
}

/// A trade tells its symbol, price and size, a quote its symbol, bid and ask; a message of
/// another type, or one that lacks what its type needs, tells nothing.
pub proof fn law_messages_tell_what_they_hold<N: Number>(msg: AlpacaCryptoMsg<N>, now: Timestamp)
    ensures
        tick_meant(msg, now) is Some <==> {
            ||| msg.msg_type@ == "t"@ && msg.symbol is Some && msg.price is Some
            ||| msg.msg_type@ == "q"@ && msg.symbol is Some && msg.bid_price is Some
                && msg.ask_price is Some
        },
        tick_meant(msg, now) matches Some(tick) ==> {
            &&& msg.symbol matches Some(symbol) && tick.symbol == symbol@
            &&& tick.asset_class == AssetClass::Crypto
            &&& tick.exchange == Exchange::Alpaca
            &&& tick.received_at == now
            &&& msg.timestamp is None ==> tick.timestamp == now
            &&& msg.timestamp matches Some(t) ==> (instant_of(t@) matches Some(at)
                ==> tick.timestamp == at)
        },
        msg.msg_type@ == "t"@ ==> (tick_meant(msg, now) matches Some(tick) ==> {
            &&& tick.price == decimal_or_zero(shown(msg.price->0))
            &&& tick.bid is None && tick.ask is None
            &&& msg.size is None ==> tick.volume is None
            &&& msg.size matches Some(size) ==> tick.volume == Some(decimal_or_zero(shown(size)))
        }),
        msg.msg_type@ == "q"@ ==> (tick_meant(msg, now) matches Some(tick) ==> {
            &&& tick.bid == Some(decimal_or_zero(shown(msg.bid_price->0)))
            &&& tick.ask == Some(decimal_or_zero(shown(msg.ask_price->0)))
            &&& tick.volume is None
            &&& tick.price == decimal_or_zero(shown(midway(msg.bid_price->0, msg.ask_price->0)))
        }),
{
    reveal_strlit("t");
    reveal_strlit("q");
    assert("t"@[0] != "q"@[0]);
}

/// Messages give the same ticks whether they come in one batch or in two.
pub proof fn law_batches_follow_one_another<N: Number>(
    first: Seq<AlpacaCryptoMsg<N>>,
    moments_before: Seq<Timestamp>,
    second: Seq<AlpacaCryptoMsg<N>>,
    times: Seq<Timestamp>,
)
    requires
        first.len() == moments_before.len(),
        second.len() == times.len(),
    ensures
        ticks_meant(first + second, moments_before + times) == ticks_meant(first, moments_before)
            + ticks_meant(second, times),
    decreases second.len(),
{
    let all = first + second;
    let moments = moments_before + times;
    if second.len() == 0 {
        assert(all =~= first);
        assert(moments =~= moments_before);
        assert(ticks_meant(all, moments) =~= ticks_meant(first, moments_before) + ticks_meant(
            second,
            times,
        ));
    } else {
        law_batches_follow_one_another(
            first,
            moments_before,
            second.drop_last(),
            times.drop_last(),
        );
        assert(all.drop_last() =~= first + second.drop_last());
        assert(moments.drop_last() =~= moments_before + times.drop_last());
        assert(all.last() == second.last() && moments.last() == times.last());
        assert(ticks_meant(all, moments) =~= ticks_meant(first, moments_before) + ticks_meant(
            second,
            times,
        ));
    }
}

/// A wait is a second after a stream that was closed, and doubles with each failure up to a
/// minute; where too many connections were open it is half a minute at least.
pub proof fn law_waits_double_up_to_a_minute(backoff: u64, end: SessionEnd)
    requires
        1 <= backoff <= 60,
    ensures
        ({
            let wait = wait_after(backoff, end);
            &&& end is Closed ==> wait == 1
            &&& end matches SessionEnd::Failed(reason) ==> {
                &&& !occurs(reason@, "connection limit"@) ==> wait == backoff
                &&& occurs(reason@, "connection limit"@) && backoff <= 30 ==> wait == 30
                &&& occurs(reason@, "connection limit"@) && backoff >= 30 ==> wait == backoff
            }
            &&& wait <= 30 ==> doubled(wait) == wait + wait
            &&& wait >= 30 ==> doubled(wait) == 60
        }),
{
}

/// The stream is refused exactly where its answer speaks of an error. The reason tells the
/// answer, but for too many connections, of which it speaks itself.
pub proof fn law_errors_are_refusals(before: Seq<char>, behind: Seq<char>, reply: Seq<char>)
    ensures
        refusal_meant(before + "\"error\""@ + behind) is Some,
        !occurs(reply, "\"error\""@) ==> refusal_meant(reply) is None,
        refusal_meant(reply) matches Some(reason) ==> {
            &&& !occurs(reply, "connection limit"@) ==> occurs(reason, reply)
            &&& occurs(reply, "connection limit"@) ==> occurs(reason, "connection limit"@)
        },
{
    law_texts_are_found_wherever_they_stand(before, "\"error\""@, behind);
    if refusal_meant(reply) is Some {
        let reason = refusal_meant(reply)->0;
        if occurs(reply, CONNECTION_LIMIT@) {
            reveal_strlit("connection limit");
            reveal_strlit("Crypto connection limit exceeded — stale session may exist");
            assert(reason.subrange(7, 23) =~= CONNECTION_LIMIT@);
            assert(occurs_at(reason, CONNECTION_LIMIT@, 7));
        } else {
            let empty = Seq::<char>::empty();
            law_texts_are_found_wherever_they_stand("Crypto auth failed: "@, reply, empty);
            assert("Crypto auth failed: "@ + reply + empty =~= reason);
        }
    }
}

/// What is asked of the stream are the trades and the quotes of the configured symbols, in
/// their order, and no bars.
pub proof fn law_subscriptions_name_the_symbols(
    message: SubscribeMessage,
    config: CryptoConfig,
    i: int,
)
    requires
        subscribes(message, config),
        0 <= i < config.symbols@.len(),
    ensures
        message.action@ == "subscribe"@,
        message.trades@.len() == config.symbols@.len(),
        message.quotes@.len() == config.symbols@.len(),
        message.trades@[i]@ == config.symbols@[i]@,
        message.quotes@[i]@ == config.symbols@[i]@,
        message.bars@.len() == 0,
{
    assert(views(message.trades@).len() == views(config.symbols@).len());
    assert(views(message.quotes@).len() == views(config.symbols@).len());
    assert(views(message.trades@)[i] == message.trades@[i]@);
    assert(views(message.quotes@)[i] == message.quotes@[i]@);
    assert(views(config.symbols@)[i] == config.symbols@[i]@);
}

} // verus!
