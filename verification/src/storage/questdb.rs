//! Lines of the InfluxDB line protocol, which QuestDB takes in. It creates tables
//! by itself from the lines.
use crate::execution::alpaca_client::{side_text, side_word};
use crate::number::{add_up, decimal_or, functional, shown, total, value_or, zero, Number};
use crate::text::{
    characters, copy_text, digits, integer_digits, integer_text, join, join_texts,
    natural_text, occurs, occurs_at, views,
};
use crate::time::Timestamp;
use crate::types::{
    symbol_names, NewsArticle, NewsView, Order, OrderSide, PortfolioState, PortfolioView,
    PositionView, SignalValue, SignalView, Symbol, Terms,
};
use vstd::prelude::*;

verus! {

/// What stands for a character in a tag: a blank, a comma and an equals sign get a
/// backslash, a slash becomes an underscore.
pub open spec fn escaped_char(c: char) -> Seq<char> {
    if c == ' ' || c == ',' || c == '=' {
        seq!['\\', c]
    } else if c == '/' {
        seq!['_']
    } else {
        seq![c]
    }
}

/// A text as it stands in a tag.
pub open spec fn escaped(text: Seq<char>) -> Seq<char>
    decreases text.len(),
{
    if text.len() == 0 {
        Seq::empty()
    } else {
        escaped(text.drop_last()) + escaped_char(text.last())
    }
}

/// The text in the form in which it may stand in a tag.
pub fn escape_tag(s: &str) -> (r: String)
    ensures
        r@ == escaped(s@),
{
    let chars = characters(s);
    let mut out = String::new();
    let mut i: usize = 0;
    assert(out@ =~= escaped(s@.take(0)));
    while i < chars.len()
        invariant
            i <= chars@.len(),
            chars@ == s@,
            out@ == escaped(s@.take(i as int)),
        decreases chars@.len() - i,
    {
        let ghost before = out@;
        assert(s@.take(i + 1).drop_last() =~= s@.take(i as int));
        let c = chars[i];
        if c == ' ' || c == ',' || c == '=' {
            out.push('\\');
            out.push(c);
        } else if c == '/' {
            out.push('_');
        } else {
            out.push(c);
        }
        assert(out@ =~= before + escaped_char(c));
        i = i + 1;
    }
    assert(s@.take(i as int) =~= s@);
    out
}

/// The line for a signal.
pub open spec fn signal_text<N: Number>(signal: SignalView<N>) -> Seq<char> {
    "signals,name="@ + escaped(signal.name) + ",symbols="@ + escaped(join(signal.symbols, ","@))
        + " value="@ + shown(signal.value) + ",direction="@ + shown(signal.direction)
        + ",confidence="@ + shown(signal.confidence) + " "@ + integer_digits(
        signal.timestamp.line_nanos(),
    ) + "\n"@
}

/// The line for a trade. An amount without a value counts as zero.
pub open spec fn trade_text<N: Number>(order: Terms) -> Seq<char> {
    "trades,symbol="@ + escaped(order.symbol) + ",side="@ + side_word(order.side) + ",strategy="@
        + escaped(order.strategy_id) + " qty="@ + shown(
        decimal_or(order.quantity, zero::<N>()),
    ) + ",filled_price="@ + shown(
        match order.filled_avg_price {
            Some(price) => decimal_or(price, zero::<N>()),
            None => zero::<N>(),
        },
    ) + " "@ + integer_digits(order.updated_at.line_nanos()) + "\n"@
}

/// The unrealized profits of positions.
pub open spec fn profits<N: Number>(positions: Seq<PositionView>) -> Seq<N> {
    positions.map_values(|p: PositionView| decimal_or(p.unrealized_pnl, zero::<N>()))
}

/// The line for a portfolio.
pub open spec fn portfolio_text<N: Number>(portfolio: PortfolioView) -> Seq<char> {
    "portfolio equity="@ + shown(decimal_or(portfolio.equity, zero::<N>())) + ",cash="@ + shown(
        decimal_or(portfolio.cash, zero::<N>()),
    ) + ",positions="@ + digits(portfolio.positions.len()) + ",unrealized_pnl="@ + shown(
        total(profits::<N>(portfolio.positions)),
    ) + " "@ + integer_digits(portfolio.timestamp.line_nanos()) + "\n"@
}

/// The line for an article. One without a score counts as neutral.
pub open spec fn news_text<N: Number>(article: NewsView<N>) -> Seq<char> {
    "news,source="@ + escaped(article.source) + ",symbols="@ + escaped(join(article.symbols, ","@))
        + " sentiment="@ + shown(
        match article.sentiment_score {
            Some(score) => score,
            None => zero::<N>(),
        },
    ) + " "@ + integer_digits(article.published_at.line_nanos()) + "\n"@
}

fn joined_symbols(symbols: &Vec<Symbol>) -> (r: String)
    ensures
        r@ == join(symbol_names(symbols@), ","@),
{
    let mut names: Vec<String> = Vec::new();
    let mut i: usize = 0;
    while i < symbols.len()
        invariant
            i <= symbols@.len(),
            names@.len() == i,
            forall|j: int| 0 <= j < i ==> (#[trigger] names@[j])@ == symbols@[j]@,
        decreases symbols@.len() - i,
    {
        names.push(copy_text(symbols[i].as_str()));
        i = i + 1;
    }
    assert(views(names@) =~= symbol_names(symbols@));
    join_texts(&names, ",")
}

/// The line for a signal.
pub fn signal_line<N: Number>(signal: &SignalValue<N>) -> (r: String)
    requires
        functional::<N>(),
    ensures
        r@ == signal_text(signal@),
{
    let mut line = copy_text("signals,name=");
    line.append(escape_tag(signal.name.as_str()).as_str());
    line.append(",symbols=");
    line.append(escape_tag(joined_symbols(&signal.symbols).as_str()).as_str());
    line.append(" value=");
    line.append(signal.value.text().as_str());
    line.append(",direction=");
    line.append(signal.direction.text().as_str());
    line.append(",confidence=");
    line.append(signal.confidence.text().as_str());
    line.append(" ");
    line.append(integer_text(signal.timestamp.nanos_or_zero() as i128).as_str());
    line.append("\n");
    line
}

/// The line for a trade, with amounts as numbers of type `N`.
pub fn trade_line<N: Number>(order: &Order) -> (r: String)
    requires
        functional::<N>(),
    ensures
        r@ == trade_text::<N>(order@.terms),
{
    let nothing = N::ratio(0, 1);
    let filled_price = match order.filled_avg_price {
        Some(price) => value_or(price, nothing),
        None => nothing,
    };
    let mut line = copy_text("trades,symbol=");
    line.append(escape_tag(order.symbol.as_str()).as_str());
    line.append(",side=");
    line.append(side_text(order.side));
    line.append(",strategy=");
    line.append(escape_tag(order.strategy_id.as_str()).as_str());
    line.append(" qty=");
    line.append(value_or(order.quantity, nothing).text().as_str());
    line.append(",filled_price=");
    line.append(filled_price.text().as_str());
    line.append(" ");
    line.append(integer_text(order.updated_at.nanos_or_zero() as i128).as_str());
    line.append("\n");
    line
}

/// The line for a portfolio, with amounts as numbers of type `N`.
pub fn portfolio_line<N: Number>(portfolio: &PortfolioState) -> (r: String)
    requires
        functional::<N>(),
    ensures
        r@ == portfolio_text::<N>(portfolio@),
{
    let nothing = N::ratio(0, 1);
    let mut gains: Vec<N> = Vec::new();
    let mut i: usize = 0;
    while i < portfolio.positions.len()
        invariant
            functional::<N>(),
            nothing == zero::<N>(),
            i <= portfolio.positions@.len(),
            gains@.len() == i,
            forall|j: int|
                0 <= j < i ==> (#[trigger] gains@[j]) == decimal_or(
                    portfolio.positions@[j].unrealized_pnl,
                    zero::<N>(),
                ),
        decreases portfolio.positions@.len() - i,
    {
        gains.push(value_or(portfolio.positions[i].unrealized_pnl, nothing));
        i = i + 1;
    }
    assert(gains@ =~= profits::<N>(portfolio@.positions));
    let mut line = copy_text("portfolio equity=");
    line.append(value_or(portfolio.equity, nothing).text().as_str());
    line.append(",cash=");
    line.append(value_or(portfolio.cash, nothing).text().as_str());
    line.append(",positions=");
    line.append(natural_text(portfolio.positions.len() as u128).as_str());
    line.append(",unrealized_pnl=");
    line.append(add_up(&gains).text().as_str());
    line.append(" ");
    line.append(integer_text(portfolio.timestamp.nanos_or_zero() as i128).as_str());
    line.append("\n");
    line
}

/// The line for an article.
pub fn news_line<N: Number>(article: &NewsArticle<N>) -> (r: String)
    requires
        functional::<N>(),
    ensures
        r@ == news_text(article@),
{
    let sentiment = match article.sentiment_score {
        Some(score) => score,
        None => N::ratio(0, 1),
    };
    let mut line = copy_text("news,source=");
    line.append(escape_tag(article.source.as_str()).as_str());
    line.append(",symbols=");
    line.append(escape_tag(joined_symbols(&article.symbols).as_str()).as_str());
    line.append(" sentiment=");
    line.append(sentiment.text().as_str());
    line.append(" ");
    line.append(integer_text(article.published_at.nanos_or_zero() as i128).as_str());
    line.append("\n");
    line
}

/// A character that ends or divides a tag where it stands without a backslash.
pub open spec fn separates(c: char) -> bool {
    c == ' ' || c == ',' || c == '='
}

/// In an escaped text every blank, comma and equals sign has a backslash before it,
/// and there is no slash: it cannot be taken for the end of a tag.
pub proof fn law_escaped_separators_have_a_backslash(text: Seq<char>)
    ensures
        forall|i: int|
            0 <= i < escaped(text).len() && separates(#[trigger] escaped(text)[i]) ==> i > 0
                && escaped(text)[i - 1] == '\\',
        !escaped(text).contains('/'),
    decreases text.len(),
{
    let out = escaped(text);
    if text.len() > 0 {
        let before = escaped(text.drop_last());
        law_escaped_separators_have_a_backslash(text.drop_last());
        assert forall|i: int| 0 <= i < out.len() && separates(#[trigger] out[i]) implies i > 0
            && out[i - 1] == '\\' by {
            if i < before.len() {
                assert(before[i] == out[i]);
            }
        }
        if out.contains('/') {
            let i = choose|i: int| 0 <= i < out.len() && out[i] == '/';
            if i < before.len() {
                assert(before[i] == '/');
                assert(before.contains('/'));
            }
        }
    }
}

/// A text without blanks, commas, equals signs and slashes is written as it is.
pub proof fn law_plain_tags_stay(text: Seq<char>)
    requires
        forall|i: int|
            0 <= i < text.len() ==> !separates(#[trigger] text[i]) && text[i] != '/',
    ensures
        escaped(text) == text,
    decreases text.len(),
{
    if text.len() > 0 {
        let front = text.drop_last();
        assert forall|i: int| 0 <= i < front.len() implies !separates(#[trigger] front[i])
            && front[i] != '/' by {
            assert(text[i] == front[i]);
        }
        law_plain_tags_stay(front);
        assert(!separates(text[text.len() - 1]));
    }
    assert(escaped(text) =~= text);
}

/// Escaping a text is escaping its parts.
pub proof fn law_escaping_goes_by_parts(a: Seq<char>, b: Seq<char>)
    ensures
        escaped(a + b) == escaped(a) + escaped(b),
    decreases b.len(),
{
    if b.len() == 0 {
        assert(a + b =~= a);
        assert(escaped(a) + escaped(b) =~= escaped(a));
    } else {
        assert((a + b).drop_last() =~= a + b.drop_last());
        law_escaping_goes_by_parts(a, b.drop_last());
        assert(escaped(a + b) =~= escaped(a) + escaped(b));
    }
}

/// Whether a line tells a value under a key, up to what stands behind it.
pub open spec fn tells(
    line: Seq<char>,
    key: Seq<char>,
    value: Seq<char>,
    behind: Seq<char>,
) -> bool {
    occurs(line, key + value + behind)
}

/// Whether a line ends with a moment.
pub open spec fn stamped(line: Seq<char>, at: Timestamp) -> bool {
    (" "@ + integer_digits(at.line_nanos()) + "\n"@).is_suffix_of(line)
}

proof fn lemma_field(before: Seq<char>, key: Seq<char>, value: Seq<char>, behind: Seq<char>)
    ensures
        tells(before + key + value + behind, key, value, behind),
{
    let piece = key + value + behind;
    let line = before + key + value + behind;
    let at = before.len() as int;
    assert forall|i: int| 0 <= i < piece.len() implies piece[i] == line.subrange(
        at,
        at + piece.len(),
    )[i] by {
        assert(line.subrange(at, at + piece.len())[i] == line[at + i]);
    }
    assert(line.subrange(at, at + piece.len()) =~= piece);
    assert(occurs_at(line, piece, at));
}

proof fn lemma_goes_on(line: Seq<char>, value: Seq<char>, behind: Seq<char>)
    ensures
        forall|k: Seq<char>, v: Seq<char>, b: Seq<char>| #[trigger]
            tells(line, k, v, b) ==> tells(line + value + behind, k, v, b),
        forall|start: Seq<char>| #[trigger]
            start.is_prefix_of(line) ==> start.is_prefix_of(line + value + behind),
{
    let all = line + value + behind;
    assert forall|k: Seq<char>, v: Seq<char>, b: Seq<char>| #[trigger]
        tells(line, k, v, b) implies tells(all, k, v, b) by {
        let piece = k + v + b;
        let at = choose|at: int| occurs_at(line, piece, at);
        assert(all.subrange(at, at + piece.len()) =~= line.subrange(at, at + piece.len()));
        assert(occurs_at(all, piece, at));
    }
    assert forall|start: Seq<char>| #[trigger] start.is_prefix_of(line) implies start.is_prefix_of(
        all,
    ) by {
        assert(all.subrange(0, start.len() as int) =~= line.subrange(0, start.len() as int));
    }
}

proof fn lemma_stamped(front: Seq<char>, at: Timestamp)
    ensures
        stamped(front + " "@ + integer_digits(at.line_nanos()) + "\n"@, at),
{
    let end = " "@ + integer_digits(at.line_nanos()) + "\n"@;
    let line = front + " "@ + integer_digits(at.line_nanos()) + "\n"@;
    assert(line.subrange(front.len() as int, line.len() as int) =~= end);
}

/// The line of a signal is one of the table of signals, tells its name and symbols as tags
/// and its figures each under its key, and ends with its moment.
pub proof fn law_signal_lines_tell_the_signal<N: Number>(signal: SignalView<N>)
    ensures
        ({
            let line = signal_text(signal);
            let symbols = escaped(join(signal.symbols, ","@));
            &&& "signals,"@.is_prefix_of(line)
            &&& tells(line, "name="@, escaped(signal.name), ",symbols="@)
            &&& tells(line, ",symbols="@, symbols, " value="@)
            &&& tells(line, " value="@, shown(signal.value), ",direction="@)
            &&& tells(line, ",direction="@, shown(signal.direction), ",confidence="@)
            &&& tells(line, ",confidence="@, shown(signal.confidence), " "@)
            &&& stamped(line, signal.timestamp)
        }),
{
    let name = escaped(signal.name);
    let symbols = escaped(join(signal.symbols, ","@));
    let value = shown(signal.value);
    let direction = shown(signal.direction);
    let confidence = shown(signal.confidence);
    assert("signals,name="@ == "signals,"@ + "name="@ && "signals,"@.is_prefix_of(
        "signals,name="@,
    )) by {
        reveal_strlit("signals,name=");
        reveal_strlit("signals,");
        reveal_strlit("name=");
        assert("signals,name="@ =~= "signals,"@ + "name="@);
        assert("signals,name="@.subrange(0, "signals,"@.len() as int) =~= "signals,"@);
    }
    let a = "signals,name="@ + name + ",symbols="@;
    lemma_goes_on("signals,name="@, name, ",symbols="@);
    lemma_field("signals,"@, "name="@, name, ",symbols="@);
    let b = a + symbols + " value="@;
    lemma_goes_on(a, symbols, " value="@);
    lemma_field("signals,name="@ + name, ",symbols="@, symbols, " value="@);
    let c = b + value + ",direction="@;
    lemma_goes_on(b, value, ",direction="@);
    lemma_field(a + symbols, " value="@, value, ",direction="@);
    let d = c + direction + ",confidence="@;
    lemma_goes_on(c, direction, ",confidence="@);
    lemma_field(b + value, ",direction="@, direction, ",confidence="@);
    let e = d + confidence + " "@;
    lemma_goes_on(d, confidence, " "@);
    lemma_field(c + direction, ",confidence="@, confidence, " "@);
    lemma_goes_on(e, integer_digits(signal.timestamp.line_nanos()), "\n"@);
    lemma_stamped(d + confidence, signal.timestamp);
}

/// The line of a trade is one of the table of trades, tells its symbol, side and strategy as
/// tags and its quantity and price each under its key, and ends with its last update.
pub proof fn law_trade_lines_tell_the_trade<N: Number>(order: Terms)
    ensures
        ({
            let line = trade_text::<N>(order);
            let quantity = decimal_or(order.quantity, zero::<N>());
            &&& "trades,"@.is_prefix_of(line)
            &&& tells(line, "symbol="@, escaped(order.symbol), ",side="@)
            &&& order.side == OrderSide::Buy ==> tells(line, ",side="@, "buy"@, ",strategy="@)
            &&& order.side == OrderSide::Sell ==> tells(line, ",side="@, "sell"@, ",strategy="@)
            &&& tells(line, ",strategy="@, escaped(order.strategy_id), " qty="@)
            &&& tells(line, " qty="@, shown(quantity), ",filled_price="@)
            &&& order.filled_avg_price matches Some(price) ==> tells(
                line,
                ",filled_price="@,
                shown(decimal_or(price, zero::<N>())),
                " "@,
            )
            &&& order.filled_avg_price is None ==> tells(
                line,
                ",filled_price="@,
                shown(zero::<N>()),
                " "@,
            )
            &&& stamped(line, order.updated_at)
        }),
{
    let symbol = escaped(order.symbol);
    let side = side_word(order.side);
    let strategy = escaped(order.strategy_id);
    let quantity = shown(decimal_or(order.quantity, zero::<N>()));
    let price = shown(
        match order.filled_avg_price {
            Some(price) => decimal_or(price, zero::<N>()),
            None => zero::<N>(),
        },
    );
    assert("trades,symbol="@ == "trades,"@ + "symbol="@ && "trades,"@.is_prefix_of(
        "trades,symbol="@,
    )) by {
        reveal_strlit("trades,symbol=");
        reveal_strlit("trades,");
        reveal_strlit("symbol=");
        assert("trades,symbol="@ =~= "trades,"@ + "symbol="@);
        assert("trades,symbol="@.subrange(0, "trades,"@.len() as int) =~= "trades,"@);
    }
    let a = "trades,symbol="@ + symbol + ",side="@;
    lemma_goes_on("trades,symbol="@, symbol, ",side="@);
    lemma_field("trades,"@, "symbol="@, symbol, ",side="@);
    let b = a + side + ",strategy="@;
    lemma_goes_on(a, side, ",strategy="@);
    lemma_field("trades,symbol="@ + symbol, ",side="@, side, ",strategy="@);
    let c = b + strategy + " qty="@;
    lemma_goes_on(b, strategy, " qty="@);
    lemma_field(a + side, ",strategy="@, strategy, " qty="@);
    let d = c + quantity + ",filled_price="@;
    lemma_goes_on(c, quantity, ",filled_price="@);
    lemma_field(b + strategy, " qty="@, quantity, ",filled_price="@);
    let e = d + price + " "@;
    lemma_goes_on(d, price, " "@);
    lemma_field(c + quantity, ",filled_price="@, price, " "@);
    lemma_goes_on(e, integer_digits(order.updated_at.line_nanos()), "\n"@);
    lemma_stamped(d + price, order.updated_at);
}

/// The line of a portfolio tells equity, cash, the number of positions and what they have
/// gained in all each under its key, and ends with its moment.
pub proof fn law_portfolio_lines_tell_the_portfolio<N: Number>(portfolio: PortfolioView)
    ensures
        ({
            let line = portfolio_text::<N>(portfolio);
            let gained = Seq::new(
                portfolio.positions.len(),
                |i: int| decimal_or(portfolio.positions[i].unrealized_pnl, zero::<N>()),
            );
            &&& "portfolio "@.is_prefix_of(line)
            &&& tells(line, "equity="@, shown(decimal_or(portfolio.equity, zero::<N>())), ",cash="@)
            &&& tells(
                line,
                ",cash="@,
                shown(decimal_or(portfolio.cash, zero::<N>())),
                ",positions="@,
            )
            &&& tells(
                line,
                ",positions="@,
                digits(portfolio.positions.len()),
                ",unrealized_pnl="@,
            )
            &&& tells(line, ",unrealized_pnl="@, shown(total(gained)), " "@)
            &&& stamped(line, portfolio.timestamp)
        }),
{
    let gained = Seq::new(
        portfolio.positions.len(),
        |i: int| decimal_or(portfolio.positions[i].unrealized_pnl, zero::<N>()),
    );
    assert(profits::<N>(portfolio.positions) =~= gained);
    let equity = shown(decimal_or(portfolio.equity, zero::<N>()));
    let cash = shown(decimal_or(portfolio.cash, zero::<N>()));
    let count = digits(portfolio.positions.len());
    let gain = shown(total(gained));
    assert("portfolio equity="@ == "portfolio "@ + "equity="@ && "portfolio "@.is_prefix_of(
        "portfolio equity="@,
    )) by {
        reveal_strlit("portfolio equity=");
        reveal_strlit("portfolio ");
        reveal_strlit("equity=");
        assert("portfolio equity="@ =~= "portfolio "@ + "equity="@);
        assert("portfolio equity="@.subrange(0, "portfolio "@.len() as int) =~= "portfolio "@);
    }
    let a = "portfolio equity="@ + equity + ",cash="@;
    lemma_goes_on("portfolio equity="@, equity, ",cash="@);
    lemma_field("portfolio "@, "equity="@, equity, ",cash="@);
    let b = a + cash + ",positions="@;
    lemma_goes_on(a, cash, ",positions="@);
    lemma_field("portfolio equity="@ + equity, ",cash="@, cash, ",positions="@);
    let c = b + count + ",unrealized_pnl="@;
    lemma_goes_on(b, count, ",unrealized_pnl="@);
    lemma_field(a + cash, ",positions="@, count, ",unrealized_pnl="@);
    let d = c + gain + " "@;
    lemma_goes_on(c, gain, " "@);
    lemma_field(b + count, ",unrealized_pnl="@, gain, " "@);
    lemma_goes_on(d, integer_digits(portfolio.timestamp.line_nanos()), "\n"@);
    lemma_stamped(c + gain, portfolio.timestamp);
}

/// The line of an article is one of the table of news, tells its source and symbols as tags
/// and its score under its key, and ends with the moment of its publication.
pub proof fn law_news_lines_tell_the_article<N: Number>(article: NewsView<N>)
    ensures
        ({
            let line = news_text(article);
            let symbols = escaped(join(article.symbols, ","@));
            &&& "news,"@.is_prefix_of(line)
            &&& tells(line, "source="@, escaped(article.source), ",symbols="@)
            &&& tells(line, ",symbols="@, symbols, " sentiment="@)
            &&& article.sentiment_score matches Some(score) ==> tells(
                line,
                " sentiment="@,
                shown(score),
                " "@,
            )
            &&& article.sentiment_score is None ==> tells(
                line,
                " sentiment="@,
                shown(zero::<N>()),
                " "@,
            )
            &&& stamped(line, article.published_at)
        }),
{
    let source = escaped(article.source);
    let symbols = escaped(join(article.symbols, ","@));
    let score = shown(
        match article.sentiment_score {
            Some(score) => score,
            None => zero::<N>(),
        },
    );
    assert("news,source="@ == "news,"@ + "source="@ && "news,"@.is_prefix_of(
        "news,source="@,
    )) by {
        reveal_strlit("news,source=");
        reveal_strlit("news,");
        reveal_strlit("source=");
        assert("news,source="@ =~= "news,"@ + "source="@);
        assert("news,source="@.subrange(0, "news,"@.len() as int) =~= "news,"@);
    }
    let a = "news,source="@ + source + ",symbols="@;
    lemma_goes_on("news,source="@, source, ",symbols="@);
    lemma_field("news,"@, "source="@, source, ",symbols="@);
    let b = a + symbols + " sentiment="@;
    lemma_goes_on(a, symbols, " sentiment="@);
    lemma_field("news,source="@ + source, ",symbols="@, symbols, " sentiment="@);
    let c = b + score + " "@;
    lemma_goes_on(b, score, " "@);
    lemma_field(a + symbols, " sentiment="@, score, " "@);
    lemma_goes_on(c, integer_digits(article.published_at.line_nanos()), "\n"@);
    lemma_stamped(b + score, article.published_at);
}

} // verus!
