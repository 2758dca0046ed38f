//! News sentiment per symbol over a rolling window.
use super::cross_asset::{average, mean};
use crate::number::fixed::{in_range, lemma_mean_in_range, whole, Fixed, UNIT};
use crate::number::{
    abs, cap, capped, counted, functional, lemma_compared, lemma_count_is_positive, lemma_in_order,
    lemma_literals, lemma_quotient_order, lemma_sum_below, lemma_sum_order, less, lit, magnitude,
    minus_one, monotone, no_more, one, total, zero, Number,
};
use crate::symbol_map::SymbolMap;
use crate::text::{copy_text, same_text};
use crate::time::{utc_now, Timestamp};
use crate::types::{
    entry, signal_views, symbol_names, Detail, DetailView, NewsArticle, NewsView, SignalValue,
    SignalView, Symbol,
};
use crate::window::{
    items, law_window_keeps_the_recent, points_of, recent, series, Dated, RollingWindow,
};
use vstd::prelude::*;

verus! {

/// The state of an analyzer as a mathematical value.
#[verifier::ext_equal]
pub struct SentimentView<N> {
    /// Recent scores of each symbol.
    pub articles: Map<Seq<char>, Seq<Dated<N>>>,
    pub window_secs: i64,
    pub min_articles: usize,
    pub threshold: N,
}

/// The score of an article, zero where it has none.
pub open spec fn article_score<N: Number>(article: NewsView<N>) -> N {
    match article.sentiment_score {
        Some(score) => score,
        None => zero::<N>(),
    }
}

/// The scores of a symbol after one more.
pub open spec fn scores_with<N>(
    state: SentimentView<N>,
    articles: Map<Seq<char>, Seq<Dated<N>>>,
    symbol: Seq<char>,
    score: N,
    now: Timestamp,
) -> Seq<Dated<N>> {
    recent(
        points_of(articles, symbol).push(Dated { item: score, at: now }),
        now,
        state.window_secs as int,
    )
}

/// The signal of a symbol's scores, if any: there are enough of them, and their
/// average is far enough from zero.
pub open spec fn sentiment_signal<N: Number>(
    state: SentimentView<N>,
    symbol: Seq<char>,
    scores: Seq<N>,
    article: NewsView<N>,
    now: Timestamp,
) -> Option<SignalView<N>> {
    let avg = average(scores);
    if scores.len() >= state.min_articles && no_more(state.threshold, magnitude(avg)) {
        Some(
            SignalView {
                name: "news_sentiment"@,
                value: avg,
                direction: if less(avg, zero::<N>()) {
                    minus_one::<N>()
                } else {
                    one::<N>()
                },
                confidence: capped(magnitude(avg), one::<N>()),
                symbols: seq![symbol],
                timestamp: now,
                metadata: seq![
                    ("avg_sentiment"@, DetailView::Number(avg)),
                    ("article_count"@, DetailView::Count(scores.len() as usize)),
                    ("latest_title"@, DetailView::Text(article.title)),
                    ("source"@, DetailView::Text(article.source)),
                ],
            },
        )
    } else {
        None
    }
}

/// The scores and the signals after an article was booked for some symbols in
/// turn. It is booked once for a symbol, however often it names it.
pub open spec fn booked<N: Number>(
    state: SentimentView<N>,
    symbols: Seq<Seq<char>>,
    article: NewsView<N>,
    now: Timestamp,
) -> (Map<Seq<char>, Seq<Dated<N>>>, Seq<SignalView<N>>)
    decreases symbols.len(),
{
    if symbols.len() == 0 {
        (state.articles, Seq::empty())
    } else {
        let (articles, signals) = booked(state, symbols.drop_last(), article, now);
        let symbol = symbols.last();
        let window = scores_with(state, articles, symbol, article_score(article), now);
        if symbols.drop_last().contains(symbol) {
            (articles, signals)
        } else {
            (
                articles.insert(symbol, window),
                match sentiment_signal(state, symbol, items(window), article, now) {
                    Some(signal) => signals.push(signal),
                    None => signals,
                },
            )
        }
    }
}

/// What an article leads to: the state after it and the signals it gives rise to.
/// An article with a score close to zero is passed over.
pub open spec fn news_outcome<N: Number>(
    state: SentimentView<N>,
    article: NewsView<N>,
    now: Timestamp,
) -> (SentimentView<N>, Seq<SignalView<N>>) {
    if less(magnitude(article_score(article)), lit::<N>(1, 10)) {
        (state, Seq::empty())
    } else {
        let (articles, signals) = booked(state, article.symbols, article, now);
        (SentimentView { articles, ..state }, signals)
    }
}

/// Aggregates news sentiment per symbol over a rolling window. Only emits a signal
/// when sentiment is strongly directional (many articles agreeing); isolated noise
/// is ignored.
pub struct SentimentAnalyzer<N: Number> {
    articles: SymbolMap<RollingWindow<N>>,
    window_secs: i64,
    min_articles: usize,
    threshold: N,
}

impl<N: Number> View for SentimentAnalyzer<N> {
    type V = SentimentView<N>;

    closed spec fn view(&self) -> SentimentView<N> {
        SentimentView {
            articles: series(self.articles@),
            window_secs: self.window_secs,
            min_articles: self.min_articles,
            threshold: self.threshold,
        }
    }
}

impl<N: Number> SentimentAnalyzer<N> {
    /// The table that the state is held in is in order.
    pub closed spec fn wf(&self) -> bool {
        self.articles.wf()
    }

    /// An analyzer that has seen nothing. It looks back an hour and asks for three
    /// articles with an average of at least four tenths.
    pub fn new() -> (r: SentimentAnalyzer<N>)
        requires
            functional::<N>(),
        ensures
            r.wf(),
            r@ == (SentimentView {
                articles: Map::empty(),
                window_secs: 3600,
                min_articles: 3,
                threshold: lit::<N>(4, 10),
            }),
    {
        let r = SentimentAnalyzer {
            articles: SymbolMap::new(),
            window_secs: 3600,
            min_articles: 3,
            threshold: N::ratio(4, 10),
        };
        assert(r@.articles =~= Map::empty());
        r
    }

    /// Books an article at a given moment for each of its symbols in turn.
    pub fn on_news_at(&mut self, article: &NewsArticle<N>, now: Timestamp) -> (r: Vec<
        SignalValue<N>,
    >)
        requires
            old(self).wf(),
            functional::<N>(),
        ensures
            final(self).wf(),
            (final(self)@, signal_views(r@)) == news_outcome(old(self)@, article@, now),
    {
        let mut signals: Vec<SignalValue<N>> = Vec::new();
        let score = match article.sentiment_score {
            Some(score) => score,
            None => N::ratio(0, 1),
        };
        if abs(score).below(N::ratio(1, 10)) {
            assert(signal_views(signals@) =~= Seq::empty());
            return signals;
        }
        let ghost start = self@;
        let ghost symbols = article@.symbols;
        let mut i: usize = 0;
        assert(signal_views(signals@) =~= booked(start, symbols.take(0), article@, now).1);
        while i < article.symbols.len()
            invariant
                functional::<N>(),
                self.wf(),
                score == article_score(article@),
                symbols == article@.symbols,
                i <= symbols.len(),
                start == old(self)@,
                self@ == (SentimentView {
                    articles: booked(start, symbols.take(i as int), article@, now).0,
                    ..start
                }),
                signal_views(signals@) == booked(start, symbols.take(i as int), article@, now).1,
            decreases symbols.len() - i,
        {
            assert(symbols.take(i + 1).drop_last() =~= symbols.take(i as int));
            assert(symbols.take(i + 1).last() == article.symbols@[i as int]@);
            if !named_before(&article.symbols, i) {
                let ghost given = signal_views(signals@);
                let window_secs: i64 = self.window_secs;
                let window = self.articles.entry(article.symbols[i].as_str(), RollingWindow::new());
                window.push(score, now, now, window_secs);
                let scores = window.items();
                proof {
                    assert(self@.articles =~= booked(start, symbols.take(i + 1), article@, now).0);
                }
                if scores.len() >= self.min_articles {
                    let avg = mean(&scores);
                    let size = abs(avg);
                    if self.threshold.at_most(size) {
                        let direction = if avg.below(N::ratio(0, 1)) {
                            N::ratio(-1, 1)
                        } else {
                            N::ratio(1, 1)
                        };
                        let signal = SignalValue {
                            name: copy_text("news_sentiment"),
                            value: avg,
                            direction,
                            confidence: cap(size, N::ratio(1, 1)),
                            symbols: vec![article.symbols[i].copy()],
                            timestamp: now,
                            metadata: vec![
                                entry("avg_sentiment", Detail::Number(avg)),
                                entry("article_count", Detail::Count(scores.len())),
                                entry("latest_title", Detail::Text(copy_text(article.title.as_str()))),
                                entry("source", Detail::Text(copy_text(article.source.as_str()))),
                            ],
                        };
                        proof {
                            let expected = sentiment_signal(
                                start,
                                symbols[i as int],
                                scores@,
                                article@,
                                now,
                            )->0;
                            assert(signal@.symbols =~= expected.symbols);
                            assert(signal@.metadata =~= expected.metadata);
                            assert(signal@ == expected);
                        }
                        signals.push(signal);
                        assert(signal_views(signals@) =~= given.push(signal@));
                    }
                }
            }
            i = i + 1;
        }
        assert(symbols.take(i as int) =~= symbols);
        signals
    }

    /// Books an article at the present moment.
    pub fn on_news(&mut self, article: &NewsArticle<N>) -> (r: Vec<SignalValue<N>>)
        requires
            old(self).wf(),
            functional::<N>(),
        ensures
            final(self).wf(),
            exists|now: Timestamp|
                (final(self)@, signal_views(r@)) == #[trigger] news_outcome(
                    old(self)@,
                    article@,
                    now,
                ),
    {
        let now = utc_now();
        self.on_news_at(article, now)
    }
}

/// Whether the symbol at a place stands at an earlier one too.
fn named_before(symbols: &Vec<Symbol>, place: usize) -> (r: bool)
    requires
        place < symbols@.len(),
    ensures
        r == symbol_names(symbols@).take(place as int).contains(symbols@[place as int]@),
{
    let ghost front = symbol_names(symbols@).take(place as int);
    let mut j: usize = 0;
    while j < place
        invariant
            j <= place < symbols@.len(),
            front == symbol_names(symbols@).take(place as int),
            forall|k: int| 0 <= k < j ==> front[k] != symbols@[place as int]@,
        decreases place - j,
    {
        assert(front[j as int] == symbols@[j as int]@);
        if same_text(symbols[j].as_str(), symbols[place].as_str()) {
            return true;
        }
        j = j + 1;
    }
    false
}

/// A signal is only given with an article that is not close to neutral, for one of
/// its symbols, on at least the asked number of scores whose average reaches the
/// threshold.
pub proof fn law_sentiment_needs_agreement<N: Number>(
    state: SentimentView<N>,
    article: NewsView<N>,
    now: Timestamp,
    k: int,
)
    requires
        0 <= k < news_outcome(state, article, now).1.len(),
    ensures
        ({
            let signal = news_outcome(state, article, now).1[k];
            &&& !less(magnitude(article_score(article)), lit::<N>(1, 10))
            &&& no_more(state.threshold, magnitude(signal.value))
            &&& exists|symbol: Seq<char>|
                article.symbols.contains(symbol) && #[trigger] own_signal(
                    state,
                    symbol,
                    article,
                    now,
                ) == Some(signal)
            &&& exists|scores: Seq<N>|
                scores.len() >= state.min_articles && signal.value == #[trigger] average(scores)
        }),
{
    lemma_booked_signals(state, article.symbols, article, now, k);
    let signal = news_outcome(state, article, now).1[k];
    let symbol = choose|symbol: Seq<char>|
        article.symbols.contains(symbol) && #[trigger] own_signal(state, symbol, article, now)
            == Some(signal);
    let scores = items(
        scores_with(state, state.articles, symbol, article_score(article), now),
    );
    assert(signal.value == average(scores));
}

/// The signal, if any, of the scores of a symbol with that of an article added once.
pub open spec fn own_signal<N: Number>(
    state: SentimentView<N>,
    symbol: Seq<char>,
    article: NewsView<N>,
    now: Timestamp,
) -> Option<SignalView<N>> {
    sentiment_signal(
        state,
        symbol,
        items(scores_with(state, state.articles, symbol, article_score(article), now)),
        article,
        now,
    )
}

proof fn lemma_booked_signals<N: Number>(
    state: SentimentView<N>,
    symbols: Seq<Seq<char>>,
    article: NewsView<N>,
    now: Timestamp,
    k: int,
)
    requires
        0 <= k < booked(state, symbols, article, now).1.len(),
    ensures
        exists|symbol: Seq<char>|
            symbols.contains(symbol) && #[trigger] own_signal(state, symbol, article, now) == Some(
                booked(state, symbols, article, now).1[k],
            ),
    decreases symbols.len(),
{
    let front = symbols.drop_last();
    let (articles, earlier) = booked(state, front, article, now);
    if k < earlier.len() {
        lemma_booked_signals(state, front, article, now, k);
        let symbol = choose|symbol: Seq<char>|
            front.contains(symbol) && #[trigger] own_signal(state, symbol, article, now) == Some(
                earlier[k],
            );
        assert(symbols[front.index_of(symbol)] == symbol);
    } else {
        assert(symbols[symbols.len() - 1] == symbols.last());
        lemma_booked_elsewhere(state, front, article, now, symbols.last());
        assert(own_signal(state, symbols.last(), article, now) == Some(
            booked(state, symbols, article, now).1[k],
        ));
    }
}

proof fn lemma_booked_once<N: Number>(
    state: SentimentView<N>,
    symbols: Seq<Seq<char>>,
    article: NewsView<N>,
    now: Timestamp,
    symbol: Seq<char>,
)
    requires
        symbols.contains(symbol),
    ensures
        points_of(booked(state, symbols, article, now).0, symbol) == scores_with(
            state,
            state.articles,
            symbol,
            article_score(article),
            now,
        ),
    decreases symbols.len(),
{
    let front = symbols.drop_last();
    let i = symbols.index_of(symbol);
    if i < front.len() {
        assert(front[i] == symbol);
    }
    if front.contains(symbol) {
        lemma_booked_once(state, front, article, now, symbol);
    } else {
        lemma_booked_elsewhere(state, front, article, now, symbol);
    }
}

/// An article counts once for each symbol that it names, however often it names it.
pub proof fn law_an_article_counts_once<N: Number>(
    state: SentimentView<N>,
    article: NewsView<N>,
    now: Timestamp,
    symbol: Seq<char>,
)
    requires
        article.symbols.contains(symbol),
        !less(magnitude(article_score(article)), lit::<N>(1, 10)),
    ensures
        points_of(news_outcome(state, article, now).0.articles, symbol) == scores_with(
            state,
            state.articles,
            symbol,
            article_score(article),
            now,
        ),
        points_of(news_outcome(state, article, now).0.articles, symbol).len() <= points_of(
            state.articles,
            symbol,
        ).len() + 1,
{
    lemma_booked_once(state, article.symbols, article, now, symbol);
    law_window_keeps_the_recent(
        points_of(state.articles, symbol).push(Dated { item: article_score(article), at: now }),
        now,
        state.window_secs as int,
    );
}

/// An isolated article gives no signal: where fewer articles were seen of each of its
/// symbols than have to agree besides itself, none goes out.
pub proof fn law_isolated_news_is_ignored<N: Number>(
    state: SentimentView<N>,
    article: NewsView<N>,
    now: Timestamp,
)
    requires
        forall|symbol: Seq<char>| #[trigger]
            article.symbols.contains(symbol) ==> points_of(state.articles, symbol).len() + 1
                < state.min_articles,
    ensures
        news_outcome(state, article, now).1 == Seq::<SignalView<N>>::empty(),
{
    let signals = news_outcome(state, article, now).1;
    if signals.len() > 0 {
        lemma_booked_signals(state, article.symbols, article, now, 0);
        let symbol = choose|symbol: Seq<char>|
            article.symbols.contains(symbol) && #[trigger] own_signal(state, symbol, article, now)
                == Some(signals[0]);
        law_window_keeps_the_recent(
            points_of(state.articles, symbol).push(Dated { item: article_score(article), at: now }),
            now,
            state.window_secs as int,
        );
    }
    assert(signals =~= Seq::<SignalView<N>>::empty());
}

proof fn lemma_booked_elsewhere<N: Number>(
    state: SentimentView<N>,
    symbols: Seq<Seq<char>>,
    article: NewsView<N>,
    now: Timestamp,
    other: Seq<char>,
)
    requires
        !symbols.contains(other),
    ensures
        points_of(booked(state, symbols, article, now).0, other) == points_of(
            state.articles,
            other,
        ),
    decreases symbols.len(),
{
    if symbols.len() > 0 {
        assert(symbols.contains(symbols.last()));
        assert forall|s: Seq<char>| symbols.drop_last().contains(s) implies symbols.contains(s) by {
            let i = symbols.drop_last().index_of(s);
            assert(symbols[i] == s);
        }
        lemma_booked_elsewhere(state, symbols.drop_last(), article, now, other);
    }
}

/// An article leaves the scores of symbols that it does not name alone, and one
/// that is close to neutral changes nothing at all.
pub proof fn law_articles_keep_to_their_symbols<N: Number>(
    state: SentimentView<N>,
    article: NewsView<N>,
    now: Timestamp,
    other: Seq<char>,
)
    ensures
        !article.symbols.contains(other) ==> points_of(
            news_outcome(state, article, now).0.articles,
            other,
        ) == points_of(state.articles, other),
        less(magnitude(article_score(article)), lit::<N>(1, 10)) ==> news_outcome(
            state,
            article,
            now,
        ) == (state, Seq::<SignalView<N>>::empty()),
{
    if !article.symbols.contains(other) {
        lemma_booked_elsewhere(state, article.symbols, article, now, other);
    }
}

/// A signal points the way of the news: up where the average score is positive, down where
/// it is negative. Its confidence is the size of the average, as far as that is below one.
pub proof fn law_signals_point_the_way_of_the_news<N: Number>(
    state: SentimentView<N>,
    article: NewsView<N>,
    now: Timestamp,
    k: int,
)
    requires
        monotone::<N>(),
        0 <= k < news_outcome(state, article, now).1.len(),
    ensures
        ({
            let signal = news_outcome(state, article, now).1[k];
            &&& less(zero::<N>(), signal.value) ==> signal.direction == one::<N>()
            &&& less(signal.value, zero::<N>()) ==> signal.direction == minus_one::<N>()
            &&& less(magnitude(signal.value), one::<N>()) ==> signal.confidence == magnitude(
                signal.value,
            )
            &&& no_more(one::<N>(), magnitude(signal.value)) ==> signal.confidence == one::<N>()
            &&& signal.timestamp == now
            &&& signal.symbols.len() == 1
            &&& article.symbols.contains(signal.symbols[0])
        }),
{
    lemma_booked_signals(state, article.symbols, article, now, k);
    let signal = news_outcome(state, article, now).1[k];
    lemma_compared(zero::<N>(), signal.value);
    lemma_compared(one::<N>(), magnitude(signal.value));
}

/// Whether the scores of a symbol are all on one side of zero or at it.
pub open spec fn all_good<N: Number>(points: Seq<Dated<N>>) -> bool {
    forall|i: int| 0 <= i < points.len() ==> no_more(zero::<N>(), (#[trigger] points[i]).item)
}

/// Whether the scores of a symbol are all on the other side of zero or at it.
pub open spec fn all_bad<N: Number>(points: Seq<Dated<N>>) -> bool {
    forall|i: int| 0 <= i < points.len() ==> no_more((#[trigger] points[i]).item, zero::<N>())
}

proof fn lemma_one_sided_total<N: Number>(points: Seq<Dated<N>>)
    requires
        monotone::<N>(),
    ensures
        all_good(points) ==> no_more(zero::<N>(), total(items(points))),
        all_bad(points) ==> no_more(total(items(points)), zero::<N>()),
    decreases points.len(),
{
    lemma_literals::<N>();
    if points.len() > 0 {
        let front = points.drop_last();
        let last = points[points.len() - 1].item;
        lemma_one_sided_total(front);
        assert(items(points).drop_last() =~= items(front));
        if all_good(points) {
            assert forall|i: int| 0 <= i < front.len() implies no_more(
                zero::<N>(),
                (#[trigger] front[i]).item,
            ) by {
                assert(front[i] == points[i]);
            }
            lemma_sum_order(total(items(front)), last);
        }
        if all_bad(points) {
            assert forall|i: int| 0 <= i < front.len() implies no_more(
                (#[trigger] front[i]).item,
                zero::<N>(),
            ) by {
                assert(front[i] == points[i]);
            }
            lemma_sum_below(total(items(front)), last);
        }
    }
}

proof fn lemma_one_sided_window<N: Number>(points: Seq<Dated<N>>, now: Timestamp, window: int)
    ensures
        all_good(points) ==> all_good(recent(points, now, window)),
        all_bad(points) ==> all_bad(recent(points, now, window)),
{
    let kept = recent(points, now, window);
    law_window_keeps_the_recent(points, now, window);
    let cut = points.len() - kept.len();
    assert forall|i: int| 0 <= i < kept.len() implies #[trigger] kept[i] == points[cut + i] by {}
}

/// Where all that was heard of the symbols of an article is good or neutral, and so is the
/// article, every signal points up; where all of it is bad or neutral, every signal points
/// down.
pub proof fn law_good_news_point_up_and_bad_news_down<N: Number>(
    state: SentimentView<N>,
    article: NewsView<N>,
    now: Timestamp,
    k: int,
)
    requires
        monotone::<N>(),
        less(zero::<N>(), state.threshold),
        state.min_articles > 0,
        0 <= k < news_outcome(state, article, now).1.len(),
        forall|symbol: Seq<char>| #[trigger]
            article.symbols.contains(symbol) ==> points_of(state.articles, symbol).len()
                < usize::MAX,
    ensures
        no_more(zero::<N>(), article_score(article)) && (forall|symbol: Seq<char>| #[trigger]
            article.symbols.contains(symbol) ==> all_good(points_of(state.articles, symbol)))
            ==> news_outcome(state, article, now).1[k].direction == one::<N>(),
        no_more(article_score(article), zero::<N>()) && (forall|symbol: Seq<char>| #[trigger]
            article.symbols.contains(symbol) ==> all_bad(points_of(state.articles, symbol)))
            ==> news_outcome(state, article, now).1[k].direction == minus_one::<N>(),
{
    let nothing = zero::<N>();
    let score = article_score(article);
    let signal = news_outcome(state, article, now).1[k];
    lemma_booked_signals(state, article.symbols, article, now, k);
    let symbol = choose|symbol: Seq<char>|
        article.symbols.contains(symbol) && #[trigger] own_signal(state, symbol, article, now)
            == Some(signal);
    let before = points_of(state.articles, symbol);
    let all = before.push(Dated { item: score, at: now });
    let kept = recent(all, now, state.window_secs as int);
    law_window_keeps_the_recent(all, now, state.window_secs as int);
    lemma_one_sided_window(all, now, state.window_secs as int);
    lemma_one_sided_total(kept);
    let sum_of = total(items(kept));
    let count = counted::<N>(kept.len() as usize);
    lemma_count_is_positive::<N>(kept.len() as usize);
    lemma_quotient_order(sum_of, sum_of, count);
    lemma_compared(nothing, sum_of);
    lemma_compared(sum_of, nothing);
    let avg = average(items(kept));
    assert(signal.value == avg);
    if no_more(nothing, score) && all_good(before) {
        assert(all_good(all)) by {
            assert forall|i: int| 0 <= i < all.len() implies no_more(
                nothing,
                (#[trigger] all[i]).item,
            ) by {
                if i < before.len() {
                    assert(all[i] == before[i]);
                }
            }
        }
        assert(!less(avg, nothing));
    }
    if no_more(score, nothing) && all_bad(before) {
        assert(all_bad(all)) by {
            assert forall|i: int| 0 <= i < all.len() implies no_more(
                (#[trigger] all[i]).item,
                nothing,
            ) by {
                if i < before.len() {
                    assert(all[i] == before[i]);
                }
            }
        }
        assert(!less(nothing, avg));
        lemma_in_order(nothing, state.threshold, magnitude(avg));
    }
}

/// Where the scores of a symbol that an article names are as many as have to agree, and
/// their average reaches the threshold, a signal with that average goes out for the
/// symbol.
pub proof fn law_agreeing_news_is_signalled<N: Number>(
    state: SentimentView<N>,
    article: NewsView<N>,
    now: Timestamp,
    symbol: Seq<char>,
)
    requires
        article.symbols.contains(symbol),
        !less(magnitude(article_score(article)), lit::<N>(1, 10)),
        ({
            let scores = items(
                points_of(news_outcome(state, article, now).0.articles, symbol),
            );
            scores.len() >= state.min_articles && no_more(
                state.threshold,
                magnitude(average(scores)),
            )
        }),
    ensures
        exists|k: int|
            0 <= k < news_outcome(state, article, now).1.len() && #[trigger] speaks_of(
                news_outcome(state, article, now).1[k],
                symbol,
                average(
                    items(points_of(news_outcome(state, article, now).0.articles, symbol)),
                ),
            ),
{
    lemma_booked_once(state, article.symbols, article, now, symbol);
    lemma_own_signal_goes_out(state, article.symbols, article, now, symbol);
    let signals = news_outcome(state, article, now).1;
    let k = choose|k: int|
        0 <= k < signals.len() && #[trigger] signals[k] == own_signal(
            state,
            symbol,
            article,
            now,
        )->0;
    assert(speaks_of(
        signals[k],
        symbol,
        average(items(points_of(news_outcome(state, article, now).0.articles, symbol))),
    ));
}

/// Whether a signal is of one symbol alone, with a given value.
pub open spec fn speaks_of<N>(signal: SignalView<N>, symbol: Seq<char>, value: N) -> bool {
    signal.symbols == seq![symbol] && signal.value == value
}

proof fn lemma_own_signal_goes_out<N: Number>(
    state: SentimentView<N>,
    symbols: Seq<Seq<char>>,
    article: NewsView<N>,
    now: Timestamp,
    symbol: Seq<char>,
)
    requires
        symbols.contains(symbol),
        own_signal(state, symbol, article, now) is Some,
    ensures
        exists|k: int|
            0 <= k < booked(state, symbols, article, now).1.len() && #[trigger] booked(
                state,
                symbols,
                article,
                now,
            ).1[k] == own_signal(state, symbol, article, now)->0,
    decreases symbols.len(),
{
    let front = symbols.drop_last();
    let (articles, earlier) = booked(state, front, article, now);
    let all = booked(state, symbols, article, now).1;
    if front.contains(symbol) {
        lemma_own_signal_goes_out(state, front, article, now, symbol);
        let k = choose|k: int|
            0 <= k < earlier.len() && #[trigger] earlier[k] == own_signal(
                state,
                symbol,
                article,
                now,
            )->0;
        assert(all[k] == earlier[k]);
    } else {
        let i = symbols.index_of(symbol);
        if i < front.len() {
            assert(front[i] == symbol);
        }
        lemma_booked_elsewhere(state, front, article, now, symbol);
        assert(all[earlier.len() as int] == own_signal(state, symbol, article, now)->0);
    }
}

/// The score of an article is the latest one of each symbol that it names.
pub proof fn law_the_latest_score_is_kept<N: Number>(
    state: SentimentView<N>,
    article: NewsView<N>,
    now: Timestamp,
    symbol: Seq<char>,
)
    requires
        article.symbols.contains(symbol),
        article.sentiment_score is Some,
        !less(magnitude(article.sentiment_score->0), lit::<N>(1, 10)),
        state.window_secs >= 0,
    ensures
        ({
            let points = points_of(news_outcome(state, article, now).0.articles, symbol);
            &&& points.len() > 0
            &&& points.last() == Dated { item: article.sentiment_score->0, at: now }
        }),
{
    lemma_booked_once(state, article.symbols, article, now, symbol);
    let all = points_of(state.articles, symbol).push(
        Dated { item: article_score(article), at: now },
    );
    law_window_keeps_the_recent(all, now, state.window_secs as int);
    assert(!all[all.len() - 1].at.outdated(now, state.window_secs as int));
}

/// Whether points are of the same times and of opposite scores, none beyond one.
pub open spec fn opposite(a: Seq<Dated<Fixed>>, b: Seq<Dated<Fixed>>) -> bool {
    &&& a.len() == b.len()
    &&& forall|i: int|
        0 <= i < a.len() ==> (#[trigger] a[i]).at == b[i].at && b[i].item.units
            == -a[i].item.units && -UNIT <= a[i].item.units <= UNIT
}

proof fn lemma_opposite_windows(
    a: Seq<Dated<Fixed>>,
    b: Seq<Dated<Fixed>>,
    now: Timestamp,
    window: int,
)
    requires
        opposite(a, b),
    ensures
        opposite(recent(a, now, window), recent(b, now, window)),
        recent(a, now, window).len() <= a.len(),
    decreases a.len(),
{
    if a.len() > 0 {
        assert(a[0].at == b[0].at);
        if a[0].at.outdated(now, window) {
            let x = a.drop_first();
            let y = b.drop_first();
            assert forall|i: int| 0 <= i < x.len() implies (#[trigger] x[i]).at == y[i].at
                && y[i].item.units == -x[i].item.units && -UNIT <= x[i].item.units <= UNIT by {
                assert(x[i] == a[i + 1] && y[i] == b[i + 1]);
            }
            lemma_opposite_windows(x, y, now, window);
        }
    }
}

proof fn lemma_opposite_totals(a: Seq<Dated<Fixed>>, b: Seq<Dated<Fixed>>)
    requires
        opposite(a, b),
        a.len() <= 1_000_000,
    ensures
        total(items(b)).units == -total(items(a)).units,
        -(a.len() * UNIT) <= total(items(a)).units <= a.len() * UNIT,
    decreases a.len(),
{
    if a.len() > 0 {
        let x = a.drop_last();
        let y = b.drop_last();
        assert forall|i: int| 0 <= i < x.len() implies (#[trigger] x[i]).at == y[i].at
            && y[i].item.units == -x[i].item.units && -UNIT <= x[i].item.units <= UNIT by {
            assert(x[i] == a[i] && y[i] == b[i]);
        }
        lemma_opposite_totals(x, y);
        assert(items(a).drop_last() =~= items(x));
        assert(items(b).drop_last() =~= items(y));
        assert(a[a.len() - 1].at == b[a.len() - 1].at);
    }
}

/// Turning the sign of all scores turns the average and the direction of a symbol's
/// signal, and nothing else: where the news was good and is bad, a signal up becomes one
/// down with the same confidence.
pub proof fn law_opposite_news_point_the_other_way(
    good: SentimentView<Fixed>,
    bad: SentimentView<Fixed>,
    symbol: Seq<char>,
    a: Seq<Dated<Fixed>>,
    b: Seq<Dated<Fixed>>,
    article: NewsView<Fixed>,
    now: Timestamp,
    window: int,
)
    requires
        opposite(a, b),
        a.len() <= 1_000_000,
        good.threshold == bad.threshold,
        good.threshold.units > 0,
        good.min_articles == bad.min_articles,
        good.min_articles > 0,
    ensures
        ({
            let up = sentiment_signal(good, symbol, items(recent(a, now, window)), article, now);
            let down = sentiment_signal(bad, symbol, items(recent(b, now, window)), article, now);
            &&& up is Some <==> down is Some
            &&& up is Some ==> {
                &&& down->0.value.units == -up->0.value.units
                &&& down->0.direction.units == -up->0.direction.units
                &&& down->0.confidence == up->0.confidence
                &&& up->0.direction.units == UNIT || up->0.direction.units == -UNIT
            }
        }),
{
    let x = recent(a, now, window);
    let y = recent(b, now, window);
    lemma_opposite_windows(a, b, now, window);
    lemma_opposite_totals(x, y);
    let n = x.len() as usize;
    if n > 0 {
        let t = total(items(x)).units as int;
        let size = counted::<Fixed>(n).units as int;
        assert(size == n * UNIT);
        lemma_mean_in_range(t, size, n as int);
        assert(average(items(x)) == in_range(whole(t * UNIT, size)));
        assert(-t * UNIT == -(t * UNIT)) by (nonlinear_arith);
        assert(average(items(y)) == in_range(whole(-(t * UNIT), size)));
    }
}

} // verus!
