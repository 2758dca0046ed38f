//! Company news: which articles are new, and what mood their words are in.
use crate::config::FinnhubConfig;
use crate::number::fixed::{lemma_whole_scaled, whole, Fixed, UNIT};
use crate::number::{
    averages, counted, difference, functional, less, lit, minus_one, no_more, one, ordered,
    quotient, sum, within, zero, Number,
};
use crate::text::{
    characters, contains_chars, copy_text, digits, fold_text, folded, join,
    law_digits_tell_the_number, law_joined_texts_come_apart,
    law_texts_are_found_wherever_they_stand, law_trimming_takes_the_white_space_around, lowercase,
    lowercased, natural_text, number_told, occurs, split, trimmed_list, trimmed_pieces, white_space,
};
use crate::time::{from_epoch, utc_now, Timestamp, FIRST_SECOND, LAST_SECOND};
use crate::types::{symbol_names, symbols_of, NewsArticle, NewsView, Symbol};
use std::collections::HashSet;
use vstd::prelude::*;

verus! {

/// Words of clearly bad news.
pub open spec fn strong_negative() -> Seq<Seq<char>> {
    seq![
        "crash"@, "plunge"@, "plummet"@, "collapse"@, "bankrupt"@, "fraud"@, "default"@,
        "layoff"@, "recall"@, "investigation"@, "indictment"@, "downgrade"@, "sell-off"@,
        "selloff"@, "panic"@, "recession"@, "bear market"@, "liquidation"@, "warning"@,
        "miss"@, "shortfall"@, "cuts guidance"@, "lowers guidance"@, "disappointing"@,
    ]
}

/// Words of somewhat bad news.
pub open spec fn mild_negative() -> Seq<Seq<char>> {
    seq![
        "decline"@, "drop"@, "fall"@, "loss"@, "weak"@, "concern"@, "risk"@, "volatility"@,
        "uncertainty"@, "slow"@, "below"@, "pressure"@, "cut"@, "lower"@, "miss"@, "delayed"@,
    ]
}

/// Words of clearly good news.
pub open spec fn strong_positive() -> Seq<Seq<char>> {
    seq![
        "surge"@, "soar"@, "record"@, "breakthrough"@, "beat"@, "exceeds"@, "upgrade"@,
        "bullish"@, "rally"@, "all-time high"@, "acquisition"@, "partnership"@, "approval"@,
        "launches"@, "innovation"@, "growth"@, "raises guidance"@, "strong earnings"@,
        "blowout"@,
    ]
}

/// Words of somewhat good news.
pub open spec fn mild_positive() -> Seq<Seq<char>> {
    seq![
        "gain"@, "rise"@, "up"@, "improve"@, "positive"@, "optimistic"@, "recovery"@,
        "rebound"@, "above"@, "strong"@, "momentum"@, "buy"@, "outperform"@, "higher"@,
    ]
}

/// The views of a list of words.
pub open spec fn word_views(words: Seq<&'static str>) -> Seq<Seq<char>> {
    words.map_values(|w: &'static str| w@)
}

fn strong_negative_words() -> (r: Vec<&'static str>)
    ensures
        word_views(r@) == strong_negative(),
{
    let words: Vec<&'static str> = vec![
        "crash", "plunge", "plummet", "collapse", "bankrupt", "fraud", "default", "layoff",
        "recall", "investigation", "indictment", "downgrade", "sell-off", "selloff", "panic",
        "recession", "bear market", "liquidation", "warning", "miss", "shortfall",
        "cuts guidance", "lowers guidance", "disappointing",
    ];
    assert(word_views(words@) =~= strong_negative());
    words
}

fn mild_negative_words() -> (r: Vec<&'static str>)
    ensures
        word_views(r@) == mild_negative(),
{
    let words: Vec<&'static str> = vec![
        "decline", "drop", "fall", "loss", "weak", "concern", "risk", "volatility",
        "uncertainty", "slow", "below", "pressure", "cut", "lower", "miss", "delayed",
    ];
    assert(word_views(words@) =~= mild_negative());
    words
}

fn strong_positive_words() -> (r: Vec<&'static str>)
    ensures
        word_views(r@) == strong_positive(),
{
    let words: Vec<&'static str> = vec![
        "surge", "soar", "record", "breakthrough", "beat", "exceeds", "upgrade", "bullish",
        "rally", "all-time high", "acquisition", "partnership", "approval", "launches",
        "innovation", "growth", "raises guidance", "strong earnings", "blowout",
    ];
    assert(word_views(words@) =~= strong_positive());
    words
}

fn mild_positive_words() -> (r: Vec<&'static str>)
    ensures
        word_views(r@) == mild_positive(),
{
    let words: Vec<&'static str> = vec![
        "gain", "rise", "up", "improve", "positive", "optimistic", "recovery", "rebound",
        "above", "strong", "momentum", "buy", "outperform", "higher",
    ];
    assert(word_views(words@) =~= mild_positive());
    words
}

/// How many of the words occur in a text.
pub open spec fn found_words(text: Seq<char>, words: Seq<Seq<char>>) -> nat
    decreases words.len(),
{
    if words.len() == 0 {
        0
    } else {
        found_words(text, words.drop_last()) + if occurs(text, words.last()) {
            1nat
        } else {
            0nat
        }
    }
}

/// A score after `weight` was taken from it for each word that occurs in a text.
pub open spec fn lowered<N: Number>(
    text: Seq<char>,
    words: Seq<Seq<char>>,
    weight: N,
    score: N,
) -> N
    decreases words.len(),
{
    if words.len() == 0 {
        score
    } else {
        let before = lowered(text, words.drop_last(), weight, score);
        if occurs(text, words.last()) {
            difference(before, weight)
        } else {
            before
        }
    }
}

/// A score after `weight` was added to it for each word that occurs in a text.
pub open spec fn raised<N: Number>(
    text: Seq<char>,
    words: Seq<Seq<char>>,
    weight: N,
    score: N,
) -> N
    decreases words.len(),
{
    if words.len() == 0 {
        score
    } else {
        let before = raised(text, words.drop_last(), weight, score);
        if occurs(text, words.last()) {
            sum(before, weight)
        } else {
            before
        }
    }
}

/// A score brought within minus one and one.
pub open spec fn bounded<N: Number>(score: N) -> N {
    if less(score, minus_one::<N>()) {
        minus_one::<N>()
    } else if less(one::<N>(), score) {
        one::<N>()
    } else {
        score
    }
}

/// The words of a headline and a summary, in lower case. The letters of the ASCII
/// alphabet are seen to first, which changes nothing in the outcome.
pub open spec fn words_of(headline: Seq<char>, summary: Seq<char>) -> Seq<char> {
    lowercased(folded(headline)) + " "@ + lowercased(folded(summary))
}

/// How many words of mood a text holds.
pub open spec fn mood_words(text: Seq<char>) -> nat {
    found_words(text, strong_negative()) + found_words(text, mild_negative()) + found_words(
        text,
        strong_positive(),
    ) + found_words(text, mild_positive())
}

/// The weights of the words of mood that a text holds, added up.
pub open spec fn mood_total<N: Number>(text: Seq<char>) -> N {
    let a = lowered(text, strong_negative(), one::<N>(), zero::<N>());
    let b = lowered(text, mild_negative(), lit::<N>(4, 10), a);
    let c = raised(text, strong_positive(), one::<N>(), b);
    raised(text, mild_positive(), lit::<N>(4, 10), c)
}

/// The mood of a text in lower case: the mean weight of its words of mood, or zero where
/// it has none. A word counts once for each list that holds it.
pub open spec fn mood<N: Number>(text: Seq<char>) -> N {
    if mood_words(text) == 0 {
        zero::<N>()
    } else {
        bounded(quotient(mood_total::<N>(text), counted::<N>(mood_words(text) as usize)))
    }
}

/// The mood of an article.
pub open spec fn sentiment<N: Number>(headline: Seq<char>, summary: Seq<char>) -> N {
    mood(words_of(headline, summary))
}

proof fn lemma_found_at_most(text: Seq<char>, words: Seq<Seq<char>>)
    ensures
        found_words(text, words) <= words.len(),
    decreases words.len(),
{
    if words.len() > 0 {
        lemma_found_at_most(text, words.drop_last());
    }
}

fn weigh<N: Number>(
    text: &Vec<char>,
    words: &Vec<&'static str>,
    weight: N,
    negative: bool,
    score: N,
) -> (r: (N, usize))
    requires
        functional::<N>(),
    ensures
        r.0 == if negative {
            lowered(text@, word_views(words@), weight, score)
        } else {
            raised(text@, word_views(words@), weight, score)
        },
        r.1 == found_words(text@, word_views(words@)),
{
    let ghost all = word_views(words@);
    let mut score_so_far = score;
    let mut hits: usize = 0;
    let mut i: usize = 0;
    while i < words.len()
        invariant
            functional::<N>(),
            i <= words@.len(),
            hits <= i,
            all == word_views(words@),
            score_so_far == if negative {
                lowered(text@, all.take(i as int), weight, score)
            } else {
                raised(text@, all.take(i as int), weight, score)
            },
            hits == found_words(text@, all.take(i as int)),
        decreases words@.len() - i,
    {
        assert(all.take(i + 1).drop_last() =~= all.take(i as int));
        assert(all.take(i + 1).last() == words@[i as int]@);
        if contains_chars(text, words[i]) {
            score_so_far = if negative {
                score_so_far.minus(weight)
            } else {
                score_so_far.plus(weight)
            };
            hits = hits + 1;
        }
        i = i + 1;
    }
    assert(all.take(i as int) =~= all);
    (score_so_far, hits)
}

/// Keyword-based sentiment scoring, from minus one to one.
///
/// It is simple and fast on purpose. It is no language model: it is after extreme
/// sentiment (crash, surge, layoffs, record earnings), which words tell reliably.
pub fn score_sentiment<N: Number>(headline: &str, summary: &str) -> (r: N)
    requires
        functional::<N>(),
    ensures
        r == sentiment::<N>(headline@, summary@),
{
    let mut joined = lowercase(fold_text(headline).as_str());
    joined.append(" ");
    joined.append(lowercase(fold_text(summary).as_str()).as_str());
    score_words(joined.as_str())
}

/// The mood of a text that is in lower case.
pub fn score_words<N: Number>(words: &str) -> (r: N)
    requires
        functional::<N>(),
    ensures
        r == mood::<N>(words@),
{
    let text = characters(words);
    let ghost words = words@;
    proof {
        lemma_found_at_most(words, strong_negative());
        lemma_found_at_most(words, mild_negative());
        lemma_found_at_most(words, strong_positive());
        lemma_found_at_most(words, mild_positive());
    }
    let strong = N::ratio(1, 1);
    let mild = N::ratio(4, 10);
    let (a, hits_a) = weigh(&text, &strong_negative_words(), strong, true, N::ratio(0, 1));
    let (b, hits_b) = weigh(&text, &mild_negative_words(), mild, true, a);
    let (c, hits_c) = weigh(&text, &strong_positive_words(), strong, false, b);
    let (d, hits_d) = weigh(&text, &mild_positive_words(), mild, false, c);
    let hits: usize = hits_a + hits_b + hits_c + hits_d;
    if hits == 0 {
        return N::ratio(0, 1);
    }
    let score = d.over(N::count(hits));
    let least = N::ratio(-1, 1);
    if score.below(least) {
        least
    } else if strong.below(score) {
        strong
    } else {
        score
    }
}

/// An article as the news service reports it.
#[derive(Debug)]
pub struct FinnhubNewsItem {
    pub id: u64,
    pub headline: String,
    pub summary: String,
    pub source: String,
    pub url: String,
    pub related: String,
    pub datetime: i64,
}

/// The symbols in a list that commas divide.
pub open spec fn related_symbols(related: Seq<char>) -> Seq<Seq<char>> {
    trimmed_pieces(split(related, ','))
}

/// The article that an item stands for, if it came in at `now`. Where its time of
/// publication is out of range, it counts as published then.
pub open spec fn article_meant<N: Number>(item: FinnhubNewsItem, now: Timestamp) -> NewsView<N> {
    NewsView {
        id: digits(item.id as nat),
        title: item.headline@,
        summary: Some(item.summary@),
        source: item.source@,
        url: Some(item.url@),
        symbols: related_symbols(item.related@),
        sentiment_score: Some(sentiment::<N>(item.headline@, item.summary@)),
        published_at: if FIRST_SECOND <= item.datetime <= LAST_SECOND {
            Timestamp { secs: item.datetime, nanos: 0 }
        } else {
            now
        },
        received_at: now,
    }
}

fn symbols_in(related: &str) -> (r: Vec<Symbol>)
    ensures
        symbol_names(r@) == related_symbols(related@),
{
    symbols_of(&trimmed_list(related, ','))
}

/// The article that an item stands for, if it came in at a given time.
pub fn article_at<N: Number>(item: &FinnhubNewsItem, now: Timestamp) -> (r: NewsArticle<N>)
    requires
        functional::<N>(),
    ensures
        r@ == article_meant::<N>(*item, now),
{
    let published_at = match from_epoch(item.datetime) {
        Some(at) => at,
        None => now,
    };
    NewsArticle {
        id: natural_text(item.id as u128),
        title: copy_text(item.headline.as_str()),
        summary: Some(copy_text(item.summary.as_str())),
        source: copy_text(item.source.as_str()),
        url: Some(copy_text(item.url.as_str())),
        symbols: symbols_in(item.related.as_str()),
        sentiment_score: Some(
            score_sentiment(item.headline.as_str(), item.summary.as_str()),
        ),
        published_at,
        received_at: now,
    }
}

/// What comes of items, each of which came in at its time: the ids that were seen and
/// the articles that are new. An item whose id was seen before gives no article.
pub open spec fn taken_in<N: Number>(
    seen: Set<u64>,
    items: Seq<FinnhubNewsItem>,
    times: Seq<Timestamp>,
) -> (Set<u64>, Seq<NewsView<N>>)
    decreases items.len(),
{
    if items.len() == 0 {
        (seen, Seq::empty())
    } else {
        let (known, articles) = taken_in::<N>(seen, items.drop_last(), times.drop_last());
        let item = items.last();
        if known.contains(item.id) {
            (known, articles)
        } else {
            (known.insert(item.id), articles.push(article_meant::<N>(item, times.last())))
        }
    }
}

/// How many ids are remembered at most.
pub const MEMORY: usize = 50_000;

/// What is remembered of the ids that were seen: nothing where there are too many, so
/// that the memory does not grow without bound.
pub open spec fn remembered(seen: Set<u64>) -> Set<u64> {
    if seen.len() > MEMORY {
        Set::empty()
    } else {
        seen
    }
}

/// What a batch of items leads to: the ids that are remembered and the new articles.
pub open spec fn batch_outcome<N: Number>(
    seen: Set<u64>,
    items: Seq<FinnhubNewsItem>,
    times: Seq<Timestamp>,
) -> (Set<u64>, Seq<NewsView<N>>) {
    let (known, articles) = taken_in::<N>(seen, items, times);
    (remembered(known), articles)
}

/// Articles as mathematical values.
pub open spec fn article_views<N>(articles: Seq<NewsArticle<N>>) -> Seq<NewsView<N>> {
    articles.map_values(|a: NewsArticle<N>| a@)
}

/// What the news feed does under its settings.
#[derive(Clone, Copy, Debug, PartialEq, Eq, Structural)]
pub enum FeedState {
    /// It is switched off.
    Disabled,
    /// It has no key to the news service.
    NoKey,
    /// It polls for news.
    Polling,
}

/// Polls the news service for company news and makes articles of what is new. The
/// mood is scored by keywords, which is fast and deterministic.
pub struct FinnhubFeed {
    config: FinnhubConfig,
    seen_ids: HashSet<u64>,
}

impl FinnhubFeed {
    /// The settings.
    pub closed spec fn settings(&self) -> FinnhubConfig {
        self.config
    }

    /// The ids that were seen.
    pub closed spec fn seen(&self) -> Set<u64> {
        self.seen_ids@
    }

    /// A feed that has seen nothing.
    pub fn new(config: FinnhubConfig) -> (r: FinnhubFeed)
        ensures
            r.settings() == config,
            r.seen() == Set::<u64>::empty(),
    {
        FinnhubFeed { config, seen_ids: HashSet::new() }
    }

    /// What the feed does under its settings.
    pub fn state(&self) -> (r: FeedState)
        ensures
            r == if !self.settings().enabled {
                FeedState::Disabled
            } else if self.settings().api_key@.len() == 0 {
                FeedState::NoKey
            } else {
                FeedState::Polling
            },
    {
        if !self.config.enabled {
            FeedState::Disabled
        } else if characters(self.config.api_key.as_str()).len() == 0 {
            FeedState::NoKey
        } else {
            FeedState::Polling
        }
    }

    /// Where the news of a company between two dates is asked for.
    pub fn news_url(&self, symbol: &str, from: &str, to: &str) -> (r: String)
        ensures
            r@ == "https://finnhub.io/api/v1/company-news?symbol="@ + symbol@ + "&from="@ + from@
                + "&to="@ + to@ + "&token="@ + self.settings().api_key@,
    {
        let mut url = copy_text("https://finnhub.io/api/v1/company-news?symbol=");
        url.append(symbol);
        url.append("&from=");
        url.append(from);
        url.append("&to=");
        url.append(to);
        url.append("&token=");
        url.append(self.config.api_key.as_str());
        url
    }

    /// Makes articles of the items that are new. The clock is read for each of them.
    pub fn take_in<N: Number>(&mut self, items: &Vec<FinnhubNewsItem>) -> (r: Vec<NewsArticle<N>>)
        requires
            functional::<N>(),
        ensures
            final(self).settings() == old(self).settings(),
            exists|times: Seq<Timestamp>|
                times.len() == items@.len() && (final(self).seen(), article_views(r@))
                    == #[trigger] batch_outcome::<N>(old(self).seen(), items@, times),
    {
        broadcast use vstd::std_specs::hash::group_hash_axioms;

        let ghost mut times: Seq<Timestamp> = Seq::empty();
        let mut articles: Vec<NewsArticle<N>> = Vec::new();
        let mut i: usize = 0;
        assert(article_views(articles@) =~= taken_in::<N>(
            old(self).seen(),
            items@.take(0),
            times,
        ).1);
        while i < items.len()
            invariant
                functional::<N>(),
                i <= items@.len(),
                times.len() == i,
                self.config == old(self).config,
                (self.seen(), article_views(articles@)) == taken_in::<N>(
                    old(self).seen(),
                    items@.take(i as int),
                    times,
                ),
            decreases items@.len() - i,
        {
            let now = utc_now();
            let ghost before = article_views(articles@);
            proof {
                let earlier = times;
                times = times.push(now);
                assert(times.drop_last() =~= earlier);
                assert(items@.take(i + 1).drop_last() =~= items@.take(i as int));
            }
            let item = &items[i];
            if !self.seen_ids.contains(&item.id) {
                self.seen_ids.insert(item.id);
                let article = article_at::<N>(item, now);
                let ghost view = article@;
                articles.push(article);
                assert(article_views(articles@) =~= before.push(view));
            }
            i = i + 1;
        }
        assert(items@.take(i as int) =~= items@);
        if self.seen_ids.len() > MEMORY {
            self.seen_ids.clear();
        }
        assert((self.seen(), article_views(articles@)) == batch_outcome::<N>(
            old(self).seen(),
            items@,
            times,
        ));
        articles
    }

    /// Takes in the reply to a request for news: the new articles of one that reports
    /// success, or why there are none. A reply that does not leaves the feed as it was.
    pub fn take_reply<N: Number>(
        &mut self,
        status: u16,
        status_text: &str,
        items: &Vec<FinnhubNewsItem>,
    ) -> (r: Result<Vec<NewsArticle<N>>, String>)
        requires
            functional::<N>(),
        ensures
            r is Ok <==> 200 <= status < 300,
            final(self).settings() == old(self).settings(),
            match r {
                Ok(articles) => exists|times: Seq<Timestamp>|
                    times.len() == items@.len() && (final(self).seen(), article_views(articles@))
                        == #[trigger] batch_outcome::<N>(old(self).seen(), items@, times),
                Err(reason) => {
                    &&& reason@ == "Finnhub returned "@ + status_text@
                    &&& final(self).seen() == old(self).seen()
                },
            },
    {
        if status < 200 || status >= 300 {
            let mut reason = copy_text("Finnhub returned ");
            reason.append(status_text);
            return Err(reason);
        }
        Ok(self.take_in(items))
    }
}

proof fn lemma_weights_within<N: Number>(
    text: Seq<char>,
    words: Seq<Seq<char>>,
    weight: N,
    score: N,
    n: nat,
)
    requires
        averages::<N>(),
        no_more(zero::<N>(), weight),
        no_more(weight, one::<N>()),
        n + words.len() <= 1000,
        within(score, n as usize),
    ensures
        within(
            lowered(text, words, weight, score),
            (n + found_words(text, words)) as usize,
        ),
        within(
            raised(text, words, weight, score),
            (n + found_words(text, words)) as usize,
        ),
        found_words(text, words) <= words.len(),
    decreases words.len(),
{
    if words.len() > 0 {
        let front = words.drop_last();
        lemma_weights_within(text, front, weight, score, n);
        let low = lowered(text, front, weight, score);
        let high = raised(text, front, weight, score);
        let so_far = (n + found_words(text, front)) as usize;
        assert(within(low, so_far) && within(high, so_far));
        assert(within(difference(low, weight), (so_far + 1) as usize));
        assert(within(sum(high, weight), (so_far + 1) as usize));
    }
}

/// Scores lie between minus one and one.
pub proof fn law_scores_are_bounded<N: Number>(headline: Seq<char>, summary: Seq<char>)
    requires
        ordered::<N>(),
        averages::<N>(),
    ensures
        !less(sentiment::<N>(headline, summary), minus_one::<N>()),
        !less(one::<N>(), sentiment::<N>(headline, summary)),
        no_more(minus_one::<N>(), sentiment::<N>(headline, summary)),
        no_more(sentiment::<N>(headline, summary), one::<N>()),
{
    let text = words_of(headline, summary);
    let mild = lit::<N>(4, 10);
    let a = found_words(text, strong_negative());
    let b = a + found_words(text, mild_negative());
    let c = b + found_words(text, strong_positive());
    let first = lowered(text, strong_negative(), one::<N>(), zero::<N>());
    let second = lowered(text, mild_negative(), mild, first);
    let third = raised(text, strong_positive(), one::<N>(), second);
    lemma_weights_within(text, strong_negative(), one::<N>(), zero::<N>(), 0);
    lemma_weights_within(text, mild_negative(), mild, first, a);
    lemma_weights_within(text, strong_positive(), one::<N>(), second, b);
    lemma_weights_within(text, mild_positive(), mild, third, c);
    assert(within(mood_total::<N>(text), mood_words(text) as usize));
}

/// Letter case does not matter: articles that differ in the case of ASCII letters alone
/// have the same score.
pub proof fn law_letter_case_does_not_matter<N: Number>(
    headline: Seq<char>,
    summary: Seq<char>,
    other_headline: Seq<char>,
    other_summary: Seq<char>,
)
    requires
        folded(headline) == folded(other_headline),
        folded(summary) == folded(other_summary),
    ensures
        sentiment::<N>(headline, summary) == sentiment::<N>(other_headline, other_summary),
{
}

proof fn lemma_same_words<N: Number>(
    a: Seq<char>,
    b: Seq<char>,
    words: Seq<Seq<char>>,
    weight: N,
    score: N,
)
    requires
        forall|i: int|
            0 <= i < words.len() ==> occurs(a, #[trigger] words[i]) == occurs(b, words[i]),
    ensures
        found_words(a, words) == found_words(b, words),
        lowered(a, words, weight, score) == lowered(b, words, weight, score),
        raised(a, words, weight, score) == raised(b, words, weight, score),
    decreases words.len(),
{
    if words.len() > 0 {
        let front = words.drop_last();
        assert forall|i: int| 0 <= i < front.len() implies occurs(a, #[trigger] front[i]) == occurs(
            b,
            front[i],
        ) by {
            assert(front[i] == words[i]);
        }
        lemma_same_words(a, b, front, weight, score);
        assert(occurs(a, words[words.len() - 1]) == occurs(b, words[words.len() - 1]));
    }
}

/// Only which words of the lists occur matters to the score, not how often or where.
pub proof fn law_words_count_once<N: Number>(a: Seq<char>, b: Seq<char>)
    requires
        forall|w: Seq<char>|
            strong_negative().contains(w) || mild_negative().contains(w)
                || strong_positive().contains(w) || mild_positive().contains(w) ==> #[trigger] occurs(
                a,
                w,
            ) == occurs(b, w),
    ensures
        mood::<N>(a) == mood::<N>(b),
{
    let first = lowered(a, strong_negative(), one::<N>(), zero::<N>());
    let second = lowered(a, mild_negative(), lit::<N>(4, 10), first);
    let third = raised(a, strong_positive(), one::<N>(), second);
    assert forall|i: int| 0 <= i < strong_negative().len() implies occurs(
        a,
        #[trigger] strong_negative()[i],
    ) == occurs(b, strong_negative()[i]) by {
        assert(strong_negative().contains(strong_negative()[i]));
    }
    lemma_same_words(a, b, strong_negative(), one::<N>(), zero::<N>());
    assert forall|i: int| 0 <= i < mild_negative().len() implies occurs(
        a,
        #[trigger] mild_negative()[i],
    ) == occurs(b, mild_negative()[i]) by {
        assert(mild_negative().contains(mild_negative()[i]));
    }
    lemma_same_words(a, b, mild_negative(), lit::<N>(4, 10), first);
    assert forall|i: int| 0 <= i < strong_positive().len() implies occurs(
        a,
        #[trigger] strong_positive()[i],
    ) == occurs(b, strong_positive()[i]) by {
        assert(strong_positive().contains(strong_positive()[i]));
    }
    lemma_same_words(a, b, strong_positive(), one::<N>(), second);
    assert forall|i: int| 0 <= i < mild_positive().len() implies occurs(
        a,
        #[trigger] mild_positive()[i],
    ) == occurs(b, mild_positive()[i]) by {
        assert(mild_positive().contains(mild_positive()[i]));
    }
    lemma_same_words(a, b, mild_positive(), lit::<N>(4, 10), third);
}

/// A text without words of mood is neutral.
pub proof fn law_no_words_no_mood<N: Number>(headline: Seq<char>, summary: Seq<char>)
    requires
        mood_words(words_of(headline, summary)) == 0,
    ensures
        sentiment::<N>(headline, summary) == zero::<N>(),
{
}

/// The ids of items.
pub open spec fn item_ids(items: Seq<FinnhubNewsItem>) -> Set<u64> {
    items.map_values(|i: FinnhubNewsItem| i.id).to_set()
}

/// After items were taken in, their ids are known, and so is every id known before;
/// there is one article for each id that is new.
pub proof fn law_ids_are_noted_once<N: Number>(
    seen: Set<u64>,
    items: Seq<FinnhubNewsItem>,
    times: Seq<Timestamp>,
)
    requires
        seen.finite(),
        times.len() == items.len(),
    ensures
        taken_in::<N>(seen, items, times).0 == seen.union(item_ids(items)),
        taken_in::<N>(seen, items, times).0.finite(),
        taken_in::<N>(seen, items, times).1.len() == taken_in::<N>(seen, items, times).0.len()
            - seen.len(),
    decreases items.len(),
{
    let ids = items.map_values(|i: FinnhubNewsItem| i.id);
    if items.len() == 0 {
        assert(seen.union(item_ids(items)) =~= seen);
    } else {
        let rest = items.drop_last();
        let rest_ids = rest.map_values(|i: FinnhubNewsItem| i.id);
        law_ids_are_noted_once::<N>(seen, rest, times.drop_last());
        assert(ids =~= rest_ids.push(items.last().id));
        assert(item_ids(items) =~= item_ids(rest).insert(items.last().id)) by {
            assert forall|x: u64| item_ids(items).contains(x) <==> #[trigger] item_ids(
                rest,
            ).insert(items.last().id).contains(x) by {
                if ids.contains(x) {
                    let j = choose|j: int| 0 <= j < ids.len() && ids[j] == x;
                    if j < rest_ids.len() {
                        assert(rest_ids[j] == x);
                    }
                }
                if rest_ids.contains(x) {
                    let j = choose|j: int| 0 <= j < rest_ids.len() && rest_ids[j] == x;
                    assert(ids[j] == x);
                }
                assert(ids[ids.len() - 1] == items.last().id);
            }
        }
        let known = taken_in::<N>(seen, rest, times.drop_last()).0;
        assert(taken_in::<N>(seen, items, times).0 =~= seen.union(item_ids(items)));
    }
}

/// Whether an item is new: its id is not known, and no item before it has it.
pub open spec fn is_new(seen: Set<u64>, items: Seq<FinnhubNewsItem>, i: int) -> bool {
    &&& !seen.contains(items[i].id)
    &&& forall|j: int| 0 <= j < i ==> (#[trigger] items[j]).id != items[i].id
}

/// The places of the new items, in order.
pub open spec fn new_places(seen: Set<u64>, items: Seq<FinnhubNewsItem>) -> Seq<int>
    decreases items.len(),
{
    if items.len() == 0 {
        Seq::empty()
    } else {
        let before = new_places(seen, items.drop_last());
        if is_new(seen, items, items.len() - 1) {
            before.push(items.len() - 1)
        } else {
            before
        }
    }
}

/// The ids of the new items, in order.
pub open spec fn new_ids(seen: Set<u64>, items: Seq<FinnhubNewsItem>) -> Seq<u64> {
    new_places(seen, items).map_values(|i: int| items[i].id)
}

/// The articles of a batch are those of its new items, in order: of each id that is not
/// known, the first item.
pub proof fn law_articles_are_the_new_items<N: Number>(
    seen: Set<u64>,
    items: Seq<FinnhubNewsItem>,
    times: Seq<Timestamp>,
)
    requires
        times.len() == items.len(),
    ensures
        ({
            let places = new_places(seen, items);
            let articles = taken_in::<N>(seen, items, times).1;
            &&& articles.len() == places.len()
            &&& forall|k: int|
                0 <= k < places.len() ==> 0 <= #[trigger] places[k] < items.len() && is_new(
                    seen,
                    items,
                    places[k],
                ) && articles[k] == article_meant::<N>(items[places[k]], times[places[k]])
            &&& forall|k: int, l: int| 0 <= k < l < places.len() ==> places[k] < places[l]
            &&& forall|i: int|
                0 <= i < items.len() && #[trigger] is_new(seen, items, i) ==> places.contains(i)
        }),
        forall|id: u64|
            taken_in::<N>(seen, items, times).0.contains(id) <==> seen.contains(id) || exists|j: int|
                0 <= j < items.len() && (#[trigger] items[j]).id == id,
    decreases items.len(),
{
    if items.len() > 0 {
        let front = items.drop_last();
        let last = items.len() - 1;
        law_articles_are_the_new_items::<N>(seen, front, times.drop_last());
        let before = new_places(seen, front);
        let places = new_places(seen, items);
        let known = taken_in::<N>(seen, front, times.drop_last()).0;
        let articles = taken_in::<N>(seen, items, times).1;
        assert forall|i: int| 0 <= i < last implies #[trigger] is_new(seen, front, i) == is_new(
            seen,
            items,
            i,
        ) by {
            assert forall|j: int| 0 <= j < i implies (#[trigger] front[j]) == items[j] by {}
            assert forall|j: int| 0 <= j < i implies (#[trigger] items[j]) == front[j] by {}
        }
        assert(known.contains(items[last].id) == !is_new(seen, items, last)) by {
            if known.contains(items[last].id) && !seen.contains(items[last].id) {
                let j = choose|j: int|
                    0 <= j < front.len() && (#[trigger] front[j]).id == items[last].id;
                assert(items[j].id == items[last].id);
            }
            if !is_new(seen, items, last) && !seen.contains(items[last].id) {
                let j = choose|j: int| 0 <= j < last && (#[trigger] items[j]).id == items[last].id;
                assert(front[j].id == items[last].id);
            }
        }
        assert forall|k: int| 0 <= k < places.len() implies 0 <= #[trigger] places[k] < items.len()
            && is_new(seen, items, places[k]) && articles[k] == article_meant::<N>(
            items[places[k]],
            times[places[k]],
        ) by {
            if k < before.len() {
                assert(places[k] == before[k]);
                assert(is_new(seen, front, before[k]));
            }
        }
        assert forall|k: int, l: int| 0 <= k < l < places.len() implies places[k] < places[l] by {
            assert(places[k] == before[k]);
            if l < before.len() {
                assert(places[l] == before[l]);
            }
        }
        assert forall|i: int| 0 <= i < items.len() && #[trigger] is_new(
            seen,
            items,
            i,
        ) implies places.contains(i) by {
            if i < last {
                assert(is_new(seen, front, i));
                let k = before.index_of(i);
                assert(places[k] == i);
            } else {
                assert(places[places.len() - 1] == i);
            }
        }
        let after = taken_in::<N>(seen, items, times).0;
        assert forall|id: u64| after.contains(id) <==> seen.contains(id) || exists|j: int|
            0 <= j < items.len() && (#[trigger] items[j]).id == id by {
            assert(after.contains(id) <==> known.contains(id) || id == items[last].id);
            if after.contains(id) && !seen.contains(id) {
                if known.contains(id) {
                    let j = choose|j: int| 0 <= j < front.len() && (#[trigger] front[j]).id == id;
                    assert(items[j].id == id);
                } else {
                    assert(items[last].id == id);
                }
            }
            if seen.contains(id) {
                assert(known.contains(id));
            }
            if exists|j: int| 0 <= j < items.len() && (#[trigger] items[j]).id == id {
                let j = choose|j: int| 0 <= j < items.len() && (#[trigger] items[j]).id == id;
                if j < last {
                    assert(front[j].id == id);
                    assert(known.contains(id));
                }
            }
        }
    }
}

/// What a feed knows, and the ids that it has given articles for, after a run of batches.
pub open spec fn after_batches(seen: Set<u64>, batches: Seq<Seq<FinnhubNewsItem>>) -> (
    Set<u64>,
    Seq<u64>,
)
    decreases batches.len(),
{
    if batches.len() == 0 {
        (seen, Seq::empty())
    } else {
        let (known, given) = after_batches(seen, batches.drop_last());
        (
            remembered(known.union(item_ids(batches.last()))),
            given + new_ids(known, batches.last()),
        )
    }
}

/// No id is given twice over a run of batches, nor one that was known before it, as long
/// as the memory holds all that is seen.
pub proof fn law_no_id_is_given_twice(
    seen: Set<u64>,
    batches: Seq<Seq<FinnhubNewsItem>>,
    all: Set<u64>,
)
    requires
        all.finite(),
        all.len() <= MEMORY,
        seen.subset_of(all),
        forall|i: int| 0 <= i < batches.len() ==> item_ids(#[trigger] batches[i]).subset_of(all),
    ensures
        after_batches(seen, batches).1.no_duplicates(),
        seen.subset_of(after_batches(seen, batches).0),
        after_batches(seen, batches).0.subset_of(all),
        forall|id: u64| #[trigger]
            after_batches(seen, batches).1.contains(id) ==> !seen.contains(id) && after_batches(
                seen,
                batches,
            ).0.contains(id),
    decreases batches.len(),
{
    if batches.len() > 0 {
        let front = batches.drop_last();
        let last = batches[batches.len() - 1];
        assert forall|i: int| 0 <= i < front.len() implies item_ids(
            #[trigger] front[i],
        ).subset_of(all) by {
            assert(batches[i] == front[i]);
        }
        law_no_id_is_given_twice(seen, front, all);
        let (known, given) = after_batches(seen, front);
        let fresh = new_ids(known, last);
        let after = known.union(item_ids(last));
        assert(after.subset_of(all));
        vstd::set_lib::lemma_len_subset(after, all);
        let times = Seq::new(last.len(), |i: int| Timestamp { secs: 0, nanos: 0 });
        law_articles_are_the_new_items::<Fixed>(known, last, times);
        let places = new_places(known, last);
        assert forall|k: int| 0 <= k < fresh.len() implies !known.contains(#[trigger] fresh[k])
            && item_ids(last).contains(fresh[k]) by {
            assert(fresh[k] == last[places[k]].id);
            let ids = last.map_values(|i: FinnhubNewsItem| i.id);
            assert(ids[places[k]] == fresh[k]);
        }
        assert forall|k: int, l: int| 0 <= k < l < fresh.len() implies fresh[k] != fresh[l] by {
            assert(places[k] < places[l]);
            assert(is_new(known, last, places[l]));
            assert(last[places[k]].id != last[places[l]].id);
        }
        let together = given + fresh;
        assert forall|k: int, l: int|
            0 <= k < together.len() && 0 <= l < together.len() && k != l implies together[k]
            != together[l] by {
            if k < given.len() {
                assert(given.contains(given[k]));
            } else {
                assert(together[k] == fresh[k - given.len()]);
            }
            if l < given.len() {
                assert(given.contains(given[l]));
            } else {
                assert(together[l] == fresh[l - given.len()]);
            }
        }
        assert forall|id: u64| #[trigger] together.contains(id) implies !seen.contains(id)
            && after.contains(id) by {
            let k = together.index_of(id);
            if k < given.len() {
                assert(given.contains(given[k]));
            } else {
                assert(together[k] == fresh[k - given.len()]);
            }
        }
    }
}

/// Items whose ids are all known give no article and leave the memory as it is.
proof fn lemma_known_items<N: Number>(
    seen: Set<u64>,
    items: Seq<FinnhubNewsItem>,
    times: Seq<Timestamp>,
)
    requires
        forall|i: int| 0 <= i < items.len() ==> seen.contains((#[trigger] items[i]).id),
    ensures
        taken_in::<N>(seen, items, times) == (seen, Seq::<NewsView<N>>::empty()),
    decreases items.len(),
{
    if items.len() > 0 {
        assert forall|i: int| 0 <= i < items.drop_last().len() implies seen.contains(
            (#[trigger] items.drop_last()[i]).id,
        ) by {
            assert(items[i] == items.drop_last()[i]);
        }
        lemma_known_items::<N>(seen, items.drop_last(), times.drop_last());
        assert(seen.contains(items[items.len() - 1].id));
    }
}

/// The same items taken in a second time give no article, as long as the memory was
/// not cleared.
pub proof fn law_news_are_not_repeated<N: Number>(
    seen: Set<u64>,
    items: Seq<FinnhubNewsItem>,
    times: Seq<Timestamp>,
    later: Seq<Timestamp>,
)
    requires
        seen.finite(),
        times.len() == items.len(),
        taken_in::<N>(seen, items, times).0.len() <= MEMORY,
    ensures
        ({
            let known = remembered(taken_in::<N>(seen, items, times).0);
            taken_in::<N>(known, items, later) == (known, Seq::<NewsView<N>>::empty())
        }),
{
    let known = taken_in::<N>(seen, items, times).0;
    law_ids_are_noted_once::<N>(seen, items, times);
    assert forall|i: int| 0 <= i < items.len() implies known.contains((#[trigger] items[i]).id) by {
        let ids = items.map_values(|i: FinnhubNewsItem| i.id);
        assert(ids[i] == items[i].id);
        assert(item_ids(items).contains(items[i].id));
    }
    lemma_known_items::<N>(known, items, later);
}

proof fn lemma_raised_units(text: Seq<char>, words: Seq<Seq<char>>, weight: Fixed, score: Fixed)
    requires
        0 <= weight.units <= UNIT,
        words.len() <= 100,
        -1_000_000_000_000 <= score.units <= 1_000_000_000_000,
    ensures
        raised(text, words, weight, score).units == score.units + weight.units * found_words(
            text,
            words,
        ),
    decreases words.len(),
{
    if words.len() > 0 {
        let front = words.drop_last();
        lemma_raised_units(text, front, weight, score);
        lemma_found_at_most(text, front);
        let found = found_words(text, front) as int;
        assert(0 <= weight.units * found <= 100 * UNIT) by (nonlinear_arith)
            requires
                0 <= weight.units <= UNIT,
                0 <= found <= 100,
        ;
        assert(weight.units * (found + 1) == weight.units * found + weight.units)
            by (nonlinear_arith);
    } else {
        assert(weight.units * 0 == 0) by (nonlinear_arith);
    }
}

proof fn lemma_lowered_units(text: Seq<char>, words: Seq<Seq<char>>, weight: Fixed, score: Fixed)
    requires
        0 <= weight.units <= UNIT,
        words.len() <= 100,
        -1_000_000_000_000 <= score.units <= 1_000_000_000_000,
    ensures
        lowered(text, words, weight, score).units == score.units - weight.units * found_words(
            text,
            words,
        ),
    decreases words.len(),
{
    if words.len() > 0 {
        let front = words.drop_last();
        lemma_lowered_units(text, front, weight, score);
        lemma_found_at_most(text, front);
        let found = found_words(text, front) as int;
        assert(0 <= weight.units * found <= 100 * UNIT) by (nonlinear_arith)
            requires
                0 <= weight.units <= UNIT,
                0 <= found <= 100,
        ;
        assert(weight.units * (found + 1) == weight.units * found + weight.units)
            by (nonlinear_arith);
    } else {
        assert(weight.units * 0 == 0) by (nonlinear_arith);
    }
}

/// The mood of a text with words of mood is the mean of their weights: one for a word of
/// clearly good news, four tenths for one of somewhat good news, and the same below zero for
/// bad news. So more good words than bad ones of a kind make it good, and more bad ones bad.
pub proof fn law_mood_is_the_mean_weight(text: Seq<char>)
    requires
        mood_words(text) > 0,
    ensures
        ({
            let good = 10 * found_words(text, strong_positive()) + 4 * found_words(
                text,
                mild_positive(),
            );
            let bad = 10 * found_words(text, strong_negative()) + 4 * found_words(
                text,
                mild_negative(),
            );
            let units = mood::<Fixed>(text).units;
            &&& units == whole((good - bad) * 100_000, mood_words(text) as int)
            &&& good == bad ==> units == 0
            &&& good > bad ==> 0 < units <= UNIT
            &&& good < bad ==> -UNIT <= units < 0
        }),
{
    let weight = lit::<Fixed>(4, 10);
    assert(weight.units == 400_000);
    assert(one::<Fixed>().units == UNIT && zero::<Fixed>().units == 0);
    let a = lowered(text, strong_negative(), one::<Fixed>(), zero::<Fixed>());
    let b = lowered(text, mild_negative(), weight, a);
    let c = raised(text, strong_positive(), one::<Fixed>(), b);
    lemma_found_at_most(text, strong_negative());
    lemma_found_at_most(text, mild_negative());
    lemma_found_at_most(text, strong_positive());
    lemma_found_at_most(text, mild_positive());
    lemma_lowered_units(text, strong_negative(), one::<Fixed>(), zero::<Fixed>());
    lemma_lowered_units(text, mild_negative(), weight, a);
    lemma_raised_units(text, strong_positive(), one::<Fixed>(), b);
    lemma_raised_units(text, mild_positive(), weight, c);
    let n = mood_words(text) as int;
    let good = 10 * found_words(text, strong_positive()) + 4 * found_words(text, mild_positive());
    let bad = 10 * found_words(text, strong_negative()) + 4 * found_words(text, mild_negative());
    let t = (good - bad) * 100_000;
    assert(mood_total::<Fixed>(text).units == t);
    assert(n <= 73);
    assert(counted::<Fixed>(n as usize).units == n * UNIT);
    assert(good <= 10 * n && bad <= 10 * n);
    lemma_whole_scaled(t, n);
    let size = if t >= 0 { t } else { -t };
    assert(size <= UNIT * n);
    assert(0 <= size / n <= UNIT && (size >= n ==> size / n > 0)) by (nonlinear_arith)
        requires
            0 <= size <= UNIT * n,
            n > 0,
            UNIT == 1_000_000,
    ;
    assert(size == 0 || size >= 100_000);
}

/// An article tells what its item tells, each part in its own place; its id is the item's
/// number, and it was published at the second that the item gives.
pub proof fn law_articles_tell_their_items<N: Number>(item: FinnhubNewsItem, now: Timestamp)
    ensures
        ({
            let article = article_meant::<N>(item, now);
            &&& number_told(article.id) == item.id
            &&& article.title == item.headline@
            &&& article.summary == Some(item.summary@)
            &&& article.source == item.source@
            &&& article.url == Some(item.url@)
            &&& article.received_at == now
            &&& article.sentiment_score is Some
            &&& FIRST_SECOND <= item.datetime <= LAST_SECOND ==> article.published_at.value()
                == item.datetime * 1_000_000_000
            &&& !(FIRST_SECOND <= item.datetime <= LAST_SECOND) ==> article.published_at == now
        }),
{
    law_digits_tell_the_number(item.id as nat);
}

/// An article is about the symbols that its item lists, in their order: names without
/// commas or white space around them come out of the list as they went in.
pub proof fn law_listed_symbols_come_out<N: Number>(
    item: FinnhubNewsItem,
    now: Timestamp,
    names: Seq<Seq<char>>,
)
    requires
        names.len() > 0,
        forall|i: int|
            0 <= i < names.len() ==> {
                let name = #[trigger] names[i];
                &&& name.len() > 0
                &&& !name.contains(',')
                &&& !white_space(name[0])
                &&& !white_space(name.last())
            },
        item.related@ == join(names, ","@),
    ensures
        article_meant::<N>(item, now).symbols == names,
{
    reveal_strlit(",");
    assert(","@ =~= seq![',']);
    law_joined_texts_come_apart(names, ',');
    lemma_plain_pieces(names);
}

proof fn lemma_plain_pieces(names: Seq<Seq<char>>)
    requires
        forall|i: int|
            0 <= i < names.len() ==> {
                let name = #[trigger] names[i];
                name.len() > 0 && !white_space(name[0]) && !white_space(name.last())
            },
    ensures
        trimmed_pieces(names) == names,
    decreases names.len(),
{
    if names.len() > 0 {
        let front = names.drop_last();
        assert forall|i: int| 0 <= i < front.len() implies {
            let name = #[trigger] front[i];
            name.len() > 0 && !white_space(name[0]) && !white_space(name.last())
        } by {
            assert(front[i] == names[i]);
        }
        lemma_plain_pieces(front);
        assert(names[names.len() - 1] == names.last());
        law_trimming_takes_the_white_space_around(names.last());
        assert(front.push(names.last()) =~= names);
    } else {
        assert(trimmed_pieces(names) =~= names);
    }
}

/// A word of bad news makes a text without words of good news bad, wherever in the headline
/// or the summary it stands, and a word of good news one without bad ones good.
pub proof fn law_words_set_the_mood(text: Seq<char>, before: Seq<char>, word: Seq<char>,
    behind: Seq<char>,
)
    requires
        text == before + word + behind,
    ensures
        (strong_negative().contains(word) || mild_negative().contains(word)) && found_words(
            text,
            strong_positive(),
        ) == 0 && found_words(text, mild_positive()) == 0 ==> mood::<Fixed>(text).units < 0,
        (strong_positive().contains(word) || mild_positive().contains(word)) && found_words(
            text,
            strong_negative(),
        ) == 0 && found_words(text, mild_negative()) == 0 ==> mood::<Fixed>(text).units > 0,
{
    law_texts_are_found_wherever_they_stand(before, word, behind);
    lemma_listed_word_is_found(text, strong_negative(), word);
    lemma_listed_word_is_found(text, mild_negative(), word);
    lemma_listed_word_is_found(text, strong_positive(), word);
    lemma_listed_word_is_found(text, mild_positive(), word);
    if mood_words(text) > 0 {
        law_mood_is_the_mean_weight(text);
    }
}

proof fn lemma_listed_word_is_found(text: Seq<char>, words: Seq<Seq<char>>, word: Seq<char>)
    ensures
        words.contains(word) && occurs(text, word) ==> found_words(text, words) > 0,
    decreases words.len(),
{
    if words.contains(word) && occurs(text, word) {
        let i = words.index_of(word);
        if i < words.len() - 1 {
            assert(words.drop_last()[i] == word);
            lemma_listed_word_is_found(text, words.drop_last(), word);
        }
    }
}

/// Up to fifty thousand ids are remembered; with more, all are forgotten.
pub proof fn law_memory_is_bounded(seen: Set<u64>)
    ensures
        seen.len() <= 50_000 ==> remembered(seen) == seen,
        seen.len() > 50_000 ==> remembered(seen) == Set::<u64>::empty(),
{
}

} // verus!
