//! The stock market: one quote per ticker, and the total traded volume.
use vstd::prelude::*;
use crate::quote::{QuoteView, StockQuote};

verus! {

/// How often the market's quotes are updated, in milliseconds.
pub const UPDATE_INTERVAL_MS: u64 = 2000;

/// The quotes' values, in order.
pub open spec fn quotes_view(v: Seq<StockQuote>) -> Seq<QuoteView> {
    v.map_values(|q: StockQuote| q@)
}

/// No two quotes share a ticker.
pub open spec fn distinct_tickers(s: Seq<QuoteView>) -> bool {
    forall|i: int, j: int| 0 <= i < j < s.len() ==> s[i].ticker != s[j].ticker
}

/// Some quote has the ticker.
pub open spec fn has_ticker(s: Seq<QuoteView>, t: Seq<char>) -> bool {
    exists|i: int| 0 <= i < s.len() && s[i].ticker == t
}

/// The position of a quote with the ticker.
pub open spec fn position(s: Seq<QuoteView>, t: Seq<char>) -> int {
    choose|i: int| 0 <= i < s.len() && s[i].ticker == t
}

/// The quote for a ticker, if there is one.
pub open spec fn lookup(s: Seq<QuoteView>, t: Seq<char>) -> Option<QuoteView> {
    if has_ticker(s, t) {
        Some(s[position(s, t)])
    } else {
        None
    }
}

/// Inserting a quote keyed by its ticker: it replaces the quote with the same
/// ticker in place, or is added at the end.
pub open spec fn insert_quote(s: Seq<QuoteView>, q: QuoteView) -> Seq<QuoteView> {
    if has_ticker(s, q.ticker) {
        s.update(position(s, q.ticker), q)
    } else {
        s.push(q)
    }
}

/// The market's quotes after inserting the given quotes one after another.
pub open spec fn build(qs: Seq<QuoteView>) -> Seq<QuoteView>
    decreases qs.len(),
{
    if qs.len() == 0 {
        seq![]
    } else {
        insert_quote(build(qs.drop_last()), qs.last())
    }
}

/// The sum of the quotes' volumes.
pub open spec fn volume_sum(qs: Seq<QuoteView>) -> nat
    decreases qs.len(),
{
    if qs.len() == 0 {
        0
    } else {
        volume_sum(qs.drop_last()) + qs.last().volume as nat
    }
}

/// The two lists hold quotes for the same tickers, in the same order.
pub open spec fn same_tickers(a: Seq<QuoteView>, b: Seq<QuoteView>) -> bool {
    &&& a.len() == b.len()
    &&& forall|i: int| 0 <= i < a.len() ==> #[trigger] a[i].ticker == b[i].ticker
}

/// The last of the quotes with the ticker, if any.
pub open spec fn last_with_ticker(qs: Seq<QuoteView>, t: Seq<char>) -> Option<QuoteView>
    decreases qs.len(),
{
    if qs.len() == 0 {
        None
    } else if qs.last().ticker == t {
        Some(qs.last())
    } else {
        last_with_ticker(qs.drop_last(), t)
    }
}

/// The market: its quotes in listing order, and the total volume.
pub struct MarketView {
    pub stocks: Seq<QuoteView>,
    pub total_volume: u32,
}

/// A market of quotes, one per ticker.
pub struct StockMarket {
    stocks: Vec<StockQuote>,
    total_volume: u32,
}

impl View for StockMarket {
    type V = MarketView;

    closed spec fn view(&self) -> MarketView {
        MarketView { stocks: quotes_view(self.stocks@), total_volume: self.total_volume }
    }
}

/// With distinct tickers, the position of a ticker is the one place it occurs.
pub proof fn lemma_position_unique(s: Seq<QuoteView>, i: int)
    requires
        distinct_tickers(s),
        0 <= i < s.len(),
    ensures
        has_ticker(s, s[i].ticker),
        position(s, s[i].ticker) == i,
        lookup(s, s[i].ticker) == Some(s[i]),
{
    assert(0 <= i < s.len() && s[i].ticker == s[i].ticker);
    let p = position(s, s[i].ticker);
    if p != i {
        if p < i {
            assert(s[p].ticker != s[i].ticker);
        } else {
            assert(s[i].ticker != s[p].ticker);
        }
    }
}

/// Inserting keeps the tickers distinct.
pub proof fn lemma_insert_distinct(s: Seq<QuoteView>, q: QuoteView)
    requires
        distinct_tickers(s),
    ensures
        distinct_tickers(insert_quote(s, q)),
{
    let r = insert_quote(s, q);
    if has_ticker(s, q.ticker) {
        let p = position(s, q.ticker);
        assert forall|i: int, j: int| 0 <= i < j < r.len() implies r[i].ticker != r[j].ticker by {
            if i == p {
                assert(s[p].ticker == q.ticker);
            } else if j == p {
                assert(s[p].ticker == q.ticker);
            }
        }
    } else {
        assert forall|i: int, j: int| 0 <= i < j < r.len() implies r[i].ticker != r[j].ticker by {
            if j == s.len() {
                assert(!(0 <= i < s.len() && s[i].ticker == q.ticker));
            }
        }
    }
}

/// The quotes built from any list have distinct tickers.
pub proof fn law_build_distinct(qs: Seq<QuoteView>)
    ensures
        distinct_tickers(build(qs)),
    decreases qs.len(),
{
    if qs.len() > 0 {
        law_build_distinct(qs.drop_last());
        lemma_insert_distinct(build(qs.drop_last()), qs.last());
    }
}

/// After the quotes are inserted, looking up a ticker gives the last quote for
/// it, and nothing for a ticker that none of them has.
pub proof fn law_lookup_last(qs: Seq<QuoteView>, t: Seq<char>)
    ensures
        lookup(build(qs), t) == last_with_ticker(qs, t),
    decreases qs.len(),
{
    if qs.len() > 0 {
        let prev = build(qs.drop_last());
        let q = qs.last();
        law_lookup_last(qs.drop_last(), t);
        law_build_distinct(qs.drop_last());
        lemma_insert_distinct(prev, q);
        let cur = build(qs);
        if q.ticker == t {
            if has_ticker(prev, t) {
                let p = position(prev, t);
                assert(cur[p] == q);
                lemma_position_unique(cur, p);
            } else {
                assert(cur[prev.len() as int] == q);
                lemma_position_unique(cur, prev.len() as int);
            }
        } else {
            if has_ticker(prev, t) {
                let p = position(prev, t);
                assert(cur[p] == prev[p]);
                lemma_position_unique(cur, p);
            } else {
                assert(!has_ticker(cur, t)) by {
                    if has_ticker(cur, t) {
                        let i = position(cur, t);
                        if has_ticker(prev, q.ticker) {
                            assert(prev[i].ticker == t || i == position(prev, q.ticker));
                        } else {
                            assert(i < prev.len() ==> prev[i].ticker == t);
                        }
                    }
                }
            }
        }
    }
}

/// When no ticker repeats, the market holds the quotes as given, in order.
pub proof fn law_build_distinct_input(qs: Seq<QuoteView>)
    requires
        distinct_tickers(qs),
    ensures
        build(qs) == qs,
        volume_sum(build(qs)) == volume_sum(qs),
    decreases qs.len(),
{
    if qs.len() > 0 {
        let prev = qs.drop_last();
        assert(distinct_tickers(prev));
        law_build_distinct_input(prev);
        assert(!has_ticker(prev, qs.last().ticker)) by {
            if has_ticker(prev, qs.last().ticker) {
                let i = position(prev, qs.last().ticker);
                assert(qs[i].ticker != qs[qs.len() - 1].ticker);
            }
        }
        assert(prev.push(qs.last()) =~= qs);
    }
}

/// The sum over a prefix is at most the sum over the whole.
pub proof fn lemma_volume_sum_prefix(qs: Seq<QuoteView>, k: int)
    requires
        0 <= k <= qs.len(),
    ensures
        volume_sum(qs.take(k)) <= volume_sum(qs),
    decreases qs.len(),
{
    if k < qs.len() {
        lemma_volume_sum_prefix(qs.drop_last(), k);
        assert(qs.drop_last().take(k) =~= qs.take(k));
    } else {
        assert(qs.take(k) =~= qs);
    }
}

/// The position of the quote with the ticker, if any.
fn find_ticker(stocks: &Vec<StockQuote>, ticker: &String) -> (r: Option<usize>)
    ensures
        match r {
            Some(j) => j < stocks.len() && stocks@[j as int].ticker@ == ticker@,
            None => !has_ticker(quotes_view(stocks@), ticker@),
        },
{
    let mut j: usize = 0;
    while j < stocks.len()
        invariant
            j <= stocks.len(),
            forall|k: int| 0 <= k < j ==> stocks@[k].ticker@ != ticker@,
        decreases stocks.len() - j,
    {
        if stocks[j].ticker == *ticker {
            return Some(j);
        }
        j += 1;
    }
    assert(!has_ticker(quotes_view(stocks@), ticker@)) by {
        if has_ticker(quotes_view(stocks@), ticker@) {
            let k = position(quotes_view(stocks@), ticker@);
            assert(stocks@[k].ticker@ != ticker@);
        }
    }
    None
}

impl StockMarket {
    #[verifier::type_invariant]
    spec fn tickers_distinct(&self) -> bool {
        distinct_tickers(quotes_view(self.stocks@))
    }

    /// The market built from the quotes, inserted one after another keyed by
    /// ticker; the total volume counts every quote given.
    pub fn new(quotes: Vec<StockQuote>) -> (r: StockMarket)
        requires
            volume_sum(quotes_view(quotes@)) <= u32::MAX,
        ensures
            r@ == (MarketView {
                stocks: build(quotes_view(quotes@)),
                total_volume: volume_sum(quotes_view(quotes@)) as u32,
            }),
            distinct_tickers(r@.stocks),
    {
        let ghost qs = quotes_view(quotes@);
        let mut stocks: Vec<StockQuote> = Vec::new();
        let mut total: u32 = 0;
        let mut i: usize = 0;
        assert(qs.take(0) =~= seq![]);
        assert(quotes_view(stocks@) =~= seq![]);
        while i < quotes.len()
            invariant
                i <= quotes.len(),
                qs == quotes_view(quotes@),
                volume_sum(qs) <= u32::MAX,
                quotes_view(stocks@) == build(qs.take(i as int)),
                distinct_tickers(quotes_view(stocks@)),
                total as nat == volume_sum(qs.take(i as int)),
            decreases quotes.len() - i,
        {
            let q = quotes[i].copy();
            let ghost before = quotes_view(stocks@);
            assert(qs.take(i + 1).drop_last() =~= qs.take(i as int));
            assert(qs.take(i + 1).last() == q@);
            proof {
                lemma_volume_sum_prefix(qs, i + 1);
            }
            total = total + q.volume;
            proof {
                lemma_insert_distinct(before, q@);
            }
            match find_ticker(&stocks, &q.ticker) {
                Some(j) => {
                    proof {
                        lemma_position_unique(before, j as int);
                    }
                    stocks.set(j, q);
                    assert(quotes_view(stocks@) =~= before.update(j as int, q@));
                },
                None => {
                    stocks.push(q);
                    assert(quotes_view(stocks@) =~= before.push(q@));
                },
            }
            i += 1;
        }
        assert(qs.take(quotes.len() as int) =~= qs);
        StockMarket { stocks, total_volume: total }
    }

    /// The quotes, in listing order.
    pub fn stocks(&self) -> (r: &Vec<StockQuote>)
        ensures
            quotes_view(r@) == self@.stocks,
            distinct_tickers(self@.stocks),
    {
        proof {
            use_type_invariant(self);
        }
        &self.stocks
    }

    /// The total volume.
    pub fn total_volume(&self) -> (r: u32)
        ensures
            r == self@.total_volume,
            distinct_tickers(self@.stocks),
    {
        proof {
            use_type_invariant(self);
        }
        self.total_volume
    }

    /// The quote for a ticker, if there is one.
    pub fn get(&self, ticker: &String) -> (r: Option<&StockQuote>)
        ensures
            match r {
                Some(q) => lookup(self@.stocks, ticker@) == Some(q@),
                None => lookup(self@.stocks, ticker@) is None,
            },
            distinct_tickers(self@.stocks),
    {
        proof {
            use_type_invariant(self);
        }
        match find_ticker(&self.stocks, ticker) {
            Some(j) => {
                proof {
                    lemma_position_unique(self@.stocks, j as int);
                }
                Some(&self.stocks[j])
            },
            None => None,
        }
    }

    /// Replaces every quote by its refreshed version (same ticker, same place);
    /// the total volume becomes the sum of the refreshed volumes.
    pub fn update(&mut self, refreshed: Vec<StockQuote>)
        requires
            same_tickers(old(self)@.stocks, quotes_view(refreshed@)),
            volume_sum(quotes_view(refreshed@)) <= u32::MAX,
        ensures
            final(self)@ == (MarketView {
                stocks: quotes_view(refreshed@),
                total_volume: volume_sum(quotes_view(refreshed@)) as u32,
            }),
            final(self)@.total_volume == volume_sum(final(self)@.stocks),
            distinct_tickers(final(self)@.stocks),
    {
        proof {
            use_type_invariant(&*self);
        }
        let ghost rs = quotes_view(refreshed@);
        let mut total: u32 = 0;
        let mut i: usize = 0;
        assert(rs.take(0) =~= seq![]);
        while i < refreshed.len()
            invariant
                i <= refreshed.len(),
                rs == quotes_view(refreshed@),
                volume_sum(rs) <= u32::MAX,
                total as nat == volume_sum(rs.take(i as int)),
            decreases refreshed.len() - i,
        {
            assert(rs.take(i + 1).drop_last() =~= rs.take(i as int));
            proof {
                lemma_volume_sum_prefix(rs, i + 1);
            }
            total = total + refreshed[i].volume;
            i += 1;
        }
        assert(rs.take(refreshed.len() as int) =~= rs);
        let ghost old_s = self@.stocks;
        assert forall|a: int, b: int| 0 <= a < b < rs.len() implies rs[a].ticker
            != rs[b].ticker by {
            assert(old_s[a].ticker == rs[a].ticker);
            assert(old_s[b].ticker == rs[b].ticker);
        }
        *self = StockMarket { stocks: refreshed, total_volume: total };
    }
}

/// The total volume counts every quote: adding a quote adds its volume, and
/// nothing counts for no quotes.
pub proof fn law_volume_sum_push(qs: Seq<QuoteView>, q: QuoteView)
    ensures
        volume_sum(qs.push(q)) == volume_sum(qs) + q.volume,
        volume_sum(Seq::<QuoteView>::empty()) == 0,
{
    assert(qs.push(q).drop_last() =~= qs);
}

/// The total over two lists of quotes is the sum of their totals.
pub proof fn law_volume_sum_concat(a: Seq<QuoteView>, b: Seq<QuoteView>)
    ensures
        volume_sum(a + b) == volume_sum(a) + volume_sum(b),
    decreases b.len(),
{
    if b.len() == 0 {
        assert(a + b =~= a);
    } else {
        assert((a + b).drop_last() =~= a + b.drop_last());
        law_volume_sum_concat(a, b.drop_last());
    }
}

/// Every quote's volume counts toward the total: the total is at least any one
/// quote's volume, and is the sum of one quote's volume and the others' total.
pub proof fn law_volume_sum_each(qs: Seq<QuoteView>, i: int)
    requires
        0 <= i < qs.len(),
    ensures
        volume_sum(qs) == volume_sum(qs.take(i)) + qs[i].volume + volume_sum(qs.skip(i + 1)),
        volume_sum(qs) >= qs[i].volume,
{
    assert(qs =~= qs.take(i).push(qs[i]) + qs.skip(i + 1));
    law_volume_sum_concat(qs.take(i).push(qs[i]), qs.skip(i + 1));
    law_volume_sum_push(qs.take(i), qs[i]);
}

} // verus!
