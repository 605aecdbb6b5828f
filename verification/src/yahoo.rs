//! Yahoo: what is asked of it, and what is read from its replies.

use vstd::prelude::*;
use vstd::string::*;
use crate::calendar::{day_of, known, timestamp_day};
use crate::feeds::sorted_keeps_known;
use crate::json::{json_document, read_json, trees, Json, JsonTree};
use crate::kraken::uppercase;
use crate::order::{dedup, deduped, deduped_is_strict, first_of_each_key_is_left, of_key, sort, sorted, sorted_is_rising, strictly_rising};
use crate::scalar::Scalar;
use crate::series::Obs;
use crate::text::{cat, chars_of, matches_at, matches_here, part, text_of};

verus! {

/// The first item of a list of results.
pub open spec fn chart_result(v: JsonTree) -> Option<JsonTree> {
    v.at("chart"@).at("result"@).item(0)
}

/// The closing prices of a result.
pub open spec fn chart_closes(result: JsonTree) -> Option<Seq<JsonTree>> {
    match result.at("indicators"@).at("quote"@).item(0) {
        Some(q) => q.at("close"@).as_items(),
        None => None,
    }
}

/// Times and prices side by side, as they are written, without those that are no numbers.
pub open spec fn number_pairs(t: Seq<JsonTree>, c: Seq<JsonTree>) -> Seq<(Seq<char>, Seq<char>)>
    decreases t.len(),
{
    if t.len() == 0 || c.len() == 0 {
        Seq::empty()
    } else if t.len() > c.len() {
        number_pairs(t.drop_last(), c)
    } else {
        let last = c[t.len() - 1];
        match (t.last().as_decimal(), last.as_decimal()) {
            (Some(x), Some(y)) => number_pairs(t.drop_last(), c).push((x, y)),
            _ => number_pairs(t.drop_last(), c),
        }
    }
}

/// What is read of a chart of Yahoo, or what is missing in it.
pub open spec fn chart_points(v: JsonTree) -> Result<Seq<(Seq<char>, Seq<char>)>, Seq<char>> {
    match chart_result(v) {
        None => Err("no result"@),
        Some(result) => match result.at("timestamp"@).as_items() {
            None => Err("no timestamps"@),
            Some(t) => match chart_closes(result) {
                None => Err("no closes"@),
                Some(c) => Ok(number_pairs(t, c)),
            },
        },
    }
}

/// A time and a price, as they are written.
#[derive(Debug)]
pub struct ChartPoint {
    pub time: String,
    pub close: String,
}

pub open spec fn point_views(v: Seq<ChartPoint>) -> Seq<(Seq<char>, Seq<char>)> {
    v.map_values(|p: ChartPoint| (p.time@, p.close@))
}

pub open spec fn points_result(r: Result<Vec<ChartPoint>, String>) -> Result<Seq<(Seq<char>, Seq<char>)>, Seq<char>> {
    match r {
        Ok(v) => Ok(point_views(v@)),
        Err(e) => Err(e@),
    }
}

proof fn pairs_of_more(t: Seq<JsonTree>, c: Seq<JsonTree>, n: int)
    requires
        0 <= n <= t.len(),
        n == c.len() || n == t.len(),
        n <= c.len(),
    ensures
        number_pairs(t, c) == number_pairs(t.take(n), c),
    decreases t.len(),
{
    if t.len() > n {
        if c.len() == 0 {
        } else {
            pairs_of_more(t.drop_last(), c, n);
            assert(t.drop_last().take(n) =~= t.take(n));
        }
    } else {
        assert(t.take(n) =~= t);
    }
}

/// The times and prices of a chart of Yahoo, as they are written, or what is missing in it.
pub fn chart_of(v: &Json) -> (r: Result<Vec<ChartPoint>, String>)
    ensures
        points_result(r) == chart_points(v.tree()),
{
    let null = Json::Null;
    let chart = match v.get("chart") {
        Some(c) => c,
        None => &null,
    };
    let results = match chart.get("result") {
        Some(c) => c,
        None => &null,
    };
    match results.item(0) {
        None => Err(String::from_str("no result")),
        Some(result) => match result.items_at("timestamp") {
            None => Err(String::from_str("no timestamps")),
            Some(times) => {
                let indicators = match result.get("indicators") {
                    Some(c) => c,
                    None => &null,
                };
                let quotes = match indicators.get("quote") {
                    Some(c) => c,
                    None => &null,
                };
                match quotes.item(0) {
                    None => Err(String::from_str("no closes")),
                    Some(quote) => match quote.items_at("close") {
                        None => Err(String::from_str("no closes")),
                        Some(prices) => {
                            let out = pair_numbers(times, prices);
                            Ok(out)
                        },
                    },
                }
            },
        },
    }
}

fn pair_numbers(times: &Vec<Json>, prices: &Vec<Json>) -> (r: Vec<ChartPoint>)
    ensures
        point_views(r@) == number_pairs(trees(times@), trees(prices@)),
{
    let n: usize = if times.len() < prices.len() {
        times.len()
    } else {
        prices.len()
    };
    let ghost t = trees(times@);
    let ghost c = trees(prices@);
    let mut out: Vec<ChartPoint> = Vec::new();
    assert(point_views(out@) =~= Seq::<(Seq<char>, Seq<char>)>::empty());
    for i in 0..n
        invariant
            t == trees(times@),
            c == trees(prices@),
            n <= times@.len(),
            n <= prices@.len(),
            point_views(out@) == number_pairs(t.take(i as int), c),
    {
        assert(t.take(i + 1).drop_last() =~= t.take(i as int));
        assert(t.take(i + 1).last() == times@[i as int].tree());
        assert(c[i as int] == prices@[i as int].tree());
        if let Some(time) = times[i].as_decimal() {
            if let Some(close) = prices[i].as_decimal() {
                let ghost before = point_views(out@);
                let p = ChartPoint { time: String::from_str(time), close: String::from_str(close) };
                out.push(p);
                assert(point_views(out@) =~= before.push((p.time@, p.close@)));
            }
        }
    }
    proof {
        pairs_of_more(t, c, n as int);
    }
    out
}

/// The times and prices of a chart of Yahoo, from its reply, or why there are none.
pub fn read_chart(body: &str) -> (r: Result<Vec<ChartPoint>, String>)
    ensures
        points_result(r) == (match json_document(body@) {
            Ok(v) => chart_points(v),
            Err(e) => Err(e),
        }),
{
    match read_json(body) {
        Ok(v) => chart_of(&v),
        Err(e) => Err(e),
    }
}

/// A price at a second of Unix time.
#[derive(Clone, Copy, PartialEq, Eq, Structural, Debug)]
pub struct Timed {
    pub seconds: i64,
    pub price: Scalar,
}

/// Prices on days that are known.
pub open spec fn on_days(s: Seq<Timed>) -> Seq<Obs>
    decreases s.len(),
{
    if s.len() == 0 {
        Seq::empty()
    } else {
        match day_of(s.last().seconds as int) {
            Some(day) => on_days(s.drop_last()).push(Obs { day, value: s.last().price }),
            None => on_days(s.drop_last()),
        }
    }
}

/// Prices by rising day, one for each day: the first that came.
pub fn daily_prices(s: &Vec<Timed>) -> (r: Vec<Obs>)
    ensures
        r@ == deduped(sorted(on_days(s@))),
        strictly_rising(r@),
        forall|i: int| 0 <= i < r@.len() ==> known((#[trigger] r@[i]).day as int),
{
    let n: usize = s.len();
    let mut out: Vec<Obs> = Vec::new();
    assert(out@ =~= on_days(s@.take(0)));
    for i in 0..n
        invariant
            n == s@.len(),
            out@ == on_days(s@.take(i as int)),
            forall|j: int| 0 <= j < out@.len() ==> known((#[trigger] out@[j]).day as int),
    {
        assert(s@.take(i + 1).drop_last() =~= s@.take(i as int));
        if let Some(day) = timestamp_day(s[i].seconds) {
            out.push(Obs { day, value: s[i].price });
        }
    }
    assert(s@.take(n as int) =~= s@);
    let by_day = sort(&out);
    let r = dedup(&by_day);
    proof {
        sorted_is_rising(out@);
        sorted_keeps_known(out@);
        deduped_is_strict(sorted(out@));
        assert forall|i: int| 0 <= i < r@.len() implies known((#[trigger] r@[i]).day as int) by {
            assert(by_day@.contains(deduped(by_day@)[i]));
            let j = choose|j: int| 0 <= j < by_day@.len() && by_day@[j] == r@[i];
            assert(known(by_day@[j].day as int));
        }
    }
    r
}

/// A text without the pieces `end` at its end.
pub open spec fn without_end(s: Seq<char>, end: Seq<char>) -> Seq<char>
    decreases s.len(),
{
    if end.len() > 0 && s.len() >= end.len() && matches_at(s, s.len() - end.len(), end) {
        without_end(s.take(s.len() - end.len()), end)
    } else {
        s
    }
}

fn strip_end(s: &str, end: &str) -> (r: String)
    ensures
        r@ == without_end(s@, end@),
{
    let v = chars_of(s);
    let e = chars_of(end);
    let m: usize = e.len();
    let mut n: usize = v.len();
    assert(v@.take(n as int) =~= v@);
    while m > 0 && n >= m && matches_here(part(v.as_slice(), 0, n).as_slice(), n - m, e.as_slice())
        invariant
            n <= v@.len(),
            m == e@.len(),
            e@ == end@,
            v@ == s@,
            without_end(s@, end@) == without_end(v@.take(n as int), end@),
            forall|k: int| #![auto] 0 <= k <= v@.len() ==> v@.subrange(0, k) == v@.take(k),
        decreases n,
    {
        assert(v@.take(n as int).take(n - m) =~= v@.take(n - m));
        n = n - m;
    }
    let p = part(v.as_slice(), 0, n);
    assert(p@ =~= v@.take(n as int));
    text_of(p.as_slice())
}

/// The ticker under which Yahoo has the history of a coin.
pub open spec fn history_ticker(symbol: Seq<char>) -> Seq<char> {
    uppercase(without_end(symbol, "usd"@)) + "-USD"@
}

/// The ticker under which Yahoo has the history of a coin.
pub fn yahoo_history_ticker(symbol: &str) -> (r: String)
    ensures
        r@ == history_ticker(symbol@),
{
    let base = strip_end(symbol, "usd");
    cat(base.as_str().to_uppercase().as_str(), "-USD")
}

/// The address at which the hours of the last week are asked for.
pub fn yahoo_intraday_url(ticker: &str) -> (r: String)
    ensures
        r@ == "https://query2.finance.yahoo.com/v8/finance/chart/"@ + ticker@ + "?range=7d&interval=60m"@,
{
    let mut url = cat("https://query2.finance.yahoo.com/v8/finance/chart/", ticker);
    url.append("?range=7d&interval=60m");
    url
}

/// The address at which all days are asked for.
pub fn yahoo_daily_url(ticker: &str) -> (r: String)
    ensures
        r@ == "https://query2.finance.yahoo.com/v8/finance/chart/"@ + ticker@ + "?range=max&interval=1d"@,
{
    let mut url = cat("https://query2.finance.yahoo.com/v8/finance/chart/", ticker);
    url.append("?range=max&interval=1d");
    url
}

/// Times and prices are paired by their places, as many as there are of both; a pair of which one
/// is no number is left out.
pub proof fn numbers_are_paired_by_place(
    t: Seq<JsonTree>,
    c: Seq<JsonTree>,
    time: JsonTree,
    close: JsonTree,
    more_times: Seq<JsonTree>,
    more_closes: Seq<JsonTree>,
)
    requires
        t.len() == c.len(),
    ensures
        number_pairs(t.push(time), c.push(close)) == (match (time.as_decimal(), close.as_decimal()) {
            (Some(x), Some(y)) => number_pairs(t, c).push((x, y)),
            _ => number_pairs(t, c),
        }),
        number_pairs(t + more_times, c) == number_pairs(t, c),
        number_pairs(t, c + more_closes) == number_pairs(t, c),
        number_pairs(Seq::empty(), c).len() == 0,
{
    assert(t.push(time).drop_last() =~= t);
    assert(c.push(close) =~= c + seq![close]);
    closes_beyond(t, c, seq![close]);
    closes_beyond(t, c, more_closes);
    assert((t + more_times).take(t.len() as int) =~= t);
    pairs_of_more(t + more_times, c, t.len() as int);
}

proof fn closes_beyond(t: Seq<JsonTree>, c: Seq<JsonTree>, more: Seq<JsonTree>)
    requires
        t.len() <= c.len(),
    ensures
        number_pairs(t, c + more) == number_pairs(t, c),
    decreases t.len(),
{
    if t.len() > 0 {
        closes_beyond(t.drop_last(), c, more);
        assert((c + more)[t.len() - 1] == c[t.len() - 1]);
    }
}

/// Prices are put on their days one by one, in their order; one of a day that is not known is left
/// out. A day has 86400 seconds, and Unix time begins on day 719163.
pub proof fn prices_are_put_on_their_days(a: Seq<Timed>, b: Seq<Timed>, p: Timed)
    ensures
        on_days(a + b) == on_days(a) + on_days(b),
        on_days(Seq::empty()).len() == 0,
        known(p.seconds as int / 86_400 + 719_163) ==> on_days(seq![p]) == seq![
            Obs { day: (p.seconds as int / 86_400 + 719_163) as i32, value: p.price },
        ],
        !known(p.seconds as int / 86_400 + 719_163) ==> on_days(seq![p]).len() == 0,
    decreases b.len(),
{
    assert(on_days(Seq::empty()) =~= Seq::<Obs>::empty());
    assert(seq![p].drop_last() =~= Seq::<Timed>::empty());
    if known(p.seconds as int / 86_400 + 719_163) {
        assert(on_days(seq![p]) =~= seq![
            Obs { day: (p.seconds as int / 86_400 + 719_163) as i32, value: p.price },
        ]);
    }
    if b.len() == 0 {
        assert(a + b =~= a);
        assert(on_days(a) + on_days(b) =~= on_days(a));
    } else {
        prices_are_put_on_their_days(a, b.drop_last(), p);
        assert((a + b).drop_last() =~= a + b.drop_last());
        assert(on_days(a + b) =~= on_days(a) + on_days(b));
    }
}

/// Of the prices of one day, the one that came first is left, and the days rise.
pub proof fn first_price_of_a_day_is_left(s: Seq<Timed>, day: int)
    ensures
        strictly_rising(deduped(sorted(on_days(s)))),
        of_key(deduped(sorted(on_days(s))), day) == (if of_key(on_days(s), day).len() == 0 {
            Seq::empty()
        } else {
            seq![of_key(on_days(s), day)[0]]
        }),
{
    first_of_each_key_is_left(on_days(s), day);
}

/// An end is taken off as often as it stands there.
pub proof fn end_is_taken_off(s: Seq<char>, end: Seq<char>)
    requires
        end.len() > 0,
    ensures
        without_end(s + end, end) == without_end(s, end),
        !end.is_suffix_of(s) ==> without_end(s, end) == s,
{
    let all = s + end;
    let n = s.len() as int;
    assert(all.subrange(n, n + end.len()) =~= end);
    assert(all.take(n) =~= s);
    if matches_at(s, s.len() - end.len(), end) {
        assert(s.subrange(s.len() - end.len(), s.len() as int) =~= end);
        assert(end.is_suffix_of(s)) by {
            assert(s.subrange(s.len() - end.len(), s.len() as int) == end);
        }
    }
}

/// A reply with a chart is read where its parts stand: the times and the closes of its first
/// result, the closes in its first quote.
pub proof fn chart_is_read_where_it_stands(
    v: JsonTree,
    result: JsonTree,
    results: Seq<JsonTree>,
    quote: JsonTree,
    quotes: Seq<JsonTree>,
    t: Seq<JsonTree>,
    c: Seq<JsonTree>,
)
    requires
        v.at("chart"@).at("result"@) == JsonTree::Array(seq![result] + results),
        result.at("timestamp"@) == JsonTree::Array(t),
        result.at("indicators"@).at("quote"@) == JsonTree::Array(seq![quote] + quotes),
        quote.at("close"@) == JsonTree::Array(c),
    ensures
        chart_points(v) == Ok::<Seq<(Seq<char>, Seq<char>)>, Seq<char>>(number_pairs(t, c)),
{
}

} // verus!
