//! The sources of histories: where each is asked, and what is kept of what it gives.

use vstd::prelude::*;
use vstd::string::*;
use crate::calendar::{known, parse_day, read_date, MAX_DAY, MIN_DAY};
use crate::decimal::{signed_decimal, signed_text};
use crate::kraken::{candle_address, kraken_candle_url, kraken_pair, uppercase};
use crate::order::{of_key, rising, sort, sorted, sorted_has_each, sorted_is_rising, sorted_is_stable};
use crate::registry::{SeriesSpec, Source};
use crate::scalar::Scalar;
use crate::series::Obs;
use crate::text::{blank, cat, text_is, trim_text, trimmed};

verus! {

/// A value with the text of its day. There is no value where it could not be read.
#[derive(Debug)]
pub struct Dated {
    pub date: String,
    pub value: Option<Scalar>,
}

pub open spec fn dated_views(v: Seq<Dated>) -> Seq<(Seq<char>, Option<Scalar>)> {
    v.map_values(|d: Dated| (d.date@, d.value))
}

/// The observation of a day, where both the day and the value can be read.
pub open spec fn observed(d: (Seq<char>, Option<Scalar>)) -> Option<Obs> {
    match (read_date(d.0), d.1) {
        (Some(day), Some(value)) => Some(Obs { day, value }),
        _ => None,
    }
}

/// The observations among dated values.
pub open spec fn kept(s: Seq<(Seq<char>, Option<Scalar>)>) -> Seq<Obs>
    decreases s.len(),
{
    if s.len() == 0 {
        Seq::empty()
    } else {
        match observed(s.last()) {
            Some(o) => kept(s.drop_last()).push(o),
            None => kept(s.drop_last()),
        }
    }
}

fn push_observed(out: &mut Vec<Obs>, date: &str, value: Option<Scalar>)
    ensures
        final(out)@ == (match observed((date@, value)) {
            Some(o) => old(out)@.push(o),
            None => old(out)@,
        }),
        (forall|i: int| 0 <= i < old(out)@.len() ==> known((#[trigger] old(out)@[i]).day as int)) ==> forall|i: int|
            0 <= i < final(out)@.len() ==> known((#[trigger] final(out)@[i]).day as int),
{
    match (parse_day(date), value) {
        (Some(day), Some(v)) => {
            out.push(Obs { day, value: v });
        },
        _ => {},
    }
}

/// The observations of FRED: those whose day and value can be read, in their order.
pub fn parse_fred(entries: &Vec<Dated>) -> (r: Vec<Obs>)
    ensures
        r@ == kept(dated_views(entries@)),
        forall|i: int| 0 <= i < r@.len() ==> known((#[trigger] r@[i]).day as int),
{
    let n: usize = entries.len();
    let ghost all = dated_views(entries@);
    let mut out: Vec<Obs> = Vec::new();
    assert(out@ =~= kept(all.take(0)));
    for i in 0..n
        invariant
            n == entries@.len(),
            all == dated_views(entries@),
            out@ == kept(all.take(i as int)),
            forall|j: int| 0 <= j < out@.len() ==> known((#[trigger] out@[j]).day as int),
    {
        assert(all.take(i + 1).drop_last() =~= all.take(i as int));
        assert(all.take(i + 1).last() == (entries@[i as int].date@, entries@[i as int].value));
        push_observed(&mut out, entries[i].date.as_str(), entries[i].value);
    }
    assert(all.take(n as int) =~= all);
    out
}

/// A day of the metal prices: the prices in several currencies, US dollars first.
#[derive(Debug)]
pub struct LbmaEntry {
    pub d: String,
    pub v: Vec<Option<Scalar>>,
}

pub open spec fn first_price(v: Seq<Option<Scalar>>) -> Option<Scalar> {
    if v.len() == 0 {
        None
    } else {
        v[0]
    }
}

/// Metal prices in US dollars, dated.
pub open spec fn lbma_dated(entries: Seq<LbmaEntry>) -> Seq<(Seq<char>, Option<Scalar>)> {
    entries.map_values(|e: LbmaEntry| (e.d@, first_price(e.v@)))
}

/// The metal prices in US dollars: those of days that can be read, in their order.
pub fn parse_lbma(entries: &Vec<LbmaEntry>) -> (r: Vec<Obs>)
    ensures
        r@ == kept(lbma_dated(entries@)),
        forall|i: int| 0 <= i < r@.len() ==> known((#[trigger] r@[i]).day as int),
{
    let n: usize = entries.len();
    let ghost all = lbma_dated(entries@);
    let mut out: Vec<Obs> = Vec::new();
    assert(out@ =~= kept(all.take(0)));
    for i in 0..n
        invariant
            n == entries@.len(),
            all == lbma_dated(entries@),
            out@ == kept(all.take(i as int)),
            forall|j: int| 0 <= j < out@.len() ==> known((#[trigger] out@[j]).day as int),
    {
        assert(all.take(i + 1).drop_last() =~= all.take(i as int));
        assert(all.take(i + 1).last() == (entries@[i as int].d@, first_price(entries@[i as int].v@)));
        let value: Option<Scalar> = if entries[i].v.len() == 0 {
            None
        } else {
            entries[i].v[0]
        };
        push_observed(&mut out, entries[i].d.as_str(), value);
    }
    assert(all.take(n as int) =~= all);
    out
}

/// A day of the exchange rates: the rates, by currency.
#[derive(Debug)]
pub struct RateDay {
    pub date: String,
    pub rates: Vec<(String, Scalar)>,
}

/// The rate of a currency.
pub open spec fn rate(rates: Seq<(String, Scalar)>, to: Seq<char>) -> Option<Scalar>
    decreases rates.len(),
{
    if rates.len() == 0 {
        None
    } else if rates[0].0@ == to {
        Some(rates[0].1)
    } else {
        rate(rates.skip(1), to)
    }
}

fn find_rate(rates: &Vec<(String, Scalar)>, to: &str) -> (r: Option<Scalar>)
    ensures
        r == rate(rates@, to@),
{
    let n: usize = rates.len();
    assert(rates@.skip(0) =~= rates@);
    for i in 0..n
        invariant
            n == rates@.len(),
            rate(rates@, to@) == rate(rates@.skip(i as int), to@),
    {
        assert(rates@.skip(i as int)[0] == rates@[i as int]);
        assert(rates@.skip(i as int).skip(1) =~= rates@.skip(i + 1));
        if text_is(rates[i].0.as_str(), to) {
            return Some(rates[i].1);
        }
    }
    None
}

/// The rates of one currency, dated.
pub open spec fn rates_dated(days: Seq<RateDay>, to: Seq<char>) -> Seq<(Seq<char>, Option<Scalar>)> {
    days.map_values(|d: RateDay| (d.date@, rate(d.rates@, to)))
}

/// The rates of one currency by rising day, however the days came: those of days that can be
/// read and have a rate for it.
pub fn parse_frankfurter(days: &Vec<RateDay>, to: &str) -> (r: Vec<Obs>)
    ensures
        r@ == sorted(kept(rates_dated(days@, to@))),
        rising(r@),
        forall|i: int| 0 <= i < r@.len() ==> known((#[trigger] r@[i]).day as int),
{
    let n: usize = days.len();
    let ghost all = rates_dated(days@, to@);
    let mut out: Vec<Obs> = Vec::new();
    assert(out@ =~= kept(all.take(0)));
    for i in 0..n
        invariant
            n == days@.len(),
            all == rates_dated(days@, to@),
            out@ == kept(all.take(i as int)),
            forall|j: int| 0 <= j < out@.len() ==> known((#[trigger] out@[j]).day as int),
    {
        assert(all.take(i + 1).drop_last() =~= all.take(i as int));
        assert(all.take(i + 1).last() == (days@[i as int].date@, rate(days@[i as int].rates@, to@)));
        push_observed(&mut out, days[i].date.as_str(), find_rate(&days[i].rates, to));
    }
    assert(all.take(n as int) =~= all);
    let r = sort(&out);
    proof {
        sorted_is_rising(out@);
        sorted_keeps_known(out@);
    }
    r
}

/// Sorting keeps that all days are known.
pub proof fn sorted_keeps_known(s: Seq<Obs>)
    requires
        forall|i: int| 0 <= i < s.len() ==> known((#[trigger] s[i]).day as int),
    ensures
        forall|i: int| 0 <= i < sorted(s).len() ==> known((#[trigger] sorted(s)[i]).day as int),
{
    sorted_has_each(s);
    let r = sorted(s);
    assert forall|i: int| 0 <= i < r.len() implies known((#[trigger] r[i]).day as int) by {
        assert(r.contains(r[i]) && s.contains(r[i]));
        let j = choose|j: int| 0 <= j < s.len() && s[j] == r[i];
        assert(known(s[j].day as int));
    }
}

/// The place behind the last of the first `k` observations that is not behind a day.
pub open spec fn behind(obs: Seq<Obs>, k: int, day: int) -> int
    decreases k,
{
    if k <= 0 || obs[k - 1].day <= day {
        k
    } else {
        behind(obs, k - 1, day)
    }
}

/// A value and what it is compared with.
#[derive(Clone, Copy, PartialEq, Eq, Structural, Debug)]
pub struct YearPair {
    pub day: i32,
    pub base: Scalar,
    pub value: Scalar,
}

/// How many days a year is taken to have at least.
pub const YEAR_DAYS: i32 = 300;

/// What the `i`-th observation is compared with: the last before it that is at least 300 days
/// older, unless that is zero.
pub open spec fn year_pair(obs: Seq<Obs>, i: int) -> Option<YearPair> {
    let k = behind(obs, i, obs[i].day - YEAR_DAYS);
    if k > 0 && !obs[k - 1].value.zero() {
        Some(YearPair { day: obs[i].day, base: obs[k - 1].value, value: obs[i].value })
    } else {
        None
    }
}

/// The pairs of the first `n` observations.
pub open spec fn year_pairs(obs: Seq<Obs>, n: int) -> Seq<YearPair>
    decreases n,
{
    if n <= 0 {
        Seq::empty()
    } else {
        match year_pair(obs, n - 1) {
            Some(p) => year_pairs(obs, n - 1).push(p),
            None => year_pairs(obs, n - 1),
        }
    }
}

/// All days are known, and so is the day that is 300 days before each.
pub open spec fn year_known(obs: Seq<Obs>) -> bool {
    forall|i: int| 0 <= i < obs.len() ==> known((#[trigger] obs[i]).day as int) && known(obs[i].day - YEAR_DAYS)
}

/// Whether all days are known, and the day that is 300 days before each.
pub fn is_year_known(obs: &Vec<Obs>) -> (r: bool)
    ensures
        r == year_known(obs@),
{
    let n: usize = obs.len();
    for i in 0..n
        invariant
            n == obs@.len(),
            forall|j: int| 0 <= j < i ==> known((#[trigger] obs@[j]).day as int) && known(obs@[j].day - YEAR_DAYS),
    {
        let day: i32 = obs[i].day;
        if day < MIN_DAY + YEAR_DAYS || day > MAX_DAY {
            assert(!(known(obs@[i as int].day as int) && known(obs@[i as int].day - YEAR_DAYS)));
            return false;
        }
    }
    true
}

/// The observations with what each is compared with to find its change over a year.
pub fn fred_yoy(obs: &Vec<Obs>) -> (r: Vec<YearPair>)
    requires
        year_known(obs@),
    ensures
        r@ == year_pairs(obs@, obs@.len() as int),
{
    let n: usize = obs.len();
    let mut out: Vec<YearPair> = Vec::new();
    for i in 0..n
        invariant
            n == obs@.len(),
            year_known(obs@),
            out@ == year_pairs(obs@, i as int),
    {
        let o = obs[i];
        assert(known(obs@[i as int].day - YEAR_DAYS));
        let day: i32 = o.day - YEAR_DAYS;
        let mut k: usize = i;
        while k > 0 && obs[k - 1].day > day
            invariant
                k <= i < obs@.len(),
                behind(obs@, i as int, day as int) == behind(obs@, k as int, day as int),
            decreases k,
        {
            k = k - 1;
        }
        if k > 0 {
            let base = obs[k - 1].value;
            if !base.is_zero() {
                out.push(YearPair { day: o.day, base, value: o.value });
            }
        }
    }
    out
}

/// The year from which on histories are asked for.
pub const FIRST_YEAR: i32 = 2015;

/// The address at which a series is asked for.
pub open spec fn series_address(symbol: Seq<char>, source: Source, key: Seq<char>, year: i32) -> Seq<char> {
    match source {
        Source::Frankfurter => "https://api.frankfurter.app/"@ + signed_decimal(year as int)
            + "-01-01..?from=AUD&to=USD"@,
        Source::Fred => "https://api.stlouisfed.org/fred/series/observations?series_id="@ + symbol + "&api_key="@
            + trimmed(key) + "&file_type=json&observation_start="@ + signed_decimal(year as int) + "-01-01"@,
        Source::Lbma => "https://prices.lbma.org.uk/json/"@ + if symbol == "SILVER"@ {
            "silver.json"@
        } else {
            "gold_pm.json"@
        },
        Source::Kraken => candle_address(uppercase(symbol), 1440, 0),
    }
}

/// The address at which a series is asked for from January of a year on. FRED is not asked
/// without a key.
pub fn series_url(spec: &SeriesSpec, fred_key: &str, year: i32) -> (r: Result<String, String>)
    ensures
        match r {
            Ok(url) => {
                &&& spec.source == Source::Fred ==> trimmed(fred_key@).len() > 0
                &&& url@ == series_address(spec.symbol@, spec.source, fred_key@, year)
            },
            Err(e) => {
                &&& spec.source == Source::Fred
                &&& trimmed(fred_key@).len() == 0
                &&& e@ == "FRED API key not set (Settings)"@
            },
        },
{
    match spec.source {
        Source::Frankfurter => {
            let mut url = cat("https://api.frankfurter.app/", signed_text(year).as_str());
            url.append("-01-01..?from=AUD&to=USD");
            Ok(url)
        },
        Source::Fred => {
            if blank(fred_key) {
                return Err(String::from_str("FRED API key not set (Settings)"));
            }
            let mut url = cat("https://api.stlouisfed.org/fred/series/observations?series_id=", spec.symbol);
            url.append("&api_key=");
            url.append(trim_text(fred_key).as_str());
            url.append("&file_type=json&observation_start=");
            url.append(signed_text(year).as_str());
            url.append("-01-01");
            Ok(url)
        },
        Source::Lbma => {
            if text_is(spec.symbol, "SILVER") {
                Ok(cat("https://prices.lbma.org.uk/json/", "silver.json"))
            } else {
                Ok(cat("https://prices.lbma.org.uk/json/", "gold_pm.json"))
            }
        },
        Source::Kraken => Ok(kraken_candle_url(kraken_pair(spec.symbol).as_str(), 1440, 0)),
    }
}

/// Observations, unless there are none.
pub fn some_data(obs: Vec<Obs>) -> (r: Result<Vec<Obs>, String>)
    ensures
        match r {
            Ok(v) => v == obs && obs@.len() > 0,
            Err(e) => obs@.len() == 0 && e@ == "no data returned"@,
        },
{
    if obs.len() == 0 {
        Err(String::from_str("no data returned"))
    } else {
        Ok(obs)
    }
}

/// What is kept of the observations of FRED: they themselves, or what their changes over a
/// year are measured by.
#[derive(Debug)]
pub enum FredSeries {
    Levels(Vec<Obs>),
    Yearly(Vec<YearPair>),
}

/// What is kept of the observations of FRED, or that there is nothing to keep.
pub fn finish_fred(obs: Vec<Obs>, yoy: bool) -> (r: Result<FredSeries, String>)
    requires
        yoy ==> year_known(obs@),
    ensures
        ({
            let pairs = year_pairs(obs@, obs@.len() as int);
            if obs@.len() == 0 {
                r matches Err(e) && e@ == "no data returned"@
            } else if !yoy {
                r == Ok::<FredSeries, String>(FredSeries::Levels(obs))
            } else if pairs.len() == 0 {
                r matches Err(e) && e@ == "no data after YoY transform"@
            } else {
                r matches Ok(FredSeries::Yearly(v)) && v@ == pairs
            }
        }),
{
    if obs.len() == 0 {
        return Err(String::from_str("no data returned"));
    }
    if !yoy {
        return Ok(FredSeries::Levels(obs));
    }
    let pairs = fred_yoy(&obs);
    if pairs.len() == 0 {
        Err(String::from_str("no data after YoY transform"))
    } else {
        Ok(FredSeries::Yearly(pairs))
    }
}

/// The observations before a day.
pub open spec fn earlier(obs: Seq<Obs>, day: i32) -> Seq<Obs>
    decreases obs.len(),
{
    if obs.len() == 0 {
        obs
    } else if obs.last().day < day {
        earlier(obs.drop_last(), day).push(obs.last())
    } else {
        earlier(obs.drop_last(), day)
    }
}

/// Observations with the older ones of a history, by rising day.
pub fn with_history(obs: &Vec<Obs>, history: &Vec<Obs>) -> (r: Vec<Obs>)
    requires
        obs@.len() > 0,
    ensures
        r@ == sorted(obs@ + earlier(history@, obs@[0].day)),
        rising(r@),
{
    let oldest: i32 = obs[0].day;
    let mut all: Vec<Obs> = obs.clone();
    assert(all@ =~= obs@ + earlier(history@.take(0), oldest));
    let n: usize = history.len();
    for i in 0..n
        invariant
            n == history@.len(),
            all@ == obs@ + earlier(history@.take(i as int), oldest),
    {
        assert(history@.take(i + 1).drop_last() =~= history@.take(i as int));
        if history[i].day < oldest {
            all.push(history[i]);
            assert(all@ =~= obs@ + earlier(history@.take(i + 1), oldest));
        }
    }
    assert(history@.take(n as int) =~= history@);
    let r = sort(&all);
    proof {
        sorted_is_rising(all@);
    }
    r
}

/// The observation that one is compared with is at least 300 days older, and all between the
/// two are younger than that.
pub proof fn base_is_a_year_back(obs: Seq<Obs>, i: int, day: int)
    requires
        0 <= i <= obs.len(),
    ensures
        0 <= behind(obs, i, day) <= i,
        behind(obs, i, day) > 0 ==> obs[behind(obs, i, day) - 1].day <= day,
        forall|j: int| behind(obs, i, day) <= j < i ==> (#[trigger] obs[j]).day > day,
    decreases i,
{
    if i > 0 && obs[i - 1].day > day {
        base_is_a_year_back(obs, i - 1, day);
    }
}

/// Observation `j` is what observation `i` is compared with: it stands before it and is at least
/// 300 days older, and all between the two are younger than that.
pub open spec fn is_year_base(obs: Seq<Obs>, i: int, j: int) -> bool {
    &&& 0 <= j < i
    &&& obs[j].day <= obs[i].day - 300
    &&& forall|m: int| j < m < i ==> (#[trigger] obs[m]).day > obs[i].day - 300
}

/// Observation `i` has something to be compared with, and that is not zero.
pub open spec fn has_year_base(obs: Seq<Obs>, i: int) -> bool {
    exists|j: int| #[trigger] is_year_base(obs, i, j) && !obs[j].value.zero()
}

/// Pairs are those of the observations at some places: each of the place that it is of, with the
/// value that this observation is compared with.
pub open spec fn are_year_pairs(obs: Seq<Obs>, at: Seq<int>, pairs: Seq<YearPair>) -> bool {
    &&& at.len() == pairs.len()
    &&& forall|k: int| #![trigger pairs[k]]
        0 <= k < pairs.len() ==> {
            &&& 0 <= at[k] < obs.len()
            &&& pairs[k].day == obs[at[k]].day
            &&& pairs[k].value == obs[at[k]].value
            &&& forall|j: int| #[trigger] is_year_base(obs, at[k], j) ==> pairs[k].base == obs[j].value
        }
}

/// Places rise, and are those of the first `n` observations that have something to be compared
/// with.
pub open spec fn are_year_places(obs: Seq<Obs>, at: Seq<int>, n: int) -> bool {
    &&& forall|a: int, b: int| 0 <= a < b < at.len() ==> at[a] < at[b]
    &&& forall|k: int| 0 <= k < at.len() ==> 0 <= #[trigger] at[k] < n && has_year_base(obs, at[k])
    &&& forall|i: int| 0 <= i < n && #[trigger] has_year_base(obs, i) ==> at.contains(i)
}

proof fn year_pair_is_by_its_base(obs: Seq<Obs>, i: int)
    requires
        0 <= i < obs.len(),
    ensures
        year_pair(obs, i) is Some <==> has_year_base(obs, i),
        year_pair(obs, i) matches Some(p) ==> p.day == obs[i].day && p.value == obs[i].value && forall|j: int|
            #[trigger] is_year_base(obs, i, j) ==> p.base == obs[j].value,
{
    let day = obs[i].day - 300;
    let k = behind(obs, i, day);
    base_is_a_year_back(obs, i, day);
    if k > 0 {
        assert(is_year_base(obs, i, k - 1));
    }
    assert forall|j: int| #[trigger] is_year_base(obs, i, j) implies k > 0 && j == k - 1 by {
        if j >= k {
            assert(obs[j].day > day);
        }
        if j < k - 1 {
            assert(obs[k - 1].day > obs[i].day - 300);
        }
    }
}

proof fn year_pairs_have_places(obs: Seq<Obs>, n: int) -> (at: Seq<int>)
    requires
        0 <= n <= obs.len(),
    ensures
        are_year_pairs(obs, at, year_pairs(obs, n)),
        are_year_places(obs, at, n),
    decreases n,
{
    if n == 0 {
        let at = Seq::<int>::empty();
        assert(are_year_pairs(obs, at, year_pairs(obs, 0)));
        at
    } else {
        let less = year_pairs_have_places(obs, n - 1);
        let before = year_pairs(obs, n - 1);
        let all = year_pairs(obs, n);
        year_pair_is_by_its_base(obs, n - 1);
        let at = if year_pair(obs, n - 1) is Some {
            less.push(n - 1)
        } else {
            less
        };
        assert forall|i: int| 0 <= i < n && #[trigger] has_year_base(obs, i) implies at.contains(i) by {
            if i == n - 1 {
                assert(at[less.len() as int] == n - 1);
            } else {
                assert(less.contains(i));
                let k = less.index_of(i);
                assert(at[k] == i);
            }
        }
        assert forall|k: int| 0 <= k < at.len() implies 0 <= #[trigger] at[k] < n && has_year_base(obs, at[k]) by {
            if k < less.len() {
                assert(at[k] == less[k]);
            }
        }
        assert forall|a: int, b: int| 0 <= a < b < at.len() implies at[a] < at[b] by {
            assert(at[a] == less[a]);
            if b < less.len() {
                assert(at[b] == less[b]);
            }
        }
        assert forall|k: int| #![trigger all[k]] 0 <= k < all.len() implies {
            &&& 0 <= at[k] < obs.len()
            &&& all[k].day == obs[at[k]].day
            &&& all[k].value == obs[at[k]].value
            &&& forall|j: int| #[trigger] is_year_base(obs, at[k], j) ==> all[k].base == obs[j].value
        } by {
            if k < before.len() {
                assert(all[k] == before[k]);
                assert(at[k] == less[k]);
            }
        }
        at
    }
}

/// What observations are compared with to find their changes over a year: there is one pair for
/// each observation that has another, not zero, at least 300 days before it, in the order of the
/// observations; it is compared with the last such one. No other observation is used.
pub proof fn each_year_is_compared_with_the_one_before(obs: Seq<Obs>)
    ensures
        exists|at: Seq<int>| {
            &&& #[trigger] are_year_pairs(obs, at, year_pairs(obs, obs.len() as int))
            &&& are_year_places(obs, at, obs.len() as int)
        },
{
    let at = year_pairs_have_places(obs, obs.len() as int);
    assert(are_year_pairs(obs, at, year_pairs(obs, obs.len() as int)));
}

proof fn earlier_are_before(obs: Seq<Obs>, day: i32)
    ensures
        forall|i: int| 0 <= i < earlier(obs, day).len() ==> (#[trigger] earlier(obs, day)[i]).day < day,
    decreases obs.len(),
{
    if obs.len() > 0 {
        let less = earlier(obs.drop_last(), day);
        earlier_are_before(obs.drop_last(), day);
        assert forall|i: int| 0 <= i < earlier(obs, day).len() implies (#[trigger] earlier(obs, day)[i]).day < day by {
            if i < less.len() {
                assert(earlier(obs, day)[i] == less[i]);
            }
        }
    }
}

/// What is known of the days since the oldest observation stays, whatever a history says of
/// them: no day but those before the oldest comes from the history.
pub proof fn history_adds_only_before(obs: Seq<Obs>, history: Seq<Obs>, o: Obs)
    requires
        obs.len() > 0,
        sorted(obs + earlier(history, obs[0].day)).contains(o),
    ensures
        obs.contains(o) || o.day < obs[0].day,
{
    let e = earlier(history, obs[0].day);
    let all = obs + e;
    sorted_has_each(all);
    earlier_are_before(history, obs[0].day);
    assert(all.contains(o));
    let k = choose|k: int| 0 <= k < all.len() && all[k] == o;
    if k < obs.len() {
        assert(obs[k] == o);
    } else {
        assert(e[k - obs.len()] == o);
    }
}

/// Dated values are read one by one, in their order: one whose day and value can be read is an
/// observation, and any other is left out.
pub proof fn dated_values_are_read_one_by_one(
    a: Seq<(Seq<char>, Option<Scalar>)>,
    b: Seq<(Seq<char>, Option<Scalar>)>,
    date: Seq<char>,
    value: Option<Scalar>,
)
    ensures
        kept(a + b) == kept(a) + kept(b),
        kept(seq![(date, value)]) == (if read_date(date) is Some && value is Some {
            seq![Obs { day: read_date(date)->0, value: value->0 }]
        } else {
            Seq::empty()
        }),
        kept(Seq::empty()).len() == 0,
    decreases b.len(),
{
    let one = seq![(date, value)];
    assert(kept(Seq::empty()) =~= Seq::<Obs>::empty());
    assert(one.drop_last() =~= Seq::<(Seq<char>, Option<Scalar>)>::empty());
    assert(kept(one) =~= if read_date(date) is Some && value is Some {
        seq![Obs { day: read_date(date)->0, value: value->0 }]
    } else {
        Seq::empty()
    });
    if b.len() == 0 {
        assert(a + b =~= a);
        assert(kept(a) + kept(b) =~= kept(a));
    } else {
        dated_values_are_read_one_by_one(a, b.drop_last(), date, value);
        assert((a + b).drop_last() =~= a + b.drop_last());
        assert(kept(a + b) =~= kept(a) + kept(b));
    }
}

/// The price of a day of metals is the first of its prices; there is none where it has no price or
/// the first is missing.
pub proof fn metal_price_is_the_first(entries: Seq<LbmaEntry>, i: int)
    requires
        0 <= i < entries.len(),
    ensures
        lbma_dated(entries).len() == entries.len(),
        lbma_dated(entries)[i].0 == entries[i].d@,
        lbma_dated(entries)[i].1 is Some <==> entries[i].v@.len() > 0 && entries[i].v@[0] is Some,
        lbma_dated(entries)[i].1 is Some ==> lbma_dated(entries)[i].1 == entries[i].v@[0],
{
}

/// The rate of a currency is the one that stands by its name, and there is none without it.
pub proof fn rate_is_by_its_name(rates: Seq<(String, Scalar)>, to: Seq<char>)
    ensures
        rate(rates, to) is Some <==> exists|i: int| 0 <= i < rates.len() && (#[trigger] rates[i]).0@ == to,
        rate(rates, to) matches Some(v) ==> exists|i: int|
            0 <= i < rates.len() && (#[trigger] rates[i]).0@ == to && rates[i].1 == v && forall|j: int|
                0 <= j < i ==> (#[trigger] rates[j]).0@ != to,
    decreases rates.len(),
{
    if rates.len() > 0 {
        let rest = rates.skip(1);
        rate_is_by_its_name(rest, to);
        if rates[0].0@ != to {
            if rate(rest, to) is Some {
                let i = choose|i: int|
                    0 <= i < rest.len() && (#[trigger] rest[i]).0@ == to && rest[i].1 == rate(rest, to)->0 && forall|
                        j: int,
                    | 0 <= j < i ==> (#[trigger] rest[j]).0@ != to;
                assert(rates[i + 1] == rest[i]);
                assert forall|j: int| 0 <= j < i + 1 implies (#[trigger] rates[j]).0@ != to by {
                    if j > 0 {
                        assert(rates[j] == rest[j - 1]);
                    }
                }
            }
            if exists|i: int| 0 <= i < rates.len() && (#[trigger] rates[i]).0@ == to {
                let i = choose|i: int| 0 <= i < rates.len() && (#[trigger] rates[i]).0@ == to;
                assert(rest[i - 1] == rates[i]);
            }
        }
    }
}

proof fn earlier_are_all(obs: Seq<Obs>, day: i32, o: Obs)
    ensures
        earlier(obs, day).contains(o) <==> obs.contains(o) && o.day < day,
    decreases obs.len(),
{
    let e = earlier(obs, day);
    if obs.len() > 0 {
        let t = obs.drop_last();
        let less = earlier(t, day);
        earlier_are_all(t, day, o);
        if obs.contains(o) && o != obs.last() {
            let k = obs.index_of(o);
            assert(t[k] == o);
        }
        if t.contains(o) {
            let k = t.index_of(o);
            assert(obs[k] == o);
        }
        assert(obs[obs.len() - 1] == obs.last());
        if obs.last().day < day {
            assert(e == less.push(obs.last()));
            assert(e[less.len() as int] == obs.last());
            if less.contains(o) {
                let k = less.index_of(o);
                assert(e[k] == o);
            }
            if e.contains(o) && o != obs.last() {
                let k = e.index_of(o);
                assert(less[k] == o);
            }
        }
    }
}

/// Observations with a history are the observations and what the history has of the days before
/// the first of them, and nothing else, by rising day.
pub proof fn history_goes_before(obs: Seq<Obs>, history: Seq<Obs>, o: Obs)
    requires
        obs.len() > 0,
    ensures
        rising(sorted(obs + earlier(history, obs[0].day))),
        sorted(obs + earlier(history, obs[0].day)).contains(o) <==> obs.contains(o) || (history.contains(o) && o.day
            < obs[0].day),
{
    let e = earlier(history, obs[0].day);
    let all = obs + e;
    sorted_is_rising(all);
    sorted_has_each(all);
    earlier_are_all(history, obs[0].day, o);
    if obs.contains(o) {
        let k = obs.index_of(o);
        assert(all[k] == o);
    }
    if e.contains(o) {
        let k = e.index_of(o);
        assert(all[obs.len() + k] == o);
    }
    if all.contains(o) {
        let k = all.index_of(o);
        if k < obs.len() {
            assert(obs[k] == o);
        } else {
            assert(e[k - obs.len()] == o);
        }
    }
}

/// The rates of a currency come by rising day, however the days came, and those of one day in the
/// order in which they came: none is lost.
pub proof fn rates_rise(days: Seq<RateDay>, to: Seq<char>, day: int)
    ensures
        rising(sorted(kept(rates_dated(days, to)))),
        of_key(sorted(kept(rates_dated(days, to))), day) == of_key(kept(rates_dated(days, to)), day),
{
    sorted_is_rising(kept(rates_dated(days, to)));
    sorted_is_stable(kept(rates_dated(days, to)), day);
}

} // verus!
