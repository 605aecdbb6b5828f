//! Series of observations, and what a card shows of one.

use vstd::prelude::*;
use vstd::string::*;
use crate::calendar::{countable_back, cutoff, date_text, day_before, day_text, format_day, known, parse_day, read_date};
use crate::order::{count_below, rising, sort, sorted, sorted_has_each, sorted_is_rising, sorted_place_is_by_count, strictly_rising, Keyed};
use crate::range::Range;
use crate::registry::SeriesSpec;
use crate::scalar::Scalar;

verus! {

/// A value on a day.
#[derive(Clone, Copy, PartialEq, Eq, Structural, Debug)]
pub struct Obs {
    pub day: i32,
    pub value: Scalar,
}

impl Keyed for Obs {
    open spec fn key(&self) -> int {
        self.day as int
    }

    fn key_of(&self) -> (r: i64) {
        self.day as i64
    }
}

/// A value at a moment, counted in days.
#[derive(Clone, Copy, PartialEq, Eq, Structural, Debug)]
pub struct Tick {
    pub at: Scalar,
    pub value: Scalar,
}

impl Keyed for Tick {
    open spec fn key(&self) -> int {
        self.at.rank()
    }

    fn key_of(&self) -> (r: i64) {
        self.at.order()
    }
}

/// How many observations from the front stand before a day.
pub open spec fn leading(obs: Seq<Obs>, day: i32) -> int
    decreases obs.len(),
{
    if obs.len() == 0 || obs[0].day >= day {
        0
    } else {
        1 + leading(obs.skip(1), day)
    }
}

/// All observations before a day stand in front of all others.
pub open spec fn split_by(obs: Seq<Obs>, day: i32) -> bool {
    forall|i: int, j: int|
        0 <= i <= j < obs.len() && (#[trigger] obs[j]).day < day ==> (#[trigger] obs[i]).day < day
}

proof fn leading_is(obs: Seq<Obs>, day: i32, k: int)
    requires
        0 <= k <= obs.len(),
        forall|i: int| 0 <= i < k ==> (#[trigger] obs[i]).day < day,
        k < obs.len() ==> obs[k].day >= day,
    ensures
        leading(obs, day) == k,
    decreases k,
{
    if k > 0 {
        let rest = obs.skip(1);
        assert(obs[0].day < day);
        assert forall|i: int| 0 <= i < k - 1 implies (#[trigger] rest[i]).day < day by {
            assert(rest[i] == obs[i + 1]);
        }
        leading_is(rest, day, k - 1);
    }
}

/// Observations by rising day are split by every day.
pub proof fn rising_is_split(obs: Seq<Obs>, day: i32)
    requires
        rising(obs),
    ensures
        split_by(obs, day),
{
    assert forall|i: int, j: int| 0 <= i <= j < obs.len() && (#[trigger] obs[j]).day < day implies (
    #[trigger] obs[i]).day < day by {
        assert(obs[i].key() <= obs[j].key());
    }
}

/// Where the search by halves for a day ends between two places: at the middle it goes on behind
/// an observation before the day, and in front of any other.
pub open spec fn halved(obs: Seq<Obs>, day: i32, lo: int, hi: int) -> int
    decreases hi - lo,
{
    if lo >= hi {
        lo
    } else {
        let mid = lo + (hi - lo) / 2;
        if obs[mid].day < day {
            halved(obs, day, mid + 1, hi)
        } else {
            halved(obs, day, lo, mid)
        }
    }
}

/// Where the observations from a day on start.
pub open spec fn first_place(obs: Seq<Obs>, day: i32) -> int {
    halved(obs, day, 0, obs.len() as int)
}

proof fn halved_stays(obs: Seq<Obs>, day: i32, lo: int, hi: int)
    requires
        0 <= lo <= hi <= obs.len(),
    ensures
        lo <= halved(obs, day, lo, hi) <= hi,
    decreases hi - lo,
{
    if lo < hi {
        let mid = lo + (hi - lo) / 2;
        if obs[mid].day < day {
            halved_stays(obs, day, mid + 1, hi);
        } else {
            halved_stays(obs, day, lo, mid);
        }
    }
}

proof fn halved_is_leading(obs: Seq<Obs>, day: i32, lo: int, hi: int)
    requires
        0 <= lo <= hi <= obs.len(),
        split_by(obs, day),
        forall|i: int| 0 <= i < lo ==> (#[trigger] obs[i]).day < day,
        hi < obs.len() ==> obs[hi].day >= day,
    ensures
        halved(obs, day, lo, hi) == leading(obs, day),
    decreases hi - lo,
{
    if lo < hi {
        let mid = lo + (hi - lo) / 2;
        if obs[mid].day < day {
            assert forall|i: int| 0 <= i < mid + 1 implies (#[trigger] obs[i]).day < day by {
                assert(obs[mid].day < day);
            }
            halved_is_leading(obs, day, mid + 1, hi);
        } else {
            halved_is_leading(obs, day, lo, mid);
        }
    } else {
        leading_is(obs, day, lo);
    }
}

/// Where all observations before a day stand in front, those from the day on start behind them.
pub proof fn first_place_is_behind(obs: Seq<Obs>, day: i32)
    requires
        split_by(obs, day),
    ensures
        first_place(obs, day) == leading(obs, day),
{
    halved_is_leading(obs, day, 0, obs.len() as int);
}

/// Where the observations from a day on start: behind those before it, where these all stand in
/// front.
pub fn first_from(obs: &Vec<Obs>, day: i32) -> (r: usize)
    ensures
        r <= obs@.len(),
        r == first_place(obs@, day),
        split_by(obs@, day) ==> r == leading(obs@, day),
{
    let mut lo: usize = 0;
    let mut hi: usize = obs.len();
    while lo < hi
        invariant
            lo <= hi <= obs@.len(),
            halved(obs@, day, lo as int, hi as int) == first_place(obs@, day),
        decreases hi - lo,
    {
        let mid: usize = lo + (hi - lo) / 2;
        if obs[mid].day < day {
            lo = mid + 1;
        } else {
            hi = mid;
        }
    }
    proof {
        if split_by(obs@, day) {
            first_place_is_behind(obs@, day);
        }
    }
    lo
}

/// Where the observations of the last `days` start; with the first of all where `days` is 0.
pub open spec fn start_of(obs: Seq<Obs>, days: u32, today: i32) -> int {
    if days == 0 {
        0
    } else {
        first_place(obs, cutoff(today, days))
    }
}

/// The values between which a change is measured.
#[derive(Clone, Copy, PartialEq, Eq, Structural, Debug)]
pub struct Change {
    pub base: Scalar,
    pub last: Scalar,
}

/// The change to the last observation from the first of the last `days`, or from the first of
/// all where `days` is 0.
pub open spec fn change_of(obs: Seq<Obs>, days: u32, today: i32) -> Option<Change> {
    let start = start_of(obs, days, today);
    if obs.len() < 2 || start >= obs.len() || obs[start].value.zero() {
        None
    } else {
        Some(Change { base: obs[start].value, last: obs.last().value })
    }
}

/// The change from the last but one observation to the last.
pub open spec fn last_change(obs: Seq<Obs>) -> Option<Change> {
    if obs.len() < 2 || obs[obs.len() - 2].value.zero() {
        None
    } else {
        Some(Change { base: obs[obs.len() - 2].value, last: obs.last().value })
    }
}

/// How many observations make up a year.
pub const YEAR: usize = 365;

/// How few observations say nothing of a year.
pub const YEAR_LEAST: usize = 30;

/// The values of the last year, from the last on.
pub open spec fn year_values(obs: Seq<Obs>) -> Seq<Scalar> {
    Seq::new(
        if obs.len() < YEAR {
            obs.len()
        } else {
            YEAR as nat
        },
        |i: int| obs[obs.len() - 1 - i].value,
    )
}

/// The low, the high and the quarters of a year.
#[derive(Clone, Copy, PartialEq, Eq, Structural, Debug)]
pub struct YearStats {
    pub low: Scalar,
    pub lower: Scalar,
    pub median: Scalar,
    pub upper: Scalar,
    pub high: Scalar,
}

/// The low, the high and the quarters of the last year.
pub open spec fn stats_of(obs: Seq<Obs>) -> Option<YearStats> {
    let v = sorted(year_values(obs));
    if year_values(obs).len() < YEAR_LEAST {
        None
    } else {
        Some(
            YearStats {
                low: v[0],
                lower: v[v.len() as int / 4],
                median: v[v.len() as int / 2],
                upper: v[v.len() as int * 3 / 4],
                high: v.last(),
            },
        )
    }
}

/// Observations with one more: it replaces the last where that is of its day, is put behind it
/// where that is of an earlier day, and changes nothing where that is of a later one.
pub open spec fn with_point(obs: Seq<Obs>, o: Obs) -> Seq<Obs> {
    if obs.len() == 0 || obs.last().day < o.day {
        obs.push(o)
    } else if obs.last().day == o.day {
        obs.update(obs.len() - 1, o)
    } else {
        obs
    }
}

/// The ticks that are not before a moment.
pub open spec fn ticks_since(ticks: Seq<Tick>, since: Scalar) -> Seq<Tick>
    decreases ticks.len(),
{
    if ticks.len() == 0 {
        ticks
    } else if ticks.last().at.at_least(since) {
        ticks_since(ticks.drop_last(), since).push(ticks.last())
    } else {
        ticks_since(ticks.drop_last(), since)
    }
}

fn pick_ticks(ticks: &Vec<Tick>, since: Scalar) -> (r: Vec<Tick>)
    ensures
        r@ == ticks_since(ticks@, since),
{
    let n: usize = ticks.len();
    let mut out: Vec<Tick> = Vec::new();
    assert(out@ =~= ticks_since(ticks@.take(0), since));
    for i in 0..n
        invariant
            n == ticks@.len(),
            out@ == ticks_since(ticks@.take(i as int), since),
    {
        assert(ticks@.take(i + 1).drop_last() =~= ticks@.take(i as int));
        if ticks[i].at.ge(since) {
            out.push(ticks[i]);
        }
    }
    assert(ticks@.take(n as int) =~= ticks@);
    out
}

/// A series and what is known of it.
#[derive(Debug)]
pub struct Series {
    pub title: String,
    pub unit: String,
    pub source_name: String,
    pub obs: Vec<Obs>,
    pub intraday: Vec<Tick>,
    pub error: Option<String>,
}

/// What a card draws below its figures.
#[derive(Debug)]
pub enum Chart {
    /// The values within the day; nothing where there are fewer than two.
    Ticks(Vec<Tick>),
    /// The observations from that place on.
    Days(usize),
    /// Why there is nothing to draw.
    Failure(String),
    Loading,
}

/// The values within the day are drawn.
pub open spec fn drawn_by_tick(range: Range, ticks: Seq<Tick>) -> bool {
    (range == Range::D1 || range == Range::W1) && ticks.len() > 0
}

/// Where the drawn observations start: at the first within the range, or with the last two
/// where the range holds fewer.
pub open spec fn drawn_from(obs: Seq<Obs>, range: Range, today: i32) -> int {
    let start = start_of(obs, range.reach(), today);
    if obs.len() - start >= 2 {
        start
    } else {
        obs.len() - 2
    }
}

impl Series {
    /// The series of an entry of the registry, with what was stored of it.
    pub fn of_spec(spec: &SeriesSpec, obs: Vec<Obs>, intraday: Vec<Tick>) -> (r: Series)
        ensures
            r.title@ == spec.title@,
            r.unit@ == spec.unit@,
            r.source_name@ == spec.source.called(),
            r.obs == obs,
            r.intraday == intraday,
            r.error is None,
    {
        Series {
            title: String::from_str(spec.title),
            unit: String::from_str(spec.unit),
            source_name: String::from_str(spec.source.name()),
            obs,
            intraday,
            error: None,
        }
    }

    /// The last value.
    pub fn latest(&self) -> (r: Option<Scalar>)
        ensures
            r == (if self.obs@.len() == 0 {
                None
            } else {
                Some(self.obs@.last().value)
            }),
    {
        let n: usize = self.obs.len();
        if n == 0 {
            None
        } else {
            Some(self.obs[n - 1].value)
        }
    }

    /// The day of the last value.
    pub fn latest_date(&self) -> (r: Option<i32>)
        ensures
            r == (if self.obs@.len() == 0 {
                None
            } else {
                Some(self.obs@.last().day)
            }),
    {
        let n: usize = self.obs.len();
        if n == 0 {
            None
        } else {
            Some(self.obs[n - 1].day)
        }
    }

    /// The values between which the change over the last `days` is measured, over all days
    /// where `days` is 0.
    pub fn change_pct(&self, days: u32, today: i32) -> (r: Option<Change>)
        requires
            countable_back(today, days),
        ensures
            r == change_of(self.obs@, days, today),
    {
        let n: usize = self.obs.len();
        if n < 2 {
            return None;
        }
        let start: usize = if days == 0 {
            0
        } else {
            first_from(&self.obs, day_before(today, days))
        };
        if start >= n {
            return None;
        }
        let base = self.obs[start].value;
        if base.is_zero() {
            None
        } else {
            Some(Change { base, last: self.obs[n - 1].value })
        }
    }

    /// The values between which the change of the last day is measured.
    pub fn day_change_pct(&self) -> (r: Option<Change>)
        ensures
            r == last_change(self.obs@),
    {
        let n: usize = self.obs.len();
        if n < 2 {
            return None;
        }
        let base = self.obs[n - 2].value;
        if base.is_zero() {
            None
        } else {
            Some(Change { base, last: self.obs[n - 1].value })
        }
    }

    /// The low, the high and the quarters of the last 365 values; nothing where there are
    /// fewer than 30. What is no number counts as above, or below, all numbers, by its sign.
    pub fn year_stats(&self) -> (r: Option<YearStats>)
        ensures
            r == stats_of(self.obs@),
    {
        let n: usize = self.obs.len();
        let m: usize = if n < YEAR {
            n
        } else {
            YEAR
        };
        if m < YEAR_LEAST {
            return None;
        }
        let mut vals: Vec<Scalar> = Vec::new();
        for i in 0..m
            invariant
                n == self.obs@.len(),
                m <= n,
                vals@.len() == i,
                forall|j: int| 0 <= j < i ==> #[trigger] vals@[j] == self.obs@[n - 1 - j].value,
        {
            vals.push(self.obs[n - 1 - i].value);
        }
        assert(vals@ =~= year_values(self.obs@));
        let v = sort(&vals);
        proof {
            sorted_has_each(vals@);
        }
        let k: usize = v.len();
        Some(
            YearStats { low: v[0], lower: v[k / 4], median: v[k / 2], upper: v[k * 3 / 4], high: v[k - 1] },
        )
    }

    /// Where the observations of the last `days` start; with the first of all where `days` is
    /// 0.
    pub fn range_start(&self, days: u32, today: i32) -> (r: usize)
        requires
            countable_back(today, days),
        ensures
            r <= self.obs@.len(),
            r == start_of(self.obs@, days, today),
            days != 0 && split_by(self.obs@, cutoff(today, days)) ==> r == leading(
                self.obs@,
                cutoff(today, days),
            ),
    {
        if days == 0 {
            0
        } else {
            first_from(&self.obs, day_before(today, days))
        }
    }

    /// What a card draws: the values within the day for the two shortest ranges where there are
    /// some, else the observations where there are two, else why there are none. `since` is the
    /// moment at which the range starts.
    pub fn chart(&self, range: Range, today: i32, since: Scalar) -> (r: Chart)
        requires
            countable_back(today, range.reach()),
        ensures
            if drawn_by_tick(range, self.intraday@) {
                r matches Chart::Ticks(t) && t@ == ticks_since(self.intraday@, since)
            } else if self.obs@.len() > 1 {
                &&& r matches Chart::Days(start)
                &&& start == drawn_from(self.obs@, range, today)
                &&& start + 2 <= self.obs@.len()
            } else {
                match self.error {
                    Some(e) => r matches Chart::Failure(t) && t@ == e@,
                    None => r is Loading,
                }
            },
    {
        let short = match range {
            Range::D1 => true,
            Range::W1 => true,
            _ => false,
        };
        if short && self.intraday.len() > 0 {
            return Chart::Ticks(pick_ticks(&self.intraday, since));
        }
        let n: usize = self.obs.len();
        if n > 1 {
            let start: usize = self.range_start(range.days(), today);
            return if n - start >= 2 {
                Chart::Days(start)
            } else {
                Chart::Days(n - 2)
            };
        }
        match &self.error {
            Some(e) => Chart::Failure(e.clone()),
            None => Chart::Loading,
        }
    }

    /// What stands below the figure of a card: the day of the last value, and the source.
    pub fn caption(&self) -> (r: String)
        ensures
            r@ == (if self.obs@.len() > 0 && known(self.obs@.last().day as int) {
                date_text(self.obs@.last().day as int)
            } else {
                "no date"@
            }) + "  ·  "@ + self.source_name@,
    {
        let mut t = match self.latest_date() {
            Some(day) => match day_text(day) {
                Some(d) => d,
                None => String::from_str("no date"),
            },
            None => String::from_str("no date"),
        };
        t.append("  ·  ");
        t.append(self.source_name.as_str());
        t
    }

    /// Takes in an observation that just came.
    pub fn take_point(&mut self, o: Obs)
        ensures
            final(self).obs@ == with_point(old(self).obs@, o),
            final(self).title == old(self).title,
            final(self).unit == old(self).unit,
            final(self).source_name == old(self).source_name,
            final(self).intraday == old(self).intraday,
            final(self).error == old(self).error,
    {
        let n: usize = self.obs.len();
        if n == 0 || self.obs[n - 1].day < o.day {
            self.obs.push(o);
        } else if self.obs[n - 1].day == o.day {
            self.obs.set(n - 1, o);
        }
    }
}

/// The change over some days starts where their observations start: it is measured from the first
/// of them to the last, and there is none where they are none or the first is zero.
pub proof fn change_starts_the_range(obs: Seq<Obs>, days: u32, today: i32)
    ensures
        0 <= start_of(obs, days, today) <= obs.len(),
        ({
            let shown = obs.skip(start_of(obs, days, today));
            change_of(obs, days, today) == if obs.len() < 2 || shown.len() == 0 || shown[0].value.zero() {
                None
            } else {
                Some(Change { base: shown[0].value, last: shown.last().value })
            }
        }),
{
    if days != 0 {
        halved_stays(obs, cutoff(today, days), 0, obs.len() as int);
    }
}

/// The change of a day depends on the last two observations alone: it runs from the value of the
/// last but one to that of the last, and there is none exactly where the former is zero.
pub proof fn day_change_is_of_the_last_two(p: Seq<Obs>, a: Obs, b: Obs)
    ensures
        last_change(p + seq![a, b]) == last_change(seq![a, b]),
        last_change(seq![a, b]) is None <==> a.value.zero(),
        last_change(seq![a, b]) matches Some(c) ==> c.base == a.value && c.last == b.value,
{
    let all = p + seq![a, b];
    assert(all[all.len() - 2] == a);
    assert(all.last() == b);
}

/// Without two observations there is no change, neither of a day nor of a range.
pub proof fn one_observation_has_no_change(obs: Seq<Obs>, days: u32, today: i32)
    requires
        obs.len() < 2,
    ensures
        last_change(obs) is None,
        change_of(obs, days, today) is None,
{
}

/// Observations by rising day: the change over some days runs from the first observation that is
/// at most that many days old to the last of all, whatever stands before it; there is none where
/// all observations are older, or where that first one is zero.
pub proof fn change_runs_from_the_first_in_range(obs: Seq<Obs>, days: u32, today: i32, i: int)
    requires
        rising(obs),
        obs.len() >= 2,
        days > 0,
        countable_back(today, days),
        0 <= i <= obs.len(),
        forall|j: int| 0 <= j < i ==> (#[trigger] obs[j]).day < cutoff(today, days),
        forall|j: int| i <= j < obs.len() ==> (#[trigger] obs[j]).day >= cutoff(today, days),
    ensures
        start_of(obs, days, today) == i,
        change_of(obs, days, today) is None <==> i == obs.len() || obs[i].value.zero(),
        change_of(obs, days, today) matches Some(c) ==> c.base == obs[i].value && c.last == obs[obs.len() - 1].value,
{
    let day = cutoff(today, days);
    rising_is_split(obs, day);
    leading_is(obs, day, i);
    first_place_is_behind(obs, day);
}

/// The change over all days runs from the first observation to the last.
pub proof fn change_over_all_days(a: Obs, p: Seq<Obs>, b: Obs, today: i32)
    ensures
        change_of(seq![a] + p + seq![b], 0, today) is None <==> a.value.zero(),
        change_of(seq![a] + p + seq![b], 0, today) matches Some(c) ==> c.base == a.value && c.last == b.value,
{
    let all = seq![a] + p + seq![b];
    assert(all[0] == a);
    assert(all.last() == b);
}

/// Drawn are the observations of the range, and never fewer than two: where the range holds
/// fewer, the last two of all.
pub proof fn drawn_days_are_those_of_the_range(obs: Seq<Obs>, range: Range, today: i32, i: int)
    requires
        rising(obs),
        obs.len() >= 2,
        range.reach() > 0,
        countable_back(today, range.reach()),
        0 <= i <= obs.len(),
        forall|j: int| 0 <= j < i ==> (#[trigger] obs[j]).day < cutoff(today, range.reach()),
        forall|j: int| i <= j < obs.len() ==> (#[trigger] obs[j]).day >= cutoff(today, range.reach()),
    ensures
        i + 2 <= obs.len() ==> drawn_from(obs, range, today) == i,
        i + 2 > obs.len() ==> drawn_from(obs, range, today) + 2 == obs.len(),
{
    change_runs_from_the_first_in_range(obs, range.reach(), today, i);
}

/// What came for the day of the last observation or a later one is the last observation; for an
/// earlier day it changes nothing. The observations of other days stay, in their places.
pub proof fn point_is_the_last(obs: Seq<Obs>, last: Obs, o: Obs)
    ensures
        with_point(Seq::empty(), o) == seq![o],
        o.day > last.day ==> with_point(obs.push(last), o) == obs + seq![last, o],
        o.day == last.day ==> with_point(obs.push(last), o) == obs + seq![o],
        o.day < last.day ==> with_point(obs.push(last), o) == obs + seq![last],
{
    let all = obs.push(last);
    assert(with_point(Seq::empty(), o) =~= seq![o]);
    if o.day > last.day {
        assert(with_point(all, o) =~= obs + seq![last, o]);
    } else if o.day == last.day {
        assert(with_point(all, o) =~= obs + seq![o]);
    } else {
        assert(with_point(all, o) =~= obs + seq![last]);
    }
}

/// The ticks since a moment are all that are not before it, in their order.
pub proof fn ticks_since_are_picked_one_by_one(a: Seq<Tick>, t: Tick, b: Seq<Tick>, since: Scalar)
    ensures
        t.at.at_least(since) ==> ticks_since(a + seq![t] + b, since) == ticks_since(a, since) + seq![t] + ticks_since(
            b,
            since,
        ),
        !t.at.at_least(since) ==> ticks_since(a + seq![t] + b, since) == ticks_since(a, since) + ticks_since(b, since),
        ticks_since(Seq::empty(), since).len() == 0,
    decreases b.len(),
{
    let all = a + seq![t] + b;
    if b.len() == 0 {
        assert(all.drop_last() =~= a);
        assert(all.last() == t);
        assert(ticks_since(a, since) + seq![t] + ticks_since(b, since) =~= ticks_since(a, since).push(t));
        assert(ticks_since(a, since) + ticks_since(b, since) =~= ticks_since(a, since));
    } else {
        let c = b.drop_last();
        ticks_since_are_picked_one_by_one(a, t, c, since);
        assert(all.drop_last() =~= a + seq![t] + c);
        assert(all.last() == b.last());
        assert(ticks_since(a, since) + seq![t] + ticks_since(c, since).push(b.last()) =~= (ticks_since(a, since)
            + seq![t] + ticks_since(c, since)).push(b.last()));
        assert(ticks_since(a, since) + ticks_since(c, since).push(b.last()) =~= (ticks_since(a, since) + ticks_since(
            c,
            since,
        )).push(b.last()));
    }
}

/// A point keeps each day at most once and the days in order.
pub proof fn point_keeps_order(obs: Seq<Obs>, o: Obs)
    requires
        strictly_rising(obs),
    ensures
        strictly_rising(with_point(obs, o)),
{
    let s = with_point(obs, o);
    assert forall|i: int, j: int| 0 <= i < j < s.len() implies (#[trigger] s[i]).key() < (#[trigger] s[j]).key() by {
        assert(i < obs.len());
        assert(s[i].key() == obs[i].key());
        if j < obs.len() {
            assert(obs[i].key() < obs[j].key());
        } else if i < obs.len() - 1 {
            assert(obs[i].key() < obs[obs.len() - 1].key());
        }
    }
}

/// A point that came twice is taken in once.
pub proof fn point_twice_is_once(obs: Seq<Obs>, o: Obs)
    ensures
        with_point(with_point(obs, o), o) == with_point(obs, o),
{
    let s = with_point(obs, o);
    if s.len() > 0 && s.last().day == o.day {
        assert(with_point(s, o) =~= s);
    }
}

/// The low is not above the lower quarter, that not above the median, and so on to the high.
pub proof fn stats_are_ordered(obs: Seq<Obs>)
    requires
        stats_of(obs) is Some,
    ensures
        stats_of(obs)->0.low.rank() <= stats_of(obs)->0.lower.rank(),
        stats_of(obs)->0.lower.rank() <= stats_of(obs)->0.median.rank(),
        stats_of(obs)->0.median.rank() <= stats_of(obs)->0.upper.rank(),
        stats_of(obs)->0.upper.rank() <= stats_of(obs)->0.high.rank(),
{
    let v = sorted(year_values(obs));
    sorted_is_rising(year_values(obs));
    sorted_has_each(year_values(obs));
    let n = v.len() as int;
    assert(v[0].key() <= v[n / 4].key());
    assert(v[n / 4].key() <= v[n / 2].key());
    assert(v[n / 2].key() <= v[n * 3 / 4].key());
    assert(v[n * 3 / 4].key() <= v[n - 1].key());
}

/// An observation as it is stored.
#[derive(Debug)]
pub struct Row {
    pub date: String,
    pub value: Scalar,
}

/// What a [`Row`] holds.
pub struct Stored {
    pub date: Seq<char>,
    pub value: Scalar,
}

impl View for Row {
    type V = Stored;

    open spec fn view(&self) -> Stored {
        Stored { date: self.date@, value: self.value }
    }
}

pub open spec fn row_views(v: Seq<Row>) -> Seq<Stored> {
    v.map_values(|r: Row| r@)
}

/// The observations of rows: those whose day can be read.
pub open spec fn loaded(rows: Seq<Stored>) -> Seq<Obs>
    decreases rows.len(),
{
    if rows.len() == 0 {
        Seq::empty()
    } else {
        let before = loaded(rows.drop_last());
        match read_date(rows.last().date) {
            Some(day) => before.push(Obs { day, value: rows.last().value }),
            None => before,
        }
    }
}

/// The observations of rows, in their order: those whose day can be read.
pub fn load_rows(rows: &Vec<Row>) -> (r: Vec<Obs>)
    ensures
        r@ == loaded(row_views(rows@)),
        forall|i: int| 0 <= i < r@.len() ==> known((#[trigger] r@[i]).day as int),
{
    let n: usize = rows.len();
    let ghost all = row_views(rows@);
    let mut out: Vec<Obs> = Vec::new();
    assert(out@ =~= loaded(all.take(0)));
    for i in 0..n
        invariant
            n == rows@.len(),
            all == row_views(rows@),
            out@ == loaded(all.take(i as int)),
            forall|j: int| 0 <= j < out@.len() ==> known((#[trigger] out@[j]).day as int),
    {
        assert(all.take(i + 1).drop_last() =~= all.take(i as int));
        assert(all.take(i + 1).last() == rows@[i as int]@);
        match parse_day(rows[i].date.as_str()) {
            Some(day) => {
                out.push(Obs { day, value: rows[i].value });
            },
            None => {},
        }
    }
    assert(all.take(n as int) =~= all);
    out
}

/// Observations as they are stored. They come back as they were.
pub fn save_rows(obs: &Vec<Obs>) -> (r: Vec<Row>)
    requires
        forall|i: int| 0 <= i < obs@.len() ==> known((#[trigger] obs@[i]).day as int),
    ensures
        r@.len() == obs@.len(),
        forall|i: int|
            0 <= i < obs@.len() ==> (#[trigger] r@[i])@ == (Stored {
                date: date_text(obs@[i].day as int),
                value: obs@[i].value,
            }),
        loaded(row_views(r@)) == obs@,
{
    let n: usize = obs.len();
    let mut out: Vec<Row> = Vec::new();
    assert(row_views(out@) =~= Seq::<Stored>::empty());
    assert(obs@.take(0) =~= Seq::<Obs>::empty());
    for i in 0..n
        invariant
            n == obs@.len(),
            out@.len() == i,
            forall|j: int| 0 <= j < n ==> known((#[trigger] obs@[j]).day as int),
            forall|j: int|
                0 <= j < i ==> (#[trigger] out@[j])@ == (Stored {
                    date: date_text(obs@[j].day as int),
                    value: obs@[j].value,
                }),
            loaded(row_views(out@)) == obs@.take(i as int),
    {
        let ghost before = row_views(out@);
        let date = format_day(obs[i].day);
        let row = Row { date, value: obs[i].value };
        out.push(row);
        assert(row_views(out@) =~= before.push(row@));
        assert(before.push(row@).drop_last() =~= before);
        assert(before.push(row@).last() == row@);
        assert(obs@.take(i + 1) =~= obs@.take(i as int).push(obs@[i as int]));
    }
    assert(obs@.take(n as int) =~= obs@);
    out
}

/// The figures of a year are those of the last 365 values, or of all where there are fewer: what
/// stands before makes no difference, and there are none for fewer than 30.
pub proof fn stats_are_of_the_last_year(p: Seq<Obs>, q: Seq<Obs>)
    ensures
        q.len() >= 365 ==> stats_of(p + q) == stats_of(q),
        stats_of(q) is None <==> q.len() < 30,
        year_values(q).len() == (if q.len() < 365 {
            q.len()
        } else {
            365
        }),
        forall|i: int| 0 <= i < year_values(q).len() ==> #[trigger] year_values(q)[i] == q[q.len() - 1 - i].value,
{
    if q.len() >= 365 {
        assert(year_values(p + q) =~= year_values(q));
    }
}

/// The low and the high of a year are values of it, and none is below the one or above the other.
/// The quarters and the median are values of it that as many stand below as their names say.
pub proof fn stats_cut_the_year(obs: Seq<Obs>)
    requires
        stats_of(obs) is Some,
    ensures
        ({
            let v = year_values(obs);
            let n = v.len() as int;
            let y = stats_of(obs)->0;
            &&& v.contains(y.low) && v.contains(y.lower) && v.contains(y.median) && v.contains(y.upper) && v.contains(
                y.high,
            )
            &&& forall|i: int| 0 <= i < n ==> y.low.rank() <= (#[trigger] v[i]).rank() <= y.high.rank()
            &&& count_below(v, y.lower.rank()) <= n / 4 < count_below(v, y.lower.rank() + 1)
            &&& count_below(v, y.median.rank()) <= n / 2 < count_below(v, y.median.rank() + 1)
            &&& count_below(v, y.upper.rank()) <= n * 3 / 4 < count_below(v, y.upper.rank() + 1)
        }),
{
    let v = year_values(obs);
    let n = v.len() as int;
    let s = sorted(v);
    sorted_is_rising(v);
    sorted_has_each(v);
    sorted_place_is_by_count(v, n / 4);
    sorted_place_is_by_count(v, n / 2);
    sorted_place_is_by_count(v, n * 3 / 4);
    assert(s.contains(s[0]) && s.contains(s[n / 4]) && s.contains(s[n / 2]) && s.contains(s[n * 3 / 4]) && s.contains(
        s[n - 1],
    ));
    assert forall|i: int| 0 <= i < n implies s[0].rank() <= (#[trigger] v[i]).rank() <= s[n - 1].rank() by {
        assert(v.contains(v[i]));
        let k = choose|k: int| 0 <= k < s.len() && s[k] == v[i];
        assert(s[0].key() <= s[k].key());
        assert(s[k].key() <= s[n - 1].key());
    }
}

/// The stored rows of a series are read one by one, in their order; one whose day cannot be read is
/// left out.
pub proof fn rows_are_read_one_by_one(a: Seq<Stored>, b: Seq<Stored>, row: Stored)
    ensures
        loaded(a + b) == loaded(a) + loaded(b),
        loaded(seq![row]) == (match read_date(row.date) {
            Some(day) => seq![Obs { day, value: row.value }],
            None => Seq::empty(),
        }),
        loaded(Seq::empty()).len() == 0,
    decreases b.len(),
{
    assert(loaded(Seq::empty()) =~= Seq::<Obs>::empty());
    assert(seq![row].drop_last() =~= Seq::<Stored>::empty());
    assert(loaded(seq![row]) =~= match read_date(row.date) {
        Some(day) => seq![Obs { day, value: row.value }],
        None => Seq::empty(),
    });
    if b.len() == 0 {
        assert(a + b =~= a);
        assert(loaded(a) + loaded(b) =~= loaded(a));
    } else {
        rows_are_read_one_by_one(a, b.drop_last(), row);
        assert((a + b).drop_last() =~= a + b.drop_last());
        assert(loaded(a + b) =~= loaded(a) + loaded(b));
    }
}

/// The values within the day are drawn for the two shortest ranges, where there are some.
pub proof fn short_ranges_draw_ticks(range: Range, ticks: Seq<Tick>)
    ensures
        drawn_by_tick(range, ticks) <==> ticks.len() > 0 && 0 < range.reach() <= 7,
{
}

} // verus!
