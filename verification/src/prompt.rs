//! What a model is told of the dashboard.

use vstd::prelude::*;
use vstd::string::*;
use crate::calendar::{date_text, day_text, known};
use crate::country::Country;
use crate::range::Range;
use crate::registry::SeriesSpec;
use crate::scalar::Scalar;
use crate::series::{change_of, last_change, stats_of, Change, Series, YearStats};
use crate::table::SeriesTable;
use crate::text::{cat, join, joined, text_view, views};

verus! {

/// The figures of a series that a model is told.
#[derive(Debug)]
pub struct Snapshot {
    pub title: String,
    pub unit: String,
    pub value: Scalar,
    /// The change of the last day, of the last 30 days, of the last 365 days and of the range
    /// that is shown.
    pub day: Option<Change>,
    pub month: Option<Change>,
    pub year: Option<Change>,
    pub view: Option<Change>,
    pub stats: Option<YearStats>,
    pub date: String,
}

/// The day of the last observation of a series.
pub open spec fn last_day_words(s: Series) -> Seq<char> {
    if known(s.obs@.last().day as int) {
        date_text(s.obs@.last().day as int)
    } else {
        Seq::empty()
    }
}

/// The figures of a series.
pub open spec fn is_snapshot(s: Series, range: Range, today: i32, r: Snapshot) -> bool {
    &&& s.obs@.len() > 0
    &&& r.title@ == s.title@
    &&& r.unit@ == s.unit@
    &&& r.value == s.obs@.last().value
    &&& r.day == last_change(s.obs@)
    &&& r.month == change_of(s.obs@, 30, today)
    &&& r.year == change_of(s.obs@, 365, today)
    &&& r.view == change_of(s.obs@, range.reach(), today)
    &&& r.stats == stats_of(s.obs@)
    &&& r.date@ == last_day_words(s)
}

/// The series that a model is told of: those that are there and have an observation.
pub open spec fn told(specs: Seq<SeriesSpec>, table: Map<Seq<char>, Series>) -> Seq<Series>
    decreases specs.len(),
{
    if specs.len() == 0 {
        Seq::empty()
    } else {
        let less = told(specs.drop_last(), table);
        let symbol = specs.last().symbol@;
        if table.contains_key(symbol) && table[symbol].obs@.len() > 0 {
            less.push(table[symbol])
        } else {
            less
        }
    }
}

fn snapshot(s: &Series, range: Range, today: i32) -> (r: Option<Snapshot>)
    requires
        known(today as int),
    ensures
        r is Some == (s.obs@.len() > 0),
        r matches Some(t) ==> is_snapshot(*s, range, today, t),
{
    match s.latest() {
        None => None,
        Some(value) => {
            let date = match s.latest_date() {
                Some(d) => match day_text(d) {
                    Some(t) => t,
                    None => String::new(),
                },
                None => String::new(),
            };
            Some(
                Snapshot {
                    title: s.title.clone(),
                    unit: s.unit.clone(),
                    value,
                    day: s.day_change_pct(),
                    month: s.change_pct(30, today),
                    year: s.change_pct(365, today),
                    view: s.change_pct(range.days(), today),
                    stats: s.year_stats(),
                    date,
                },
            )
        },
    }
}

/// The figures of the series that a model is told of, in the order of the registry.
pub fn snapshots(table: &SeriesTable, specs: &Vec<SeriesSpec>, range: Range, today: i32) -> (r: Vec<Snapshot>)
    requires
        table.wf(),
        known(today as int),
    ensures
        r@.len() == told(specs@, table@).len(),
        forall|i: int| 0 <= i < r@.len() ==> is_snapshot(told(specs@, table@)[i], range, today, #[trigger] r@[i]),
{
    let n: usize = specs.len();
    let mut out: Vec<Snapshot> = Vec::new();
    for i in 0..n
        invariant
            n == specs@.len(),
            table.wf(),
            known(today as int),
            out@.len() == told(specs@.take(i as int), table@).len(),
            forall|j: int|
                0 <= j < out@.len() ==> is_snapshot(
                    told(specs@.take(i as int), table@)[j],
                    range,
                    today,
                    #[trigger] out@[j],
                ),
    {
        assert(specs@.take(i + 1).drop_last() =~= specs@.take(i as int));
        if let Some(s) = table.get(specs[i].symbol) {
            if let Some(t) = snapshot(s, range, today) {
                out.push(t);
            }
        }
    }
    assert(specs@.take(n as int) =~= specs@);
    out
}

/// The figures of a year in words.
#[derive(Debug)]
pub struct StatsText {
    pub low: String,
    pub lower: String,
    pub median: String,
    pub upper: String,
    pub high: String,
    /// How far the last value is from the high, in percent.
    pub off_high: String,
}

/// The figures of a series in words; the changes in percent.
#[derive(Debug)]
pub struct RowText {
    pub value: String,
    pub day: Option<String>,
    pub month: Option<String>,
    pub year: Option<String>,
    pub view: Option<String>,
    pub stats: Option<StatsText>,
}

/// A change as it is told.
pub open spec fn change_words(pct: Option<Seq<char>>) -> Seq<char> {
    match pct {
        Some(p) => p + "%"@,
        None => "n/a"@,
    }
}

/// The figures of a year as they are told.
pub open spec fn stats_words(stats: Option<StatsText>) -> Seq<char> {
    match stats {
        Some(s) => " | 52w low "@ + s.low@ + " / median "@ + s.median@ + " / high "@ + s.high@ + " | typically "@
            + s.lower@ + " to "@ + s.upper@ + " | now "@ + s.off_high@ + "% vs 52w high"@,
        None => Seq::empty(),
    }
}

/// The unit behind a value.
pub open spec fn unit_words(unit: Seq<char>) -> Seq<char> {
    if unit.len() == 0 {
        Seq::empty()
    } else {
        " "@ + unit
    }
}

/// The line of a series.
pub open spec fn row_words(title: Seq<char>, unit: Seq<char>, date: Seq<char>, row: RowText, range: Range) -> Seq<char> {
    "• "@ + title + " — "@ + row.value@ + unit_words(unit) + " | 1D "@ + change_words(text_view(row.day)) + " | 1M "@
        + change_words(text_view(row.month)) + " | 1Y "@ + change_words(text_view(row.year)) + " | view("@
        + range.labelled() + ") "@ + change_words(text_view(row.view)) + stats_words(row.stats) + " | as of "@ + date
}

fn change_text(pct: &Option<String>) -> (r: String)
    ensures
        r@ == change_words(text_view(*pct)),
{
    match pct {
        Some(p) => cat(p.as_str(), "%"),
        None => String::from_str("n/a"),
    }
}

fn stats_text(stats: &Option<StatsText>) -> (r: String)
    ensures
        r@ == stats_words(*stats),
{
    match stats {
        Some(s) => {
            let mut t = cat(" | 52w low ", s.low.as_str());
            t.append(" / median ");
            t.append(s.median.as_str());
            t.append(" / high ");
            t.append(s.high.as_str());
            t.append(" | typically ");
            t.append(s.lower.as_str());
            t.append(" to ");
            t.append(s.upper.as_str());
            t.append(" | now ");
            t.append(s.off_high.as_str());
            t.append("% vs 52w high");
            t
        },
        None => {
            let t = String::new();
            assert(t@ =~= Seq::<char>::empty());
            t
        },
    }
}

/// A value with its unit behind it.
pub fn with_unit(value: &str, unit: &str) -> (r: String)
    ensures
        r@ == value@ + unit_words(unit@),
{
    let mut t = String::from_str(value);
    if !unit.is_empty() {
        t.append(" ");
        t.append(unit);
        assert(t@ =~= value@ + unit_words(unit@));
    } else {
        assert(t@ =~= value@ + unit_words(unit@));
    }
    t
}

/// The line of a series.
pub fn row_line(s: &Snapshot, row: &RowText, range: Range) -> (r: String)
    ensures
        r@ == row_words(s.title@, s.unit@, s.date@, *row, range),
{
    let mut t = cat("• ", s.title.as_str());
    t.append(" — ");
    t.append(with_unit(row.value.as_str(), s.unit.as_str()).as_str());
    t.append(" | 1D ");
    t.append(change_text(&row.day).as_str());
    t.append(" | 1M ");
    t.append(change_text(&row.month).as_str());
    t.append(" | 1Y ");
    t.append(change_text(&row.year).as_str());
    t.append(" | view(");
    t.append(range.label());
    t.append(") ");
    t.append(change_text(&row.view).as_str());
    t.append(stats_text(&row.stats).as_str());
    t.append(" | as of ");
    t.append(s.date.as_str());
    assert(t@ =~= row_words(s.title@, s.unit@, s.date@, *row, range));
    t
}

/// What a model is told first.
pub open spec fn greeting(country: Seq<char>) -> Seq<char> {
    "You are the AI research analyst embedded in a personal macroeconomics dashboard (country focus: "@ + country
        + ")."@
}

/// What a model is told before the lines of the series.
pub open spec fn heading(today: Seq<char>) -> Seq<char> {
    "Today is "@ + today
        + ". Live dashboard snapshot — value, window changes, 52-week range stats, as-of date:"@
}

/// What a model is told last.
pub open spec fn closing() -> Seq<char> {
    "These are the live prices fetched from the data APIs (FRED, ECB/Frankfurter, Kraken, LBMA; mostly daily EOD, some intraday). Use them directly when asked about current levels. For anything more time-sensitive or beyond this snapshot, use the web_search and web_fetch tools before answering. Be concise, quantitative, and cite URLs you fetched."@
}

/// The lines of the series, one for each.
pub open spec fn row_lines(snaps: Seq<Snapshot>, rows: Seq<RowText>, range: Range) -> Seq<Seq<char>> {
    Seq::new(snaps.len(), |i: int| row_words(snaps[i].title@, snaps[i].unit@, snaps[i].date@, rows[i], range))
}

/// What a model is told of the dashboard: who it is, what day it is, a line for each series, and
/// what to make of them.
pub fn market_system_prompt(
    country: Country,
    today: &str,
    snaps: &Vec<Snapshot>,
    rows: &Vec<RowText>,
    range: Range,
) -> (r: String)
    requires
        rows@.len() == snaps@.len(),
    ensures
        r@ == joined(
            seq![greeting(country.called()), heading(today@)] + row_lines(snaps@, rows@, range) + seq![closing()],
            "\n"@,
        ),
{
    let mut lines: Vec<String> = Vec::new();
    let mut first = cat(
        "You are the AI research analyst embedded in a personal macroeconomics dashboard (country focus: ",
        country.name(),
    );
    first.append(").");
    lines.push(first);
    let mut second = cat("Today is ", today);
    second.append(". Live dashboard snapshot — value, window changes, 52-week range stats, as-of date:");
    lines.push(second);
    let n: usize = snaps.len();
    let ghost told = row_lines(snaps@, rows@, range);
    let ghost front = seq![greeting(country.called()), heading(today@)];
    assert(views(lines@) =~= front + told.take(0));
    for i in 0..n
        invariant
            n == snaps@.len(),
            n == rows@.len(),
            told == row_lines(snaps@, rows@, range),
            views(lines@) == front + told.take(i as int),
    {
        let ghost before = views(lines@);
        let line = row_line(&snaps[i], &rows[i], range);
        lines.push(line);
        assert(views(lines@) =~= before.push(line@));
        assert(told.take(i + 1) =~= told.take(i as int).push(told[i as int]));
        assert(views(lines@) =~= front + told.take(i + 1));
    }
    let ghost before = views(lines@);
    let last = String::from_str(
        "These are the live prices fetched from the data APIs (FRED, ECB/Frankfurter, Kraken, LBMA; mostly daily EOD, some intraday). Use them directly when asked about current levels. For anything more time-sensitive or beyond this snapshot, use the web_search and web_fetch tools before answering. Be concise, quantitative, and cite URLs you fetched.",
    );
    lines.push(last);
    assert(views(lines@) =~= before.push(last@));
    assert(told.take(n as int) =~= told);
    assert(views(lines@) =~= front + told + seq![closing()]);
    join(&lines, "\n")
}

/// Each series of the registry that is there and has an observation has one line in what a model
/// is told, with its title, its unit and the day of its last value, in the order of the registry.
/// No other series has one.
pub proof fn each_live_series_has_its_line(
    specs: Seq<SeriesSpec>,
    table: Map<Seq<char>, Series>,
    range: Range,
    today: i32,
    snaps: Seq<Snapshot>,
    rows: Seq<RowText>,
)
    requires
        snaps.len() == told(specs, table).len(),
        forall|i: int| 0 <= i < snaps.len() ==> is_snapshot(told(specs, table)[i], range, today, #[trigger] snaps[i]),
    ensures
        row_lines(snaps, rows, range) == Seq::new(
            told(specs, table).len(),
            |i: int|
                row_words(
                    told(specs, table)[i].title@,
                    told(specs, table)[i].unit@,
                    last_day_words(told(specs, table)[i]),
                    rows[i],
                    range,
                ),
        ),
{
    let live = told(specs, table);
    let lines = row_lines(snaps, rows, range);
    assert forall|i: int| 0 <= i < live.len() implies #[trigger] lines[i] == row_words(
        live[i].title@,
        live[i].unit@,
        last_day_words(live[i]),
        rows[i],
        range,
    ) by {
        assert(is_snapshot(live[i], range, today, snaps[i]));
    }
}

/// The series that a model is told of are picked one by one, in the order of the registry: each that
/// is there and has an observation.
pub proof fn live_series_are_told(a: Seq<SeriesSpec>, b: Seq<SeriesSpec>, spec: SeriesSpec, table: Map<Seq<char>, Series>)
    ensures
        told(a + b, table) == told(a, table) + told(b, table),
        table.contains_key(spec.symbol@) && table[spec.symbol@].obs@.len() > 0 ==> told(seq![spec], table) == seq![
            table[spec.symbol@],
        ],
        !(table.contains_key(spec.symbol@) && table[spec.symbol@].obs@.len() > 0) ==> told(seq![spec], table).len()
            == 0,
    decreases b.len(),
{
    assert(told(Seq::empty(), table) =~= Seq::<Series>::empty());
    assert(seq![spec].drop_last() =~= Seq::<SeriesSpec>::empty());
    if table.contains_key(spec.symbol@) && table[spec.symbol@].obs@.len() > 0 {
        assert(told(seq![spec], table) =~= seq![table[spec.symbol@]]);
    }
    if b.len() == 0 {
        assert(a + b =~= a);
        assert(told(a, table) + told(b, table) =~= told(a, table));
    } else {
        live_series_are_told(a, b.drop_last(), spec, table);
        assert((a + b).drop_last() =~= a + b.drop_last());
        assert(told(a + b, table) =~= told(a, table) + told(b, table));
    }
}

} // verus!
