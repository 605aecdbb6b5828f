//! What is fetched in the background, and when.

use vstd::prelude::*;
use crate::registry::{ticker, yahoo_intraday_ticker, SeriesSpec, Source};

verus! {

/// Through which a round of all fetches is asked for.
#[derive(Debug)]
pub struct WorkerHandle {
    pub manual: bool,
}

impl WorkerHandle {
    pub fn new() -> (r: WorkerHandle)
        ensures
            !r.manual,
    {
        WorkerHandle { manual: false }
    }

    /// Asks for a round of all fetches.
    pub fn trigger(&mut self)
        ensures
            final(self).manual,
    {
        self.manual = true;
    }

    /// Whether a round of all fetches was asked for since the last call.
    pub fn take(&mut self) -> (r: bool)
        ensures
            r == old(self).manual,
            !final(self).manual,
    {
        let asked = self.manual;
        self.manual = false;
        asked
    }
}

/// A second, in the nanoseconds in which time is counted here.
pub const SECOND: u128 = 1_000_000_000;

/// The shortest time between two looks at the prices, in seconds.
pub const LEAST_REFRESH: u64 = 15;

/// The time after which the history of a traded series is fetched again.
pub const TRADED_INTERVAL: u128 = 21_600_000_000_000;

/// A day: the time after which the history of any other series is fetched again.
pub const DAY: u128 = 86_400_000_000_000;

/// What is to be fetched. Series are given by their places.
#[derive(Clone, Copy, Debug)]
pub enum Task {
    /// The last price.
    Quote(usize),
    /// The prices within the day, from Kraken.
    KrakenTicks(usize),
    /// The prices within the day, from Yahoo under that ticker.
    YahooTicks(usize, &'static str),
    /// The history.
    History(usize),
    /// Nothing, for now. A round is over.
    Rest {
        /// It was asked for, so that its end is told.
        announce: bool,
        /// There is something new to show.
        repaint: bool,
    },
}

/// What was fetched when, and how far the present round is.
#[derive(Debug)]
pub struct Worker {
    /// The time between two looks at the prices.
    pub quote_interval: u128,
    /// When the prices were last looked at.
    pub last_quotes: u128,
    /// When the history of each series was last fetched.
    pub last_history: Vec<Option<u128>>,
    /// The round was asked for.
    pub manual: bool,
    /// The prices are looked at in this round.
    pub quotes: bool,
    /// The part of the round: prices, prices within the day from Kraken and from Yahoo,
    /// histories; then it is over.
    pub phase: usize,
    /// The series that is next in that part.
    pub at: usize,
    /// Something new came since the last rest.
    pub news: bool,
}

/// What is to be fetched, as [`Task`] says it.
pub enum Step {
    Quote(int),
    KrakenTicks(int),
    YahooTicks(int, Seq<char>),
    History(int),
    Rest { announce: bool, repaint: bool },
}

impl View for Task {
    type V = Step;

    open spec fn view(&self) -> Step {
        match *self {
            Task::Quote(i) => Step::Quote(i as int),
            Task::KrakenTicks(i) => Step::KrakenTicks(i as int),
            Task::YahooTicks(i, t) => Step::YahooTicks(i as int, t@),
            Task::History(i) => Step::History(i as int),
            Task::Rest { announce, repaint } => Step::Rest { announce, repaint },
        }
    }
}

/// What was fetched when, and how far the present round is, as [`Worker`] holds it.
pub struct Progress {
    pub quote_interval: u128,
    pub last_quotes: u128,
    pub last_history: Seq<Option<u128>>,
    pub manual: bool,
    pub quotes: bool,
    pub phase: int,
    pub at: int,
    pub news: bool,
}

impl View for Worker {
    type V = Progress;

    open spec fn view(&self) -> Progress {
        Progress {
            quote_interval: self.quote_interval,
            last_quotes: self.last_quotes,
            last_history: self.last_history@,
            manual: self.manual,
            quotes: self.quotes,
            phase: self.phase as int,
            at: self.at as int,
            news: self.news,
        }
    }
}

/// The time since `then`.
pub open spec fn since(now: u128, then: u128) -> int {
    if now >= then {
        now - then
    } else {
        0
    }
}

/// The time after which a history is fetched again.
pub open spec fn interval(market: bool) -> u128 {
    if market {
        TRADED_INTERVAL
    } else {
        DAY
    }
}

impl Progress {
    /// A part of the present round asks for a series.
    pub open spec fn wants(self, specs: Seq<SeriesSpec>, phase: int, i: int, now: u128) -> bool {
        if phase == 0 {
            self.quotes && specs[i].market && (specs[i].source == Source::Kraken || specs[i].source
                == Source::Frankfurter)
        } else if phase == 1 {
            self.quotes && specs[i].source == Source::Kraken
        } else if phase == 2 {
            self.quotes && ticker(specs[i].symbol@) is Some
        } else {
            self.manual || match self.last_history[i] {
                Some(then) => since(now, then) >= interval(specs[i].market),
                None => true,
            }
        }
    }

    /// The first place from `(phase, i)` on that asks for its series: part by part, and in each
    /// series by series. The last part is the rest.
    pub open spec fn next_place(self, specs: Seq<SeriesSpec>, phase: int, i: int, now: u128) -> (int, int)
        decreases 4 - phase, specs.len() - i,
    {
        if phase < 0 || phase >= 4 {
            (4, 0)
        } else if i < 0 || i >= specs.len() {
            self.next_place(specs, phase + 1, 0, now)
        } else if self.wants(specs, phase, i, now) {
            (phase, i)
        } else {
            self.next_place(specs, phase, i + 1, now)
        }
    }

    /// A round begins: the prices are looked at where it was asked for or it is time to.
    pub open spec fn begun(self, manual: bool, now: u128) -> Progress {
        Progress {
            manual,
            quotes: manual || since(now, self.last_quotes) >= self.quote_interval,
            phase: 0,
            at: 0,
            ..self
        }
    }

    /// What is to be fetched next, and how far the round is with it. The prices count as looked
    /// at when the first part of a round with prices is left, and nothing is new after a rest.
    pub open spec fn asked(self, specs: Seq<SeriesSpec>, now: u128) -> (Progress, Step) {
        let (phase, i) = self.next_place(specs, self.phase, self.at, now);
        let last_quotes = if self.phase == 0 && phase > 0 && self.quotes {
            now
        } else {
            self.last_quotes
        };
        if phase >= 4 {
            (
                Progress { last_quotes, phase: 4, at: 0, news: false, ..self },
                Step::Rest { announce: self.manual, repaint: self.manual || self.news },
            )
        } else {
            (
                Progress { last_quotes, phase, at: i + 1, ..self },
                if phase == 0 {
                    Step::Quote(i)
                } else if phase == 1 {
                    Step::KrakenTicks(i)
                } else if phase == 2 {
                    Step::YahooTicks(i, ticker(specs[i].symbol@)->0)
                } else {
                    Step::History(i)
                },
            )
        }
    }

    /// A fetch ended: something came or not. A history counts as fetched even where nothing
    /// came.
    pub open spec fn done(self, step: Step, came: bool, now: u128) -> Progress {
        Progress {
            last_history: match step {
                Step::History(i) => self.last_history.update(i, Some(now)),
                _ => self.last_history,
            },
            news: self.news || came,
            ..self
        }
    }
}

impl Worker {
    /// The worker for series of which some are stored: those were fetched just now. The prices
    /// count as looked at a day ago.
    pub fn new(stored: &Vec<bool>, refresh: u64, now: u128) -> (r: Worker)
        ensures
            r.quote_interval == SECOND * (if refresh < LEAST_REFRESH {
                LEAST_REFRESH
            } else {
                refresh
            }),
            r.last_quotes == (if now >= DAY {
                now - DAY
            } else {
                now as int
            }),
            r.last_history@.len() == stored@.len(),
            forall|i: int|
                0 <= i < stored@.len() ==> #[trigger] r.last_history@[i] == (if stored@[i] {
                    Some(now)
                } else {
                    None
                }),
            r.phase == 4,
            r.at == 0,
            !r.manual,
            !r.quotes,
            !r.news,
    {
        let n: usize = stored.len();
        let mut last_history: Vec<Option<u128>> = Vec::new();
        for i in 0..n
            invariant
                n == stored@.len(),
                last_history@.len() == i,
                forall|j: int|
                    0 <= j < i ==> #[trigger] last_history@[j] == (if stored@[j] {
                        Some(now)
                    } else {
                        None
                    }),
        {
            last_history.push(
                if stored[i] {
                    Some(now)
                } else {
                    None
                },
            );
        }
        let seconds: u64 = if refresh < LEAST_REFRESH {
            LEAST_REFRESH
        } else {
            refresh
        };
        Worker {
            quote_interval: seconds as u128 * SECOND,
            last_quotes: if now >= DAY {
                now - DAY
            } else {
                now
            },
            last_history,
            manual: false,
            quotes: false,
            phase: 4,
            at: 0,
            news: false,
        }
    }

    /// Begins a round. The prices are looked at where it was asked for or it is time to.
    pub fn begin(&mut self, manual: bool, now: u128)
        ensures
            final(self)@ == old(self)@.begun(manual, now),
    {
        let elapsed: u128 = if now >= self.last_quotes {
            now - self.last_quotes
        } else {
            0
        };
        self.manual = manual;
        self.quotes = manual || elapsed >= self.quote_interval;
        self.phase = 0;
        self.at = 0;
    }

    fn wants_here(&self, specs: &Vec<SeriesSpec>, phase: usize, i: usize, now: u128) -> (r: bool)
        requires
            i < specs@.len(),
            specs@.len() == self.last_history@.len(),
            phase < 4,
        ensures
            r == self@.wants(specs@, phase as int, i as int, now),
    {
        let spec = specs[i];
        if phase == 0 {
            self.quotes && spec.market && match spec.source {
                Source::Kraken => true,
                Source::Frankfurter => true,
                _ => false,
            }
        } else if phase == 1 {
            self.quotes && match spec.source {
                Source::Kraken => true,
                _ => false,
            }
        } else if phase == 2 {
            self.quotes && yahoo_intraday_ticker(spec.symbol).is_some()
        } else {
            self.manual || match self.last_history[i] {
                Some(then) => {
                    let elapsed: u128 = if now >= then {
                        now - then
                    } else {
                        0
                    };
                    elapsed >= (if spec.market {
                        TRADED_INTERVAL
                    } else {
                        DAY
                    })
                },
                None => true,
            }
        }
    }

    /// What is to be fetched next in the round. The prices count as looked at when the first
    /// part of a round with prices is left.
    pub fn next_task(&mut self, specs: &Vec<SeriesSpec>, now: u128) -> (r: Task)
        requires
            specs@.len() == old(self).last_history@.len(),
        ensures
            final(self)@ == old(self)@.asked(specs@, now).0,
            r@ == old(self)@.asked(specs@, now).1,
            match r {
                Task::Quote(i) => i < specs@.len(),
                Task::KrakenTicks(i) => i < specs@.len(),
                Task::YahooTicks(i, _) => i < specs@.len(),
                Task::History(i) => i < specs@.len(),
                Task::Rest { .. } => true,
            },
    {
        let n: usize = specs.len();
        let from: usize = self.phase;
        let mut phase: usize = self.phase;
        let mut i: usize = self.at;
        let ghost start = self@.next_place(specs@, phase as int, i as int, now);
        while phase < 4 && (i >= n || !self.wants_here(specs, phase, i, now))
            invariant
                n == specs@.len(),
                n == self.last_history@.len(),
                *self == *old(self),
                start == self@.next_place(specs@, phase as int, i as int, now),
            decreases 4 - phase, n - i,
        {
            if i >= n {
                phase = phase + 1;
                i = 0;
            } else {
                i = i + 1;
            }
        }
        if from == 0 && phase > 0 && self.quotes {
            self.last_quotes = now;
        }
        if phase >= 4 {
            let announce = self.manual;
            let repaint = self.manual || self.news;
            self.news = false;
            self.phase = 4;
            self.at = 0;
            return Task::Rest { announce, repaint };
        }
        self.phase = phase;
        self.at = i + 1;
        if phase == 0 {
            Task::Quote(i)
        } else if phase == 1 {
            Task::KrakenTicks(i)
        } else if phase == 2 {
            match yahoo_intraday_ticker(specs[i].symbol) {
                Some(t) => Task::YahooTicks(i, t),
                None => Task::Rest { announce: false, repaint: false },
            }
        } else {
            Task::History(i)
        }
    }

    /// Takes in how a fetch ended: whether something came, and when. A history counts as
    /// fetched even where nothing came.
    pub fn task_done(&mut self, task: Task, came: bool, now: u128)
        requires
            task matches Task::History(i) ==> i < old(self).last_history@.len(),
        ensures
            final(self)@ == old(self)@.done(task@, came, now),
    {
        if came {
            self.news = true;
        }
        match task {
            Task::History(i) => {
                self.last_history.set(i, Some(now));
            },
            _ => {},
        }
    }
}

/// A place comes before another: an earlier part, or an earlier series in the same part.
pub open spec fn earlier(a: (int, int), b: (int, int)) -> bool {
    a.0 < b.0 || (a.0 == b.0 && a.1 < b.1)
}

/// Nothing that a round asks for is passed over: between a place and the next there is none
/// that asks for its series, and the next does, unless it is the rest.
pub proof fn nothing_is_passed_over(w: Progress, specs: Seq<SeriesSpec>, phase: int, i: int, now: u128)
    requires
        0 <= phase <= 4,
        0 <= i,
    ensures
        ({
            let next = w.next_place(specs, phase, i, now);
            &&& phase <= next.0 <= 4
            &&& next.0 < 4 ==> 0 <= next.1 < specs.len() && w.wants(specs, next.0, next.1, now) && !earlier(
                next,
                (phase, i),
            )
            &&& forall|p: int, k: int|
                0 <= k < specs.len() && p < 4 && !earlier((p, k), (phase, i)) && earlier((p, k), next)
                    ==> !#[trigger] w.wants(specs, p, k, now)
        }),
    decreases 4 - phase, specs.len() - i,
{
    let next = w.next_place(specs, phase, i, now);
    if phase < 4 {
        if i >= specs.len() {
            nothing_is_passed_over(w, specs, phase + 1, 0, now);
            assert forall|p: int, k: int|
                0 <= k < specs.len() && p < 4 && !earlier((p, k), (phase, i)) && earlier(
                    (p, k),
                    next,
                ) implies !#[trigger] w.wants(specs, p, k, now) by {
                assert(!earlier((p, k), (phase + 1, 0int)));
            }
        } else if !w.wants(specs, phase, i, now) {
            nothing_is_passed_over(w, specs, phase, i + 1, now);
            assert forall|p: int, k: int|
                0 <= k < specs.len() && p < 4 && !earlier((p, k), (phase, i)) && earlier(
                    (p, k),
                    next,
                ) implies !#[trigger] w.wants(specs, p, k, now) by {
                if !(p == phase && k == i) {
                    assert(!earlier((p, k), (phase, i + 1)));
                }
            }
        }
    }
}

/// A round that was asked for fetches the history of every series.
pub proof fn asked_round_fetches_all(w: Progress, specs: Seq<SeriesSpec>, i: int, now: u128)
    requires
        w.manual,
        0 <= i < specs.len(),
    ensures
        w.next_place(specs, 3, i, now) == (3int, i),
{
}

/// A history that was just fetched is not fetched again before its time, unless asked for.
pub proof fn fetched_history_rests(w: Progress, specs: Seq<SeriesSpec>, i: int, then: u128, now: u128)
    requires
        !w.manual,
        0 <= i < specs.len(),
        w.last_history[i] == Some(then),
        now - then < interval(specs[i].market),
    ensures
        !w.wants(specs, 3, i, now),
{
}

/// A turn of a round: when the next fetch was asked for, whether something came, and when it
/// ended.
pub struct Turn {
    pub asked: u128,
    pub came: bool,
    pub ended: u128,
}

/// How far a round is after some turns.
pub open spec fn after(w: Progress, specs: Seq<SeriesSpec>, turns: Seq<Turn>) -> Progress
    decreases turns.len(),
{
    if turns.len() == 0 {
        w
    } else {
        let (p, step) = after(w, specs, turns.drop_last()).asked(specs, turns.last().asked);
        p.done(step, turns.last().came, turns.last().ended)
    }
}

/// Each of some turns fetches something: the round does not rest before they are through.
pub open spec fn fetching(w: Progress, specs: Seq<SeriesSpec>, turns: Seq<Turn>) -> bool
    decreases turns.len(),
{
    turns.len() == 0 || (fetching(w, specs, turns.drop_last()) && !(after(w, specs, turns.drop_last()).asked(
        specs,
        turns.last().asked,
    ).1 is Rest))
}

/// Something came in one of some turns.
pub open spec fn any_came(turns: Seq<Turn>) -> bool {
    exists|k: int| 0 <= k < turns.len() && (#[trigger] turns[k]).came
}

proof fn fetching_keeps(w: Progress, specs: Seq<SeriesSpec>, turns: Seq<Turn>)
    requires
        fetching(w, specs, turns),
    ensures
        after(w, specs, turns).manual == w.manual,
        after(w, specs, turns).news == (w.news || any_came(turns)),
    decreases turns.len(),
{
    if turns.len() > 0 {
        let less = turns.drop_last();
        fetching_keeps(w, specs, less);
        if any_came(less) {
            let k = choose|k: int| 0 <= k < less.len() && (#[trigger] less[k]).came;
            assert(turns[k].came);
        }
        if turns.last().came {
            assert(turns[turns.len() - 1].came);
        }
        if any_came(turns) && !turns.last().came {
            let k = choose|k: int| 0 <= k < turns.len() && (#[trigger] turns[k]).came;
            assert(less[k].came);
        }
    }
}

/// A round asks for the window to be drawn once, at its end, and only where it was asked for or
/// something came in it; its end is told where it was asked for. No turn before asks for it. The
/// next round begins with nothing new, as this one did.
pub proof fn round_wakes_once(
    before: Progress,
    manual: bool,
    start: u128,
    specs: Seq<SeriesSpec>,
    turns: Seq<Turn>,
    now: u128,
)
    requires
        !before.news,
        fetching(before.begun(manual, start), specs, turns),
        after(before.begun(manual, start), specs, turns).asked(specs, now).1 is Rest,
    ensures
        after(before.begun(manual, start), specs, turns).asked(specs, now).1 == (Step::Rest {
            announce: manual,
            repaint: manual || any_came(turns),
        }),
        forall|k: int|
            0 <= k < turns.len() ==> !(after(before.begun(manual, start), specs, #[trigger] turns.take(k)).asked(
                specs,
                turns[k].asked,
            ).1 is Rest),
        !after(before.begun(manual, start), specs, turns).asked(specs, now).0.news,
{
    let w = before.begun(manual, start);
    fetching_keeps(w, specs, turns);
    assert forall|k: int| 0 <= k < turns.len() implies !(after(w, specs, #[trigger] turns.take(k)).asked(
        specs,
        turns[k].asked,
    ).1 is Rest) by {
        no_early_rest(w, specs, turns, k);
    }
}

proof fn no_early_rest(w: Progress, specs: Seq<SeriesSpec>, turns: Seq<Turn>, k: int)
    requires
        fetching(w, specs, turns),
        0 <= k < turns.len(),
    ensures
        !(after(w, specs, turns.take(k)).asked(specs, turns[k].asked).1 is Rest),
    decreases turns.len(),
{
    let less = turns.drop_last();
    if k == turns.len() - 1 {
        assert(turns.take(k) =~= less);
    } else {
        no_early_rest(w, specs, less, k);
        assert(less.take(k) =~= turns.take(k));
    }
}

/// A round that was not asked for and in which nothing came does not wake the window.
pub proof fn empty_round_is_silent(
    before: Progress,
    start: u128,
    specs: Seq<SeriesSpec>,
    turns: Seq<Turn>,
    now: u128,
)
    requires
        !before.news,
        fetching(before.begun(false, start), specs, turns),
        after(before.begun(false, start), specs, turns).asked(specs, now).1 is Rest,
        forall|k: int| 0 <= k < turns.len() ==> !(#[trigger] turns[k]).came,
    ensures
        after(before.begun(false, start), specs, turns).asked(specs, now).1 == (Step::Rest {
            announce: false,
            repaint: false,
        }),
{
    round_wakes_once(before, false, start, specs, turns, now);
}

/// A round comes to its rest: it fetches at most four times as often as there are series.
pub proof fn round_ends(before: Progress, manual: bool, start: u128, specs: Seq<SeriesSpec>, turns: Seq<Turn>)
    requires
        fetching(before.begun(manual, start), specs, turns),
    ensures
        turns.len() <= 4 * specs.len(),
{
    let w = before.begun(manual, start);
    round_moves_on(w, specs, turns);
    let p = after(w, specs, turns);
    let n = specs.len();
    assert(p.phase * n + p.at <= 4 * n) by (nonlinear_arith)
        requires
            0 <= p.at <= n,
            0 <= p.phase <= 3,
    ;
}

proof fn round_moves_on(w: Progress, specs: Seq<SeriesSpec>, turns: Seq<Turn>)
    requires
        fetching(w, specs, turns),
        w.phase == 0,
        w.at == 0,
    ensures
        0 <= after(w, specs, turns).at <= specs.len(),
        0 <= after(w, specs, turns).phase <= 3,
        turns.len() <= after(w, specs, turns).phase * specs.len() + after(w, specs, turns).at,
    decreases turns.len(),
{
    if turns.len() > 0 {
        round_moves_on(w, specs, turns.drop_last());
        let p = after(w, specs, turns.drop_last());
        let q = after(w, specs, turns);
        let n = specs.len();
        nothing_is_passed_over(p, specs, p.phase, p.at, turns.last().asked);
        if q.phase > p.phase {
            assert(q.phase * n >= p.phase * n + n) by (nonlinear_arith)
                requires
                    q.phase >= p.phase + 1,
                    n >= 0,
            ;
        }
    }
}

/// A history is due where it was never fetched, where the round was asked for, and where it was last
/// fetched six hours ago for a traded series, a day ago for any other; and only there.
pub proof fn histories_are_fetched_when_due(w: Progress, specs: Seq<SeriesSpec>, i: int, now: u128)
    requires
        0 <= i < specs.len(),
    ensures
        w.wants(specs, 3, i, now) <==> w.manual || w.last_history[i] is None || w.last_history[i]->0 <= now && now
            - w.last_history[i]->0 >= (if specs[i].market {
            6 * 3_600_000_000_000int
        } else {
            24 * 3_600_000_000_000int
        }),
{
}

/// In a round with prices, the last price is asked of each traded series of Kraken and of
/// Frankfurter, the prices within the day of each of Kraken, and of each that Yahoo has a ticker for;
/// in any other round, of none.
pub proof fn prices_are_asked_of_their_sources(w: Progress, specs: Seq<SeriesSpec>, i: int, now: u128)
    requires
        0 <= i < specs.len(),
    ensures
        w.wants(specs, 0, i, now) <==> w.quotes && specs[i].market && (specs[i].source == Source::Kraken
            || specs[i].source == Source::Frankfurter),
        w.wants(specs, 1, i, now) <==> w.quotes && specs[i].source == Source::Kraken,
        w.wants(specs, 2, i, now) <==> w.quotes && ticker(specs[i].symbol@) is Some,
{
}

/// A round has prices where it was asked for, or where they were last looked at as long ago as the
/// time between two looks.
pub proof fn rounds_have_prices_when_due(w: Progress, manual: bool, now: u128)
    ensures
        w.begun(manual, now).quotes <==> manual || w.last_quotes <= now && now - w.last_quotes >= w.quote_interval
            || w.quote_interval == 0,
        w.begun(manual, now).manual == manual,
        w.begun(manual, now).phase == 0 && w.begun(manual, now).at == 0,
        w.begun(manual, now).last_history == w.last_history,
        w.begun(manual, now).news == w.news,
{
}

/// A history that was fetched counts as fetched then, whether something came or not, and no other
/// does.
pub proof fn fetched_history_counts(w: Progress, i: int, j: int, came: bool, now: u128)
    requires
        0 <= i < w.last_history.len(),
        0 <= j < w.last_history.len(),
    ensures
        w.done(Step::History(i), came, now).last_history[i] == Some(now),
        j != i ==> w.done(Step::History(i), came, now).last_history[j] == w.last_history[j],
        w.done(Step::History(i), came, now).news == (w.news || came),
{
}

} // verus!
