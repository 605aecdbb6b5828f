//! The series of the dashboard, by their symbols.

use vstd::prelude::*;
use vstd::string::*;
use crate::series::{with_point, Obs, Series, Tick};
use crate::text::text_is;

verus! {

/// The series, each under a symbol of its own.
#[derive(Debug)]
pub struct SeriesTable {
    pub entries: Vec<(String, Series)>,
}

/// Entries as a map.
pub open spec fn map_of(entries: Seq<(String, Series)>) -> Map<Seq<char>, Series>
    decreases entries.len(),
{
    if entries.len() == 0 {
        Map::empty()
    } else {
        map_of(entries.drop_last()).insert(entries.last().0@, entries.last().1)
    }
}

/// No two entries have one symbol.
pub open spec fn distinct(entries: Seq<(String, Series)>) -> bool {
    forall|i: int, j: int| 0 <= i < j < entries.len() ==> (#[trigger] entries[i]).0@ != (#[trigger] entries[j]).0@
}

proof fn map_holds_entry(entries: Seq<(String, Series)>, i: int)
    requires
        distinct(entries),
        0 <= i < entries.len(),
    ensures
        map_of(entries).contains_key(entries[i].0@),
        map_of(entries)[entries[i].0@] == entries[i].1,
    decreases entries.len(),
{
    if i < entries.len() - 1 {
        let less = entries.drop_last();
        assert(less[i] == entries[i]);
        assert(distinct(less)) by {
            assert forall|a: int, b: int| 0 <= a < b < less.len() implies (#[trigger] less[a]).0@ != (
            #[trigger] less[b]).0@ by {
                assert(less[a] == entries[a] && less[b] == entries[b]);
            }
        }
        map_holds_entry(less, i);
        assert(entries[i].0@ != entries[entries.len() - 1].0@);
    }
}

proof fn map_lacks(entries: Seq<(String, Series)>, symbol: Seq<char>)
    requires
        forall|i: int| 0 <= i < entries.len() ==> (#[trigger] entries[i]).0@ != symbol,
    ensures
        !map_of(entries).contains_key(symbol),
    decreases entries.len(),
{
    if entries.len() > 0 {
        let less = entries.drop_last();
        assert forall|i: int| 0 <= i < less.len() implies (#[trigger] less[i]).0@ != symbol by {
            assert(less[i] == entries[i]);
        }
        map_lacks(less, symbol);
        assert(entries[entries.len() - 1].0@ != symbol);
    }
}

proof fn map_of_update(entries: Seq<(String, Series)>, i: int, e: (String, Series))
    requires
        distinct(entries),
        0 <= i < entries.len(),
        e.0@ == entries[i].0@,
    ensures
        distinct(entries.update(i, e)),
        map_of(entries.update(i, e)) == map_of(entries).insert(e.0@, e.1),
    decreases entries.len(),
{
    let after = entries.update(i, e);
    assert forall|a: int, b: int| 0 <= a < b < after.len() implies (#[trigger] after[a]).0@ != (
    #[trigger] after[b]).0@ by {
        assert(after[a].0@ == entries[a].0@ && after[b].0@ == entries[b].0@);
    }
    let less = entries.drop_last();
    if i == entries.len() - 1 {
        assert(after.drop_last() =~= less);
        assert(map_of(after) =~= map_of(entries).insert(e.0@, e.1));
    } else {
        assert(after.drop_last() =~= less.update(i, e));
        assert(less[i] == entries[i]);
        assert(distinct(less)) by {
            assert forall|a: int, b: int| 0 <= a < b < less.len() implies (#[trigger] less[a]).0@ != (
            #[trigger] less[b]).0@ by {
                assert(less[a] == entries[a] && less[b] == entries[b]);
            }
        }
        map_of_update(less, i, e);
        assert(entries[i].0@ != entries[entries.len() - 1].0@);
        assert(map_of(after) =~= map_of(entries).insert(e.0@, e.1));
    }
}

impl View for SeriesTable {
    type V = Map<Seq<char>, Series>;

    open spec fn view(&self) -> Map<Seq<char>, Series> {
        map_of(self.entries@)
    }
}

impl SeriesTable {
    /// Each symbol is there once.
    pub open spec fn wf(self) -> bool {
        distinct(self.entries@)
    }

    /// The table without series.
    pub fn new() -> (r: SeriesTable)
        ensures
            r.wf(),
            r@ == Map::<Seq<char>, Series>::empty(),
    {
        SeriesTable { entries: Vec::new() }
    }

    fn place(&self, symbol: &str) -> (r: Option<usize>)
        requires
            self.wf(),
        ensures
            r is Some == self@.contains_key(symbol@),
            r matches Some(i) ==> i < self.entries@.len() && self.entries@[i as int].0@ == symbol@
                && self@[symbol@] == self.entries@[i as int].1,
    {
        let n: usize = self.entries.len();
        for i in 0..n
            invariant
                n == self.entries@.len(),
                self.wf(),
                forall|j: int| 0 <= j < i ==> (#[trigger] self.entries@[j]).0@ != symbol@,
        {
            if text_is(self.entries[i].0.as_str(), symbol) {
                proof {
                    map_holds_entry(self.entries@, i as int);
                }
                return Some(i);
            }
        }
        proof {
            map_lacks(self.entries@, symbol@);
        }
        None
    }

    /// The series of a symbol.
    pub fn get(&self, symbol: &str) -> (r: Option<&Series>)
        requires
            self.wf(),
        ensures
            r is Some == self@.contains_key(symbol@),
            r matches Some(s) ==> *s == self@[symbol@],
    {
        match self.place(symbol) {
            Some(i) => Some(&self.entries[i].1),
            None => None,
        }
    }

    /// Puts a series under a symbol, in place of the one that was there.
    pub fn insert(&mut self, symbol: &str, series: Series)
        requires
            old(self).wf(),
        ensures
            final(self).wf(),
            final(self)@ == old(self)@.insert(symbol@, series),
    {
        let e = (String::from_str(symbol), series);
        match self.place(symbol) {
            Some(i) => {
                proof {
                    map_of_update(self.entries@, i as int, e);
                }
                self.entries.set(i, e);
            },
            None => {
                let ghost before = self.entries@;
                self.entries.push(e);
                assert(self.entries@.drop_last() =~= before);
                assert(distinct(self.entries@)) by {
                    assert forall|a: int, b: int| 0 <= a < b < self.entries@.len() implies (
                    #[trigger] self.entries@[a]).0@ != (#[trigger] self.entries@[b]).0@ by {
                        if b == before.len() {
                            map_holds_entry(before, a);
                            assert(self.entries@[a] == before[a]);
                        } else {
                            assert(self.entries@[a] == before[a] && self.entries@[b] == before[b]);
                        }
                    }
                }
            },
        }
    }

    /// Takes in the observations of a series, which ends its failure. Nothing happens where the
    /// symbol is not there.
    pub fn set_obs(&mut self, symbol: &str, obs: Vec<Obs>)
        requires
            old(self).wf(),
        ensures
            final(self).wf(),
            final(self)@ == (if old(self)@.contains_key(symbol@) {
                old(self)@.insert(symbol@, Series { obs, error: None, ..old(self)@[symbol@] })
            } else {
                old(self)@
            }),
    {
        if let Some(i) = self.place(symbol) {
            let ghost before = self.entries@;
            self.entries[i].1.obs = obs;
            self.entries[i].1.error = None;
            proof {
                let e = self.entries@[i as int];
                map_of_update(before, i as int, e);
                assert(self.entries@ =~= before.update(i as int, e));
            }
        }
    }

    /// Takes in the values of a series within the day. Nothing happens where the symbol is not
    /// there.
    pub fn set_ticks(&mut self, symbol: &str, points: Vec<Tick>)
        requires
            old(self).wf(),
        ensures
            final(self).wf(),
            final(self)@ == (if old(self)@.contains_key(symbol@) {
                old(self)@.insert(symbol@, Series { intraday: points, ..old(self)@[symbol@] })
            } else {
                old(self)@
            }),
    {
        if let Some(i) = self.place(symbol) {
            let ghost before = self.entries@;
            self.entries[i].1.intraday = points;
            proof {
                let e = self.entries@[i as int];
                map_of_update(before, i as int, e);
                assert(self.entries@ =~= before.update(i as int, e));
            }
        }
    }

    /// Takes in why a series could not be fetched. Nothing happens where the symbol is not
    /// there.
    pub fn set_error(&mut self, symbol: &str, message: String)
        requires
            old(self).wf(),
        ensures
            final(self).wf(),
            final(self)@ == (if old(self)@.contains_key(symbol@) {
                old(self)@.insert(symbol@, Series { error: Some(message), ..old(self)@[symbol@] })
            } else {
                old(self)@
            }),
    {
        if let Some(i) = self.place(symbol) {
            let ghost before = self.entries@;
            self.entries[i].1.error = Some(message);
            proof {
                let e = self.entries@[i as int];
                map_of_update(before, i as int, e);
                assert(self.entries@ =~= before.update(i as int, e));
            }
        }
    }

    /// Takes in an observation that just came, and says whether the symbol is there.
    pub fn take_point(&mut self, symbol: &str, o: Obs) -> (r: bool)
        requires
            old(self).wf(),
        ensures
            final(self).wf(),
            r == old(self)@.contains_key(symbol@),
            final(self)@.dom() == old(self)@.dom(),
            forall|k: Seq<char>|
                k != symbol@ && old(self)@.contains_key(k) ==> #[trigger] final(self)@[k] == old(self)@[k],
            r ==> {
                let a = old(self)@[symbol@];
                let b = final(self)@[symbol@];
                &&& b.obs@ == with_point(a.obs@, o)
                &&& b.title == a.title && b.unit == a.unit && b.source_name == a.source_name
                &&& b.intraday == a.intraday && b.error == a.error
            },
    {
        if let Some(i) = self.place(symbol) {
            let ghost before = self.entries@;
            self.entries[i].1.take_point(o);
            proof {
                let e = self.entries@[i as int];
                map_of_update(before, i as int, e);
                assert(self.entries@ =~= before.update(i as int, e));
                assert(self@.dom() =~= old(self)@.dom());
            }
            true
        } else {
            false
        }
    }
}

} // verus!
