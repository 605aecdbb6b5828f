//! The monthly budget.

use std::collections::HashMap;
use vstd::prelude::*;
use vstd::string::*;
use crate::decimal::{decimal, padded_decimal, padded_decimal_tells_apart, padded_text, signed_decimal, signed_text};
use crate::order::{sort, sorted, sorted_has_each, sorted_is_rising, sorted_same_items, Keyed};
use crate::scalar::Scalar;
use crate::text::cat;

verus! {

broadcast use vstd::std_specs::hash::group_hash_axioms;

/// What money is spent on.
#[derive(Debug)]
pub struct BudgetCategory {
    pub id: i64,
    pub name: String,
    pub color: String,
    /// Comes again each month.
    pub recurring: bool,
}

/// A category that is there from the start.
#[derive(Clone, Copy, Debug)]
pub struct Seed {
    pub name: &'static str,
    pub color: &'static str,
    pub sort_order: i64,
}

/// The categories that are there from the start.
pub open spec fn seeds() -> Seq<(Seq<char>, Seq<char>)> {
    seq![
        ("Housing"@, "#F44336"@),
        ("Groceries"@, "#4CAF50"@),
        ("Transport"@, "#2196F3"@),
        ("Utilities"@, "#FFEB3B"@),
        ("Dining"@, "#FF9800"@),
        ("Health"@, "#E91E63"@),
        ("Entertainment"@, "#9C27B0"@),
        ("Subscriptions"@, "#00BCD4"@),
        ("Other"@, "#9E9E9E"@),
    ]
}

fn seed_at(k: i64, name: &'static str, color: &'static str) -> (r: Seed)
    ensures
        r.name@ == name@,
        r.color@ == color@,
        r.sort_order == k,
{
    Seed { name, color, sort_order: k }
}

/// The categories that are stored at the start, in their order: none where there are some
/// already.
pub fn seed_budget(count: i64) -> (r: Vec<Seed>)
    ensures
        count > 0 ==> r@.len() == 0,
        count <= 0 ==> {
            &&& r@.len() == seeds().len()
            &&& forall|i: int|
                0 <= i < r@.len() ==> (#[trigger] r@[i]).name@ == seeds()[i].0 && r@[i].color@ == seeds()[i].1
                    && r@[i].sort_order == i
        },
{
    if count > 0 {
        return Vec::new();
    }
    let r: Vec<Seed> = vec![
        seed_at(0, "Housing", "#F44336"),
        seed_at(1, "Groceries", "#4CAF50"),
        seed_at(2, "Transport", "#2196F3"),
        seed_at(3, "Utilities", "#FFEB3B"),
        seed_at(4, "Dining", "#FF9800"),
        seed_at(5, "Health", "#E91E63"),
        seed_at(6, "Entertainment", "#9C27B0"),
        seed_at(7, "Subscriptions", "#00BCD4"),
        seed_at(8, "Other", "#9E9E9E"),
    ];
    r
}

/// The budget of a month.
#[derive(Debug)]
pub struct BudgetState {
    pub categories: Vec<BudgetCategory>,
    pub year: i32,
    pub month: u32,
    /// What was spent, by category.
    pub amounts: HashMap<i64, Scalar>,
    pub income: Scalar,
    pub cumulative: Scalar,
    /// The savings so far are being edited.
    pub editing_cumulative: bool,
    /// Categories that do not come again count, too.
    pub count_oneoff: bool,
    /// Categories are coloured anew each time they are loaded.
    pub auto_color: bool,
}

/// Months are counted from January of the year 0 on.
pub open spec fn month_number(year: i32, month: u32) -> int {
    year * 12 + month - 1
}

/// The year of a month, by its number.
pub open spec fn year_of(n: int) -> int {
    n / 12
}

/// The month in its year, by its number.
pub open spec fn month_of(n: int) -> int {
    n % 12 + 1
}

/// How a month is stored.
pub open spec fn month_form(year: int, month: int) -> Seq<char> {
    padded_decimal(year, 4) + "-"@ + padded_decimal(month, 2)
}

/// The name of a month.
pub open spec fn month_name(month: int) -> Seq<char> {
    if month <= 1 {
        "January"@
    } else if month == 2 {
        "February"@
    } else if month == 3 {
        "March"@
    } else if month == 4 {
        "April"@
    } else if month == 5 {
        "May"@
    } else if month == 6 {
        "June"@
    } else if month == 7 {
        "July"@
    } else if month == 8 {
        "August"@
    } else if month == 9 {
        "September"@
    } else if month == 10 {
        "October"@
    } else if month == 11 {
        "November"@
    } else {
        "December"@
    }
}

/// `n / 12` and `n % 12`, rounded towards zero.
pub open spec fn twelfth(n: int) -> int {
    if n >= 0 {
        n / 12
    } else {
        -((-n) / 12)
    }
}

/// The month before, as it is asked for when an amount is copied from it.
pub open spec fn month_before_form(year: i32, month: u32) -> Seq<char> {
    let t = month_number(year, month) - 1;
    month_form(twelfth(t), t - 12 * twelfth(t) + 1)
}

fn month_text(year: i64, month: i64) -> (r: String)
    requires
        year > i64::MIN,
        month > i64::MIN,
    ensures
        r@ == month_form(year as int, month as int),
{
    let mut s = padded_text(year, 4);
    s.append("-");
    s.append(padded_text(month, 2).as_str());
    s
}

/// The place of a category that is shown in the chart, and its amount.
#[derive(Clone, Copy, PartialEq, Eq, Structural, Debug)]
pub struct Share {
    pub at: usize,
    pub value: Scalar,
}

impl Keyed for Share {
    open spec fn key(&self) -> int {
        -self.value.rank()
    }

    fn key_of(&self) -> (r: i64) {
        -self.value.order()
    }
}

/// What became of the income.
#[derive(Clone, Copy, PartialEq, Eq, Structural, Debug)]
pub enum Split {
    /// There was none.
    Nothing,
    /// Part of it was spent, and the rest was saved.
    Saved,
    /// All of it was spent, and more.
    Overspent,
}

/// What became of the income, by what is left of it.
pub fn savings_split(income: Scalar, saved: Scalar) -> (r: Split)
    ensures
        r == (if !income.positive() {
            Split::Nothing
        } else if saved.at_least(Scalar { bits: 0 }) {
            Split::Saved
        } else {
            Split::Overspent
        }),
{
    if !income.is_positive() {
        Split::Nothing
    } else if saved.ge(Scalar { bits: 0 }) {
        Split::Saved
    } else {
        Split::Overspent
    }
}

/// What was spent on a category: nothing where nothing is known.
pub open spec fn amount_in(amounts: Map<i64, Scalar>, id: i64) -> Scalar {
    if amounts.contains_key(id) {
        amounts[id]
    } else {
        Scalar { bits: 0 }
    }
}

/// The amounts of categories, by their ids.
pub open spec fn amounts_of(categories: Seq<BudgetCategory>, amounts: Seq<Scalar>) -> Map<i64, Scalar>
    decreases categories.len(),
{
    if categories.len() == 0 || categories.len() != amounts.len() {
        Map::empty()
    } else {
        amounts_of(categories.drop_last(), amounts.drop_last()).insert(categories.last().id, amounts.last())
    }
}

/// The places of the categories that come again, or of those that do not.
pub open spec fn section(categories: Seq<BudgetCategory>, recurring: bool) -> Seq<int>
    decreases categories.len(),
{
    if categories.len() == 0 {
        Seq::empty()
    } else if categories.last().recurring == recurring {
        section(categories.drop_last(), recurring).push(categories.len() - 1)
    } else {
        section(categories.drop_last(), recurring)
    }
}

/// The categories that are shown in the chart: those that count and on which something was
/// spent.
pub open spec fn shares(categories: Seq<BudgetCategory>, amounts: Map<i64, Scalar>, oneoff: bool) -> Seq<Share>
    decreases categories.len(),
{
    if categories.len() == 0 {
        Seq::empty()
    } else {
        let c = categories.last();
        let less = shares(categories.drop_last(), amounts, oneoff);
        if (c.recurring || oneoff) && amount_in(amounts, c.id).positive() {
            less.push(Share { at: (categories.len() - 1) as usize, value: amount_in(amounts, c.id) })
        } else {
            less
        }
    }
}

pub open spec fn places(v: Seq<usize>) -> Seq<int> {
    v.map_values(|i: usize| i as int)
}

/// The first category with an id.
pub open spec fn place_of(categories: Seq<BudgetCategory>, id: i64) -> Option<int>
    decreases categories.len(),
{
    if categories.len() == 0 {
        None
    } else if categories[0].id == id {
        Some(0)
    } else {
        match place_of(categories.skip(1), id) {
            Some(i) => Some(i + 1),
            None => None,
        }
    }
}

/// What stays when the month is shifted or amounts are loaded.
pub open spec fn same_settings(a: BudgetState, b: BudgetState) -> bool {
    a.count_oneoff == b.count_oneoff && a.auto_color == b.auto_color
}

impl BudgetState {
    /// The budget of a month of which nothing is loaded.
    pub fn new(year: i32, month: u32, count_oneoff: bool, auto_color: bool) -> (r: BudgetState)
        ensures
            r.year == year,
            r.month == month,
            r.count_oneoff == count_oneoff,
            r.auto_color == auto_color,
            r.categories@.len() == 0,
            r.amounts@ == Map::<i64, Scalar>::empty(),
            r.income == (Scalar { bits: 0 }),
            r.cumulative == (Scalar { bits: 0 }),
            !r.editing_cumulative,
    {
        BudgetState {
            categories: Vec::new(),
            year,
            month,
            amounts: HashMap::new(),
            income: Scalar { bits: 0 },
            cumulative: Scalar { bits: 0 },
            editing_cumulative: false,
            count_oneoff,
            auto_color,
        }
    }

    /// How the month is stored.
    pub fn month_str(&self) -> (r: String)
        ensures
            r@ == month_form(self.year as int, self.month as int),
    {
        month_text(self.year as i64, self.month as i64)
    }

    /// How the month is shown.
    pub fn month_label(&self) -> (r: String)
        ensures
            r@ == month_name(self.month as int) + " "@ + signed_decimal(self.year as int),
    {
        let name: &'static str = match self.month {
            0 => "January",
            1 => "January",
            2 => "February",
            3 => "March",
            4 => "April",
            5 => "May",
            6 => "June",
            7 => "July",
            8 => "August",
            9 => "September",
            10 => "October",
            11 => "November",
            _ => "December",
        };
        let mut s = cat(name, " ");
        s.append(signed_text(self.year).as_str());
        s
    }

    /// How the month before is stored.
    pub fn month_before(&self) -> (r: String)
        requires
            i32::MIN <= self.year * 12 <= i32::MAX,
            self.month <= i32::MAX,
            i32::MIN + 2 <= self.year * 12 + self.month <= i32::MAX,
        ensures
            r@ == month_before_form(self.year, self.month),
    {
        let t: i64 = self.year as i64 * 12 + self.month as i64 - 2;
        let q: i64 = if t >= 0 {
            t / 12
        } else {
            0 - ((0 - t) / 12)
        };
        assert(q == twelfth(t as int));
        month_text(q, t - 12 * q + 1)
    }

    /// Goes `delta` months on, or back where `delta` is negative.
    pub fn shift(&mut self, delta: i32)
        requires
            i32::MIN <= old(self).year * 12 <= i32::MAX,
            old(self).month <= i32::MAX,
            i32::MIN <= month_number(old(self).year, old(self).month) <= i32::MAX,
            i32::MIN <= month_number(old(self).year, old(self).month) + delta <= i32::MAX,
        ensures
            final(self).year == year_of(month_number(old(self).year, old(self).month) + delta),
            final(self).month == month_of(month_number(old(self).year, old(self).month) + delta),
            !final(self).editing_cumulative,
            final(self).categories == old(self).categories,
            final(self).amounts == old(self).amounts,
            final(self).income == old(self).income,
            final(self).cumulative == old(self).cumulative,
            same_settings(*final(self), *old(self)),
    {
        let n: i64 = self.year as i64 * 12 + (self.month as i64 - 1) + delta as i64;
        let q: i64 = if n >= 0 {
            n / 12
        } else {
            0 - ((11 - n) / 12)
        };
        assert(q == n as int / 12);
        self.year = q as i32;
        self.month = (n - q * 12 + 1) as u32;
        self.editing_cumulative = false;
    }

    /// Takes in what is stored of the month: the categories, the amount of each, the income and
    /// the savings so far.
    pub fn fill(&mut self, categories: Vec<BudgetCategory>, amounts: &Vec<Scalar>, income: Scalar, cumulative: Scalar)
        requires
            categories@.len() == amounts@.len(),
        ensures
            final(self).categories == categories,
            final(self).amounts@ == amounts_of(categories@, amounts@),
            final(self).income == income,
            final(self).cumulative == cumulative,
            final(self).year == old(self).year,
            final(self).month == old(self).month,
            final(self).editing_cumulative == old(self).editing_cumulative,
            same_settings(*final(self), *old(self)),
    {
        let mut map: HashMap<i64, Scalar> = HashMap::new();
        let n: usize = categories.len();
        assert(map@ =~= amounts_of(categories@.take(0), amounts@.take(0)));
        for i in 0..n
            invariant
                n == categories@.len(),
                n == amounts@.len(),
                map@ == amounts_of(categories@.take(i as int), amounts@.take(i as int)),
        {
            assert(categories@.take(i + 1).drop_last() =~= categories@.take(i as int));
            assert(amounts@.take(i + 1).drop_last() =~= amounts@.take(i as int));
            map.insert(categories[i].id, amounts[i]);
            assert(map@ =~= amounts_of(categories@.take(i + 1), amounts@.take(i + 1)));
        }
        assert(categories@.take(n as int) =~= categories@);
        assert(amounts@.take(n as int) =~= amounts@);
        self.categories = categories;
        self.amounts = map;
        self.income = income;
        self.cumulative = cumulative;
    }

    /// What was spent on a category: nothing where nothing is known.
    pub fn amount(&self, id: i64) -> (r: Scalar)
        ensures
            r == amount_in(self.amounts@, id),
    {
        match self.amounts.get(&id) {
            Some(v) => *v,
            None => Scalar { bits: 0 },
        }
    }

    /// Sets what was spent on a category.
    pub fn set_amount(&mut self, id: i64, value: Scalar)
        ensures
            final(self).amounts@ == old(self).amounts@.insert(id, value),
            final(self).categories == old(self).categories,
            final(self).year == old(self).year,
            final(self).month == old(self).month,
            final(self).income == old(self).income,
            final(self).cumulative == old(self).cumulative,
            final(self).editing_cumulative == old(self).editing_cumulative,
            same_settings(*final(self), *old(self)),
    {
        self.amounts.insert(id, value);
    }

    /// What was spent on each category, in their order: the spending is the sum of it.
    pub fn spend_terms(&self) -> (r: Vec<Scalar>)
        ensures
            r@.len() == self.categories@.len(),
            forall|i: int|
                0 <= i < r@.len() ==> #[trigger] r@[i] == amount_in(self.amounts@, self.categories@[i].id),
    {
        let n: usize = self.categories.len();
        let mut out: Vec<Scalar> = Vec::new();
        for i in 0..n
            invariant
                n == self.categories@.len(),
                out@.len() == i,
                forall|j: int|
                    0 <= j < i ==> #[trigger] out@[j] == amount_in(self.amounts@, self.categories@[j].id),
        {
            out.push(self.amount(self.categories[i].id));
        }
        out
    }

    /// The places of the categories that come again, or of those that do not, in columns of
    /// `per_column`; of one where `per_column` is 0.
    pub fn columns(&self, recurring: bool, per_column: usize) -> (r: Vec<Vec<usize>>)
        ensures
            ({
                let all = section(self.categories@, recurring);
                let m = if per_column == 0 {
                    1
                } else {
                    per_column as int
                };
                &&& r@.len() == (all.len() + m - 1) / m
                &&& forall|k: int|
                    0 <= k < r@.len() ==> places((#[trigger] r@[k])@) == all.subrange(
                        k * m,
                        if (k + 1) * m <= all.len() {
                            (k + 1) * m
                        } else {
                            all.len() as int
                        },
                    )
            }),
    {
        let m: usize = if per_column == 0 {
            1
        } else {
            per_column
        };
        let all = self.places_of(recurring);
        let ghost wanted = section(self.categories@, recurring);
        assert(places(all@).len() == all@.len());
        let n: usize = all.len();
        let mut out: Vec<Vec<usize>> = Vec::new();
        let mut start: usize = 0;
        assert(0 * m == 0) by (nonlinear_arith);
        while start < n
            invariant
                m > 0,
                n == all@.len(),
                places(all@) == wanted,
                n == wanted.len(),
                start <= n,
                start == (if out@.len() * m <= n {
                    out@.len() * m
                } else {
                    n as int
                }),
                out@.len() > 0 ==> (out@.len() - 1) * m < n,
                forall|k: int|
                    0 <= k < out@.len() ==> places((#[trigger] out@[k])@) == wanted.subrange(
                        k * m,
                        if (k + 1) * m <= n {
                            (k + 1) * m
                        } else {
                            n as int
                        },
                    ),
            decreases n - start,
        {
            let end: usize = if n - start > m {
                start + m
            } else {
                n
            };
            let mut column: Vec<usize> = Vec::new();
            for i in start..end
                invariant
                    start <= i <= end <= n,
                    n == all@.len(),
                    column@ == all@.subrange(start as int, i as int),
            {
                column.push(all[i]);
                assert(column@ =~= all@.subrange(start as int, i + 1));
            }
            let ghost k = out@.len() as int;
            assert((k + 1) * m == k * m + m) by (nonlinear_arith);
            assert(start == k * m);
            assert(places(column@) =~= wanted.subrange(start as int, end as int));
            out.push(column);
            start = end;
        }
        proof {
            let k = out@.len() as int;
            let mm = m as int;
            assert((n + mm - 1) / mm == k) by (nonlinear_arith)
                requires
                    mm > 0,
                    n <= k * mm,
                    k > 0 ==> (k - 1) * mm < n,
                    k >= 0,
                    n >= 0,
            ;
        }
        out
    }

    fn places_of(&self, recurring: bool) -> (r: Vec<usize>)
        ensures
            places(r@) == section(self.categories@, recurring),
    {
        let n: usize = self.categories.len();
        let mut out: Vec<usize> = Vec::new();
        assert(places(out@) =~= section(self.categories@.take(0), recurring));
        for i in 0..n
            invariant
                n == self.categories@.len(),
                places(out@) == section(self.categories@.take(i as int), recurring),
        {
            assert(self.categories@.take(i + 1).drop_last() =~= self.categories@.take(i as int));
            if self.categories[i].recurring == recurring {
                let ghost before = places(out@);
                out.push(i);
                assert(places(out@) =~= before.push(i as int));
            }
        }
        assert(self.categories@.take(n as int) =~= self.categories@);
        out
    }

    /// The categories that are shown in the chart, the largest amount first: those that count
    /// and on which something was spent.
    pub fn category_shares(&self) -> (r: Vec<Share>)
        ensures
            r@ == sorted(shares(self.categories@, self.amounts@, self.count_oneoff)),
    {
        let n: usize = self.categories.len();
        let mut out: Vec<Share> = Vec::new();
        assert(out@ =~= shares(self.categories@.take(0), self.amounts@, self.count_oneoff));
        for i in 0..n
            invariant
                n == self.categories@.len(),
                out@ == shares(self.categories@.take(i as int), self.amounts@, self.count_oneoff),
        {
            assert(self.categories@.take(i + 1).drop_last() =~= self.categories@.take(i as int));
            if self.categories[i].recurring || self.count_oneoff {
                let value = self.amount(self.categories[i].id);
                if value.is_positive() {
                    out.push(Share { at: i, value });
                }
            }
        }
        assert(self.categories@.take(n as int) =~= self.categories@);
        sort(&out)
    }

    /// The place of the first category with an id.
    pub fn find_category(&self, id: i64) -> (r: Option<usize>)
        ensures
            r is Some == place_of(self.categories@, id) is Some,
            r matches Some(i) ==> place_of(self.categories@, id) == Some(i as int) && i < self.categories@.len()
                && self.categories@[i as int].id == id,
    {
        let n: usize = self.categories.len();
        assert(self.categories@.skip(0) =~= self.categories@);
        for i in 0..n
            invariant
                n == self.categories@.len(),
                place_of(self.categories@, id) == (match place_of(self.categories@.skip(i as int), id) {
                    Some(k) => Some(k + i),
                    None => None::<int>,
                }),
        {
            assert(self.categories@.skip(i as int)[0] == self.categories@[i as int]);
            assert(self.categories@.skip(i as int).skip(1) =~= self.categories@.skip(i + 1));
            if self.categories[i].id == id {
                return Some(i);
            }
        }
        None
    }
}

/// A shift always ends in a month of the year.
pub proof fn shift_ends_in_a_month(n: int)
    ensures
        1 <= month_of(n) <= 12,
        year_of(n) * 12 + month_of(n) - 1 == n,
{
}

/// Two shifts are one shift by the sum; a shift and the same shift back end where they began.
pub proof fn shifts_add_up(year: i32, month: u32, a: int, b: int)
    requires
        1 <= month <= 12,
    ensures
        ({
            let n = month_number(year, month) + a;
            let m = year_of(n) * 12 + month_of(n) - 1 + b;
            &&& year_of(m) == year_of(month_number(year, month) + a + b)
            &&& month_of(m) == month_of(month_number(year, month) + a + b)
            &&& a + b == 0 ==> year_of(m) == year && month_of(m) == month
        }),
{
}

/// From January of the year 1 on, the month that amounts are copied from is the one that a
/// shift back by one leads to.
pub proof fn month_before_is_shift_back(year: i32, month: u32)
    requires
        year >= 1,
        month >= 1,
    ensures
        month_before_form(year, month) == month_form(
            year_of(month_number(year, month) - 1),
            month_of(month_number(year, month) - 1),
        ),
{
}

/// Months are told apart by how they are stored.
pub proof fn stored_months_differ(year_a: int, month_a: int, year_b: int, month_b: int)
    requires
        1 <= month_a <= 12,
        1 <= month_b <= 12,
        month_form(year_a, month_a) == month_form(year_b, month_b),
    ensures
        year_a == year_b,
        month_a == month_b,
{
    reveal_strlit("-");
    two_digits(month_a);
    two_digits(month_b);
    let s = month_form(year_a, month_a);
    let n = s.len() - 3;
    assert("-"@.len() == 1);
    assert(s.take(n) =~= padded_decimal(year_a, 4));
    assert(s.skip(n + 1) =~= padded_decimal(month_a, 2));
    assert(s.take(n) =~= padded_decimal(year_b, 4));
    assert(s.skip(n + 1) =~= padded_decimal(month_b, 2));
    padded_decimal_tells_apart(year_a, year_b, 4);
    padded_decimal_tells_apart(month_a, month_b, 2);
}

proof fn two_digits(month: int)
    requires
        1 <= month <= 12,
    ensures
        padded_decimal(month, 2).len() == 2,
{
    reveal_with_fuel(decimal, 3);
}

/// In the chart, no amount stands before a larger one, and each is above zero.
pub proof fn shares_fall(categories: Seq<BudgetCategory>, amounts: Map<i64, Scalar>, oneoff: bool)
    ensures
        forall|i: int, j: int|
            0 <= i <= j < sorted(shares(categories, amounts, oneoff)).len() ==> (#[trigger] sorted(
                shares(categories, amounts, oneoff),
            )[i]).value.rank() >= (#[trigger] sorted(shares(categories, amounts, oneoff))[j]).value.rank(),
        forall|i: int|
            0 <= i < sorted(shares(categories, amounts, oneoff)).len() ==> (#[trigger] sorted(
                shares(categories, amounts, oneoff),
            )[i]).value.positive(),
{
    let s = shares(categories, amounts, oneoff);
    let t = sorted(s);
    sorted_is_rising(s);
    sorted_has_each(s);
    shares_are_positive(categories, amounts, oneoff);
    assert forall|i: int, j: int| 0 <= i <= j < t.len() implies (#[trigger] t[i]).value.rank() >= (
    #[trigger] t[j]).value.rank() by {
        assert(t[i].key() <= t[j].key());
    }
    assert forall|i: int| 0 <= i < t.len() implies (#[trigger] t[i]).value.positive() by {
        assert(t.contains(t[i]) && s.contains(t[i]));
        let k = choose|k: int| 0 <= k < s.len() && s[k] == t[i];
        assert(s[k].value.positive());
    }
}

proof fn shares_are_positive(categories: Seq<BudgetCategory>, amounts: Map<i64, Scalar>, oneoff: bool)
    ensures
        forall|i: int|
            0 <= i < shares(categories, amounts, oneoff).len() ==> (#[trigger] shares(categories, amounts, oneoff)[i]).value.positive(),
    decreases categories.len(),
{
    if categories.len() > 0 {
        let less = shares(categories.drop_last(), amounts, oneoff);
        let s = shares(categories, amounts, oneoff);
        shares_are_positive(categories.drop_last(), amounts, oneoff);
        assert forall|i: int| 0 <= i < s.len() implies (#[trigger] s[i]).value.positive() by {
            if i < less.len() {
                assert(s[i] == less[i]);
            }
        }
    }
}

/// Every category is in one of the two sections, and only in one.
pub proof fn sections_split(categories: Seq<BudgetCategory>, i: int)
    requires
        0 <= i < categories.len(),
    ensures
        section(categories, true).contains(i) == categories[i].recurring,
        section(categories, false).contains(i) == !categories[i].recurring,
        section(categories, true).len() + section(categories, false).len() == categories.len(),
    decreases categories.len(),
{
    section_holds(categories, true, i);
    section_holds(categories, false, i);
    if categories.len() > 1 {
        sections_split(categories.drop_last(), 0);
    } else {
        assert(section(categories.drop_last(), true).len() == 0);
        assert(section(categories.drop_last(), false).len() == 0);
    }
}

proof fn section_holds(categories: Seq<BudgetCategory>, recurring: bool, i: int)
    requires
        0 <= i,
    ensures
        section(categories, recurring).contains(i) == (i < categories.len() && categories[i].recurring == recurring),
    decreases categories.len(),
{
    if categories.len() > 0 {
        let less = section(categories.drop_last(), recurring);
        let s = section(categories, recurring);
        section_holds(categories.drop_last(), recurring, i);
        if i < categories.len() - 1 {
            assert(categories.drop_last()[i] == categories[i]);
        }
        if categories.last().recurring == recurring {
            assert(s == less.push(categories.len() - 1));
            if less.contains(i) {
                let k = choose|k: int| 0 <= k < less.len() && less[k] == i;
                assert(s[k] == i);
            }
            if i == categories.len() - 1 {
                assert(s[s.len() - 1] == i);
            }
            if s.contains(i) && i != categories.len() - 1 {
                let k = choose|k: int| 0 <= k < s.len() && s[k] == i;
                assert(less[k] == i);
            }
        }
    }
}

/// The months have their names.
pub proof fn months_have_their_names(month: int)
    ensures
        1 <= month <= 12 ==> month_name(month) == seq![
            "January"@,
            "February"@,
            "March"@,
            "April"@,
            "May"@,
            "June"@,
            "July"@,
            "August"@,
            "September"@,
            "October"@,
            "November"@,
            "December"@,
        ][month - 1],
        month <= 1 ==> month_name(month) == month_name(1),
        month >= 12 ==> month_name(month) == month_name(12),
{
}

/// In the chart stand the categories that count, each once, with what was spent on it, where that
/// is above zero; one that does not come again counts only where such ones are counted.
pub proof fn shares_are_of_what_counts(
    categories: Seq<BudgetCategory>,
    amounts: Map<i64, Scalar>,
    oneoff: bool,
    i: int,
    value: Scalar,
)
    requires
        0 <= i < categories.len() <= usize::MAX,
    ensures
        shares(categories, amounts, oneoff).contains(Share { at: i as usize, value }) <==> {
            &&& categories[i].recurring || oneoff
            &&& value.positive()
            &&& amounts.contains_key(categories[i].id)
            &&& value == amounts[categories[i].id]
        },
        forall|a: int, b: int|
            0 <= a < b < shares(categories, amounts, oneoff).len() ==> (#[trigger] shares(categories, amounts, oneoff)[a]).at
                < (#[trigger] shares(categories, amounts, oneoff)[b]).at,
        sorted(shares(categories, amounts, oneoff)).to_multiset() == shares(categories, amounts, oneoff).to_multiset(),
{
    shares_hold(categories, amounts, oneoff, i, value);
    sorted_same_items(shares(categories, amounts, oneoff));
}

proof fn shares_hold(
    categories: Seq<BudgetCategory>,
    amounts: Map<i64, Scalar>,
    oneoff: bool,
    i: int,
    value: Scalar,
)
    requires
        0 <= i <= usize::MAX,
        categories.len() <= usize::MAX,
    ensures
        shares(categories, amounts, oneoff).contains(Share { at: i as usize, value }) <==> {
            &&& i < categories.len()
            &&& categories[i].recurring || oneoff
            &&& value.positive()
            &&& amounts.contains_key(categories[i].id)
            &&& value == amounts[categories[i].id]
        },
        forall|a: int, b: int|
            0 <= a < b < shares(categories, amounts, oneoff).len() ==> (#[trigger] shares(categories, amounts, oneoff)[a]).at
                < (#[trigger] shares(categories, amounts, oneoff)[b]).at,
        forall|a: int|
            0 <= a < shares(categories, amounts, oneoff).len() ==> (#[trigger] shares(categories, amounts, oneoff)[a]).at
                < categories.len(),
    decreases categories.len(),
{
    let s = shares(categories, amounts, oneoff);
    let x = Share { at: i as usize, value };
    if categories.len() > 0 {
        let t = categories.drop_last();
        let n = t.len() as int;
        let less = shares(t, amounts, oneoff);
        shares_hold(t, amounts, oneoff, i, value);
        if i < n {
            assert(t[i] == categories[i]);
        }
        let c = categories.last();
        if (c.recurring || oneoff) && amount_in(amounts, c.id).positive() {
            let y = Share { at: n as usize, value: amount_in(amounts, c.id) };
            assert(s == less.push(y));
            assert(s[less.len() as int] == y);
            assert forall|a: int, b: int| 0 <= a < b < s.len() implies (#[trigger] s[a]).at < (#[trigger] s[b]).at by {
                assert(s[a] == less[a]);
                if b < less.len() {
                    assert(s[b] == less[b]);
                }
            }
            assert forall|a: int| 0 <= a < s.len() implies (#[trigger] s[a]).at < categories.len() by {
                if a < less.len() {
                    assert(s[a] == less[a]);
                }
            }
            if less.contains(x) {
                let k = less.index_of(x);
                assert(s[k] == x);
            }
            if s.contains(x) && x != y {
                let k = s.index_of(x);
                assert(less[k] == x);
            }
        } else {
            assert forall|a: int| 0 <= a < s.len() implies (#[trigger] s[a]).at < categories.len() by {
                assert(s[a] == less[a]);
            }
        }
    }
}

/// What is loaded for a category is what was stored for it; of an id that occurs more often, the
/// last counts.
pub proof fn amounts_are_by_category(categories: Seq<BudgetCategory>, amounts: Seq<Scalar>, i: int)
    requires
        categories.len() == amounts.len(),
        0 <= i < categories.len(),
        forall|j: int| i < j < categories.len() ==> (#[trigger] categories[j]).id != categories[i].id,
    ensures
        amount_in(amounts_of(categories, amounts), categories[i].id) == amounts[i],
    decreases categories.len(),
{
    if i < categories.len() - 1 {
        let t = categories.drop_last();
        assert(categories[categories.len() - 1].id != categories[i].id);
        assert(t[i] == categories[i]);
        assert forall|j: int| i < j < t.len() implies (#[trigger] t[j]).id != t[i].id by {
            assert(t[j] == categories[j]);
        }
        amounts_are_by_category(t, amounts.drop_last(), i);
    }
}

/// Nothing was spent on what is no category.
pub proof fn no_amount_without_category(categories: Seq<BudgetCategory>, amounts: Seq<Scalar>, id: i64)
    requires
        forall|j: int| 0 <= j < categories.len() ==> (#[trigger] categories[j]).id != id,
    ensures
        amount_in(amounts_of(categories, amounts), id).zero(),
    decreases categories.len(),
{
    if categories.len() > 0 && categories.len() == amounts.len() {
        let t = categories.drop_last();
        assert(categories[categories.len() - 1].id != id);
        assert forall|j: int| 0 <= j < t.len() implies (#[trigger] t[j]).id != id by {
            assert(t[j] == categories[j]);
        }
        no_amount_without_category(t, amounts.drop_last(), id);
    }
}

/// The categories of a section stand in their order.
pub proof fn section_keeps_order(categories: Seq<BudgetCategory>, recurring: bool)
    ensures
        forall|a: int, b: int|
            0 <= a < b < section(categories, recurring).len() ==> section(categories, recurring)[a] < section(
                categories,
                recurring,
            )[b],
        forall|a: int|
            0 <= a < section(categories, recurring).len() ==> 0 <= #[trigger] section(categories, recurring)[a]
                < categories.len(),
    decreases categories.len(),
{
    if categories.len() > 0 {
        let less = section(categories.drop_last(), recurring);
        let s = section(categories, recurring);
        section_keeps_order(categories.drop_last(), recurring);
        assert forall|a: int| 0 <= a < s.len() implies 0 <= #[trigger] s[a] < categories.len() by {
            if a < less.len() {
                assert(s[a] == less[a]);
            }
        }
        assert forall|a: int, b: int| 0 <= a < b < s.len() implies s[a] < s[b] by {
            assert(s[a] == less[a]);
            if b < less.len() {
                assert(s[b] == less[b]);
            }
        }
    }
}

/// A category is found at the first place that has its id.
pub proof fn category_is_found_by_id(categories: Seq<BudgetCategory>, id: i64)
    ensures
        place_of(categories, id) matches Some(i) ==> 0 <= i < categories.len() && categories[i].id == id && forall|j: int|
            0 <= j < i ==> (#[trigger] categories[j]).id != id,
        place_of(categories, id) is None ==> forall|j: int| 0 <= j < categories.len() ==> (#[trigger] categories[j]).id
            != id,
    decreases categories.len(),
{
    if categories.len() > 0 && categories[0].id != id {
        let rest = categories.skip(1);
        category_is_found_by_id(rest, id);
        assert forall|j: int| 1 <= j < categories.len() implies (#[trigger] categories[j]) == rest[j - 1] by {}
    }
}

} // verus!
