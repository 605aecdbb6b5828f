//! Days, counted from January 1 of the year 1, which is day 1.

use vstd::prelude::*;

verus! {

/// January 1 of the year -262143: no day before it is known.
pub const MIN_DAY: i32 = -95_746_129;

/// December 31 of the year 262142: no day behind it is known.
pub const MAX_DAY: i32 = 95_745_399;

/// The day that is 0 in Unix time.
pub const UNIX_DAY: i64 = 719_163;

/// A day that is known.
pub open spec fn known(day: int) -> bool {
    MIN_DAY <= day <= MAX_DAY
}

/// The day of a text, as `chrono::NaiveDate::parse_from_str` reads it by `%Y-%m-%d`.
pub uninterp spec fn read_date(text: Seq<char>) -> Option<i32>;

/// The text of a day, as `chrono::NaiveDate::format` writes it by `%Y-%m-%d`.
pub uninterp spec fn date_text(day: int) -> Seq<char>;

/// Reads a day with `chrono::NaiveDate::parse_from_str` by `%Y-%m-%d` and counts it with
/// `num_days_from_ce`: the result depends on the text alone, and is a day that is known.
#[verifier::external_body]
pub(crate) fn parse_day(text: &str) -> (r: Option<i32>)
    ensures
        r == read_date(text@),
        r matches Some(day) ==> known(day as int),
{
    let date = chrono::NaiveDate::parse_from_str(text, "%Y-%m-%d").ok()?;
    Some(chrono::Datelike::num_days_from_ce(&date))
}

/// Writes a day with `chrono::NaiveDate::format` by `%Y-%m-%d`: the text depends on the day
/// alone, and `parse_from_str` reads the day back from it.
#[verifier::external_body]
pub(crate) fn format_day(day: i32) -> (r: String)
    requires
        known(day as int),
    ensures
        r@ == date_text(day as int),
        read_date(r@) == Some(day),
{
    match chrono::NaiveDate::from_num_days_from_ce_opt(day) {
        Some(date) => date.format("%Y-%m-%d").to_string(),
        None => String::new(),
    }
}

/// `chrono::NaiveDate::from_num_days_from_ce_opt` knows the days from January 1 of the year
/// -262143 to December 31 of the year 262142, and no others.
#[verifier::external_body]
pub(crate) fn day_exists(day: i32) -> (r: bool)
    ensures
        r == known(day as int),
{
    chrono::NaiveDate::from_num_days_from_ce_opt(day).is_some()
}

/// The day of a moment in Unix time, where it is known.
pub open spec fn day_of(seconds: int) -> Option<i32> {
    let day = seconds / 86_400 + UNIX_DAY;
    if known(day) {
        Some(day as i32)
    } else {
        None
    }
}

/// `chrono::DateTime::from_timestamp` and `date_naive` give the day of a moment in Unix time:
/// the whole days since day 719163, counted with `num_days_from_ce`, and nothing where that
/// day is not known.
#[verifier::external_body]
pub(crate) fn timestamp_day(seconds: i64) -> (r: Option<i32>)
    ensures
        r == day_of(seconds as int),
{
    let moment = chrono::DateTime::<chrono::Utc>::from_timestamp(seconds, 0)?;
    Some(chrono::Datelike::num_days_from_ce(&moment.date_naive()))
}

/// The text of a day, where it is known.
pub fn day_text(day: i32) -> (r: Option<String>)
    ensures
        r is Some == known(day as int),
        r matches Some(t) ==> t@ == date_text(day as int) && read_date(t@) == Some(day),
{
    if day_exists(day) {
        Some(format_day(day))
    } else {
        None
    }
}

/// `days` as it is counted back: from 2147483648 on it counts forward.
pub open spec fn back(days: u32) -> int {
    if days < 0x8000_0000 {
        days as int
    } else {
        days - 0x1_0000_0000
    }
}

/// The day `days` before `today`; the first day that is known where that one is not.
pub open spec fn cutoff(today: i32, days: u32) -> i32 {
    if known(today - back(days)) {
        (today - back(days)) as i32
    } else {
        MIN_DAY
    }
}

/// The count of days before `today` can be held.
pub open spec fn countable_back(today: i32, days: u32) -> bool {
    i32::MIN <= today - back(days) <= i32::MAX
}

/// The day `days` before `today`; the first day that is known where that one is not.
pub fn day_before(today: i32, days: u32) -> (r: i32)
    requires
        countable_back(today, days),
    ensures
        r == cutoff(today, days),
{
    let n: i64 = if days < 0x8000_0000 {
        days as i64
    } else {
        days as i64 - 0x1_0000_0000
    };
    let day: i32 = (today as i64 - n) as i32;
    if day_exists(day) {
        day
    } else {
        MIN_DAY
    }
}

/// The cutoff is a day that is known and not behind today; it is `days` back where that day is
/// known.
pub proof fn cutoff_is_back(today: i32, days: u32)
    requires
        known(today as int),
        days < 0x8000_0000,
    ensures
        known(cutoff(today, days) as int),
        cutoff(today, days) <= today,
        known(today - days) ==> cutoff(today, days) == today - days,
{
}

} // verus!
