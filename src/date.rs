//! Calendar dates of episode broadcasts, and reading them from the
//! rating service's free-text `YYYY-MM-DD` field.

use chrono::Datelike;
use vstd::prelude::*;

verus! {

/// A calendar date as year, month (1-12) and day of month (1-31).
#[derive(Clone, Copy, Debug, PartialEq, Eq, Structural)]
pub struct Date {
    pub year: i32,
    pub month: u32,
    pub day: u32,
}

/// Chronological order: `a` is a strictly earlier day than `b`.
pub open spec fn date_before(a: Date, b: Date) -> bool {
    a.year < b.year || (a.year == b.year && (a.month < b.month || (a.month == b.month && a.day
        < b.day)))
}

/// The date, as (year, month, day), that chrono reads from `s` under the
/// format `%Y-%m-%d`, or `None` where it rejects `s`.
pub uninterp spec fn parsed_air_date(s: Seq<char>) -> Option<(int, int, int)>;

pub open spec fn date_of(t: (int, int, int)) -> Date {
    Date { year: t.0 as i32, month: t.1 as u32, day: t.2 as u32 }
}

/// Relies on chrono::NaiveDate::parse_from_str with the format `%Y-%m-%d`:
/// the outcome depends on the text alone, an empty text is rejected, and
/// an accepted date has a month in 1..=12 and a day in 1..=31.
#[verifier::external_body]
pub(crate) fn parse_air_date(s: &str) -> (r: Option<Date>)
    ensures
        r == match parsed_air_date(s@) {
            Some(t) => Some(date_of(t)),
            None => None,
        },
        s@.len() == 0 ==> r.is_none(),
        r matches Some(d) ==> 1 <= d.month <= 12 && 1 <= d.day <= 31,
{
    match chrono::NaiveDate::parse_from_str(s, "%Y-%m-%d") {
        Ok(d) => Some(Date { year: d.year(), month: d.month(), day: d.day() }),
        Err(_) => None,
    }
}

/// Whether `a` is a strictly earlier day than `b`.
pub fn is_before(a: &Date, b: &Date) -> (r: bool)
    ensures
        r == date_before(*a, *b),
{
    a.year < b.year || (a.year == b.year && (a.month < b.month || (a.month == b.month && a.day
        < b.day)))
}

/// An air date counts as aired when it is non-empty, reads as a date, and
/// that date lies strictly before `today`.
pub open spec fn aired_spec(airdate: Seq<char>, today: Date) -> bool {
    airdate.len() > 0 && match parsed_air_date(airdate) {
        Some(t) => date_before(date_of(t), today),
        None => false,
    }
}

/// Whether an already read air date counts as aired on `today`.
pub fn parsed_aired(parsed: Option<Date>, today: Date) -> (r: bool)
    ensures
        r == (parsed matches Some(d) && date_before(d, today)),
{
    match parsed {
        Some(d) => is_before(&d, &today),
        None => false,
    }
}

/// Whether an episode with this free-text air date has aired by `today`.
/// Empty and unreadable dates count as not aired.
pub fn has_aired(airdate: &str, today: Date) -> (r: bool)
    ensures
        r == aired_spec(airdate@, today),
{
    if airdate.is_empty() {
        return false;
    }
    let parsed = parse_air_date(airdate);
    parsed_aired(parsed, today)
}

} // verus!
