//! The times of the hourly forecast, as the weather service writes them
//! (`2024-05-01T13:00`).

use vstd::prelude::*;
use chrono::{Datelike, Timelike};

verus! {

/// A calendar date and a time of day to the minute.
#[derive(Clone, Copy, Debug, PartialEq, Eq, Structural)]
pub struct DateTime {
    pub year: i32,
    pub month: u32,
    pub day: u32,
    pub hour: u32,
    pub minute: u32,
}

/// What `chrono::NaiveDateTime::parse_from_str(text, format)` gives, as
/// (year, month, day, hour, minute), or `None` when it fails.
pub uninterp spec fn parsed_date_time(text: Seq<char>, format: Seq<char>) -> Option<(i32, u32, u32, u32, u32)>;

/// The date and time that `parsed` stands for.
pub open spec fn date_time_of(parsed: (i32, u32, u32, u32, u32)) -> DateTime {
    DateTime { year: parsed.0, month: parsed.1, day: parsed.2, hour: parsed.3, minute: parsed.4 }
}

/// `chrono::NaiveDateTime::parse_from_str`: parses `text` with the chrono
/// format `format`, giving the calendar fields of the result. Besides being
/// a function of its arguments, all that is claimed is the ranges chrono
/// documents for the fields: month 1 to 12, day 1 to 31, hour 0 to 23,
/// minute 0 to 59.
#[verifier::external_body]
fn parse_date_time(text: &str, format: &str) -> (r: Option<DateTime>)
    ensures
        r == (match parsed_date_time(text@, format@) {
            Some(t) => Some(date_time_of(t)),
            None => None,
        }),
        r matches Some(t) ==> 1 <= t.month <= 12 && 1 <= t.day <= 31 && t.hour <= 23
            && t.minute <= 59,
{
    match chrono::NaiveDateTime::parse_from_str(text, format) {
        Ok(t) => Some(DateTime { year: t.year(), month: t.month(), day: t.day(), hour: t.hour(), minute: t.minute() }),
        Err(_) => None,
    }
}

/// The format of the times of the forecast.
pub open spec fn time_format() -> Seq<char> {
    "%Y-%m-%dT%H:%M"@
}

/// The date and time that the forecast time `text` stands for, if it is one.
pub open spec fn forecast_time(text: Seq<char>) -> Option<DateTime> {
    match parsed_date_time(text, time_format()) {
        Some(t) => Some(date_time_of(t)),
        None => None,
    }
}

/// Parses the times of a forecast: all of them, in order, or `None` when one
/// of them is not a time in the forecast's format.
pub fn parse_times(texts: &Vec<String>) -> (r: Option<Vec<DateTime>>)
    ensures
        r is Some <==> forall|i: int| 0 <= i < texts@.len() ==> #[trigger] forecast_time(
            texts@[i]@,
        ) is Some,
        r matches Some(times) ==> times@.len() == texts@.len() && forall|i: int|
            0 <= i < texts@.len() ==> forecast_time(texts@[i]@) == Some(#[trigger] times@[i]),
{
    let mut times: Vec<DateTime> = Vec::new();
    let mut i: usize = 0;
    while i < texts.len()
        invariant
            i <= texts@.len(),
            times@.len() == i,
            forall|j: int| 0 <= j < i ==> forecast_time(texts@[j]@) == Some(#[trigger] times@[j]),
        decreases texts.len() - i,
    {
        match parse_date_time(texts[i].as_str(), "%Y-%m-%dT%H:%M") {
            Some(t) => {
                times.push(t);
            },
            None => {
                assert(forecast_time(texts@[i as int]@) is None);
                return None;
            },
        }
        i = i + 1;
    }
    assert forall|j: int| 0 <= j < texts@.len() implies #[trigger] forecast_time(texts@[j]@) is Some by {
        assert(forecast_time(texts@[j]@) == Some(times@[j]));
    }
    Some(times)
}

} // verus!
