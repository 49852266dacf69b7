//! The opening-hours evaluator: parses a `"HH:MM-HH:MM"` style string and
//! decides, for a reference time of day, whether a restaurant is open and how
//! long it stays open.
use vstd::prelude::*;
use crate::MenuError;
use crate::text::{
    count_c,
    find_c,
    trim_s,
    parse_num,
    split_once_char,
    trim_str,
    parse_bounded_num,
};

verus! {

/// Minutes in a day: times of day are measured in minutes since midnight.
pub const MINUTES_PER_DAY: u32 = 1440;

/// One side of an opening-hours string parsed to minutes since midnight:
/// the side, trimmed of surrounding whitespace, must be hour and minute
/// numerals separated by exactly one colon, with the hour at most 23 and the
/// minute at most 59.
pub open spec fn parse_time_s(seg: Seq<char>) -> Option<int> {
    let t = trim_s(seg);
    if count_c(t, ':') == 1 {
        let i = find_c(t, ':');
        match (parse_num(t.take(i), 23), parse_num(t.skip(i + 1), 59)) {
            (Some(h), Some(m)) => Some(h * 60 + m),
            _ => None,
        }
    } else {
        None
    }
}

/// An opening-hours string parsed to a start and end time of day: the string
/// must be two times separated by exactly one dash, each side read by
/// [`parse_time_s`]. Anything else (a missing dash, a non-numeric or
/// out-of-range hour or minute) fails.
pub open spec fn parse_hours_s(s: Seq<char>) -> Option<(int, int)> {
    if count_c(s, '-') == 1 {
        let i = find_c(s, '-');
        match (parse_time_s(s.take(i)), parse_time_s(s.skip(i + 1))) {
            (Some(a), Some(b)) => Some((a, b)),
            _ => None,
        }
    } else {
        None
    }
}

/// The restaurant is open at minute `now` of the day: its opening-hours
/// entry for the day exists, parses, and its window contains `now`,
/// inclusive at both ends. A missing or malformed entry counts as closed.
pub open spec fn spec_is_open(entry: Option<Seq<char>>, now: int) -> bool {
    match entry {
        Some(s) => match parse_hours_s(s) {
            Some((start, end)) => start <= now && now <= end,
            None => false,
        },
        None => false,
    }
}

/// The open/closed status of a restaurant for one day at a reference time.
#[derive(Debug, PartialEq)]
pub enum OpenStatus {
    /// No opening-hours entry for the day.
    Closed,
    /// Open now; the remaining time until closing, truncated to whole hours
    /// and whole minutes.
    Open { hours_left: u32, minutes_left: u32 },
    /// Has hours for the day but is not open now; carries the raw
    /// opening-hours string.
    ClosedNow { hours: String },
}

/// Parses an opening-hours string to start and end minutes since midnight.
pub fn parse_opening_hours(s: &str) -> (r: Result<(u32, u32), MenuError>)
    ensures
        r matches Ok((a, b)) ==> {
            &&& parse_hours_s(s@) == Some((a as int, b as int))
            &&& a < MINUTES_PER_DAY
            &&& b < MINUTES_PER_DAY
        },
        r is Err <==> parse_hours_s(s@) is None,
        r is Err ==> r == Err::<(u32, u32), MenuError>(MenuError::Parse),
{
    let parts = match split_once_char(s, '-') {
        Some(p) => p,
        None => {
            return Err(MenuError::Parse);
        },
    };
    let start = parse_time(parts.0)?;
    let end = parse_time(parts.1)?;
    Ok((start, end))
}

/// Parses one side of an opening-hours string to minutes since midnight.
fn parse_time(seg: &str) -> (r: Result<u32, MenuError>)
    ensures
        r matches Ok(v) ==> parse_time_s(seg@) == Some(v as int) && v < MINUTES_PER_DAY,
        r is Err <==> parse_time_s(seg@) is None,
        r is Err ==> r == Err::<u32, MenuError>(MenuError::Parse),
{
    let t = trim_str(seg);
    let parts = match split_once_char(t, ':') {
        Some(p) => p,
        None => {
            return Err(MenuError::Parse);
        },
    };
    let h = match parse_bounded_num(parts.0, 23) {
        Some(h) => h,
        None => {
            return Err(MenuError::Parse);
        },
    };
    let m = match parse_bounded_num(parts.1, 59) {
        Some(m) => m,
        None => {
            return Err(MenuError::Parse);
        },
    };
    Ok(h * 60 + m)
}

/// Whether a restaurant with the given opening-hours entry is open at minute
/// `now` of the day. A missing entry, or one that fails to parse, degrades
/// to closed; it never aborts the caller.
pub fn is_open_now(entry: &Option<String>, now_minutes: u32) -> (r: bool)
    ensures
        r == spec_is_open(entry.deep_view(), now_minutes as int),
{
    match entry {
        None => false,
        Some(s) => match parse_opening_hours(s.as_str()) {
            Ok((start, end)) => start <= now_minutes && now_minutes <= end,
            Err(_) => false,
        },
    }
}

/// Evaluates an optional opening-hours entry at minute `now` of the day.
///
/// A missing entry is `Closed`. A malformed entry is a `Parse` error, never
/// a panic. Otherwise the restaurant is open if and only if
/// `start <= now <= end`; when open, the remaining time is `end - now`
/// split into whole hours and whole minutes (truncated, with the minute
/// remainder always below 60); when not open, the raw string is carried for
/// display.
pub fn evaluate_opening_hours(entry: &Option<String>, now_minutes: u32) -> (r: Result<
    OpenStatus,
    MenuError,
>)
    requires
        now_minutes < MINUTES_PER_DAY,
    ensures
        entry is None ==> r == Ok::<OpenStatus, MenuError>(OpenStatus::Closed),
        entry matches Some(s) ==> {
            &&& (r is Err <==> parse_hours_s(s@) is None)
            &&& (r is Err ==> r == Err::<OpenStatus, MenuError>(MenuError::Parse))
            &&& (parse_hours_s(s@) matches Some((start, end)) ==> {
                if start <= now_minutes && now_minutes <= end {
                    r matches Ok(st) && st matches OpenStatus::Open { hours_left, minutes_left }
                        && hours_left == (end - now_minutes) / 60 && minutes_left == (end
                        - now_minutes) % 60
                } else {
                    r matches Ok(st) && st matches OpenStatus::ClosedNow { hours } && hours@ == s@
                }
            })
        },
        r matches Ok(st) ==> (st matches OpenStatus::Open { hours_left, minutes_left } ==> (
        minutes_left < 60 && spec_is_open(entry.deep_view(), now_minutes as int))),
        (r matches Ok(st) && st is Open) <==> spec_is_open(entry.deep_view(), now_minutes as int),
{
    match entry {
        None => Ok(OpenStatus::Closed),
        Some(s) => {
            let (start, end) = match parse_opening_hours(s.as_str()) {
                Ok(w) => w,
                Err(e) => {
                    return Err(e);
                },
            };
            if start <= now_minutes && now_minutes <= end {
                let remaining = end - now_minutes;
                Ok(OpenStatus::Open { hours_left: remaining / 60, minutes_left: remaining % 60 })
            } else {
                Ok(OpenStatus::ClosedNow { hours: s.clone() })
            }
        },
    }
}

} // verus!
