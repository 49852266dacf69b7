//! The local clock, read through trusted wrappers around the `chrono` crate.
//! Everything downstream takes these readings as plain values, so the logic
//! is verified for every value the clock could yield.
use vstd::prelude::*;
use chrono::Datelike;
use chrono::Timelike;

verus! {

/// Relies on `chrono`: `Local::now().date_naive().weekday().days_since(Mon)`
/// is the weekday of the local date, counted 0 = Monday .. 6 = Sunday.
/// `Weekday::days_since` always returns a value below 7.
#[verifier::external_body]
pub(crate) fn now_weekday_index() -> (d: usize)
    ensures
        d < 7,
{
    chrono::offset::Local::now().date_naive().weekday().days_since(chrono::Weekday::Mon) as usize
}

/// Relies on `chrono`: `Local::now().time()` yields a `NaiveTime` whose
/// `hour()` is below 24 and whose `minute()` is below 60.
#[verifier::external_body]
pub(crate) fn now_hour_minute() -> (r: (u32, u32))
    ensures
        r.0 < 24,
        r.1 < 60,
{
    let t = chrono::offset::Local::now().time();
    (t.hour(), t.minute())
}

/// Relies on `chrono`: the local date `days` days from now, written with the
/// `"%Y-%m-%d"` format, whose month and day are always zero-padded to two
/// digits, its year to at least four, with any sign ahead of the year — so
/// every result has the [`crate::text::iso_date_shaped`] tail. The bound on
/// `days` keeps the shifted date well inside the range `chrono` can
/// represent, so the date arithmetic cannot panic while the system clock
/// reads a date of the current era.
#[verifier::external_body]
pub(crate) fn local_date_plus_days(days: i64) -> (s: String)
    requires
        -1000000 <= days <= 1000000,
    ensures
        crate::text::iso_date_shaped(s@),
{
    (chrono::offset::Local::now() + chrono::Duration::days(days)).format("%Y-%m-%d").to_string()
}

/// The current time of day in minutes since midnight, read from the local
/// clock; always below [`crate::hours::MINUTES_PER_DAY`].
pub fn now_minutes_of_day() -> (m: u32)
    ensures
        m < crate::hours::MINUTES_PER_DAY,
{
    let (h, min) = now_hour_minute();
    h * 60 + min
}

} // verus!
