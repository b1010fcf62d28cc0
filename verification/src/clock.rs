//! The one place where the library asks the machine for the time.

use vstd::prelude::*;

use crate::date::{Date, Timestamp};

verus! {

/// Relies on chrono's `Local::now` and its `Datelike` / `Timelike`
/// accessors: `month` is 1..=12, `day` is 1..=31, `hour` is 0..=23,
/// `minute` and `second` are 0..=59.  The year, and which moment comes
/// back, cannot be promised.  chrono aborts when the machine clock is
/// set before the Unix epoch; that is environmental, with no input a
/// precondition could exclude.
#[verifier::external_body]
fn clock_now_parts() -> (r: (i64, u32, u32, u32, u32, u32))
    ensures
        1 <= r.1 <= 12,
        1 <= r.2 <= 31,
        r.3 <= 23,
        r.4 <= 59,
        r.5 <= 59,
{
    let now = chrono::Local::now();
    (
        chrono::Datelike::year(&now) as i64,
        chrono::Datelike::month(&now),
        chrono::Datelike::day(&now),
        chrono::Timelike::hour(&now),
        chrono::Timelike::minute(&now),
        chrono::Timelike::second(&now),
    )
}

/// The current local time as a valid timestamp: the year is clamped
/// into 1..=9999 and the day into the month's length, so the result is
/// well formed whatever the clock returned.
pub fn now_timestamp() -> (r: Timestamp)
    ensures
        r.wf(),
{
    let (y, m, d, h, mi, s) = clock_now_parts();
    let year: u32 = if y < 1 {
        1
    } else if y > 9999 {
        9999
    } else {
        y as u32
    };
    let dim = crate::date::days_in_month_of(year, m);
    let day: u32 = if d > dim {
        dim
    } else {
        d
    };
    Timestamp { date: Date { year, month: m, day }, hour: h, minute: mi, second: s }
}

/// The current local date, as `now_timestamp` sees it.
pub fn today() -> (r: Date)
    ensures
        r.wf(),
{
    now_timestamp().date
}

} // verus!
