//! Calendar arithmetic for the date organization scheme: epoch seconds to a
//! proleptic Gregorian civil date, shifted by the local time zone's offset.
//!
//! Timestamps into the year 9983 are supported; the local offset comes
//! from the one trusted call into chrono, and every verified function takes
//! the offset as a plain value.

use vstd::prelude::*;

use crate::text::padded_dec;
use crate::text::push_padded_decimal;

verus! {

/// One second past the last supported instant (mid-year 9983): timestamps
/// below this bound always resolve to a year the calendar search supports.
pub const TS_LIMIT: u64 = 253234080000;

/// `365 * 8030`: any day number below this falls before the year 10000.
pub const DAY_LIMIT: u64 = 2930950;

pub open spec fn is_leap(y: int) -> bool {
    y % 4 == 0 && (y % 100 != 0 || y % 400 == 0)
}

pub open spec fn days_in_year(y: int) -> int {
    if is_leap(y) {
        366
    } else {
        365
    }
}

pub open spec fn days_in_month(y: int, m: int) -> int
    recommends
        1 <= m <= 12,
{
    if m == 2 {
        if is_leap(y) {
            29
        } else {
            28
        }
    } else if m == 4 || m == 6 || m == 9 || m == 11 {
        30
    } else {
        31
    }
}

/// Days from 1970-01-01 to the first day of year `y`.
pub open spec fn days_before_year(y: int) -> int
    recommends
        y >= 1970,
    decreases y - 1970,
{
    if y <= 1970 {
        0
    } else {
        days_before_year(y - 1) + days_in_year(y - 1)
    }
}

/// Days from the first day of year `y` to the first day of its month `m`.
pub open spec fn days_before_month(y: int, m: int) -> int
    recommends
        1 <= m <= 13,
    decreases m,
{
    if m <= 1 {
        0
    } else {
        days_before_month(y, m - 1) + days_in_month(y, m - 1)
    }
}

/// `(y, m, d)` is the civil date of day number `days` (days since
/// 1970-01-01).
pub open spec fn is_civil_date(days: int, y: int, m: int, d: int) -> bool {
    &&& 1970 <= y
    &&& 1 <= m <= 12
    &&& 1 <= d <= days_in_month(y, m)
    &&& days_before_year(y) + days_before_month(y, m) + (d - 1) == days
}

proof fn lemma_year_floor(y: int)
    requires
        y >= 1970,
    ensures
        days_before_year(y) >= 365 * (y - 1970),
    decreases y - 1970,
{
    if y > 1970 {
        lemma_year_floor(y - 1);
    }
}

proof fn lemma_year_days(y: int)
    requires
        1 <= y,
    ensures
        days_before_month(y, 13) == days_in_year(y),
{
    reveal_with_fuel(days_before_month, 14);
}

proof fn lemma_month_nonneg(y: int, m: int)
    requires
        m >= 1,
    ensures
        days_before_month(y, m) >= 0,
    decreases m,
{
    if m > 1 {
        lemma_month_nonneg(y, m - 1);
    }
}

proof fn lemma_year_step(y1: int, y2: int)
    requires
        1970 <= y1 < y2,
    ensures
        days_before_year(y1) + days_in_year(y1) <= days_before_year(y2),
    decreases y2 - y1,
{
    if y2 > y1 + 1 {
        lemma_year_step(y1, y2 - 1);
    }
}

proof fn lemma_month_step(y: int, m1: int, m2: int)
    requires
        1 <= m1 < m2 <= 13,
    ensures
        days_before_month(y, m1) + days_in_month(y, m1) <= days_before_month(y, m2),
    decreases m2 - m1,
{
    if m2 > m1 + 1 {
        lemma_month_step(y, m1, m2 - 1);
    }
}

/// A day number has exactly one civil date: the characterization in
/// `is_civil_date` pins year, month and day.
pub proof fn lemma_civil_date_unique(
    days: int,
    y1: int,
    m1: int,
    d1: int,
    y2: int,
    m2: int,
    d2: int,
)
    requires
        is_civil_date(days, y1, m1, d1),
        is_civil_date(days, y2, m2, d2),
    ensures
        y1 == y2,
        m1 == m2,
        d1 == d2,
{
    lemma_year_days(y1);
    lemma_year_days(y2);
    if y1 < y2 {
        lemma_month_step(y1, m1, 13);
        lemma_year_step(y1, y2);
        lemma_month_nonneg(y2, m2);
        assert(false);
    }
    if y2 < y1 {
        lemma_month_step(y2, m2, 13);
        lemma_year_step(y2, y1);
        lemma_month_nonneg(y1, m1);
        assert(false);
    }
    if m1 < m2 {
        lemma_month_step(y1, m1, m2);
        assert(false);
    }
    if m2 < m1 {
        lemma_month_step(y1, m2, m1);
        assert(false);
    }
}

fn is_leap_year(y: u64) -> (r: bool)
    ensures
        r == is_leap(y as int),
{
    y % 4 == 0 && (y % 100 != 0 || y % 400 == 0)
}

/// The civil date `(year, month, day)` of day number `days`.
pub fn civil_from_days(days: u64) -> (r: (u64, u64, u64))
    requires
        days < DAY_LIMIT,
    ensures
        is_civil_date(days as int, r.0 as int, r.1 as int, r.2 as int),
        r.0 <= 9999,
{
    let mut y: u64 = 1970;
    let mut rem: u64 = days;
    let mut dy: u64 = if is_leap_year(y) {
        366
    } else {
        365
    };
    while rem >= dy
        invariant
            1970 <= y <= 9999,
            dy == days_in_year(y as int),
            days_before_year(y as int) + rem == days,
            days < DAY_LIMIT,
        decreases rem,
    {
        proof {
            if y == 9999 {
                lemma_year_floor(9999);
                assert(days >= days_before_year(9999) + 365);
                assert(false);
            }
        }
        rem = rem - dy;
        y = y + 1;
        dy = if is_leap_year(y) {
            366
        } else {
            365
        };
    }
    proof {
        lemma_year_days(y as int);
        reveal_with_fuel(days_before_month, 14);
    }
    let leap: u64 = if is_leap_year(y) {
        1
    } else {
        0
    };
    let (m, before): (u64, u64) = if rem < 31 {
        (1, 0)
    } else if rem < 59 + leap {
        (2, 31)
    } else if rem < 90 + leap {
        (3, 59 + leap)
    } else if rem < 120 + leap {
        (4, 90 + leap)
    } else if rem < 151 + leap {
        (5, 120 + leap)
    } else if rem < 181 + leap {
        (6, 151 + leap)
    } else if rem < 212 + leap {
        (7, 181 + leap)
    } else if rem < 243 + leap {
        (8, 212 + leap)
    } else if rem < 273 + leap {
        (9, 243 + leap)
    } else if rem < 304 + leap {
        (10, 273 + leap)
    } else if rem < 334 + leap {
        (11, 304 + leap)
    } else {
        (12, 334 + leap)
    };
    let d = rem - before + 1;
    (y, m, d)
}

/// The `YYYY-MM` folder name for day number `days`.
pub open spec fn month_folder_ok(r: Seq<char>, days: int) -> bool {
    exists|y: int, m: int, d: int|
        #[trigger] is_civil_date(days, y, m, d) && r == padded_dec(y, 4) + seq!['-'] + padded_dec(
            m,
            2,
        )
}

/// Formats day number `days` as the `YYYY-MM` folder name of the date
/// organization scheme.
pub fn month_folder_of_days(days: u64) -> (r: String)
    requires
        days < DAY_LIMIT,
    ensures
        month_folder_ok(r@, days as int),
{
    let (y, m, _d) = civil_from_days(days);
    let mut s = String::new();
    push_padded_decimal(&mut s, y, 4);
    s.push('-');
    push_padded_decimal(&mut s, m, 2);
    proof {
        assert(s@ =~= padded_dec(y as int, 4) + seq!['-'] + padded_dec(m as int, 2));
    }
    s
}

/// Relies on `chrono::TimeZone::timestamp_opt` on `chrono::Local` and
/// `chrono::FixedOffset::local_minus_utc`: the offset from UTC, in seconds,
/// that the local time zone applies at the given instant; `chrono`
/// constructs offsets strictly between -86400 and 86400.
#[verifier::external_body]
fn local_offset_seconds(ts: i64) -> (r: Option<i32>)
    ensures
        r matches Some(o) ==> -86400 < o < 86400,
{
    match chrono::TimeZone::timestamp_opt(&chrono::Local, ts, 0) {
        chrono::LocalResult::Single(dt) => {
            Some(chrono::Offset::fix(dt.offset()).local_minus_utc())
        },
        chrono::LocalResult::Ambiguous(dt, _) => {
            Some(chrono::Offset::fix(dt.offset()).local_minus_utc())
        },
        chrono::LocalResult::None => None,
    }
}

/// The day number a timestamp falls on once shifted by `offset` seconds,
/// with instants before the epoch clamped to day zero.
pub open spec fn shifted_day(ts: int, offset: int) -> int {
    if ts + offset < 0 {
        0
    } else {
        (ts + offset) / 86400
    }
}

/// The `YYYY-MM` folder for a timestamp under the offset `offset`.
pub fn month_folder_at(ts: u64, offset: i32) -> (r: String)
    requires
        ts < TS_LIMIT - 86400,
        -86400 < offset < 86400,
    ensures
        month_folder_ok(r@, shifted_day(ts as int, offset as int)),
{
    let shifted: i64 = ts as i64 + offset as i64;
    let days: u64 = if shifted < 0 {
        0
    } else {
        (shifted as u64) / 86400
    };
    proof {
        assert(days as int == shifted_day(ts as int, offset as int));
        assert(days < DAY_LIMIT);
    }
    month_folder_of_days(days)
}

/// The `YYYY-MM` folder for a timestamp in the local time zone: the one
/// place the organizer consults the machine's time zone. When chrono cannot
/// name an offset for the instant, UTC is used.
pub fn date_folder(ts: u64) -> (r: String)
    requires
        ts < TS_LIMIT - 86400,
    ensures
        exists|o: int|
            -86400 < o < 86400 && #[trigger] month_folder_ok(r@, shifted_day(ts as int, o)),
{
    let offset = match local_offset_seconds(ts as i64) {
        Some(o) => o,
        None => 0,
    };
    let r = month_folder_at(ts, offset);
    proof {
        assert(month_folder_ok(r@, shifted_day(ts as int, offset as int)));
    }
    r
}

} // verus!
