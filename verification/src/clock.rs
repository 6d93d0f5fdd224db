//! Instants of UTC time and the calendar facts the scheduler reads from them.
//!
//! An instant is a whole number of seconds since 1970-01-01T00:00:00 UTC
//! plus nanoseconds, as the `chrono` crate keeps it, within `chrono`'s
//! range (years -262143 to 262142). A date is a day number counted from
//! 0001-01-01 (day 1), as `chrono`'s `Datelike::num_days_from_ce` counts it.
use vstd::prelude::*;
use chrono::Datelike;

verus! {

pub const NANOS_PER_SEC: u32 = 1_000_000_000;
pub const SECS_PER_MINUTE: i64 = 60;
pub const SECS_PER_HOUR: i64 = 3600;
pub const SECS_PER_DAY: i64 = 86400;
/// Day number (from the common era) of 1970-01-01.
pub const UNIX_EPOCH_DAY_CE: i64 = 719163;
/// Earliest instant `chrono` represents: -262143-01-01T00:00:00.
pub const MIN_SECS: i64 = -8334601315200;
/// Latest whole second `chrono` represents: 262142-12-31T23:59:59.
pub const MAX_SECS: i64 = 8210266876799;
/// Day numbers (from the common era) of the first and last representable dates.
pub const MIN_DAY_CE: i64 = -95746130;
pub const MAX_DAY_CE: i64 = 95745399;
/// Range of years of `chrono`'s dates.
pub const MIN_YEAR: i32 = -262143;
pub const MAX_YEAR: i32 = 262142;

/// Floor division (`i64::div_euclid` for a positive divisor).
pub fn div_floor(a: i64, b: i64) -> (q: i64)
    requires
        b > 0,
        a > i64::MIN,
    ensures
        q == a as int / b as int,
{
    if a >= 0 {
        a / b
    } else {
        let n: i64 = -a - 1;
        let t: i64 = n / b;
        proof {
            let ai = a as int;
            let bi = b as int;
            let ti = t as int;
            assert(ti == (-ai - 1) / bi);
            assert(ai / bi == -ti - 1) by (nonlinear_arith)
                requires
                    bi > 0,
                    ai < 0,
                    ti == (-ai - 1) / bi,
            {
                let r = (-ai - 1) % bi;
                assert(-ai - 1 == ti * bi + r);
                assert(ai == (-ti - 1) * bi + (bi - 1 - r));
            }
        }
        -t - 1
    }
}

/// Non-negative remainder (`i64::rem_euclid` for a positive divisor).
pub fn mod_floor(a: i64, b: i64) -> (r: i64)
    requires
        0 < b <= 0x1_0000_0000,
        i64::MIN / 2 < a,
    ensures
        r == a as int % b as int,
        0 <= r < b,
{
    let q = div_floor(a, b);
    proof {
        assert(a - b < q * b <= a) by (nonlinear_arith)
            requires
                q == a as int / b as int,
                b > 0,
        ;
        assert(a as int == (a as int / b as int) * b + a as int % b as int) by (nonlinear_arith)
            requires
                b > 0,
        ;
        assert(q * b <= a) by (nonlinear_arith)
            requires
                q == a as int / b as int,
                b > 0,
        ;
    }
    a - q * b
}

/// An instant: seconds since the Unix epoch and nanoseconds within the second.
#[derive(Debug, Clone, Copy, PartialEq, Eq, Structural)]
pub struct UtcTime {
    pub secs: i64,
    pub nanos: u32,
}

impl View for UtcTime {
    /// Nanoseconds since the Unix epoch.
    type V = int;

    open spec fn view(&self) -> int {
        self.secs * 1_000_000_000 + self.nanos
    }
}

impl UtcTime {
    /// Within `chrono`'s range, with less than a second of nanoseconds.
    pub open spec fn wf(self) -> bool {
        &&& self.nanos < NANOS_PER_SEC
        &&& MIN_SECS <= self.secs <= MAX_SECS
    }

    /// Day number (from the common era) of the date of this instant.
    pub open spec fn day_ce(self) -> int {
        (self.secs as int) / 86400 + UNIX_EPOCH_DAY_CE
    }

    /// Seconds elapsed since midnight.
    pub open spec fn secs_of_day(self) -> int {
        (self.secs as int) % 86400
    }

    pub open spec fn spec_hour(self) -> int {
        self.secs_of_day() / 3600
    }

    pub open spec fn spec_minute(self) -> int {
        (self.secs_of_day() % 3600) / 60
    }

    /// Midnight (UTC) that starts the day numbered `day_ce`.
    pub open spec fn midnight(day_ce: int) -> UtcTime {
        UtcTime { secs: ((day_ce - UNIX_EPOCH_DAY_CE) * SECS_PER_DAY) as i64, nanos: 0 }
    }

    pub fn new(secs: i64, nanos: u32) -> (t: UtcTime)
        ensures
            t.secs == secs,
            t.nanos == nanos,
    {
        UtcTime { secs, nanos }
    }

    /// Day number (from the common era) of the date (`DateTime::date_naive`).
    pub fn date_ce(&self) -> (d: i64)
        requires
            self.wf(),
        ensures
            d == self.day_ce(),
            MIN_DAY_CE <= d <= MAX_DAY_CE,
    {
        let q = div_floor(self.secs, SECS_PER_DAY);
        q + UNIX_EPOCH_DAY_CE
    }

    /// Hour of the day, 0 to 23 (`Timelike::hour`).
    pub fn hour(&self) -> (h: u32)
        requires
            self.wf(),
        ensures
            h == self.spec_hour(),
            h < 24,
    {
        let s = mod_floor(self.secs, SECS_PER_DAY);
        (s / SECS_PER_HOUR) as u32
    }

    /// Minute of the hour, 0 to 59 (`Timelike::minute`).
    pub fn minute(&self) -> (m: u32)
        requires
            self.wf(),
        ensures
            m == self.spec_minute(),
            m < 60,
    {
        let s = mod_floor(self.secs, SECS_PER_DAY);
        ((s % SECS_PER_HOUR) / SECS_PER_MINUTE) as u32
    }

    /// Whether `self` is not later than `other`.
    pub fn le(&self, other: &UtcTime) -> (b: bool)
        requires
            self.wf(),
            other.wf(),
        ensures
            b == (self@ <= other@),
    {
        self.secs < other.secs || (self.secs == other.secs && self.nanos <= other.nanos)
    }

    /// The instant `secs` seconds later (`DateTime + TimeDelta`).
    pub fn plus_secs(&self, secs: i64) -> (t: UtcTime)
        requires
            self.wf(),
            MIN_SECS <= self.secs + secs <= MAX_SECS,
        ensures
            t.wf(),
            t.secs == self.secs + secs,
            t.nanos == self.nanos,
            t@ == self@ + secs * 1_000_000_000,
    {
        UtcTime { secs: self.secs + secs, nanos: self.nanos }
    }
}

/// Day of the week of a date, counted from Sunday (0) to Saturday (6)
/// (`Weekday::num_days_from_sunday`); 0001-01-01 was a Monday.
pub open spec fn weekday_from_sunday(day_ce: int) -> int {
    day_ce % 7
}

/// Day of the week of a date, counted from Monday (0) to Sunday (6)
/// (`Weekday::num_days_from_monday`).
pub open spec fn weekday_from_monday(day_ce: int) -> int {
    (day_ce + 6) % 7
}

pub fn num_days_from_sunday(day_ce: i64) -> (w: u32)
    requires
        MIN_DAY_CE <= day_ce <= MAX_DAY_CE,
    ensures
        w == weekday_from_sunday(day_ce as int),
        w < 7,
{
    mod_floor(day_ce, 7) as u32
}

pub fn num_days_from_monday(day_ce: i64) -> (w: u32)
    requires
        MIN_DAY_CE <= day_ce <= MAX_DAY_CE,
    ensures
        w == weekday_from_monday(day_ce as int),
        w < 7,
{
    mod_floor(day_ce + 6, 7) as u32
}

/// Year of the date numbered `day_ce` (`Datelike::year` of `chrono`'s dates).
pub uninterp spec fn civil_year(day_ce: int) -> int;

/// Month (1 to 12) of the date numbered `day_ce` (`Datelike::month`).
pub uninterp spec fn civil_month(day_ce: int) -> int;

/// Day of the month (1 to 31) of the date numbered `day_ce` (`Datelike::day`).
pub uninterp spec fn civil_day(day_ce: int) -> int;

/// Day number of the date `year-month-day` (`NaiveDate::from_ymd_opt`
/// followed by `Datelike::num_days_from_ce`).
pub uninterp spec fn days_from_civil(year: int, month: int, day: int) -> int;

/// `Datelike::year` of the `chrono` date numbered `day_ce`
/// (`NaiveDate::from_num_days_from_ce_opt`). Claimed: the year lies in
/// `chrono`'s range; nothing else is stated of how it is computed.
#[verifier::external_body]
pub(crate) fn year_of_day(day_ce: i64) -> (y: i32)
    requires
        MIN_DAY_CE <= day_ce <= MAX_DAY_CE,
    ensures
        y == civil_year(day_ce as int),
        MIN_YEAR <= y <= MAX_YEAR,
{
    chrono::NaiveDate::from_num_days_from_ce_opt(day_ce as i32).expect("date in range").year()
}

/// `Datelike::month` of the `chrono` date numbered `day_ce`. Claimed: it
/// lies in 1..=12.
#[verifier::external_body]
pub(crate) fn month_of_day(day_ce: i64) -> (m: u32)
    requires
        MIN_DAY_CE <= day_ce <= MAX_DAY_CE,
    ensures
        m == civil_month(day_ce as int),
        1 <= m <= 12,
{
    chrono::NaiveDate::from_num_days_from_ce_opt(day_ce as i32).expect("date in range").month()
}

/// `Datelike::day` of the `chrono` date numbered `day_ce`. Claimed: it lies
/// in 1..=31.
#[verifier::external_body]
pub(crate) fn day_of_month_of_day(day_ce: i64) -> (d: u32)
    requires
        MIN_DAY_CE <= day_ce <= MAX_DAY_CE,
    ensures
        d == civil_day(day_ce as int),
        1 <= d <= 31,
{
    chrono::NaiveDate::from_num_days_from_ce_opt(day_ce as i32).expect("date in range").day()
}

/// `NaiveDate::from_ymd_opt(year, month, day)`, as a day number. Claimed:
/// the first day of a month 1..=12 of a year in `chrono`'s range exists;
/// a date that exists has a year in that range, a month in 1..=12 and a day
/// in 1..=31, and reads back as that year, month and day; its day number is
/// in range, and greater than that of every date of an earlier month (day
/// numbers count the days of the calendar in order). Which other days of a
/// month exist is not stated.
#[verifier::external_body]
pub(crate) fn day_from_ymd(year: i32, month: u32, day: u32) -> (r: Option<i64>)
    ensures
        (1 <= month <= 12 && day == 1 && MIN_YEAR <= year <= MAX_YEAR) ==> r is Some,
        r matches Some(d) ==> {
            &&& MIN_YEAR <= year <= MAX_YEAR
            &&& 1 <= month <= 12
            &&& 1 <= day <= 31
            &&& d == days_from_civil(year as int, month as int, day as int)
            &&& MIN_DAY_CE <= d <= MAX_DAY_CE
            &&& civil_year(d as int) == year
            &&& civil_month(d as int) == month
            &&& civil_day(d as int) == day
            &&& forall|e: int|
                #![trigger civil_year(e)]
                MIN_DAY_CE <= e <= MAX_DAY_CE && (civil_year(e) < year || (civil_year(e) == year
                    && civil_month(e) < month)) ==> e < d
        },
{
    match chrono::NaiveDate::from_ymd_opt(year, month, day) {
        Some(date) => Some(date.num_days_from_ce() as i64),
        None => None,
    }
}

/// The current time (`Utc::now`). Claimed: a representable instant; which
/// one depends on the clock.
#[verifier::external_body]
pub(crate) fn now() -> (t: UtcTime)
    ensures
        t.wf(),
{
    let n = chrono::Utc::now();
    UtcTime { secs: n.timestamp(), nanos: n.timestamp_subsec_nanos() }
}

} // verus!
