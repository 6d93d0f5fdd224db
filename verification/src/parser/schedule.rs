//! Next occurrence of a schedule after a given instant.
use vstd::prelude::*;
use crate::clock::{
    civil_day, civil_month, civil_year, day_from_ymd, day_of_month_of_day, days_from_civil,
    month_of_day, num_days_from_monday, num_days_from_sunday, weekday_from_monday,
    weekday_from_sunday, year_of_day, UtcTime, MAX_DAY_CE, MAX_SECS, MAX_YEAR, MIN_DAY_CE,
    MIN_SECS, MIN_YEAR, SECS_PER_DAY, SECS_PER_HOUR, UNIX_EPOCH_DAY_CE,
};
use crate::types::{CronField, CronFieldModel, Schedule, ScheduleModel};

verus! {

/// How many minutes a cron search looks ahead: a leap year and a minute,
/// so that a yearly expression is always found.
pub const MAX_ITERATIONS: u32 = 527041;

/// The calendar fields a cron expression is matched against.
#[derive(Debug, Clone, Copy, PartialEq, Eq, Structural)]
pub struct CalendarFields {
    pub minute: u32,
    pub hour: u32,
    /// Day of the month, from 1.
    pub day: u32,
    /// Month, from 1.
    pub month: u32,
    /// Day of the week, Sunday being 0.
    pub weekday: u32,
}

/// The calendar fields of an instant.
pub open spec fn calendar_at(t: UtcTime) -> CalendarFields {
    CalendarFields {
        minute: t.spec_minute() as u32,
        hour: t.spec_hour() as u32,
        day: civil_day(t.day_ce()) as u32,
        month: civil_month(t.day_ce()) as u32,
        weekday: weekday_from_sunday(t.day_ce()) as u32,
    }
}

/// Whether `value` is one of the values a cron field stands for. A step
/// `base/step` stands for `base`, `base + step`, ...; a step of 0 for none.
pub open spec fn field_matches(value: u32, f: CronFieldModel) -> bool {
    match f {
        CronFieldModel::Any => true,
        CronFieldModel::Single(v) => value == v,
        CronFieldModel::List(vs) => vs.contains(value),
        CronFieldModel::Range(a, b) => a <= value && value <= b,
        CronFieldModel::Step(base, step) => step != 0 && value >= base && (value - base) % (
        step as int) == 0,
    }
}

/// Sunday may be written 0 or 7.
pub open spec fn sunday_as_zero(v: u32) -> u32 {
    if v == 7 {
        0
    } else {
        v
    }
}

/// Whether one of `vs`, with 7 read as 0, is `w`.
pub open spec fn weekday_in_list(w: u32, vs: Seq<u32>) -> bool {
    exists|i: int| 0 <= i < vs.len() && w == sunday_as_zero(#[trigger] vs[i])
}

/// Whether the day value `v` lies in the range `a-b`; a range whose start
/// follows its end wraps around the week.
pub open spec fn in_week_range(v: u32, a: u32, b: u32) -> bool {
    if a <= b {
        a <= v && v <= b
    } else {
        v >= a || v <= b
    }
}

/// Whether a day of the week (Sunday = 0) is one the day-of-week field
/// stands for. Sunday is written 0 or 7: a range holds Sunday when it holds
/// either value (`0-7` is the whole week, `5-7` is Friday to Sunday); a
/// range whose start follows its end wraps around the week.
pub open spec fn weekday_matches(w: u32, f: CronFieldModel) -> bool {
    match f {
        CronFieldModel::Any => true,
        CronFieldModel::Single(v) => w == sunday_as_zero(v),
        CronFieldModel::List(vs) => weekday_in_list(w, vs),
        CronFieldModel::Range(a, b) => in_week_range(w, a, b) || (w == 0 && in_week_range(7, a, b)),
        CronFieldModel::Step(base, step) => step != 0 && w >= base && (w - base) % (step as int)
            == 0,
    }
}

/// Whether calendar fields satisfy the five fields of a cron expression.
pub open spec fn cron_matches_spec(
    minute: CronFieldModel,
    hour: CronFieldModel,
    day_of_month: CronFieldModel,
    month: CronFieldModel,
    day_of_week: CronFieldModel,
    at: CalendarFields,
) -> bool {
    &&& field_matches(at.minute, minute)
    &&& field_matches(at.hour, hour)
    &&& field_matches(at.day, day_of_month)
    &&& field_matches(at.month, month)
    &&& weekday_matches(at.weekday, day_of_week)
}

/// `t` plus `k` minutes.
pub open spec fn minutes_later(t: UtcTime, k: int) -> UtcTime {
    UtcTime { secs: (t.secs + 60 * k) as i64, nanos: t.nanos }
}

/// The first of `from + k` minutes, `from + (k + 1)` minutes, ... up to
/// `from + MAX_ITERATIONS` minutes that the cron fields match.
pub open spec fn cron_search(
    minute: CronFieldModel,
    hour: CronFieldModel,
    day_of_month: CronFieldModel,
    month: CronFieldModel,
    day_of_week: CronFieldModel,
    from: UtcTime,
    k: int,
) -> Option<UtcTime>
    decreases MAX_ITERATIONS + 1 - k,
{
    if k > MAX_ITERATIONS || k < 1 {
        None
    } else if cron_matches_spec(
        minute,
        hour,
        day_of_month,
        month,
        day_of_week,
        calendar_at(minutes_later(from, k)),
    ) {
        Some(minutes_later(from, k))
    } else {
        cron_search(minute, hour, day_of_month, month, day_of_week, from, k + 1)
    }
}

/// Days from a date to the next Monday (7 from a Monday).
pub open spec fn days_until_monday(day_ce: int) -> int {
    if weekday_from_monday(day_ce) == 0 {
        7
    } else {
        7 - weekday_from_monday(day_ce)
    }
}

/// Whether [`next_occurrence`] can be computed from `from`: the instants it
/// steps through must stay within the representable range.
pub open spec fn occurrence_defined(s: ScheduleModel, from: UtcTime) -> bool {
    &&& from.wf()
    &&& match s {
        ScheduleModel::Cron { .. } => from.secs + 60 * (MAX_ITERATIONS + 1) <= MAX_SECS,
        ScheduleModel::Daily => from.day_ce() + 1 <= MAX_DAY_CE,
        ScheduleModel::Hourly => from.secs + SECS_PER_HOUR <= MAX_SECS,
        ScheduleModel::Weekly => from.day_ce() + days_until_monday(from.day_ce()) <= MAX_DAY_CE,
        ScheduleModel::Monthly => true,
        ScheduleModel::Yearly => true,
        ScheduleModel::EveryMinutes(n) => n == 0 || from.secs + 60 * n <= MAX_SECS,
    }
}

/// The first day of the year and month following those of `day_ce`, if
/// that year is representable.
pub open spec fn first_of_next_month(day_ce: int) -> Option<UtcTime> {
    let y = civil_year(day_ce);
    let m = civil_month(day_ce);
    let y2 = if m == 12 { y + 1 } else { y };
    let m2 = if m == 12 { 1 } else { m + 1 };
    if MIN_YEAR <= y2 <= MAX_YEAR {
        Some(UtcTime::midnight(days_from_civil(y2, m2, 1)))
    } else {
        None
    }
}

/// January 1 of the year after that of `day_ce`, if representable.
pub open spec fn first_of_next_year(day_ce: int) -> Option<UtcTime> {
    let y2 = civil_year(day_ce) + 1;
    if y2 <= MAX_YEAR {
        Some(UtcTime::midnight(days_from_civil(y2, 1, 1)))
    } else {
        None
    }
}

/// The next occurrence of a schedule after `from`:
/// - cron: the first matching minute among the next `MAX_ITERATIONS`
///   minutes (same seconds and nanoseconds as `from`);
/// - `@daily`: the next midnight; `@hourly`: the start of the next hour;
/// - `@weekly`: midnight of the next Monday (a week later from a Monday);
/// - `@monthly` / `@yearly`: midnight of the first day of the next month /
///   year, when that date exists;
/// - `@every n`: `n` minutes later, none for `n = 0`.
pub open spec fn next_spec(s: ScheduleModel, from: UtcTime) -> Option<UtcTime> {
    match s {
        ScheduleModel::Cron { minute, hour, day_of_month, month, day_of_week } => cron_search(
            minute,
            hour,
            day_of_month,
            month,
            day_of_week,
            from,
            1,
        ),
        ScheduleModel::Daily => Some(UtcTime::midnight(from.day_ce() + 1)),
        ScheduleModel::Hourly => Some(
            UtcTime {
                secs: (((from.secs + SECS_PER_HOUR) as int) / 3600 * 3600) as i64,
                nanos: 0,
            },
        ),
        ScheduleModel::Weekly => Some(
            UtcTime::midnight(from.day_ce() + days_until_monday(from.day_ce())),
        ),
        ScheduleModel::Monthly => first_of_next_month(from.day_ce()),
        ScheduleModel::Yearly => first_of_next_year(from.day_ce()),
        ScheduleModel::EveryMinutes(n) => if n == 0 {
            None
        } else {
            Some(minutes_later(from, n as int))
        },
    }
}

/// Whether `value` is one of the values of a cron field.
pub fn matches_field(value: u32, field: &CronField) -> (b: bool)
    ensures
        b == field_matches(value, field@),
        field@ matches CronFieldModel::Range(lo, hi) ==> (b <==> lo <= value && value <= hi),
{
    match field {
        CronField::Any => true,
        CronField::Single(v) => value == *v,
        CronField::List(values) => {
            let mut i: usize = 0;
            while i < values.len()
                invariant
                    field@ == CronFieldModel::List(values@),
                    i <= values.len(),
                    forall|j: int| 0 <= j < i ==> values@[j] != value,
                decreases values.len() - i,
            {
                if values[i] == value {
                    assert(values@[i as int] == value);
                    assert(values@.contains(value));
                    return true;
                }
                i = i + 1;
            }
            false
        },
        CronField::Range(start, end) => value >= *start && value <= *end,
        CronField::Step(base, step) => {
            if *step == 0 {
                return false;
            }
            if value >= *base {
                (value - *base) % *step == 0
            } else {
                false
            }
        },
    }
}

/// A range `a-b` of a cron field holds both of its ends and every value
/// between them, and nothing else: `9-17` in the hour field fires at 17:00.
pub proof fn law_range_field_inclusive(value: u32, a: u32, b: u32)
    ensures
        field_matches(value, CronFieldModel::Range(a, b)) <==> (a <= value && value <= b),
        a <= b ==> field_matches(a, CronFieldModel::Range(a, b)) && field_matches(
            b,
            CronFieldModel::Range(a, b),
        ),
{
}

/// The `k`-th value of a step `base/step`: `base + k step`.
pub open spec fn step_value(base: u32, step: u32, k: nat) -> int {
    base + k * step
}

/// A step `base/step` holds `base`, `base + step`, `base + 2 step`, ...
/// and nothing else; a step of 0 holds nothing.
pub proof fn law_step_field(value: u32, base: u32, step: u32)
    ensures
        step == 0 ==> !field_matches(value, CronFieldModel::Step(base, step)),
        step > 0 ==> (field_matches(value, CronFieldModel::Step(base, step)) <==> exists|k: nat|
            value == #[trigger] step_value(base, step, k)),
{
    if step > 0 {
        if field_matches(value, CronFieldModel::Step(base, step)) {
            let k: nat = ((value - base) / (step as int)) as nat;
            assert(value == step_value(base, step, k)) by (nonlinear_arith)
                requires
                    value >= base,
                    (value - base) % (step as int) == 0,
                    k == (value - base) / (step as int),
                    step > 0,
            ;
        }
        if exists|k: nat| value == #[trigger] step_value(base, step, k) {
            let k = choose|k: nat| value == #[trigger] step_value(base, step, k);
            assert(value >= base && (value - base) % (step as int) == 0) by (nonlinear_arith)
                requires
                    value == base + k * step,
                    step > 0,
            ;
        }
    }
}

/// An expression `0 a-b * * *` matches exactly the full hours from `a` to
/// `b`, the hour `b` included.
pub proof fn law_hour_range_matches(a: u32, b: u32, at: CalendarFields)
    ensures
        cron_matches_spec(
            CronFieldModel::Single(0),
            CronFieldModel::Range(a, b),
            CronFieldModel::Any,
            CronFieldModel::Any,
            CronFieldModel::Any,
            at,
        ) <==> (at.minute == 0 && a <= at.hour && at.hour <= b),
{
}

proof fn lemma_weekday_in_list(w: u32, vs: Seq<u32>, i: int)
    requires
        0 <= i < vs.len(),
        w == sunday_as_zero(vs[i]),
    ensures
        weekday_matches(w, CronFieldModel::List(vs)),
{
    assert(weekday_in_list(w, vs));
}

fn sunday_zero(v: u32) -> (r: u32)
    ensures
        r == sunday_as_zero(v),
{
    if v == 7 {
        0
    } else {
        v
    }
}

/// Whether a day of the week (Sunday = 0) is one of the values of a
/// day-of-week field, where 7 also means Sunday.
pub fn matches_weekday(weekday_num: u32, field: &CronField) -> (b: bool)
    ensures
        b == weekday_matches(weekday_num, field@),
{
    match field {
        CronField::Any => true,
        CronField::Single(v) => weekday_num == sunday_zero(*v),
        CronField::List(values) => {
            let mut i: usize = 0;
            while i < values.len()
                invariant
                    field@ == CronFieldModel::List(values@),
                    i <= values.len(),
                    forall|j: int| 0 <= j < i ==> weekday_num != sunday_as_zero(#[trigger] values@[j]),
                decreases values.len() - i,
            {
                if weekday_num == sunday_zero(values[i]) {
                    assert(weekday_num == sunday_as_zero(values@[i as int]));
                    proof {
                        lemma_weekday_in_list(weekday_num, values@, i as int);
                    }
                    return true;
                }
                i = i + 1;
            }
            false
        },
        CronField::Range(start, end) => {
            let (a, b) = (*start, *end);
            let in_range = if a <= b {
                a <= weekday_num && weekday_num <= b
            } else {
                weekday_num >= a || weekday_num <= b
            };
            let sunday_as_seven = if a <= b {
                a <= 7 && 7 <= b
            } else {
                7 >= a || 7 <= b
            };
            in_range || (weekday_num == 0 && sunday_as_seven)
        },
        CronField::Step(base, step) => {
            if *step == 0 {
                return false;
            }
            if weekday_num >= *base {
                (weekday_num - *base) % *step == 0
            } else {
                false
            }
        },
    }
}

/// Whether calendar fields satisfy a cron expression's five fields.
pub fn cron_matches(
    minute: &CronField,
    hour: &CronField,
    day_of_month: &CronField,
    month: &CronField,
    day_of_week: &CronField,
    at: &CalendarFields,
) -> (b: bool)
    ensures
        b == cron_matches_spec(minute@, hour@, day_of_month@, month@, day_of_week@, *at),
{
    matches_field(at.minute, minute) && matches_field(at.hour, hour) && matches_field(
        at.day,
        day_of_month,
    ) && matches_field(at.month, month) && matches_weekday(at.weekday, day_of_week)
}

/// The calendar fields of an instant.
pub fn calendar_fields(t: &UtcTime) -> (c: CalendarFields)
    requires
        t.wf(),
    ensures
        c == calendar_at(*t),
{
    let d = t.date_ce();
    CalendarFields {
        minute: t.minute(),
        hour: t.hour(),
        day: day_of_month_of_day(d),
        month: month_of_day(d),
        weekday: num_days_from_sunday(d),
    }
}

fn next_cron_occurrence(
    minute: &CronField,
    hour: &CronField,
    day_of_month: &CronField,
    month: &CronField,
    day_of_week: &CronField,
    from: UtcTime,
) -> (r: Option<UtcTime>)
    requires
        from.wf(),
        from.secs + 60 * (MAX_ITERATIONS + 1) <= MAX_SECS,
    ensures
        r == cron_search(minute@, hour@, day_of_month@, month@, day_of_week@, from, 1),
{
    let mut current = from.plus_secs(60);
    let mut i: u32 = 0;
    while i < MAX_ITERATIONS
        invariant
            from.wf(),
            from.secs + 60 * (MAX_ITERATIONS + 1) <= MAX_SECS,
            i <= MAX_ITERATIONS,
            current == minutes_later(from, i + 1),
            cron_search(minute@, hour@, day_of_month@, month@, day_of_week@, from, 1)
                == cron_search(minute@, hour@, day_of_month@, month@, day_of_week@, from, i + 1),
        decreases MAX_ITERATIONS - i,
    {
        let at = calendar_fields(&current);
        if cron_matches(minute, hour, day_of_month, month, day_of_week, &at) {
            return Some(current);
        }
        current = current.plus_secs(60);
        i = i + 1;
    }
    None
}

/// Whether [`next_occurrence`] can be computed from `from` (see
/// [`occurrence_defined`]).
pub fn occurrence_in_range(schedule: &Schedule, from: &UtcTime) -> (b: bool)
    ensures
        b == occurrence_defined(schedule@, *from),
{
    if !(from.nanos < 1_000_000_000 && MIN_SECS <= from.secs && from.secs <= MAX_SECS) {
        return false;
    }
    match schedule {
        Schedule::Cron { .. } => from.secs <= MAX_SECS - 60 * (MAX_ITERATIONS as i64 + 1),
        Schedule::Daily => from.date_ce() < MAX_DAY_CE,
        Schedule::Hourly => from.secs <= MAX_SECS - SECS_PER_HOUR,
        Schedule::Weekly => {
            let d = from.date_ce();
            let w = num_days_from_monday(d);
            let k: i64 = if w == 0 { 7 } else { 7 - w as i64 };
            d + k <= MAX_DAY_CE
        },
        Schedule::Monthly => true,
        Schedule::Yearly => true,
        Schedule::EveryMinutes(n) => *n == 0 || from.secs <= MAX_SECS - 60 * (*n as i64),
    }
}

/// Midnight starting the day numbered `day_ce`.
fn midnight_of(day_ce: i64) -> (t: UtcTime)
    requires
        MIN_DAY_CE <= day_ce <= MAX_DAY_CE,
    ensures
        t == UtcTime::midnight(day_ce as int),
        t.wf(),
{
    UtcTime::new((day_ce - UNIX_EPOCH_DAY_CE) * SECS_PER_DAY, 0)
}

proof fn lemma_start_of_hour(n: int)
    ensures
        (n / 86400) * 86400 + ((n % 86400) / 3600) * 3600 == (n / 3600) * 3600,
{
    let d = n / 86400;
    let r = n % 86400;
    let h = r / 3600;
    assert(n == d * 86400 + r && 0 <= r < 86400) by (nonlinear_arith)
        requires
            d == n / 86400,
            r == n % 86400,
    ;
    assert(r == h * 3600 + r % 3600 && 0 <= r % 3600 < 3600) by (nonlinear_arith)
        requires
            h == r / 3600,
            0 <= r,
    ;
    assert(n == (d * 24 + h) * 3600 + r % 3600) by (nonlinear_arith)
        requires
            n == d * 86400 + r,
            r == h * 3600 + r % 3600,
    ;
    assert(n / 3600 == d * 24 + h) by (nonlinear_arith)
        requires
            n == (d * 24 + h) * 3600 + r % 3600,
            0 <= r % 3600 < 3600,
    ;
    assert(d * 86400 + h * 3600 == (d * 24 + h) * 3600) by (nonlinear_arith);
}

/// Computes the next occurrence of a schedule after `from` (see [`next_spec`]).
pub fn next_occurrence(schedule: &Schedule, from: UtcTime) -> (r: Option<UtcTime>)
    requires
        occurrence_defined(schedule@, from),
    ensures
        r == next_spec(schedule@, from),
        r matches Some(t) ==> t.wf() && from@ < t@,
        schedule@ is Monthly ==> {
            let y = civil_year(from.day_ce());
            let m = civil_month(from.day_ce());
            &&& (r is Some <==> y + m / 12 <= MAX_YEAR)
            &&& (r matches Some(t) ==> {
                &&& t.nanos == 0
                &&& t.secs_of_day() == 0
                &&& civil_day(t.day_ce()) == 1
                &&& civil_month(t.day_ce()) == m % 12 + 1
                &&& civil_year(t.day_ce()) == y + m / 12
            })
        },
        schedule@ is Yearly ==> {
            let y = civil_year(from.day_ce());
            &&& (r is Some <==> y + 1 <= MAX_YEAR)
            &&& (r matches Some(t) ==> {
                &&& t.nanos == 0
                &&& t.secs_of_day() == 0
                &&& civil_day(t.day_ce()) == 1
                &&& civil_month(t.day_ce()) == 1
                &&& civil_year(t.day_ce()) == y + 1
            })
        },
{
    proof {
        lemma_day_bounds(from);
        if !(schedule@ is Monthly) && !(schedule@ is Yearly) {
            law_next_after(schedule@, from);
        }
    }
    match schedule {
        Schedule::Cron { minute, hour, day_of_month, month, day_of_week } => {
            let r = next_cron_occurrence(minute, hour, day_of_month, month, day_of_week, from);
            proof {
                lemma_cron_search_wf(minute@, hour@, day_of_month@, month@, day_of_week@, from, 1);
            }
            assert(r == next_spec(schedule@, from));
            r
        },
        Schedule::Daily => {
            let tomorrow = from.date_ce() + 1;
            let r = Some(midnight_of(tomorrow));
            assert(r == next_spec(schedule@, from));
            r
        },
        Schedule::Hourly => {
            let next_hour = from.plus_secs(SECS_PER_HOUR);
            let d = next_hour.date_ce();
            let h = next_hour.hour();
            proof {
                lemma_start_of_hour(next_hour.secs as int);
            }
            assert(h as int == (next_hour.secs as int % 86400) / 3600);
            assert(d - UNIX_EPOCH_DAY_CE == next_hour.secs as int / 86400);
            let r = Some(UtcTime::new((d - UNIX_EPOCH_DAY_CE) * SECS_PER_DAY + h as i64 * SECS_PER_HOUR, 0));
            assert(r == next_spec(schedule@, from));
            r
        },
        Schedule::Weekly => {
            let d = from.date_ce();
            let current_weekday = num_days_from_monday(d);
            let days_until_monday: i64 = if current_weekday == 0 {
                7
            } else {
                7 - current_weekday as i64
            };
            let r = Some(midnight_of(d + days_until_monday));
            assert(r == next_spec(schedule@, from));
            r
        },
        Schedule::Monthly => {
            let d = from.date_ce();
            let y = year_of_day(d);
            let m = month_of_day(d);
            let (year, month) = if m == 12 {
                (y + 1, 1u32)
            } else {
                (y, m + 1)
            };
            assert(year as int == y + m / 12 && month as int == m % 12 + 1);
            let r = match day_from_ymd(year, month, 1) {
                Some(first) => {
                    assert(d < first);
                    proof {
                        lemma_midnight_after(from, first as int);
                        lemma_midnight(first as int);
                    }
                    Some(midnight_of(first))
                },
                None => None,
            };
            assert(r == next_spec(schedule@, from));
            r
        },
        Schedule::Yearly => {
            let d = from.date_ce();
            let y = year_of_day(d);
            let r = match day_from_ymd(y + 1, 1, 1) {
                Some(first) => {
                    assert(d < first);
                    proof {
                        lemma_midnight_after(from, first as int);
                        lemma_midnight(first as int);
                    }
                    Some(midnight_of(first))
                },
                None => None,
            };
            assert(r == next_spec(schedule@, from));
            r
        },
        Schedule::EveryMinutes(minutes) => {
            if *minutes == 0 {
                return None;
            }
            Some(from.plus_secs(60 * (*minutes as i64)))
        },
    }
}

/// Every instant the cron search can return is representable.
proof fn lemma_cron_search_wf(
    minute: CronFieldModel,
    hour: CronFieldModel,
    day_of_month: CronFieldModel,
    month: CronFieldModel,
    day_of_week: CronFieldModel,
    from: UtcTime,
    k: int,
)
    requires
        from.wf(),
        from.secs + 60 * (MAX_ITERATIONS + 1) <= MAX_SECS,
        k >= 1,
    ensures
        cron_search(minute, hour, day_of_month, month, day_of_week, from, k) matches Some(t) ==> t.wf()
            && t.secs > from.secs,
    decreases MAX_ITERATIONS + 1 - k,
{
    if k <= MAX_ITERATIONS {
        lemma_cron_search_wf(minute, hour, day_of_month, month, day_of_week, from, k + 1);
    }
}

// ---------------------------------------------------------------------------
// Laws of the next occurrence
// ---------------------------------------------------------------------------

proof fn lemma_midnight(d: int)
    requires
        MIN_DAY_CE <= d <= MAX_DAY_CE,
    ensures
        UtcTime::midnight(d).wf(),
        UtcTime::midnight(d).day_ce() == d,
        UtcTime::midnight(d).secs_of_day() == 0,
{
    let secs = (d - UNIX_EPOCH_DAY_CE) * 86400;
    assert(secs / 86400 == d - UNIX_EPOCH_DAY_CE && secs % 86400 == 0) by (nonlinear_arith)
        requires
            secs == (d - UNIX_EPOCH_DAY_CE) * 86400,
    ;
    assert(MIN_SECS <= secs <= MAX_SECS) by (nonlinear_arith)
        requires
            secs == (d - UNIX_EPOCH_DAY_CE) * 86400,
            MIN_DAY_CE <= d <= MAX_DAY_CE,
    ;
}

/// The midnight of a later day comes after `t`.
proof fn lemma_midnight_after(t: UtcTime, d: int)
    requires
        t.wf(),
        t.day_ce() < d <= MAX_DAY_CE,
    ensures
        t@ < UtcTime::midnight(d)@,
{
    lemma_day_bounds(t);
    assert(MIN_DAY_CE <= d) by {
        assert(t.secs as int / 86400 >= MIN_SECS / 86400) by (nonlinear_arith)
            requires
                t.secs >= MIN_SECS,
        ;
    }
    lemma_midnight(d);
    assert((d - UNIX_EPOCH_DAY_CE) * 86400 >= (t.day_ce() + 1 - UNIX_EPOCH_DAY_CE) * 86400) by (nonlinear_arith)
        requires
            d >= t.day_ce() + 1,
    ;
}

/// `d` is the day of `t`: `t` is at or after its midnight and before the next.
proof fn lemma_day_bounds(t: UtcTime)
    ensures
        (t.day_ce() - UNIX_EPOCH_DAY_CE) * 86400 <= t.secs < (t.day_ce() + 1 - UNIX_EPOCH_DAY_CE) * 86400,
{
    let s = t.secs as int;
    assert((s / 86400) * 86400 <= s < (s / 86400 + 1) * 86400) by (nonlinear_arith);
}

/// `@monthly` runs at midnight of the first day of the month that follows
/// the month of `from`: in the same year up to November, in January of the
/// next year from December.
pub proof fn law_monthly_next(from: UtcTime)
    requires
        from.wf(),
        1 <= civil_month(from.day_ce()) <= 12,
        MIN_YEAR <= civil_year(from.day_ce()),
        civil_year(from.day_ce()) + civil_month(from.day_ce()) / 12 <= MAX_YEAR,
    ensures
        next_spec(ScheduleModel::Monthly, from) == Some(
            UtcTime::midnight(
                days_from_civil(
                    civil_year(from.day_ce()) + civil_month(from.day_ce()) / 12,
                    civil_month(from.day_ce()) % 12 + 1,
                    1,
                ),
            ),
        ),
{
}

/// `@yearly` runs at midnight of January 1 of the year after that of `from`.
pub proof fn law_yearly_next(from: UtcTime)
    requires
        from.wf(),
        civil_year(from.day_ce()) + 1 <= MAX_YEAR,
    ensures
        next_spec(ScheduleModel::Yearly, from) == Some(
            UtcTime::midnight(days_from_civil(civil_year(from.day_ce()) + 1, 1, 1)),
        ),
{
}

/// The next occurrence comes strictly after `from`. Stated here of every
/// schedule but `@monthly` and `@yearly`, whose dates are `chrono`'s; for
/// those, [`next_occurrence`] states it of what it computes.
pub proof fn law_next_after(s: ScheduleModel, from: UtcTime)
    requires
        occurrence_defined(s, from),
        !(s is Monthly),
        !(s is Yearly),
    ensures
        next_spec(s, from) matches Some(t) ==> t.wf() && t@ > from@,
{
    match s {
        ScheduleModel::Cron { minute, hour, day_of_month, month, day_of_week } => {
            lemma_cron_search_wf(minute, hour, day_of_month, month, day_of_week, from, 1);
            match next_spec(s, from) {
                Some(t) => {
                    assert(t.nanos == from.nanos) by {
                        lemma_cron_search_nanos(minute, hour, day_of_month, month, day_of_week, from, 1);
                    }
                },
                None => {},
            }
        },
        ScheduleModel::Daily => {
            lemma_day_bounds(from);
            lemma_midnight(from.day_ce() + 1);
        },
        ScheduleModel::Hourly => {
            let x = from.secs + 3600;
            assert(x - 3600 < (x / 3600) * 3600 <= x) by (nonlinear_arith);
        },
        ScheduleModel::Weekly => {
            lemma_day_bounds(from);
            let d = from.day_ce() + days_until_monday(from.day_ce());
            assert(from.day_ce() >= MIN_DAY_CE) by {
                assert(from.secs as int / 86400 >= MIN_SECS / 86400) by (nonlinear_arith)
                    requires
                        from.secs >= MIN_SECS,
                ;
            }
            lemma_midnight(d);
            assert((d - UNIX_EPOCH_DAY_CE) * 86400 >= (from.day_ce() + 1 - UNIX_EPOCH_DAY_CE) * 86400) by (nonlinear_arith)
                requires
                    d >= from.day_ce() + 1,
            ;
        },
        _ => {},
    }
}

proof fn lemma_cron_search_nanos(
    minute: CronFieldModel,
    hour: CronFieldModel,
    day_of_month: CronFieldModel,
    month: CronFieldModel,
    day_of_week: CronFieldModel,
    from: UtcTime,
    k: int,
)
    ensures
        cron_search(minute, hour, day_of_month, month, day_of_week, from, k) matches Some(t) ==> t.nanos
            == from.nanos,
    decreases MAX_ITERATIONS + 1 - k,
{
    if 1 <= k <= MAX_ITERATIONS {
        lemma_cron_search_nanos(minute, hour, day_of_month, month, day_of_week, from, k + 1);
    }
}

/// The cron occurrence is the first matching minute: `k` minutes after
/// `from` for some `k` of the search, with the fields matching there and at
/// no minute before; when there is none, no minute of the search matches.
pub proof fn law_cron_first_match(
    minute: CronFieldModel,
    hour: CronFieldModel,
    day_of_month: CronFieldModel,
    month: CronFieldModel,
    day_of_week: CronFieldModel,
    from: UtcTime,
)
    ensures
        match cron_search(minute, hour, day_of_month, month, day_of_week, from, 1) {
            Some(t) => exists|k: int|
                {
                    &&& 1 <= k <= MAX_ITERATIONS
                    &&& t == minutes_later(from, k)
                    &&& cron_matches_spec(minute, hour, day_of_month, month, day_of_week, calendar_at(t))
                    &&& forall|j: int|
                        1 <= j < k ==> !cron_matches_spec(
                            minute,
                            hour,
                            day_of_month,
                            month,
                            day_of_week,
                            #[trigger] calendar_at(minutes_later(from, j)),
                        )
                },
            None => forall|j: int|
                1 <= j <= MAX_ITERATIONS ==> !cron_matches_spec(
                    minute,
                    hour,
                    day_of_month,
                    month,
                    day_of_week,
                    #[trigger] calendar_at(minutes_later(from, j)),
                ),
        },
{
    lemma_cron_search_first(minute, hour, day_of_month, month, day_of_week, from, 1);
}

proof fn lemma_cron_search_first(
    minute: CronFieldModel,
    hour: CronFieldModel,
    day_of_month: CronFieldModel,
    month: CronFieldModel,
    day_of_week: CronFieldModel,
    from: UtcTime,
    k0: int,
)
    requires
        k0 >= 1,
    ensures
        match cron_search(minute, hour, day_of_month, month, day_of_week, from, k0) {
            Some(t) => exists|k: int|
                {
                    &&& k0 <= k <= MAX_ITERATIONS
                    &&& t == minutes_later(from, k)
                    &&& cron_matches_spec(minute, hour, day_of_month, month, day_of_week, calendar_at(t))
                    &&& forall|j: int|
                        k0 <= j < k ==> !cron_matches_spec(
                            minute,
                            hour,
                            day_of_month,
                            month,
                            day_of_week,
                            #[trigger] calendar_at(minutes_later(from, j)),
                        )
                },
            None => forall|j: int|
                k0 <= j <= MAX_ITERATIONS ==> !cron_matches_spec(
                    minute,
                    hour,
                    day_of_month,
                    month,
                    day_of_week,
                    #[trigger] calendar_at(minutes_later(from, j)),
                ),
        },
    decreases MAX_ITERATIONS + 1 - k0,
{
    if k0 <= MAX_ITERATIONS {
        let here = cron_matches_spec(
            minute,
            hour,
            day_of_month,
            month,
            day_of_week,
            calendar_at(minutes_later(from, k0)),
        );
        if here {
            assert(cron_search(minute, hour, day_of_month, month, day_of_week, from, k0) == Some(
                minutes_later(from, k0),
            ));
        } else {
            lemma_cron_search_first(minute, hour, day_of_month, month, day_of_week, from, k0 + 1);
            match cron_search(minute, hour, day_of_month, month, day_of_week, from, k0 + 1) {
                Some(t) => {
                    let k = choose|k: int|
                        {
                            &&& k0 + 1 <= k <= MAX_ITERATIONS
                            &&& t == minutes_later(from, k)
                            &&& cron_matches_spec(minute, hour, day_of_month, month, day_of_week, calendar_at(t))
                            &&& forall|j: int|
                                k0 + 1 <= j < k ==> !cron_matches_spec(
                                    minute,
                                    hour,
                                    day_of_month,
                                    month,
                                    day_of_week,
                                    #[trigger] calendar_at(minutes_later(from, j)),
                                )
                        };
                    assert forall|j: int| k0 <= j < k implies !cron_matches_spec(
                        minute,
                        hour,
                        day_of_month,
                        month,
                        day_of_week,
                        #[trigger] calendar_at(minutes_later(from, j)),
                    ) by {}
                },
                None => {},
            }
        }
    }
}

/// `@hourly` falls at the start of an hour within the next hour; `@daily`
/// at a midnight within the next day; `@weekly` at the midnight of a Monday
/// within the next week.
pub proof fn law_macro_occurrences(from: UtcTime)
    requires
        from.wf(),
    ensures
        occurrence_defined(ScheduleModel::Hourly, from) ==> (next_spec(ScheduleModel::Hourly, from)
            matches Some(t) && t.secs % 3600 == 0 && t.nanos == 0 && t@ - from@ <= 3600 * 1_000_000_000),
        occurrence_defined(ScheduleModel::Daily, from) ==> (next_spec(ScheduleModel::Daily, from)
            matches Some(t) && t.secs_of_day() == 0 && t.nanos == 0 && t@ - from@ <= 86400 * 1_000_000_000),
        occurrence_defined(ScheduleModel::Weekly, from) ==> (next_spec(ScheduleModel::Weekly, from)
            matches Some(t) && t.secs_of_day() == 0 && t.nanos == 0 && weekday_from_monday(t.day_ce()) == 0
            && t@ - from@ <= 7 * 86400 * 1_000_000_000),
{
    lemma_day_bounds(from);
    assert(from.day_ce() >= MIN_DAY_CE) by {
        assert(from.secs as int / 86400 >= MIN_SECS / 86400) by (nonlinear_arith)
            requires
                from.secs >= MIN_SECS,
        ;
    }
    if occurrence_defined(ScheduleModel::Hourly, from) {
        let x = from.secs + 3600;
        let y = (x / 3600) * 3600;
        assert(x - 3600 < y <= x && y % 3600 == 0) by (nonlinear_arith)
            requires
                y == (x / 3600) * 3600,
        ;
    }
    if occurrence_defined(ScheduleModel::Daily, from) {
        lemma_midnight(from.day_ce() + 1);
    }
    if occurrence_defined(ScheduleModel::Weekly, from) {
        let d = from.day_ce() + days_until_monday(from.day_ce());
        lemma_midnight(d);
        assert((d - UNIX_EPOCH_DAY_CE) * 86400 <= (from.day_ce() + 7 - UNIX_EPOCH_DAY_CE) * 86400) by (nonlinear_arith)
            requires
                d <= from.day_ce() + 7,
        ;
        assert(weekday_from_monday(d) == 0) by {
            let w = weekday_from_monday(from.day_ce());
            assert((from.day_ce() + 6) % 7 == w);
            assert((d + 6) % 7 == 0) by (nonlinear_arith)
                requires
                    w == (from.day_ce() + 6) % 7,
                    d == from.day_ce() + (if w == 0 { 7 } else { 7 - w }),
            ;
        }
    }
}

// ---------------------------------------------------------------------------
// The macros and their cron expressions
// ---------------------------------------------------------------------------

/// `0 * * * *`, the cron expression of `@hourly`.
pub open spec fn hourly_cron() -> ScheduleModel {
    ScheduleModel::Cron {
        minute: CronFieldModel::Single(0),
        hour: CronFieldModel::Any,
        day_of_month: CronFieldModel::Any,
        month: CronFieldModel::Any,
        day_of_week: CronFieldModel::Any,
    }
}

/// `0 0 * * *`, the cron expression of `@daily`.
pub open spec fn daily_cron() -> ScheduleModel {
    ScheduleModel::Cron {
        minute: CronFieldModel::Single(0),
        hour: CronFieldModel::Single(0),
        day_of_month: CronFieldModel::Any,
        month: CronFieldModel::Any,
        day_of_week: CronFieldModel::Any,
    }
}

/// `0 0 * * 1`, the cron expression of `@weekly`.
pub open spec fn weekly_cron() -> ScheduleModel {
    ScheduleModel::Cron {
        minute: CronFieldModel::Single(0),
        hour: CronFieldModel::Single(0),
        day_of_month: CronFieldModel::Any,
        month: CronFieldModel::Any,
        day_of_week: CronFieldModel::Single(1),
    }
}

/// The search finds minute `k` when no minute from `j` on matches before it.
proof fn lemma_cron_search_at(
    minute: CronFieldModel,
    hour: CronFieldModel,
    day_of_month: CronFieldModel,
    month: CronFieldModel,
    day_of_week: CronFieldModel,
    from: UtcTime,
    j: int,
    k: int,
)
    requires
        1 <= j <= k <= MAX_ITERATIONS,
        forall|i: int|
            j <= i < k ==> !cron_matches_spec(
                minute,
                hour,
                day_of_month,
                month,
                day_of_week,
                #[trigger] calendar_at(minutes_later(from, i)),
            ),
        cron_matches_spec(minute, hour, day_of_month, month, day_of_week, calendar_at(minutes_later(from, k))),
    ensures
        cron_search(minute, hour, day_of_month, month, day_of_week, from, j) == Some(minutes_later(from, k)),
    decreases k - j,
{
    if j < k {
        assert(!cron_matches_spec(
            minute,
            hour,
            day_of_month,
            month,
            day_of_week,
            calendar_at(minutes_later(from, j)),
        ));
        lemma_cron_search_at(minute, hour, day_of_month, month, day_of_week, from, j + 1, k);
    }
}

/// Hour and minute of a whole minute `x` (seconds since the epoch): the
/// minute is 0 exactly on whole hours, and both are 0 exactly at midnight.
proof fn lemma_clock_of_minute(x: int)
    requires
        x % 60 == 0,
    ensures
        ((x % 86400) % 3600) / 60 == 0 <==> x % 3600 == 0,
        (((x % 86400) % 3600) / 60 == 0 && (x % 86400) / 3600 == 0) <==> x % 86400 == 0,
{
    vstd::arithmetic::div_mod::lemma_mod_mod(x, 3600, 24);
    vstd::arithmetic::div_mod::lemma_mod_mod(x, 60, 60);
    vstd::arithmetic::div_mod::lemma_mod_mod(x, 60, 1440);
    let r = x % 86400;
    let q = x % 3600;
    assert(0 <= q < 3600 && q % 60 == 0 && 0 <= r < 86400 && r % 60 == 0 && r % 3600 == q);
    assert(q / 60 == 0 <==> q == 0) by (nonlinear_arith)
        requires
            0 <= q < 3600,
            q % 60 == 0,
    ;
    assert((q / 60 == 0 && r / 3600 == 0) <==> r == 0) by (nonlinear_arith)
        requires
            0 <= r < 86400,
            r % 60 == 0,
            r % 3600 == q,
            0 <= q < 3600,
            q % 60 == 0,
    ;
}

/// The next multiple `t` of `p` after `s`, and the whole minutes between.
proof fn lemma_next_multiple(s: int, p: int)
    requires
        p > 0,
        p % 60 == 0,
        s % 60 == 0,
    ensures
        ({
            let t = (s / p + 1) * p;
            &&& s < t <= s + p
            &&& t % p == 0
            &&& t % 60 == 0
            &&& (t - s) % 60 == 0
        }),
{
    let t = (s / p + 1) * p;
    assert(s < t <= s + p && t % p == 0) by (nonlinear_arith)
        requires
            p > 0,
            t == (s / p + 1) * p,
    ;
    let m = s / p + 1;
    let c = p / 60;
    vstd::arithmetic::div_mod::lemma_fundamental_div_mod(p, 60);
    assert(p == 60 * c);
    assert(t == (m * c) * 60) by (nonlinear_arith)
        requires
            t == m * p,
            p == 60 * c,
    ;
    vstd::arithmetic::div_mod::lemma_mod_multiples_basic(m * c, 60);
    assert((t - s) % 60 == 0) by (nonlinear_arith)
        requires
            t % 60 == 0,
            s % 60 == 0,
    ;
}

/// No multiple of `p` lies strictly between two consecutive ones.
proof fn lemma_between_multiples(p: int, t: int, x: int)
    requires
        p > 0,
        t - p < x < t,
        t % p == 0,
    ensures
        x % p != 0,
{
    assert(x % p != 0) by (nonlinear_arith)
        requires
            p > 0,
            t - p < x < t,
            t % p == 0,
    ;
}

/// From a whole minute, `@hourly` gives the same next occurrence as `0 * * * *`.
pub proof fn law_hourly_is_cron(from: UtcTime)
    requires
        from.wf(),
        from.nanos == 0,
        from.secs % 60 == 0,
        occurrence_defined(hourly_cron(), from),
    ensures
        next_spec(hourly_cron(), from) == next_spec(ScheduleModel::Hourly, from),
{
    let s = from.secs as int;
    lemma_next_multiple(s, 3600);
    let t = (s / 3600 + 1) * 3600;
    assert((s + 3600) / 3600 == s / 3600 + 1) by {
        let q = s / 3600;
        let r = s % 3600;
        vstd::arithmetic::div_mod::lemma_fundamental_div_mod(s, 3600);
        vstd::arithmetic::div_mod::lemma_mod_bound(s, 3600);
        assert(s + 3600 == 3600 * (q + 1) + r);
        vstd::arithmetic::div_mod::lemma_div_multiples_vanish_fancy(q + 1, r, 3600);
    }
    let k = (t - s) / 60;
    assert(1 <= k <= 60 && s + 60 * k == t) by (nonlinear_arith)
        requires
            s < t <= s + 3600,
            (t - s) % 60 == 0,
            k == (t - s) / 60,
    ;
    assert forall|i: int| 1 <= i < k implies !cron_matches_spec(
        CronFieldModel::Single(0),
        CronFieldModel::Any,
        CronFieldModel::Any,
        CronFieldModel::Any,
        CronFieldModel::Any,
        #[trigger] calendar_at(minutes_later(from, i)),
    ) by {
        let x = s + 60 * i;
        assert(x % 60 == 0) by (nonlinear_arith)
            requires
                s % 60 == 0,
                x == s + 60 * i,
        ;
        lemma_clock_of_minute(x);
        lemma_between_multiples(3600, t, x);
    }
    lemma_clock_of_minute(t);
    lemma_cron_search_at(
        CronFieldModel::Single(0),
        CronFieldModel::Any,
        CronFieldModel::Any,
        CronFieldModel::Any,
        CronFieldModel::Any,
        from,
        1,
        k,
    );
}

/// From a whole minute, `@daily` gives the same next occurrence as `0 0 * * *`.
pub proof fn law_daily_is_cron(from: UtcTime)
    requires
        from.wf(),
        from.nanos == 0,
        from.secs % 60 == 0,
        occurrence_defined(daily_cron(), from),
    ensures
        next_spec(daily_cron(), from) == next_spec(ScheduleModel::Daily, from),
{
    let s = from.secs as int;
    lemma_next_multiple(s, 86400);
    let t = (s / 86400 + 1) * 86400;
    assert((from.day_ce() + 1 - UNIX_EPOCH_DAY_CE) * 86400 == t);
    let k = (t - s) / 60;
    assert(1 <= k <= 1440 && s + 60 * k == t) by (nonlinear_arith)
        requires
            s < t <= s + 86400,
            (t - s) % 60 == 0,
            k == (t - s) / 60,
    ;
    assert forall|i: int| 1 <= i < k implies !cron_matches_spec(
        CronFieldModel::Single(0),
        CronFieldModel::Single(0),
        CronFieldModel::Any,
        CronFieldModel::Any,
        CronFieldModel::Any,
        #[trigger] calendar_at(minutes_later(from, i)),
    ) by {
        let x = s + 60 * i;
        assert(x % 60 == 0) by (nonlinear_arith)
            requires
                s % 60 == 0,
                x == s + 60 * i,
        ;
        lemma_clock_of_minute(x);
        lemma_between_multiples(86400, t, x);
    }
    lemma_clock_of_minute(t);
    lemma_cron_search_at(
        CronFieldModel::Single(0),
        CronFieldModel::Single(0),
        CronFieldModel::Any,
        CronFieldModel::Any,
        CronFieldModel::Any,
        from,
        1,
        k,
    );
}

/// The days strictly between a day and the Monday that follows it are not
/// Mondays, and that Monday is one (day numbers from 0001-01-01, a Monday).
proof fn lemma_days_until_monday(d: int, j: int)
    ensures
        (d + days_until_monday(d)) % 7 == 1,
        1 <= days_until_monday(d) <= 7,
        0 < j < days_until_monday(d) ==> (d + j) % 7 != 1,
{
    let w = (d + 6) % 7;
    let du = days_until_monday(d);
    assert(du == if w == 0 { 7 } else { 7 - w });
    assert((d + du) % 7 == 1 && 1 <= du <= 7) by (nonlinear_arith)
        requires
            w == (d + 6) % 7,
            du == if w == 0 { 7 } else { 7 - w },
    ;
    if 0 < j < du {
        assert((d + j) % 7 != 1) by (nonlinear_arith)
            requires
                w == (d + 6) % 7,
                du == if w == 0 { 7 } else { 7 - w },
                0 < j < du,
        ;
    }
}

/// From a whole minute, `@weekly` gives the same next occurrence as `0 0 * * 1`.
pub proof fn law_weekly_is_cron(from: UtcTime)
    requires
        from.wf(),
        from.nanos == 0,
        from.secs % 60 == 0,
        occurrence_defined(weekly_cron(), from),
    ensures
        next_spec(weekly_cron(), from) == next_spec(ScheduleModel::Weekly, from),
{
    let s = from.secs as int;
    let d = from.day_ce();
    let q = s / 86400;
    let du = days_until_monday(d);
    lemma_days_until_monday(d, 0);
    let t = (q + du) * 86400;
    assert(d - UNIX_EPOCH_DAY_CE == q);
    assert(q * 86400 <= s < (q + 1) * 86400) by (nonlinear_arith)
        requires
            q == s / 86400,
    ;
    assert(s < t <= s + 7 * 86400 && t % 86400 == 0 && t % 60 == 0) by (nonlinear_arith)
        requires
            q * 86400 <= s < (q + 1) * 86400,
            t == (q + du) * 86400,
            1 <= du <= 7,
    ;
    assert((t - s) % 60 == 0) by (nonlinear_arith)
        requires
            t % 60 == 0,
            s % 60 == 0,
    ;
    let k = (t - s) / 60;
    assert(1 <= k <= 10080 && s + 60 * k == t) by (nonlinear_arith)
        requires
            s < t <= s + 7 * 86400,
            (t - s) % 60 == 0,
            k == (t - s) / 60,
    ;
    assert forall|i: int| 1 <= i < k implies !cron_matches_spec(
        CronFieldModel::Single(0),
        CronFieldModel::Single(0),
        CronFieldModel::Any,
        CronFieldModel::Any,
        CronFieldModel::Single(1),
        #[trigger] calendar_at(minutes_later(from, i)),
    ) by {
        let x = s + 60 * i;
        assert(x % 60 == 0) by (nonlinear_arith)
            requires
                s % 60 == 0,
                x == s + 60 * i,
        ;
        assert(s < x < t);
        lemma_clock_of_minute(x);
        if x % 86400 == 0 {
            let e = x / 86400;
            assert(q < e < q + du) by (nonlinear_arith)
                requires
                    x % 86400 == 0,
                    e == x / 86400,
                    q * 86400 <= s < x < t,
                    t == (q + du) * 86400,
            ;
            lemma_days_until_monday(d, e - q);
            assert((e + UNIX_EPOCH_DAY_CE) % 7 != 1);
        }
    }
    lemma_clock_of_minute(t);
    assert(t / 86400 == q + du) by (nonlinear_arith)
        requires
            t == (q + du) * 86400,
    ;
    lemma_cron_search_at(
        CronFieldModel::Single(0),
        CronFieldModel::Single(0),
        CronFieldModel::Any,
        CronFieldModel::Any,
        CronFieldModel::Single(1),
        from,
        1,
        k,
    );
}

} // verus!
