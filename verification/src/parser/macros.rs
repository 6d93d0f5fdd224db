//! Schedule macros: `@daily`, `@hourly`, `@weekly`, `@monthly`, `@yearly`,
//! their aliases `@midnight` and `@annually`, and `@every <n>[m|h|s]`.
use vstd::prelude::*;
use crate::text::{
    chars_eq, chars_of, decimal, has_prefix, is_digit, is_ws, lemma_decimal, lemma_parse_u32_decimal,
    lemma_words_of_one, parse_u32, parse_u32_spec, split_words, starts_with_chars, sub_chars,
    words,
};
use crate::types::{opt_schedule, Schedule, ScheduleModel};

verus! {

/// `v` ends with the unit letter `u`.
pub open spec fn has_unit(v: Seq<char>, u: char) -> bool {
    v.len() > 0 && v.last() == u
}

/// Minutes given by a number of seconds: the scheduler works by whole
/// minutes, so a positive interval below one minute runs every minute,
/// longer ones count their whole minutes, and 0 seconds is no interval.
pub open spec fn seconds_to_minutes(secs: u32) -> Option<u32> {
    if secs == 0 {
        None
    } else if secs < 60 {
        Some(1)
    } else {
        Some(secs / 60)
    }
}

/// The interval of `@every <v>` in minutes: `<n>m`, `<n>h`, `<n>s` or a
/// bare number of minutes.
pub open spec fn every_value_spec(v: Seq<char>) -> Option<u32> {
    if has_unit(v, 'm') {
        parse_u32_spec(v.drop_last())
    } else if has_unit(v, 'h') {
        match parse_u32_spec(v.drop_last()) {
            Some(h) => Some((h * 60) as u32),
            None => None,
        }
    } else if has_unit(v, 's') {
        match parse_u32_spec(v.drop_last()) {
            Some(secs) => seconds_to_minutes(secs),
            None => None,
        }
    } else {
        parse_u32_spec(v)
    }
}

/// A number of hours whose minutes do not fit in `u32`.
pub open spec fn every_value_overflows(v: Seq<char>) -> bool {
    &&& !has_unit(v, 'm')
    &&& has_unit(v, 'h')
    &&& parse_u32_spec(v.drop_last()) matches Some(h)
    &&& h * 60 > u32::MAX
}

/// The name after `@`.
pub open spec fn macro_name(input: Seq<char>) -> Seq<char> {
    input.drop_first()
}

/// The words after `@every `.
pub open spec fn every_words(input: Seq<char>) -> Seq<Seq<char>> {
    words(macro_name(input).skip("every "@.len() as int))
}

pub open spec fn is_named_macro(m: Seq<char>) -> bool {
    m == "daily"@ || m == "midnight"@ || m == "hourly"@ || m == "weekly"@ || m == "monthly"@
        || m == "yearly"@ || m == "annually"@
}

/// `@every` followed by exactly one word.
pub open spec fn is_every_macro(input: Seq<char>) -> bool {
    &&& !is_named_macro(macro_name(input))
    &&& has_prefix(macro_name(input), "every "@)
    &&& every_words(input).len() == 1
}

/// The schedule a macro stands for, if `input` is one.
pub open spec fn macro_spec(input: Seq<char>) -> Option<ScheduleModel> {
    if !(input.len() > 0 && input[0] == '@') {
        None
    } else {
        let m = macro_name(input);
        if m == "daily"@ || m == "midnight"@ {
            Some(ScheduleModel::Daily)
        } else if m == "hourly"@ {
            Some(ScheduleModel::Hourly)
        } else if m == "weekly"@ {
            Some(ScheduleModel::Weekly)
        } else if m == "monthly"@ {
            Some(ScheduleModel::Monthly)
        } else if m == "yearly"@ || m == "annually"@ {
            Some(ScheduleModel::Yearly)
        } else if is_every_macro(input) {
            match every_value_spec(every_words(input)[0]) {
                Some(n) => Some(ScheduleModel::EveryMinutes(n)),
                None => None,
            }
        } else {
            None
        }
    }
}

/// `@every <n>h` with more hours than `u32` minutes can hold: the
/// conversion to minutes overflows.
pub open spec fn macro_overflows(input: Seq<char>) -> bool {
    &&& input.len() > 0
    &&& input[0] == '@'
    &&& is_every_macro(input)
    &&& every_value_overflows(every_words(input)[0])
}

/// `<n>h` is `n` hours: `60 n` minutes, the same interval as `<60n>m`.
pub proof fn law_every_hours_are_minutes(n: u32)
    requires
        n * 60 <= u32::MAX,
    ensures
        every_value_spec(decimal(n as nat).push('h')) == Some((n * 60) as u32),
        every_value_spec(decimal(n as nat).push('h')) == every_value_spec(
            decimal((n * 60) as nat).push('m'),
        ),
{
    let h = decimal(n as nat).push('h');
    assert(h.drop_last() =~= decimal(n as nat));
    lemma_parse_u32_decimal(n);
    let m = decimal((n * 60) as nat).push('m');
    assert(m.drop_last() =~= decimal((n * 60) as nat));
    lemma_parse_u32_decimal((n * 60) as u32);
}

/// `<n>m` and a bare `<n>` are `n` minutes; `<n>s` is `n` seconds counted
/// in whole minutes, at least one, and `0s` is no interval.
pub proof fn law_every_minutes_and_seconds(n: u32)
    ensures
        every_value_spec(decimal(n as nat).push('m')) == Some(n),
        every_value_spec(decimal(n as nat)) == Some(n),
        every_value_spec(decimal(n as nat).push('s')) == if n == 0 {
            None
        } else if n < 60 {
            Some(1u32)
        } else {
            Some(n / 60)
        },
        every_value_spec(decimal(n as nat).push('s')) matches Some(k) ==> k * 60 <= n + 59 && (
        n < 60 || k * 60 <= n),
{
    lemma_parse_u32_decimal(n);
    lemma_decimal(n as nat);
    let d = decimal(n as nat);
    assert(d.push('m').drop_last() =~= d);
    assert(d.push('s').drop_last() =~= d);
    assert(d.last() != 'm' && d.last() != 'h' && d.last() != 's') by {
        assert(is_digit(d[d.len() - 1]));
    }
}

/// `@every <n>h` is the schedule of every `60 n` minutes.
pub proof fn law_every_hours_macro(n: u32)
    requires
        n * 60 <= u32::MAX,
    ensures
        macro_spec("@every "@ + decimal(n as nat).push('h')) == Some(
            ScheduleModel::EveryMinutes((n * 60) as u32),
        ),
        !macro_overflows("@every "@ + decimal(n as nat).push('h')),
{
    let w = decimal(n as nat).push('h');
    let input = "@every "@ + w;
    lemma_decimal(n as nat);
    assert forall|i: int| 0 <= i < w.len() implies !is_ws(#[trigger] w[i]) by {
        if i < w.len() - 1 {
            assert(w[i] == decimal(n as nat)[i]);
        }
    }
    lemma_words_of_one(w);
    reveal_strlit("@every ");
    reveal_strlit("every ");
    reveal_strlit("daily");
    reveal_strlit("midnight");
    reveal_strlit("hourly");
    reveal_strlit("weekly");
    reveal_strlit("monthly");
    reveal_strlit("yearly");
    reveal_strlit("annually");
    assert(input[0] == '@');
    assert(macro_name(input) =~= "every "@ + w);
    assert(macro_name(input).skip("every "@.len() as int) =~= w);
    assert(every_words(input) == seq![w]);
    assert(macro_name(input).take(6) =~= "every "@);
    assert(has_prefix(macro_name(input), "every "@));
    assert(macro_name(input)[0] == 'e');
    assert(macro_name(input) != "daily"@ && macro_name(input) != "midnight"@ && macro_name(input)
        != "hourly"@ && macro_name(input) != "weekly"@ && macro_name(input) != "monthly"@
        && macro_name(input) != "yearly"@ && macro_name(input) != "annually"@) by {
        assert("daily"@[0] == 'd' && "midnight"@[0] == 'm' && "hourly"@[0] == 'h' && "weekly"@[0]
            == 'w' && "monthly"@[0] == 'm' && "yearly"@[0] == 'y' && "annually"@[0] == 'a');
    }
    assert(!is_named_macro(macro_name(input)));
    law_every_hours_are_minutes(n);
    assert(w.drop_last() =~= decimal(n as nat));
    lemma_parse_u32_decimal(n);
    assert(!every_value_overflows(w));
}

/// Parses the interval of `@every` (for example `5m`, `2h`, `30s`) into
/// minutes; `None` for an interval it cannot read, and `Some(None)` when
/// the number of hours is too large for the minutes to fit in `u32`.
fn parse_every_value(v: &Vec<char>) -> (r: Option<Option<u32>>)
    ensures
        r is None <==> every_value_overflows(v@),
        r matches Some(x) ==> x == every_value_spec(v@),
{
    let n = v.len();
    if n > 0 && v[n - 1] == 'm' {
        let body = sub_chars(v, 0, n - 1);
        assert(body@ =~= v@.drop_last());
        Some(parse_u32(&body))
    } else if n > 0 && v[n - 1] == 'h' {
        let body = sub_chars(v, 0, n - 1);
        assert(body@ =~= v@.drop_last());
        match parse_u32(&body) {
            None => Some(None),
            Some(h) => {
                if h > 71582788 {
                    None
                } else {
                    Some(Some(h * 60))
                }
            },
        }
    } else if n > 0 && v[n - 1] == 's' {
        let body = sub_chars(v, 0, n - 1);
        assert(body@ =~= v@.drop_last());
        match parse_u32(&body) {
            None => Some(None),
            Some(secs) => {
                if secs == 0 {
                    Some(None)
                } else if secs < 60 {
                    Some(Some(1))
                } else {
                    Some(Some(secs / 60))
                }
            },
        }
    } else {
        Some(parse_u32(v))
    }
}

/// Parses a macro; `None` when `input` is not a macro, and `Some(None)`
/// for an `@every <n>h` whose minutes overflow `u32`.
fn parse_macro_checked(input: &str) -> (r: Option<Option<Schedule>>)
    ensures
        r is None <==> macro_overflows(input@),
        r matches Some(x) ==> opt_schedule(x) == macro_spec(input@),
{
    let cs = chars_of(input);
    if !(cs.len() > 0 && cs[0] == '@') {
        return Some(None);
    }
    let m = sub_chars(&cs, 1, cs.len());
    assert(m@ =~= macro_name(input@));
    if chars_eq(&m, &chars_of("daily")) || chars_eq(&m, &chars_of("midnight")) {
        return Some(Some(Schedule::Daily));
    }
    if chars_eq(&m, &chars_of("hourly")) {
        return Some(Some(Schedule::Hourly));
    }
    if chars_eq(&m, &chars_of("weekly")) {
        return Some(Some(Schedule::Weekly));
    }
    if chars_eq(&m, &chars_of("monthly")) {
        return Some(Some(Schedule::Monthly));
    }
    if chars_eq(&m, &chars_of("yearly")) || chars_eq(&m, &chars_of("annually")) {
        return Some(Some(Schedule::Yearly));
    }
    let every = chars_of("every ");
    if starts_with_chars(&m, &every) {
        let rest = sub_chars(&m, every.len(), m.len());
        assert(rest@ =~= macro_name(input@).skip("every "@.len() as int));
        let parts = split_words(&rest);
        if parts.len() == 1 {
            assert(parts@[0]@ == every_words(input@)[0]);
            match parse_every_value(&parts[0]) {
                None => {
                    return None;
                },
                Some(Some(minutes)) => {
                    return Some(Some(Schedule::EveryMinutes(minutes)));
                },
                Some(None) => {},
            }
        }
    }
    Some(None)
}

/// Parses a schedule macro such as `@daily` or `@every 5m`.
pub fn parse_macro(input: &str) -> (r: Option<Schedule>)
    requires
        !macro_overflows(input@),
    ensures
        opt_schedule(r) == macro_spec(input@),
{
    match parse_macro_checked(input) {
        Some(r) => r,
        None => None,
    }
}

/// Whether [`parse_macro`] can read `input` (it cannot read an
/// `@every <n>h` whose minutes overflow `u32`).
pub fn macro_is_readable(input: &str) -> (b: bool)
    ensures
        b == !macro_overflows(input@),
{
    parse_macro_checked(input).is_some()
}

} // verus!
