//! Five-field cron expressions: `minute hour day-of-month month day-of-week`.
use vstd::prelude::*;
use crate::text::{
    all_digits, chars_of, contains_char, decimal, is_digit, lemma_decimal, lemma_parse_u32_decimal,
    lemma_split_join_step, lemma_split_scan_plain, lemma_split_two, parse_u32, parse_u32_spec,
    push_decimal, split_chars, split_on, split_scan, split_words, string_of, words,
};
use crate::types::{cron_field_text, joined_decimals, CronField, CronFieldModel, Schedule, ScheduleModel};

verus! {

/// What parsing a piece of text does: gives a value, reports an error
/// message, or cannot go on (an unparsable number where one was taken for
/// granted).
pub enum Outcome<T> {
    Parsed(T),
    Failed(Seq<char>),
    Aborted,
}

pub open spec fn out_of_range(v: u32, min: u32, max: u32) -> bool {
    v < min || v > max
}

/// `Valeur {v} hors plage [{min}, {max}]`
pub open spec fn range_error(v: u32, min: u32, max: u32) -> Seq<char> {
    "Valeur "@ + decimal(v as nat) + " hors plage ["@ + decimal(min as nat) + ", "@ + decimal(
        max as nat,
    ) + "]"@
}

/// The first value of `values` outside `[min, max]`, if any.
pub open spec fn first_out_of_range(values: Seq<u32>, min: u32, max: u32) -> Option<u32>
    decreases values.len(),
{
    if values.len() == 0 {
        None
    } else if out_of_range(values[0], min, max) {
        Some(values[0])
    } else {
        first_out_of_range(values.drop_first(), min, max)
    }
}

/// The values of the list pieces `p`, all of which parse.
pub open spec fn list_values(p: Seq<Seq<char>>) -> Seq<u32> {
    Seq::new(p.len(), |i: int| parse_u32_spec(p[i])->0)
}

/// A field read as a range `a-b`, a list `a,b,c`, `*` or a single value.
pub open spec fn plain_field_spec(f: Seq<char>, min: u32, max: u32) -> Outcome<CronFieldModel> {
    if f.contains('-') {
        let p = split_on(f, '-');
        if p.len() != 2 {
            Outcome::Failed("Plage invalide: "@ + f)
        } else if parse_u32_spec(p[0]) is None {
            Outcome::Failed("Valeur de début invalide: "@ + p[0])
        } else if parse_u32_spec(p[1]) is None {
            Outcome::Failed("Valeur de fin invalide: "@ + p[1])
        } else {
            let a = parse_u32_spec(p[0])->0;
            let b = parse_u32_spec(p[1])->0;
            if out_of_range(a, min, max) {
                Outcome::Failed(range_error(a, min, max))
            } else if out_of_range(b, min, max) {
                Outcome::Failed(range_error(b, min, max))
            } else {
                Outcome::Parsed(CronFieldModel::Range(a, b))
            }
        }
    } else if f.contains(',') {
        let p = split_on(f, ',');
        if exists|i: int| 0 <= i < p.len() && parse_u32_spec(#[trigger] p[i]) is None {
            Outcome::Failed("Liste invalide: "@ + f)
        } else {
            match first_out_of_range(list_values(p), min, max) {
                Some(v) => Outcome::Failed(range_error(v, min, max)),
                None => Outcome::Parsed(CronFieldModel::List(list_values(p))),
            }
        }
    } else if f == seq!['*'] {
        Outcome::Parsed(CronFieldModel::Any)
    } else {
        match parse_u32_spec(f) {
            None => Outcome::Failed("Valeur invalide: "@ + f),
            Some(v) => if out_of_range(v, min, max) {
                Outcome::Failed(range_error(v, min, max))
            } else {
                Outcome::Parsed(CronFieldModel::Single(v))
            },
        }
    }
}

/// A field with values in `[min, max]`. A step `*/s` or `a-b/s` is taken
/// first; the start and end of `a-b/s` must lie in `[min, max]`, and one
/// that is not a number cannot be read at all (`Abort`). A step with any
/// other base is read as a plain field.
pub open spec fn field_spec(f: Seq<char>, min: u32, max: u32) -> Outcome<CronFieldModel> {
    if f.contains('/') {
        let parts = split_on(f, '/');
        if parts.len() != 2 {
            Outcome::Failed("Format de step invalide: "@ + f)
        } else {
            match parse_u32_spec(parts[1]) {
                None => Outcome::Failed("Step invalide: "@ + parts[1]),
                Some(step) => if parts[0] == seq!['*'] {
                    Outcome::Parsed(CronFieldModel::Step(0, step))
                } else if parts[0].contains('-') {
                    let r = split_on(parts[0], '-');
                    if parse_u32_spec(r[0]) is Some && parse_u32_spec(r[1]) is Some {
                        let a = parse_u32_spec(r[0])->0;
                        let b = parse_u32_spec(r[1])->0;
                        if out_of_range(a, min, max) {
                            Outcome::Failed(range_error(a, min, max))
                        } else if out_of_range(b, min, max) {
                            Outcome::Failed(range_error(b, min, max))
                        } else {
                            Outcome::Parsed(CronFieldModel::Step(a, step))
                        }
                    } else {
                        Outcome::Aborted
                    }
                } else {
                    plain_field_spec(f, min, max)
                },
            }
        }
    } else {
        plain_field_spec(f, min, max)
    }
}

/// A whole cron expression: exactly five whitespace-separated fields, read
/// in order (minute 0-59, hour 0-23, day of month 1-31, month 1-12, day of
/// week 0-7); the first field that fails decides the outcome.
pub open spec fn cron_spec(input: Seq<char>) -> Outcome<ScheduleModel> {
    let w = words(input);
    if w.len() != 5 {
        Outcome::Failed("Expression cron invalide: attendu 5 champs, obtenu "@ + decimal(w.len()))
    } else {
        match field_spec(w[0], 0, 59) {
            Outcome::Aborted => Outcome::Aborted,
            Outcome::Failed(m) => Outcome::Failed(m),
            Outcome::Parsed(minute) => match field_spec(w[1], 0, 23) {
                Outcome::Aborted => Outcome::Aborted,
                Outcome::Failed(m) => Outcome::Failed(m),
                Outcome::Parsed(hour) => match field_spec(w[2], 1, 31) {
                    Outcome::Aborted => Outcome::Aborted,
                    Outcome::Failed(m) => Outcome::Failed(m),
                    Outcome::Parsed(day_of_month) => match field_spec(w[3], 1, 12) {
                        Outcome::Aborted => Outcome::Aborted,
                        Outcome::Failed(m) => Outcome::Failed(m),
                        Outcome::Parsed(month) => match field_spec(w[4], 0, 7) {
                            Outcome::Aborted => Outcome::Aborted,
                            Outcome::Failed(m) => Outcome::Failed(m),
                            Outcome::Parsed(day_of_week) => Outcome::Parsed(
                                ScheduleModel::Cron { minute, hour, day_of_month, month, day_of_week },
                            ),
                        },
                    },
                },
            },
        }
    }
}

/// Whether an exec outcome (`None` for abort) matches a specified one.
pub open spec fn realizes<T: View>(r: Option<Result<T, Vec<char>>>, o: Outcome<T::V>) -> bool {
    match o {
        Outcome::Aborted => r is None,
        Outcome::Failed(m) => r matches Some(Err(e)) && e@ == m,
        Outcome::Parsed(v) => r matches Some(Ok(x)) && x@ == v,
    }
}

/// `prefix` followed by `rest`.
fn message(prefix: &str, rest: &Vec<char>) -> (m: Vec<char>)
    ensures
        m@ == prefix@ + rest@,
{
    let mut m = chars_of(prefix);
    let mut tail = rest.clone();
    m.append(&mut tail);
    m
}

/// Checks that `value` lies in `[min, max]`.
fn validate_range(value: u32, min: u32, max: u32) -> (r: Result<(), Vec<char>>)
    ensures
        r is Ok <==> !out_of_range(value, min, max),
        r matches Err(m) ==> m@ == range_error(value, min, max),
{
    if value < min || value > max {
        let mut m = chars_of("Valeur ");
        push_decimal(&mut m, value as u64);
        let mut t = chars_of(" hors plage [");
        m.append(&mut t);
        push_decimal(&mut m, min as u64);
        let mut t2 = chars_of(", ");
        m.append(&mut t2);
        push_decimal(&mut m, max as u64);
        let mut t3 = chars_of("]");
        m.append(&mut t3);
        assert(m@ =~= range_error(value, min, max));
        Err(m)
    } else {
        Ok(())
    }
}

fn is_star(f: &Vec<char>) -> (b: bool)
    ensures
        b == (f@ == seq!['*']),
{
    if f.len() == 1 && f[0] == '*' {
        assert(f@ =~= seq!['*']);
        true
    } else {
        false
    }
}

fn parse_list(f: &Vec<char>, min: u32, max: u32) -> (r: Result<CronField, Vec<char>>)
    requires
        !f@.contains('-'),
        f@.contains(','),
    ensures
        realizes(Some(r), plain_field_spec(f@, min, max)),
{
    let pieces = split_chars(f, ',');
    let ghost p = split_on(f@, ',');
    let mut values: Vec<u32> = Vec::new();
    let mut i: usize = 0;
    while i < pieces.len()
        invariant
            !f@.contains('-'),
            f@.contains(','),
            p == split_on(f@, ','),
            crate::text::views(pieces@) == p,
            i <= pieces.len(),
            values@.len() == i,
            forall|j: int| 0 <= j < i ==> parse_u32_spec(#[trigger] p[j]) == Some(values@[j]),
        decreases pieces.len() - i,
    {
        assert(pieces@[i as int]@ == p[i as int]);
        match parse_u32(&pieces[i]) {
            None => {
                assert(parse_u32_spec(p[i as int]) is None);
                return Err(message("Liste invalide: ", f));
            },
            Some(v) => {
                values.push(v);
            },
        }
        i = i + 1;
    }
    assert(values@ =~= list_values(p));
    assert(values@.skip(0) =~= values@);
    let mut k: usize = 0;
    while k < values.len()
        invariant
            !f@.contains('-'),
            f@.contains(','),
            p == split_on(f@, ','),
            forall|j: int| 0 <= j < p.len() ==> parse_u32_spec(#[trigger] p[j]) == Some(values@[j]),
            k <= values.len(),
            values@ == list_values(p),
            first_out_of_range(values@, min, max) == first_out_of_range(values@.skip(k as int), min, max),
        decreases values.len() - k,
    {
        assert(values@.skip(k as int).drop_first() =~= values@.skip(k + 1));
        assert(values@.skip(k as int)[0] == values@[k as int]);
        match validate_range(values[k], min, max) {
            Err(m) => {
                return Err(m);
            },
            Ok(()) => {},
        }
        k = k + 1;
    }
    assert(values@.skip(values.len() as int) =~= Seq::<u32>::empty());
    Ok(CronField::List(values))
}

/// A field read as a range, a list, `*` or a single value.
fn parse_plain_field(f: &Vec<char>, min: u32, max: u32) -> (r: Result<CronField, Vec<char>>)
    ensures
        realizes(Some(r), plain_field_spec(f@, min, max)),
{
    if contains_char(f, '-') {
        let p = split_chars(f, '-');
        if p.len() != 2 {
            return Err(message("Plage invalide: ", f));
        }
        assert(p@[0]@ == split_on(f@, '-')[0] && p@[1]@ == split_on(f@, '-')[1]);
        let start = match parse_u32(&p[0]) {
            None => {
                return Err(message("Valeur de début invalide: ", &p[0]));
            },
            Some(v) => v,
        };
        let end = match parse_u32(&p[1]) {
            None => {
                return Err(message("Valeur de fin invalide: ", &p[1]));
            },
            Some(v) => v,
        };
        validate_range(start, min, max)?;
        validate_range(end, min, max)?;
        return Ok(CronField::Range(start, end));
    }
    if contains_char(f, ',') {
        return parse_list(f, min, max);
    }
    if is_star(f) {
        return Ok(CronField::Any);
    }
    let value = match parse_u32(f) {
        None => {
            return Err(message("Valeur invalide: ", f));
        },
        Some(v) => v,
    };
    validate_range(value, min, max)?;
    Ok(CronField::Single(value))
}

/// A field with values in `[min, max]`; `None` where the field cannot be
/// read at all (see [`field_spec`]).
fn parse_field(f: &Vec<char>, min: u32, max: u32) -> (r: Option<Result<CronField, Vec<char>>>)
    ensures
        realizes(r, field_spec(f@, min, max)),
{
    if contains_char(f, '/') {
        let parts = split_chars(f, '/');
        if parts.len() != 2 {
            return Some(Err(message("Format de step invalide: ", f)));
        }
        assert(parts@[0]@ == split_on(f@, '/')[0] && parts@[1]@ == split_on(f@, '/')[1]);
        let step = match parse_u32(&parts[1]) {
            None => {
                return Some(Err(message("Step invalide: ", &parts[1])));
            },
            Some(s) => s,
        };
        if is_star(&parts[0]) {
            return Some(Ok(CronField::Step(0, step)));
        }
        if contains_char(&parts[0], '-') {
            let range = split_chars(&parts[0], '-');
            proof {
                // a piece containing '-' splits into at least two parts
                crate::text::lemma_split_count(parts@[0]@, '-');
            }
            assert(range@[0]@ == split_on(parts@[0]@, '-')[0]);
            assert(range@[1]@ == split_on(parts@[0]@, '-')[1]);
            let start = parse_u32(&range[0]);
            let end = parse_u32(&range[1]);
            if start.is_none() || end.is_none() {
                return None;
            }
            let a = start.unwrap();
            let b = end.unwrap();
            if let Err(e) = validate_range(a, min, max) {
                return Some(Err(e));
            }
            if let Err(e) = validate_range(b, min, max) {
                return Some(Err(e));
            }
            return Some(Ok(CronField::Step(a, step)));
        }
    }
    Some(parse_plain_field(f, min, max))
}

/// Parses a cron expression without giving up on any input: `None` where
/// the expression cannot be read at all (a step bound such as `a-b/s` whose
/// `a` or `b` is not a number).
pub fn parse_cron_checked(input: &str) -> (r: Option<Result<Schedule, String>>)
    ensures
        match cron_spec(input@) {
            Outcome::Aborted => r is None,
            Outcome::Failed(m) => r matches Some(Err(e)) && e@ == m,
            Outcome::Parsed(v) => r matches Some(Ok(s)) && s@ == v,
        },
{
    let cs = chars_of(input);
    let fields = split_words(&cs);
    let ghost w = words(input@);
    if fields.len() != 5 {
        let mut m = chars_of("Expression cron invalide: attendu 5 champs, obtenu ");
        push_decimal(&mut m, fields.len() as u64);
        return Some(Err(string_of(&m)));
    }
    assert(fields@[0]@ == w[0] && fields@[1]@ == w[1] && fields@[2]@ == w[2]);
    assert(fields@[3]@ == w[3] && fields@[4]@ == w[4]);
    let minute = match parse_field(&fields[0], 0, 59) {
        None => { return None; },
        Some(Err(m)) => { return Some(Err(string_of(&m))); },
        Some(Ok(x)) => x,
    };
    let hour = match parse_field(&fields[1], 0, 23) {
        None => { return None; },
        Some(Err(m)) => { return Some(Err(string_of(&m))); },
        Some(Ok(x)) => x,
    };
    let day_of_month = match parse_field(&fields[2], 1, 31) {
        None => { return None; },
        Some(Err(m)) => { return Some(Err(string_of(&m))); },
        Some(Ok(x)) => x,
    };
    let month = match parse_field(&fields[3], 1, 12) {
        None => { return None; },
        Some(Err(m)) => { return Some(Err(string_of(&m))); },
        Some(Ok(x)) => x,
    };
    let day_of_week = match parse_field(&fields[4], 0, 7) {
        None => { return None; },
        Some(Err(m)) => { return Some(Err(string_of(&m))); },
        Some(Ok(x)) => x,
    };
    Some(Ok(Schedule::Cron { minute, hour, day_of_month, month, day_of_week }))
}

/// Parses a cron expression with 5 fields: minute, hour, day of month, month,
/// day of week. The error message names the first problem met.
pub fn parse_cron_expression(input: &str) -> (r: Result<Schedule, String>)
    requires
        !(cron_spec(input@) is Aborted),
    ensures
        match cron_spec(input@) {
            Outcome::Parsed(v) => r matches Ok(s) && s@ == v,
            Outcome::Failed(m) => r matches Err(e) && e@ == m,
            Outcome::Aborted => false,
        },
{
    match parse_cron_checked(input) {
        Some(r) => r,
        None => {
            assert(false);
            Err(String::new())
        },
    }
}

// ---------------------------------------------------------------------------
// Laws of parsing
// ---------------------------------------------------------------------------

/// Whether the values written in a field lie in `[min, max]`; the base 0
/// of a step stands for `*`.
pub open spec fn field_in_range(f: CronFieldModel, min: u32, max: u32) -> bool {
    match f {
        CronFieldModel::Any => true,
        CronFieldModel::Single(v) => min <= v <= max,
        CronFieldModel::List(vs) => forall|i: int| 0 <= i < vs.len() ==> min <= #[trigger] vs[i] <= max,
        CronFieldModel::Range(a, b) => min <= a <= max && min <= b <= max,
        CronFieldModel::Step(base, _) => base == 0 || min <= base <= max,
    }
}

proof fn lemma_first_out_of_range(values: Seq<u32>, min: u32, max: u32)
    ensures
        first_out_of_range(values, min, max) is None ==> forall|i: int|
            0 <= i < values.len() ==> min <= #[trigger] values[i] <= max,
    decreases values.len(),
{
    if values.len() > 0 {
        lemma_first_out_of_range(values.drop_first(), min, max);
        if first_out_of_range(values, min, max) is None {
            assert forall|i: int| 0 <= i < values.len() implies min <= #[trigger] values[i] <= max by {
                if i > 0 {
                    assert(values[i] == values.drop_first()[i - 1]);
                }
            }
        }
    }
}

proof fn lemma_field_in_range(f: Seq<char>, min: u32, max: u32)
    ensures
        field_spec(f, min, max) matches Outcome::Parsed(m) ==> field_in_range(m, min, max),
{
    if f.contains(',') {
        let p = split_on(f, ',');
        lemma_first_out_of_range(list_values(p), min, max);
    }
}

/// Every value written in a parsed cron expression lies in its field's
/// range: minutes 0-59, hours 0-23, days 1-31, months 1-12, days of the
/// week 0-7 (a step's base 0 standing for `*`).
pub proof fn law_cron_values_in_range(input: Seq<char>)
    ensures
        cron_spec(input) matches Outcome::Parsed(
            ScheduleModel::Cron { minute, hour, day_of_month, month, day_of_week },
        ) ==> {
            &&& field_in_range(minute, 0, 59)
            &&& field_in_range(hour, 0, 23)
            &&& field_in_range(day_of_month, 1, 31)
            &&& field_in_range(month, 1, 12)
            &&& field_in_range(day_of_week, 0, 7)
        },
{
    let w = words(input);
    if w.len() == 5 {
        lemma_field_in_range(w[0], 0, 59);
        lemma_field_in_range(w[1], 0, 23);
        lemma_field_in_range(w[2], 1, 31);
        lemma_field_in_range(w[3], 1, 12);
        lemma_field_in_range(w[4], 0, 7);
    }
}

// ---------------------------------------------------------------------------
// Reading back the text of a field
// ---------------------------------------------------------------------------

/// A field as parsing gives it: its values in range, a list of at least two
/// values, a step over `*`.
pub open spec fn field_as_parsed(f: CronFieldModel, min: u32, max: u32) -> bool {
    &&& field_in_range(f, min, max)
    &&& match f {
        CronFieldModel::List(vs) => vs.len() >= 2,
        CronFieldModel::Step(base, _) => base == 0,
        _ => true,
    }
}

/// A text of digits holds no other character.
proof fn lemma_digits_lack(s: Seq<char>, c: char)
    requires
        all_digits(s),
        !is_digit(c),
    ensures
        !s.contains(c),
{
    if s.contains(c) {
        let k = choose|k: int| 0 <= k < s.len() && s[k] == c;
        assert(is_digit(s[k]));
    }
}

/// The text of a list: its characters are digits and commas; split at the
/// commas it gives the decimal texts of the values.
proof fn lemma_joined_decimals(vs: Seq<u32>)
    requires
        vs.len() >= 1,
    ensures
        forall|i: int|
            0 <= i < joined_decimals(vs).len() ==> is_digit(#[trigger] joined_decimals(vs)[i])
                || joined_decimals(vs)[i] == ',',
        split_on(joined_decimals(vs), ',') == Seq::new(vs.len(), |i: int| decimal(vs[i] as nat)),
        vs.len() >= 2 ==> joined_decimals(vs).contains(','),
    decreases vs.len(),
{
    let j = joined_decimals(vs);
    let dl = decimal(vs.last() as nat);
    lemma_decimal(vs.last() as nat);
    lemma_digits_lack(dl, ',');
    if vs.len() == 1 {
        lemma_decimal(vs[0] as nat);
        lemma_split_scan_plain(j, ',');
        assert(split_on(j, ',') =~= Seq::new(vs.len(), |i: int| decimal(vs[i] as nat)));
    } else {
        let rest = vs.drop_last();
        lemma_joined_decimals(rest);
        let jr = joined_decimals(rest);
        assert forall|i: int| 0 <= i < j.len() implies is_digit(#[trigger] j[i]) || j[i] == ',' by {
            if i < jr.len() {
                assert(j[i] == jr[i]);
            } else if i > jr.len() {
                assert(j[i] == dl[i - jr.len() - 1]);
            }
        }
        lemma_split_join_step(jr, ',', dl);
        assert(j[jr.len() as int] == ',');
        assert(split_on(j, ',') =~= Seq::new(vs.len(), |i: int| decimal(vs[i] as nat))) by {
            let want = Seq::new(vs.len(), |i: int| decimal(vs[i] as nat));
            let got = split_on(j, ',');
            assert(got == split_on(jr, ',').push(dl));
            assert forall|i: int| 0 <= i < want.len() implies got[i] == want[i] by {
                if i < rest.len() {
                    assert(rest[i] == vs[i]);
                }
            }
        }
    }
}

proof fn lemma_all_in_range(values: Seq<u32>, min: u32, max: u32)
    requires
        forall|i: int| 0 <= i < values.len() ==> min <= #[trigger] values[i] <= max,
    ensures
        first_out_of_range(values, min, max) is None,
    decreases values.len(),
{
    if values.len() > 0 {
        assert(min <= values[0] <= max);
        assert forall|i: int| 0 <= i < values.drop_first().len() implies min
            <= #[trigger] values.drop_first()[i] <= max by {
            assert(values.drop_first()[i] == values[i + 1]);
        }
        lemma_all_in_range(values.drop_first(), min, max);
    }
}

/// The text of a field as parsing gives it parses back to the field.
pub proof fn lemma_field_text_reads_back(f: CronFieldModel, min: u32, max: u32)
    requires
        field_as_parsed(f, min, max),
    ensures
        field_spec(cron_field_text(f), min, max) == Outcome::Parsed(f),
{
    let t = cron_field_text(f);
    match f {
        CronFieldModel::Any => {
            assert(!t.contains('/') && !t.contains('-') && !t.contains(',')) by {
                if t.contains('/') || t.contains('-') || t.contains(',') {
                    let k = choose|k: int| 0 <= k < t.len() && (t[k] == '/' || t[k] == '-' || t[k] == ',');
                }
            }
        },
        CronFieldModel::Single(v) => {
            lemma_decimal(v as nat);
            lemma_digits_lack(t, '/');
            lemma_digits_lack(t, '-');
            lemma_digits_lack(t, ',');
            lemma_parse_u32_decimal(v);
            assert(is_digit(t[0]));
            assert(t != seq!['*']);
        },
        CronFieldModel::Range(a, b) => {
            let da = decimal(a as nat);
            let db = decimal(b as nat);
            lemma_decimal(a as nat);
            lemma_decimal(b as nat);
            lemma_digits_lack(da, '-');
            lemma_digits_lack(db, '-');
            lemma_digits_lack(da, '/');
            lemma_digits_lack(db, '/');
            assert(!t.contains('/')) by {
                if t.contains('/') {
                    let k = choose|k: int| 0 <= k < t.len() && t[k] == '/';
                    if k < da.len() {
                        assert(t[k] == da[k]);
                    } else if k > da.len() {
                        assert(t[k] == db[k - da.len() - 1]);
                    }
                }
            }
            assert(t[da.len() as int] == '-');
            lemma_split_two(da, '-', db);
            lemma_parse_u32_decimal(a);
            lemma_parse_u32_decimal(b);
        },
        CronFieldModel::List(vs) => {
            lemma_joined_decimals(vs);
            assert(!t.contains('/') && !t.contains('-')) by {
                if t.contains('/') || t.contains('-') {
                    let k = choose|k: int| 0 <= k < t.len() && (t[k] == '/' || t[k] == '-');
                    assert(is_digit(t[k]) || t[k] == ',');
                }
            }
            let p = split_on(t, ',');
            assert forall|i: int| 0 <= i < p.len() implies parse_u32_spec(#[trigger] p[i]) == Some(vs[i]) by {
                lemma_parse_u32_decimal(vs[i]);
            }
            assert(list_values(p) =~= vs);
            lemma_all_in_range(vs, min, max);
        },
        CronFieldModel::Step(base, step) => {
            let ds = decimal(step as nat);
            lemma_decimal(step as nat);
            lemma_digits_lack(ds, '/');
            let star = seq!['*'];
            assert(!star.contains('/')) by {
                if star.contains('/') {
                    assert(star[0] == '*');
                }
            }
            assert(t =~= star + seq!['/'] + ds);
            assert(t[1] == '/');
            lemma_split_two(star, '/', ds);
            lemma_parse_u32_decimal(step);
        },
    }
}

/// A step with a base other than 0 (`a-b/s`), whose text is not `a-b/s`.
pub open spec fn is_based_step(f: CronFieldModel) -> bool {
    match f {
        CronFieldModel::Step(base, _) => base != 0,
        _ => false,
    }
}

/// A field read from text is as parsing gives it, but for a step with a
/// base: its values in range and a list of at least two values.
pub proof fn lemma_parsed_field_as_parsed(f: Seq<char>, min: u32, max: u32)
    ensures
        field_spec(f, min, max) matches Outcome::Parsed(m) ==> (is_based_step(m) || field_as_parsed(
            m,
            min,
            max,
        )),
{
    lemma_field_in_range(f, min, max);
    if f.contains(',') {
        crate::text::lemma_split_count(f, ',');
    }
}

/// The text of a list of at least two values: digits and commas, starting
/// with a digit.
pub proof fn lemma_list_text_chars(vs: Seq<u32>)
    requires
        vs.len() >= 2,
    ensures
        joined_decimals(vs).len() > 0,
        is_digit(joined_decimals(vs)[0]),
        forall|i: int|
            0 <= i < joined_decimals(vs).len() ==> is_digit(#[trigger] joined_decimals(vs)[i])
                || joined_decimals(vs)[i] == ',',
{
    lemma_joined_decimals(vs);
    lemma_list_text_first(vs);
}

proof fn lemma_list_text_first(vs: Seq<u32>)
    requires
        vs.len() >= 1,
    ensures
        joined_decimals(vs).len() > 0,
        is_digit(joined_decimals(vs)[0]),
    decreases vs.len(),
{
    if vs.len() == 1 {
        lemma_decimal(vs[0] as nat);
    } else {
        lemma_list_text_first(vs.drop_last());
        let jr = joined_decimals(vs.drop_last());
        assert(joined_decimals(vs)[0] == jr[0]);
    }
}

} // verus!
