//! Writing the history: the monthly log file of a record and the CSV line
//! that it becomes there.
use vstd::prelude::*;
use crate::clock::{civil_day, civil_month, civil_year, UtcTime};
use crate::history::query::{
    bytes_len, files_entries, is_history, is_task_log, known_id, known_ids, lemma_bytes_len_increasing,
    lemma_known_id_at, lines_entries, or_minus_one, parse_line_spec, sorted_by_name, task_logs,
    utf8_len, LogEntryModel, LogFileModel,
};
use crate::text::{
    all_digits, chars_of, decimal, has_prefix, int_text, is_digit, is_ws, lemma_decimal,
    lemma_int_text_chars, lemma_lines_append, lemma_parse_int_text, lemma_splitn_field,
    lemma_text_le_antisym, lemma_text_le_total, lines_spec, parse_int_spec, push_decimal, push_str,
    splitn_spec, string_of, text_le, trim_char, trim_end_char, trim_end_ms, trim_end_ws,
    trim_start_char, trim_start_ws, trim_ws,
};
use crate::types::ExecutionRecord;

verus! {

// ---------------------------------------------------------------------------
// How `chrono` writes dates
// ---------------------------------------------------------------------------

/// `n` in decimal, with zeros in front up to `width` digits.
pub open spec fn zero_padded(n: nat, width: nat) -> Seq<char> {
    let d = decimal(n);
    if d.len() < width {
        Seq::new((width - d.len()) as nat, |i: int| '0') + d
    } else {
        d
    }
}

/// A year as `chrono` writes it (`%Y`, RFC 3339): four digits from 0 to
/// 9999, otherwise a sign followed by at least four digits.
pub open spec fn year_text(y: int) -> Seq<char> {
    if 0 <= y <= 9999 {
        zero_padded(y as nat, 4)
    } else if y < 0 {
        seq!['-'] + zero_padded((-y) as nat, 4)
    } else {
        seq!['+'] + zero_padded(y as nat, 4)
    }
}

/// `%Y-%m` of the date of `t`: the month of the log file of a record.
pub open spec fn month_label(t: UtcTime) -> Seq<char> {
    year_text(civil_year(t.day_ce())) + seq!['-'] + zero_padded(civil_month(t.day_ce()) as nat, 2)
}

/// Fractional seconds as RFC 3339 output writes them (`SecondsFormat::AutoSi`):
/// none, or 3, 6 or 9 digits, the fewest that hold the nanoseconds.
pub open spec fn fraction_text(nanos: int) -> Seq<char> {
    if nanos == 0 {
        Seq::empty()
    } else if nanos % 1_000_000 == 0 {
        seq!['.'] + zero_padded((nanos / 1_000_000) as nat, 3)
    } else if nanos % 1_000 == 0 {
        seq!['.'] + zero_padded((nanos / 1_000) as nat, 6)
    } else {
        seq!['.'] + zero_padded(nanos as nat, 9)
    }
}

/// `DateTime::<Utc>::to_rfc3339`: `YYYY-MM-DDTHH:MM:SS[.fff]+00:00`.
#[verifier::opaque]
pub open spec fn rfc3339_text(t: UtcTime) -> Seq<char> {
    let d = t.day_ce();
    year_text(civil_year(d)) + seq!['-'] + zero_padded(civil_month(d) as nat, 2) + seq!['-']
        + zero_padded(civil_day(d) as nat, 2) + seq!['T'] + zero_padded(t.spec_hour() as nat, 2)
        + seq![':'] + zero_padded(t.spec_minute() as nat, 2) + seq![':'] + zero_padded(
        (t.secs_of_day() % 60) as nat,
        2,
    ) + fraction_text(t.nanos as int) + seq!['+', '0', '0', ':', '0', '0']
}

/// `DateTime::format("%Y-%m")` of the instant `t`, written out. Claimed,
/// from `chrono`'s `format/formatting.rs`: the year of its date as
/// [`year_text`] gives it, `-`, and its month in two digits.
#[verifier::external_body]
fn format_month(t: &UtcTime) -> (r: String)
    requires
        t.wf(),
    ensures
        r@ == month_label(*t),
{
    let dt = chrono::DateTime::from_timestamp(t.secs, t.nanos).expect("instant in range");
    dt.format("%Y-%m").to_string()
}

/// `DateTime::<Utc>::to_rfc3339` of the instant `t`. Claimed, from
/// `chrono`'s `write_rfc3339` (`format/formatting.rs`): the text of
/// [`rfc3339_text`].
#[verifier::external_body]
fn format_rfc3339(t: &UtcTime) -> (r: String)
    requires
        t.wf(),
    ensures
        r@ == rfc3339_text(*t),
{
    let dt = chrono::DateTime::from_timestamp(t.secs, t.nanos).expect("instant in range");
    dt.to_rfc3339()
}

// ---------------------------------------------------------------------------
// The log line of a record
// ---------------------------------------------------------------------------

/// The message with its double quotes made single and its newlines made
/// spaces, so that it fits between the quotes of one line.
pub open spec fn cleaned(s: Seq<char>) -> Seq<char> {
    Seq::new(
        s.len(),
        |i: int|
            if s[i] == '"' {
                '\''
            } else if s[i] == '\n' {
                ' '
            } else {
                s[i]
            },
    )
}

/// The message kept for a record: its error output when it failed with
/// one, otherwise its standard output.
pub open spec fn record_message(r: ExecutionRecord) -> Seq<char> {
    if !r.success && r.stderr@.len() > 0 {
        cleaned(r.stderr@)
    } else {
        cleaned(r.stdout@)
    }
}

/// Whole milliseconds from `start` to `end`, rounded toward zero
/// (`TimeDelta::num_milliseconds` of `end - start`).
pub open spec fn millis_between(start: UtcTime, end: UtcTime) -> int {
    let d = end@ - start@;
    if d >= 0 {
        d / 1_000_000
    } else {
        -((-d) / 1_000_000)
    }
}

/// Duration of a record in milliseconds, -1 when it has not ended.
pub open spec fn record_duration_ms(r: ExecutionRecord) -> int {
    match r.end_time {
        Some(e) => millis_between(r.start_time, e),
        None => -1,
    }
}

/// Exit code of a record, -1 when there is none.
pub open spec fn record_exit_code(r: ExecutionRecord) -> int {
    match r.exit_code {
        Some(c) => c as int,
        None => -1,
    }
}

/// End of a record as written: its RFC 3339 time, or `en_cours`.
pub open spec fn record_end_text(r: ExecutionRecord) -> Seq<char> {
    match r.end_time {
        Some(e) => rfc3339_text(e),
        None => "en_cours"@,
    }
}

pub open spec fn record_status(r: ExecutionRecord) -> Seq<char> {
    if r.success {
        "success"@
    } else {
        "failure"@
    }
}

/// `start,end,status,exit_code,<duration>ms,"message"` and a newline.
pub open spec fn csv_line(r: ExecutionRecord) -> Seq<char> {
    rfc3339_text(r.start_time) + seq![','] + record_end_text(r) + seq![','] + record_status(r)
        + seq![','] + int_text(record_exit_code(r)) + seq![','] + int_text(record_duration_ms(r))
        + seq!['m', 's', ',', '"'] + record_message(r) + seq!['"', '\n']
}

/// `{task_id}_{YYYY-MM}.log`: the file of the month in which the run started.
pub open spec fn log_file_name_spec(r: ExecutionRecord) -> Seq<char> {
    r.task_id@ + seq!['_'] + month_label(r.start_time) + seq!['.', 'l', 'o', 'g']
}

/// The instants of a record are valid ones.
pub open spec fn record_times_wf(r: ExecutionRecord) -> bool {
    &&& r.start_time.wf()
    &&& r.end_time matches Some(e) ==> e.wf()
}

fn push_cleaned(out: &mut Vec<char>, s: &str)
    ensures
        final(out)@ == old(out)@ + cleaned(s@),
{
    let cs = chars_of(s);
    let ghost start = out@;
    let mut i: usize = 0;
    while i < cs.len()
        invariant
            i <= cs@.len(),
            cs@ == s@,
            out@ == start + cleaned(cs@).take(i as int),
        decreases cs.len() - i,
    {
        let c = cs[i];
        let d = if c == '"' {
            '\''
        } else if c == '\n' {
            ' '
        } else {
            c
        };
        out.push(d);
        assert(cleaned(cs@).take(i + 1) =~= cleaned(cs@).take(i as int).push(d));
        i = i + 1;
    }
    assert(cleaned(cs@).take(cs.len() as int) =~= cleaned(cs@));
}

pub(crate) fn push_int(out: &mut Vec<char>, v: i64)
    ensures
        final(out)@ == old(out)@ + int_text(v as int),
{
    if v < 0 {
        out.push('-');
        let m: u64 = (-(v as i128)) as u64;
        push_decimal(out, m);
        assert(final(out)@ =~= old(out)@ + int_text(v as int));
    } else {
        push_decimal(out, v as u64);
    }
}

/// Milliseconds from `start` to `end`, rounded toward zero.
fn millis_between_exec(start: &UtcTime, end: &UtcTime) -> (m: i64)
    requires
        start.wf(),
        end.wf(),
    ensures
        m == millis_between(*start, *end),
{
    let d: i128 = (end.secs as i128 - start.secs as i128) * 1_000_000_000i128 + (end.nanos as i128
        - start.nanos as i128);
    assert(d == end@ - start@);
    let m: i128 = if d >= 0 {
        d / 1_000_000
    } else {
        -((-d) / 1_000_000)
    };
    m as i64
}

/// The name of the log file of a record: `{task_id}_{YYYY-MM}.log`, the
/// month being that of its start.
pub fn log_file_name(record: &ExecutionRecord) -> (name: String)
    requires
        record.start_time.wf(),
    ensures
        name@ == log_file_name_spec(*record),
{
    let mut out = chars_of(record.task_id.as_str());
    out.push('_');
    let month = format_month(&record.start_time);
    push_str(&mut out, month.as_str());
    push_str(&mut out, ".log");
    proof {
        reveal_strlit(".log");
    }
    assert(out@ =~= log_file_name_spec(*record));
    string_of(&out)
}

/// The path of the log file of a record, under the `logs` directory.
pub fn log_path(record: &ExecutionRecord) -> (path: String)
    requires
        record.start_time.wf(),
    ensures
        path@ == seq!['l', 'o', 'g', 's', '/'] + log_file_name_spec(*record),
{
    let mut out = chars_of("logs/");
    let name = log_file_name(record);
    push_str(&mut out, name.as_str());
    proof {
        reveal_strlit("logs/");
    }
    assert(out@ =~= seq!['l', 'o', 'g', 's', '/'] + log_file_name_spec(*record));
    string_of(&out)
}

/// The line that a record adds to its log file:
/// `start,end,status,exit_code,<duration>ms,"message"` and a newline, the
/// end being `en_cours` and the exit code and duration -1 when unknown.
#[verifier::rlimit(30)]
pub fn to_csv_line(record: &ExecutionRecord) -> (line: String)
    requires
        record_times_wf(*record),
    ensures
        line@ == csv_line(*record),
        line@.len() >= 2 + record_message(*record).len(),
        (record.success || record.stderr@.len() == 0) ==> line@.subrange(
            line@.len() - 2 - record.stdout@.len(),
            line@.len() - 2,
        ) == cleaned(record.stdout@),
        (!record.success && record.stderr@.len() > 0) ==> line@.subrange(
            line@.len() - 2 - record.stderr@.len(),
            line@.len() - 2,
        ) == cleaned(record.stderr@),
{
    let ghost r = *record;
    let mut out: Vec<char> = Vec::new();
    let start = format_rfc3339(&record.start_time);
    push_str(&mut out, start.as_str());
    out.push(',');
    match &record.end_time {
        Some(e) => {
            let end = format_rfc3339(e);
            push_str(&mut out, end.as_str());
        },
        None => {
            push_str(&mut out, "en_cours");
        },
    }
    out.push(',');
    assert(out@ =~= rfc3339_text(r.start_time) + seq![','] + record_end_text(r) + seq![',']) by {
        reveal_strlit("en_cours");
    }
    let ghost head = out@;
    if record.success {
        push_str(&mut out, "success");
    } else {
        push_str(&mut out, "failure");
    }
    out.push(',');
    let exit_code: i64 = match record.exit_code {
        Some(c) => c as i64,
        None => -1,
    };
    push_int(&mut out, exit_code);
    out.push(',');
    assert(out@ =~= head + record_status(r) + seq![','] + int_text(record_exit_code(r)) + seq![',']) by {
        reveal_strlit("success");
        reveal_strlit("failure");
    }
    let ghost mid = out@;
    let duration_ms: i64 = match &record.end_time {
        Some(e) => millis_between_exec(&record.start_time, e),
        None => -1,
    };
    push_int(&mut out, duration_ms);
    out.push('m');
    out.push('s');
    out.push(',');
    out.push('"');
    assert(out@ =~= mid + int_text(record_duration_ms(r)) + seq!['m', 's', ',', '"']);
    let ghost tail = out@;
    if !record.success && !record.stderr.as_str().is_empty() {
        push_cleaned(&mut out, record.stderr.as_str());
    } else {
        push_cleaned(&mut out, record.stdout.as_str());
    }
    out.push('"');
    out.push('\n');
    assert(out@ =~= tail + record_message(r) + seq!['"', '\n']);
    assert(out@ =~= csv_line(*record));
    assert(out@.subrange(out@.len() - 2 - record_message(r).len(), out@.len() - 2) =~= record_message(r));
    string_of(&out)
}

// ---------------------------------------------------------------------------
// Reading back what was written
// ---------------------------------------------------------------------------

/// The history entry that the log line of a record reads back as.
pub open spec fn record_entry(r: ExecutionRecord) -> LogEntryModel {
    LogEntryModel {
        task_id: r.task_id@,
        start_time: rfc3339_text(r.start_time),
        end_time: record_end_text(r),
        status: record_status(r),
        exit_code: record_exit_code(r),
        duration_ms: record_duration_ms(r),
        message: record_message(r),
    }
}

/// A character that can occur in a written date and time.
pub open spec fn stamp_char(c: char) -> bool {
    is_digit(c) || c == '-' || c == '+' || c == ':' || c == 'T' || c == '.'
}

pub open spec fn stamp_chars(s: Seq<char>) -> bool {
    forall|i: int| 0 <= i < s.len() ==> #[trigger] stamp_char(s[i])
}

proof fn lemma_stamp_concat(a: Seq<char>, b: Seq<char>)
    requires
        stamp_chars(a),
        stamp_chars(b),
    ensures
        stamp_chars(a + b),
{
    assert forall|i: int| 0 <= i < (a + b).len() implies #[trigger] stamp_char((a + b)[i]) by {
        if i < a.len() {
            assert((a + b)[i] == a[i]);
        } else {
            assert((a + b)[i] == b[i - a.len()]);
        }
    }
}

proof fn lemma_stamp_free(s: Seq<char>)
    requires
        stamp_chars(s),
    ensures
        !s.contains(','),
        !s.contains('\n'),
        !s.contains('"'),
{
    if s.contains(',') || s.contains('\n') || s.contains('"') {
        let k = choose|k: int| 0 <= k < s.len() && (s[k] == ',' || s[k] == '\n' || s[k] == '"');
        assert(stamp_char(s[k]));
    }
}

proof fn lemma_zero_padded(n: nat, width: nat)
    ensures
        all_digits(zero_padded(n, width)),
        stamp_chars(zero_padded(n, width)),
        zero_padded(n, width).len() >= width,
        n < 10 && width == 2 ==> zero_padded(n, width).len() == 2,
        n < 10000 && width == 4 ==> zero_padded(n, width).len() == 4,
{
    lemma_decimal(n);
    let d = decimal(n);
    let z = zero_padded(n, width);
    if d.len() < width {
        let pad = Seq::new((width - d.len()) as nat, |i: int| '0');
        assert forall|i: int| 0 <= i < z.len() implies is_digit(#[trigger] z[i]) by {
            if i < pad.len() {
                assert(z[i] == '0');
            } else {
                assert(z[i] == d[i - pad.len()]);
            }
        }
    }
    assert forall|i: int| 0 <= i < z.len() implies #[trigger] stamp_char(z[i]) by {
        assert(is_digit(z[i]));
    }
    if n < 10 {
        assert(d.len() == 1);
    }
    if n < 10000 {
        lemma_decimal_len(n);
    }
}

proof fn lemma_decimal_len(n: nat)
    ensures
        n < 10 ==> decimal(n).len() == 1,
        n < 100 ==> decimal(n).len() <= 2,
        n < 1000 ==> decimal(n).len() <= 3,
        n < 10000 ==> decimal(n).len() <= 4,
{
    if n >= 10 {
        assert(decimal(n).len() == decimal(n / 10).len() + 1);
        if n >= 100 {
            assert(decimal(n / 10).len() == decimal(n / 100).len() + 1);
            if n >= 1000 {
                assert(decimal(n / 100).len() == decimal(n / 1000).len() + 1);
                if n < 10000 {
                    assert(decimal(n / 1000).len() == 1);
                }
            }
        }
    }
}

proof fn lemma_year_text(y: int)
    ensures
        stamp_chars(year_text(y)),
        0 <= y <= 9999 ==> year_text(y).len() == 4,
{
    if 0 <= y <= 9999 {
        lemma_zero_padded(y as nat, 4);
    } else if y < 0 {
        lemma_zero_padded((-y) as nat, 4);
        lemma_stamp_concat(seq!['-'], zero_padded((-y) as nat, 4));
    } else {
        lemma_zero_padded(y as nat, 4);
        lemma_stamp_concat(seq!['+'], zero_padded(y as nat, 4));
    }
}

proof fn lemma_fraction_text(nanos: int)
    ensures
        stamp_chars(fraction_text(nanos)),
{
    if nanos != 0 {
        let z = if nanos % 1_000_000 == 0 {
            zero_padded((nanos / 1_000_000) as nat, 3)
        } else if nanos % 1_000 == 0 {
            zero_padded((nanos / 1_000) as nat, 6)
        } else {
            zero_padded(nanos as nat, 9)
        };
        lemma_zero_padded((nanos / 1_000_000) as nat, 3);
        lemma_zero_padded((nanos / 1_000) as nat, 6);
        lemma_zero_padded(nanos as nat, 9);
        lemma_stamp_concat(seq!['.'], z);
    }
}

/// A written date and time holds no comma, newline or double quote.
proof fn lemma_rfc3339_free(t: UtcTime)
    ensures
        !rfc3339_text(t).contains(','),
        !rfc3339_text(t).contains('\n'),
        !rfc3339_text(t).contains('"'),
{
    reveal(rfc3339_text);
    let d = t.day_ce();
    let p1 = zero_padded(civil_month(d) as nat, 2);
    let p2 = zero_padded(civil_day(d) as nat, 2);
    let p3 = zero_padded(t.spec_hour() as nat, 2);
    let p4 = zero_padded(t.spec_minute() as nat, 2);
    let p5 = zero_padded((t.secs_of_day() % 60) as nat, 2);
    lemma_year_text(civil_year(d));
    lemma_zero_padded(civil_month(d) as nat, 2);
    lemma_zero_padded(civil_day(d) as nat, 2);
    lemma_zero_padded(t.spec_hour() as nat, 2);
    lemma_zero_padded(t.spec_minute() as nat, 2);
    lemma_zero_padded((t.secs_of_day() % 60) as nat, 2);
    lemma_fraction_text(t.nanos as int);
    let a0 = year_text(civil_year(d));
    let a1 = a0 + seq!['-'];
    lemma_stamp_concat(a0, seq!['-']);
    let a2 = a1 + p1;
    lemma_stamp_concat(a1, p1);
    let a3 = a2 + seq!['-'];
    lemma_stamp_concat(a2, seq!['-']);
    let a4 = a3 + p2;
    lemma_stamp_concat(a3, p2);
    let a5 = a4 + seq!['T'];
    lemma_stamp_concat(a4, seq!['T']);
    let a6 = a5 + p3;
    lemma_stamp_concat(a5, p3);
    let a7 = a6 + seq![':'];
    lemma_stamp_concat(a6, seq![':']);
    let a8 = a7 + p4;
    lemma_stamp_concat(a7, p4);
    let a9 = a8 + seq![':'];
    lemma_stamp_concat(a8, seq![':']);
    let a10 = a9 + p5;
    lemma_stamp_concat(a9, p5);
    let a11 = a10 + fraction_text(t.nanos as int);
    lemma_stamp_concat(a10, fraction_text(t.nanos as int));
    let tail = seq!['+', '0', '0', ':', '0', '0'];
    assert(stamp_chars(tail)) by {
        assert forall|i: int| 0 <= i < tail.len() implies #[trigger] stamp_char(tail[i]) by {}
    }
    lemma_stamp_concat(a11, tail);
    assert(rfc3339_text(t) == a11 + tail);
    lemma_stamp_free(rfc3339_text(t));
}

/// The text of an integer holds no comma, newline or double quote, and ends
/// with a digit.
proof fn lemma_int_text_free(v: int)
    ensures
        !int_text(v).contains(','),
        !int_text(v).contains('\n'),
        !int_text(v).contains('"'),
        int_text(v).len() > 0,
        is_digit(int_text(v).last()),
{
    lemma_int_text_chars(v);
    assert forall|i: int| 0 <= i < int_text(v).len() implies #[trigger] stamp_char(int_text(v)[i]) by {}
    lemma_stamp_free(int_text(v));
}

proof fn lemma_cleaned_free(s: Seq<char>)
    ensures
        !cleaned(s).contains('\n'),
        !cleaned(s).contains('"'),
{
    if cleaned(s).contains('\n') || cleaned(s).contains('"') {
        let k = choose|k: int| 0 <= k < cleaned(s).len() && (cleaned(s)[k] == '\n' || cleaned(s)[k] == '"');
        assert(cleaned(s)[k] == (if s[k] == '"' {
            '\''
        } else if s[k] == '\n' {
            ' '
        } else {
            s[k]
        }));
    }
}

proof fn lemma_literal_free(s: Seq<char>)
    requires
        s == "en_cours"@ || s == "success"@ || s == "failure"@,
    ensures
        !s.contains(','),
        !s.contains('\n'),
        !s.contains('"'),
{
    reveal_strlit("en_cours");
    reveal_strlit("success");
    reveal_strlit("failure");
    if s.contains(',') || s.contains('\n') || s.contains('"') {
        let k = choose|k: int| 0 <= k < s.len() && (s[k] == ',' || s[k] == '\n' || s[k] == '"');
    }
}

/// A duration between representable instants fits in an `i64`.
proof fn lemma_millis_range(start: UtcTime, end: UtcTime)
    requires
        start.wf(),
        end.wf(),
    ensures
        i64::MIN <= millis_between(start, end) <= i64::MAX,
{
    let d = end@ - start@;
    assert(-20_000_000_000_000_000_000_000 <= d <= 20_000_000_000_000_000_000_000);
    if d >= 0 {
        assert(d / 1_000_000 <= 20_000_000_000_000_000) by (nonlinear_arith)
            requires
                0 <= d <= 20_000_000_000_000_000_000_000,
        ;
    } else {
        assert((-d) / 1_000_000 <= 20_000_000_000_000_000) by (nonlinear_arith)
            requires
                0 <= -d <= 20_000_000_000_000_000_000_000,
        ;
    }
}

/// The message field `"msg"` reads back as `msg` when `msg` has no double quote.
proof fn lemma_quoted_message(m: Seq<char>)
    requires
        !m.contains('"'),
    ensures
        trim_char(trim_ws(seq!['"'] + m + seq!['"']), '"') == m,
{
    let q = seq!['"'] + m + seq!['"'];
    assert(!is_ws('"'));
    assert(q.last() == '"' && q[0] == '"');
    assert(trim_end_ws(q) == q);
    assert(trim_start_ws(q) == q);
    assert(q.drop_last() =~= seq!['"'] + m);
    let h = seq!['"'] + m;
    assert(trim_end_char(q, '"') == trim_end_char(h, '"'));
    if m.len() == 0 {
        assert(h.drop_last() =~= Seq::<char>::empty());
        assert(h.last() == '"');
        assert(trim_end_char(h, '"') == trim_end_char(h.drop_last(), '"'));
        assert(trim_end_char(h.drop_last(), '"') == Seq::<char>::empty());
        assert(trim_end_char(q, '"') == Seq::<char>::empty());
        assert(m =~= Seq::<char>::empty());
    } else {
        assert(h.last() == m.last());
        assert(m.last() != '"') by {
            assert(m[m.len() - 1] == m.last());
        }
        assert(trim_end_char(h, '"') == h);
        assert(trim_end_char(q, '"') == h);
        assert(h.drop_first() =~= m);
        assert(m[0] != '"');
        assert(trim_start_char(m, '"') == m);
        assert(trim_start_char(h, '"') == m);
    }
}

/// The six fields of a log line.
pub open spec fn csv_fields(r: ExecutionRecord) -> Seq<Seq<char>> {
    seq![
        rfc3339_text(r.start_time),
        record_end_text(r),
        record_status(r),
        int_text(record_exit_code(r)),
        int_text(record_duration_ms(r)) + seq!['m', 's'],
        seq!['"'] + record_message(r) + seq!['"'],
    ]
}

/// The fields joined with commas.
pub open spec fn joined_fields(f: Seq<Seq<char>>) -> Seq<char> {
    f[0] + seq![','] + (f[1] + seq![','] + (f[2] + seq![','] + (f[3] + seq![','] + (f[4] + seq![',']
        + f[5]))))
}

/// No field of a log line holds a newline, nor one of the first five a comma.
proof fn lemma_csv_fields_free(r: ExecutionRecord)
    requires
        record_times_wf(r),
    ensures
        forall|k: int| 0 <= k < 6 ==> !(#[trigger] csv_fields(r)[k]).contains('\n'),
        forall|k: int| 0 <= k < 5 ==> !(#[trigger] csv_fields(r)[k]).contains(','),
{
    let f = csv_fields(r);
    lemma_rfc3339_free(r.start_time);
    match r.end_time {
        Some(e) => lemma_rfc3339_free(e),
        None => lemma_literal_free(f[1]),
    }
    lemma_literal_free(f[2]);
    lemma_int_text_free(record_exit_code(r));
    lemma_int_text_free(record_duration_ms(r));
    lemma_cleaned_free(r.stderr@);
    lemma_cleaned_free(r.stdout@);
    let d = int_text(record_duration_ms(r));
    assert(!f[4].contains(',') && !f[4].contains('\n')) by {
        if f[4].contains(',') || f[4].contains('\n') {
            let k = choose|k: int| 0 <= k < f[4].len() && (f[4][k] == ',' || f[4][k] == '\n');
            if k < d.len() {
                assert(f[4][k] == d[k]);
            }
        }
    }
    let m = record_message(r);
    assert(!f[5].contains('\n')) by {
        if f[5].contains('\n') {
            let k = choose|k: int| 0 <= k < f[5].len() && f[5][k] == '\n';
            if 0 < k < f[5].len() - 1 {
                assert(f[5][k] == m[k - 1]);
            }
        }
    }
}

proof fn lemma_joined_free(f: Seq<Seq<char>>, c: char)
    requires
        f.len() == 6,
        forall|k: int| 0 <= k < 6 ==> !(#[trigger] f[k]).contains(c),
        c != ',',
    ensures
        !joined_fields(f).contains(c),
{
    let comma = seq![','];
    assert(!comma.contains(c)) by {
        if comma.contains(c) {
            assert(comma[0] == ',');
        }
    }
    let r4 = f[4] + comma + f[5];
    lemma_concat_free(f[4], comma, c);
    lemma_concat_free(f[4] + comma, f[5], c);
    let r3 = f[3] + comma + r4;
    lemma_concat_free(f[3], comma, c);
    lemma_concat_free(f[3] + comma, r4, c);
    let r2 = f[2] + comma + r3;
    lemma_concat_free(f[2], comma, c);
    lemma_concat_free(f[2] + comma, r3, c);
    let r1 = f[1] + comma + r2;
    lemma_concat_free(f[1], comma, c);
    lemma_concat_free(f[1] + comma, r2, c);
    lemma_concat_free(f[0], comma, c);
    lemma_concat_free(f[0] + comma, r1, c);
}

proof fn lemma_concat_free(a: Seq<char>, b: Seq<char>, c: char)
    requires
        !a.contains(c),
        !b.contains(c),
    ensures
        !(a + b).contains(c),
{
    if (a + b).contains(c) {
        let k = choose|k: int| 0 <= k < (a + b).len() && (a + b)[k] == c;
        if k < a.len() {
            assert((a + b)[k] == a[k]);
        } else {
            assert((a + b)[k] == b[k - a.len()]);
        }
    }
}

/// The log line of a record: its fields joined with commas, and a newline.
proof fn lemma_csv_fields(r: ExecutionRecord)
    requires
        record_times_wf(r),
    ensures
        csv_line(r) == joined_fields(csv_fields(r)).push('\n'),
        !joined_fields(csv_fields(r)).contains('\n'),
        joined_fields(csv_fields(r)).len() > 0,
        joined_fields(csv_fields(r)).last() == '"',
        splitn_spec(joined_fields(csv_fields(r)), 6, ',') == csv_fields(r),
{
    let f = csv_fields(r);
    let body = joined_fields(f);
    assert(csv_line(r) =~= body.push('\n'));
    lemma_csv_fields_free(r);
    lemma_joined_free(f, '\n');
    let c = seq![','];
    let r4 = f[4] + c + f[5];
    let r3 = f[3] + c + r4;
    let r2 = f[2] + c + r3;
    let r1 = f[1] + c + r2;
    assert(!f[0].contains(',') && !f[1].contains(',') && !f[2].contains(','));
    assert(!f[3].contains(',') && !f[4].contains(','));
    lemma_splitn_field(f[0], ',', r1, 6);
    lemma_splitn_field(f[1], ',', r2, 5);
    lemma_splitn_field(f[2], ',', r3, 4);
    lemma_splitn_field(f[3], ',', r4, 3);
    lemma_splitn_field(f[4], ',', f[5], 2);
    assert(splitn_spec(f[5], 1, ',') == seq![f[5]]);
    assert(splitn_spec(body, 6, ',') =~= f);
    assert(body.last() == f[5].last());
}

/// The log line of a record reads back as the record's entry: cut into its
/// fields and parsed, the line without its newline gives [`record_entry`].
pub proof fn law_csv_line_reads_back(r: ExecutionRecord)
    requires
        record_times_wf(r),
    ensures
        csv_line(r).last() == '\n',
        parse_line_spec(r.task_id@, csv_line(r).drop_last()) == Some(record_entry(r)),
{
    lemma_csv_fields(r);
    assert(csv_line(r).drop_last() == joined_fields(csv_fields(r)));
    let d = int_text(record_duration_ms(r));
    lemma_int_text_free(record_duration_ms(r));
    let f4 = d + seq!['m', 's'];
    assert(f4.take(f4.len() - 2) =~= d);
    assert(d[d.len() - 1] == d.last());
    assert(trim_end_ms(d) == d);
    assert(trim_end_ms(f4) == d);
    lemma_parse_int_text(record_exit_code(r), i32::MIN as int, i32::MAX as int);
    match r.end_time {
        Some(e) => lemma_millis_range(r.start_time, e),
        None => {},
    }
    lemma_parse_int_text(record_duration_ms(r), i64::MIN as int, i64::MAX as int);
    lemma_cleaned_free(r.stderr@);
    lemma_cleaned_free(r.stdout@);
    lemma_quoted_message(record_message(r));
    assert(parse_line_spec(r.task_id@, csv_line(r).drop_last()) == Some(record_entry(r)));
}

/// The message that the log keeps of a run, read back from its line: the
/// standard output of a successful run, even when it wrote warnings on its
/// error output; the error output of a failed run that wrote one; the
/// standard output of a failed run that wrote none. Each double quote of it
/// becomes a single quote and each newline a space, and nothing else changes.
pub proof fn law_logged_message(r: ExecutionRecord)
    requires
        record_times_wf(r),
    ensures
        parse_line_spec(r.task_id@, csv_line(r).drop_last()) is Some,
        ({
            let kept = parse_line_spec(r.task_id@, csv_line(r).drop_last())->Some_0.message;
            let src = if r.success {
                r.stdout@
            } else if r.stderr@.len() > 0 {
                r.stderr@
            } else {
                r.stdout@
            };
            &&& kept.len() == src.len()
            &&& forall|i: int|
                0 <= i < src.len() ==> #[trigger] kept[i] == if src[i] == '"' {
                    '\''
                } else if src[i] == '\n' {
                    ' '
                } else {
                    src[i]
                }
        }),
{
    law_csv_line_reads_back(r);
}

/// The other fields of a run, read back from its line: its start; its end,
/// or `en_cours` while it runs; `success` or `failure`; its exit code, or
/// -1 without one; its whole milliseconds, or -1 while it runs.
pub proof fn law_logged_fields(r: ExecutionRecord)
    requires
        record_times_wf(r),
    ensures
        parse_line_spec(r.task_id@, csv_line(r).drop_last()) is Some,
        ({
            let e = parse_line_spec(r.task_id@, csv_line(r).drop_last())->Some_0;
            &&& e.task_id == r.task_id@
            &&& e.start_time == rfc3339_text(r.start_time)
            &&& e.status == if r.success {
                "success"@
            } else {
                "failure"@
            }
            &&& match r.end_time {
                Some(end) => e.end_time == rfc3339_text(end) && e.duration_ms == millis_between(
                    r.start_time,
                    end,
                ),
                None => e.end_time == "en_cours"@ && e.duration_ms == -1,
            }
            &&& match r.exit_code {
                Some(c) => e.exit_code == c as int,
                None => e.exit_code == -1,
            }
        }),
{
    law_csv_line_reads_back(r);
}

/// Appending the line of a record to a log file whose content is empty or
/// ends with a newline adds the record's entry after the entries already
/// read from that file.
pub proof fn law_append_reads_back(content: Seq<char>, r: ExecutionRecord)
    requires
        record_times_wf(r),
        content.len() == 0 || content.last() == '\n',
    ensures
        lines_entries(r.task_id@, lines_spec(content + csv_line(r))) == lines_entries(
            r.task_id@,
            lines_spec(content),
        ).push(record_entry(r)),
{
    law_csv_line_reads_back(r);
    lemma_csv_fields(r);
    let body = joined_fields(csv_fields(r));
    assert(csv_line(r).drop_last() == body);
    lemma_lines_append(content, body);
    assert(content + csv_line(r) == content + body.push('\n'));
    let ls = lines_spec(content);
    assert(ls.push(body).drop_last() =~= ls);
}

proof fn lemma_bytes_len_concat(a: Seq<char>, b: Seq<char>)
    ensures
        bytes_len(a + b) == bytes_len(a) + bytes_len(b),
    decreases b.len(),
{
    if b.len() == 0 {
        assert(a + b =~= a);
    } else {
        lemma_bytes_len_concat(a, b.drop_last());
        assert((a + b).drop_last() =~= a + b.drop_last());
        assert((a + b).last() == b.last());
    }
}

proof fn lemma_bytes_len_stamp(s: Seq<char>)
    requires
        stamp_chars(s),
    ensures
        bytes_len(s) == s.len(),
    decreases s.len(),
{
    if s.len() > 0 {
        assert(stamp_chars(s.drop_last())) by {
            assert forall|i: int| 0 <= i < s.drop_last().len() implies #[trigger] stamp_char(s.drop_last()[i]) by {
                assert(s.drop_last()[i] == s[i]);
            }
        }
        lemma_bytes_len_stamp(s.drop_last());
        assert(stamp_char(s[s.len() - 1]));
        assert(utf8_len(s.last()) == 1);
    }
}

/// When the month is written `YYYY-MM` (7 characters, as for the years 0
/// to 9999), the log file of a record is one of its task's log files; and
/// when the task id is not empty, the id is read back from the file's name.
pub proof fn law_log_file_name_reads_back(r: ExecutionRecord)
    ensures
        month_label(r.start_time).len() == 7 ==> is_task_log(r.task_id@, log_file_name_spec(r)),
        r.task_id@.len() > 0 && month_label(r.start_time).len() == 7 ==> known_id(
            log_file_name_spec(r),
        ) == Some(r.task_id@),
{
    reveal_strlit(".log");
    let id = r.task_id@;
    let label = month_label(r.start_time);
    let name = log_file_name_spec(r);
    let ext = seq!['.', 'l', 'o', 'g'];
    let w = id + seq!['_'] + label;
    assert(name == w + ext);
    assert(name.take(id.len() as int + 1) =~= id.push('_'));
    assert(name.skip(name.len() - 4) =~= ".log"@);
    assert(name.take(name.len() - 4) =~= w);
    let y = civil_year(r.start_time.day_ce());
    if id.len() > 0 && label.len() == 7 {
        lemma_year_text(y);
        lemma_zero_padded(civil_month(r.start_time.day_ce()) as nat, 2);
        lemma_stamp_concat(year_text(y), seq!['-']);
        assert(stamp_chars(seq!['-'])) by {
            assert forall|i: int| 0 <= i < seq!['-'].len() implies #[trigger] stamp_char(seq!['-'][i]) by {}
        }
        lemma_stamp_concat(year_text(y) + seq!['-'], zero_padded(civil_month(r.start_time.day_ce()) as nat, 2));
        let u = seq!['_'] + label;
        assert(stamp_chars(label));
        lemma_bytes_len_stamp(label);
        assert(bytes_len(seq!['_']) == 1) by {
            let one = seq!['_'];
            assert(one.drop_last() =~= Seq::<char>::empty());
            assert(one.last() == '_');
            assert(utf8_len('_') == 1);
            assert(bytes_len(one) == bytes_len(one.drop_last()) + utf8_len(one.last()));
        }
        lemma_bytes_len_concat(seq!['_'], label);
        lemma_bytes_len_concat(id, u);
        assert(w =~= id + u);
        let j = id.len() as int;
        assert(w.take(j) =~= id);
        assert(w[j] == '_');
        lemma_bytes_len_increasing(w, 0, j);
        assert(w.take(0) =~= Seq::<char>::empty());
        assert forall|k: int| 0 <= k < j implies bytes_len(w.take(k)) < bytes_len(w) - 8 by {
            lemma_bytes_len_increasing(w, k, j);
        }
        lemma_known_id_at(name, w, j);
    }
}

/// The log files of a task are files of the listing whose names are those
/// of its log files, and each such file is one of them.
proof fn lemma_task_logs_members(id: Seq<char>, files: Seq<LogFileModel>)
    ensures
        forall|x: LogFileModel| #[trigger] task_logs(id, files).contains(x) ==> exists|j: int|
            0 <= j < files.len() && files[j] == x && is_task_log(id, files[j].name),
        forall|j: int| 0 <= j < files.len() && is_task_log(id, files[j].name) ==> task_logs(
            id,
            files,
        ).contains(#[trigger] files[j]),
    decreases files.len(),
{
    if files.len() > 0 {
        let rest = files.drop_last();
        lemma_task_logs_members(id, rest);
        let t = task_logs(id, files);
        let tr = task_logs(id, rest);
        assert forall|x: LogFileModel| #[trigger] t.contains(x) implies exists|j: int|
            0 <= j < files.len() && files[j] == x && is_task_log(id, files[j].name) by {
            let k = choose|k: int| 0 <= k < t.len() && t[k] == x;
            if k < tr.len() && (t == tr || t == tr.push(files.last())) {
                assert(t[k] == tr[k]);
                assert(tr.contains(x));
                let j = choose|j: int| 0 <= j < rest.len() && rest[j] == x && is_task_log(id, rest[j].name);
                assert(files[j] == rest[j]);
            } else {
                assert(files[files.len() - 1] == files.last());
            }
        }
        assert forall|j: int| 0 <= j < files.len() && is_task_log(id, files[j].name) implies t.contains(
            #[trigger] files[j],
        ) by {
            if j < rest.len() {
                assert(files[j] == rest[j]);
                assert(tr.contains(rest[j]));
                let k = choose|k: int| 0 <= k < tr.len() && tr[k] == rest[j];
                if t != tr {
                    assert(t[k] == tr[k]);
                }
            } else {
                assert(files[j] == files.last());
                assert(t[t.len() - 1] == files.last());
            }
        }
    }
}

/// Read after write: once a record's line has been appended to its monthly
/// log file (created empty if needed), and that month, written `YYYY-MM`,
/// is the latest one of the task, the last entry of the task's history is
/// the record's entry.
pub proof fn law_save_then_last_execution(
    files: Seq<LogFileModel>,
    i: int,
    before: Seq<char>,
    r: ExecutionRecord,
    h: Seq<LogEntryModel>,
)
    requires
        record_times_wf(r),
        0 <= i < files.len(),
        month_label(r.start_time).len() == 7,
        files[i].name == log_file_name_spec(r),
        files[i].content == before + csv_line(r),
        before.len() == 0 || before.last() == '\n',
        forall|j: int|
            0 <= j < files.len() && j != i && is_task_log(r.task_id@, files[j].name) ==> text_le(
                #[trigger] files[j].name,
                files[i].name,
            ) && files[j].name != files[i].name,
        is_history(r.task_id@, files, h),
    ensures
        h.len() > 0,
        h.last() == record_entry(r),
{
    broadcast use vstd::seq_lib::group_to_multiset_ensures;

    let id = r.task_id@;
    let mine = files[i];
    law_log_file_name_reads_back(r);
    lemma_task_logs_members(id, files);
    let order = choose|order: Seq<LogFileModel>|
        {
            &&& sorted_by_name(order)
            &&& order.to_multiset() == task_logs(id, files).to_multiset()
            &&& h == files_entries(id, order)
        };
    assert(task_logs(id, files).contains(mine));
    assert(order.contains(mine)) by {
        assert(task_logs(id, files).to_multiset().count(mine) > 0);
    }
    let k = choose|k: int| 0 <= k < order.len() && order[k] == mine;
    let last = order.last();
    assert(order[order.len() - 1] == last);
    assert(last == mine) by {
        assert(order.contains(last));
        assert(task_logs(id, files).contains(last)) by {
            assert(order.to_multiset().count(last) > 0);
        }
        let j = choose|j: int| 0 <= j < files.len() && files[j] == last && is_task_log(id, files[j].name);
        if j != i {
            assert(text_le(last.name, mine.name) && last.name != mine.name);
            if k < order.len() - 1 {
                assert(text_le(order[k].name, order[order.len() - 1].name));
            }
            assert(text_le(mine.name, last.name));
            lemma_text_le_antisym(mine.name, last.name);
        }
    }
    law_append_reads_back(before, r);
    let head = files_entries(id, order.drop_last());
    let tail = lines_entries(id, lines_spec(mine.content));
    assert(h == head + tail);
    assert(tail == lines_entries(id, lines_spec(before)).push(record_entry(r)));
    assert((head + tail).last() == tail.last());
}

/// A task with a saved record is among the known tasks of a listing that
/// holds the record's log file (for a non-empty id and a month written
/// `YYYY-MM`).
pub proof fn law_saved_task_is_known(names: Seq<Seq<char>>, r: ExecutionRecord)
    requires
        names.contains(log_file_name_spec(r)),
        r.task_id@.len() > 0,
        month_label(r.start_time).len() == 7,
    ensures
        known_ids(names).contains(r.task_id@),
{
    law_log_file_name_reads_back(r);
    let k = choose|k: int| 0 <= k < names.len() && names[k] == log_file_name_spec(r);
    assert(known_id(names[k]) == Some(r.task_id@));
}

} // verus!
