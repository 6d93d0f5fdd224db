//! Queries over the history: the log files of a task, their lines, and the
//! figures drawn from them.
//!
//! The log files are handed over as a listing of the `logs` directory: the
//! name of each file and its content.
use vstd::prelude::*;
use crate::text::{
    chars_eq, chars_le, chars_of, has_prefix, lemma_insert_multiset, lemma_text_le_total,
    lemma_text_le_trans, lines_chars, lines_spec, parse_int, parse_int_spec, splitn_chars,
    splitn_spec, starts_with_chars, string_of, sub_chars, text_le, trim_char, trim_char_chars,
    trim_chars, trim_end_ms, trim_end_ms_chars, trim_ws, views,
};

verus! {

/// One line of a task's log.
#[derive(Debug, Clone)]
pub struct LogEntry {
    pub task_id: String,
    pub start_time: String,
    pub end_time: String,
    pub status: String,
    /// -1 when the field is not a number.
    pub exit_code: i32,
    /// -1 when the field is not a number.
    pub duration_ms: i64,
    pub message: String,
}

/// Model of a [`LogEntry`].
pub struct LogEntryModel {
    pub task_id: Seq<char>,
    pub start_time: Seq<char>,
    pub end_time: Seq<char>,
    pub status: Seq<char>,
    pub exit_code: int,
    pub duration_ms: int,
    pub message: Seq<char>,
}

impl View for LogEntry {
    type V = LogEntryModel;

    open spec fn view(&self) -> LogEntryModel {
        LogEntryModel {
            task_id: self.task_id@,
            start_time: self.start_time@,
            end_time: self.end_time@,
            status: self.status@,
            exit_code: self.exit_code as int,
            duration_ms: self.duration_ms as int,
            message: self.message@,
        }
    }
}

/// A file of the logs directory: its name and its content.
#[derive(Debug, Clone)]
pub struct LogFile {
    pub name: String,
    pub content: String,
}

/// Model of a [`LogFile`].
pub struct LogFileModel {
    pub name: Seq<char>,
    pub content: Seq<char>,
}

impl View for LogFile {
    type V = LogFileModel;

    open spec fn view(&self) -> LogFileModel {
        LogFileModel { name: self.name@, content: self.content@ }
    }
}

pub open spec fn file_views(s: Seq<LogFile>) -> Seq<LogFileModel> {
    Seq::new(s.len(), |i: int| s[i]@)
}

pub open spec fn entry_views(s: Seq<LogEntry>) -> Seq<LogEntryModel> {
    Seq::new(s.len(), |i: int| s[i]@)
}

/// A number field, or -1 when it is not one.
pub open spec fn or_minus_one(v: Option<int>) -> int {
    match v {
        Some(x) => x,
        None => -1,
    }
}

/// A log line `start,end,status,exit_code,<duration>ms,"message"` of task
/// `task_id`: at least six comma-separated fields, the last one holding the
/// rest of the line; the message is trimmed of whitespace, then of quotes.
pub open spec fn parse_line_spec(task_id: Seq<char>, line: Seq<char>) -> Option<LogEntryModel> {
    let parts = splitn_spec(line, 6, ',');
    if parts.len() < 6 {
        None
    } else {
        Some(
            LogEntryModel {
                task_id,
                start_time: parts[0],
                end_time: parts[1],
                status: parts[2],
                exit_code: or_minus_one(parse_int_spec(parts[3], i32::MIN as int, i32::MAX as int)),
                duration_ms: or_minus_one(
                    parse_int_spec(trim_end_ms(parts[4]), i64::MIN as int, i64::MAX as int),
                ),
                message: trim_char(trim_ws(parts[5]), '"'),
            },
        )
    }
}

fn parse_line_chars(task_id: &str, line: &Vec<char>) -> (r: Option<LogEntry>)
    ensures
        match parse_line_spec(task_id@, line@) {
            Some(m) => r matches Some(e) && e@ == m,
            None => r is None,
        },
{
    let parts = splitn_chars(line, 6, ',');
    if parts.len() < 6 {
        return None;
    }
    let ghost p = splitn_spec(line@, 6, ',');
    assert(parts@[3]@ == p[3] && parts@[4]@ == p[4] && parts@[5]@ == p[5]);
    assert(parts@[0]@ == p[0] && parts@[1]@ == p[1] && parts@[2]@ == p[2]);
    let duration_ms: i64 = match parse_int(&trim_end_ms_chars(&parts[4]), i64::MIN, i64::MAX) {
        Some(v) => v,
        None => -1,
    };
    let message = string_of(&trim_char_chars(&trim_chars(&parts[5]), '"'));
    let exit_code: i32 = match parse_int(&parts[3], i32::MIN as i64, i32::MAX as i64) {
        Some(v) => v as i32,
        None => -1,
    };
    Some(
        LogEntry {
            task_id: string_of(&chars_of(task_id)),
            start_time: string_of(&parts[0]),
            end_time: string_of(&parts[1]),
            status: string_of(&parts[2]),
            exit_code,
            duration_ms,
            message,
        },
    )
}

/// Reads one log line of task `task_id`; `None` for a line with fewer than
/// six fields.
pub fn parse_line(task_id: &str, line: &str) -> (r: Option<LogEntry>)
    ensures
        match parse_line_spec(task_id@, line@) {
            Some(m) => r matches Some(e) && e@ == m,
            None => r is None,
        },
{
    parse_line_chars(task_id, &chars_of(line))
}

/// The entries of the non-empty lines that parse, in order.
pub open spec fn lines_entries(task_id: Seq<char>, lines: Seq<Seq<char>>) -> Seq<LogEntryModel>
    decreases lines.len(),
{
    if lines.len() == 0 {
        Seq::empty()
    } else {
        let r = lines_entries(task_id, lines.drop_last());
        let l = lines.last();
        if l.len() == 0 {
            r
        } else {
            match parse_line_spec(task_id, l) {
                Some(e) => r.push(e),
                None => r,
            }
        }
    }
}

/// The entries of the files, file after file.
pub open spec fn files_entries(task_id: Seq<char>, files: Seq<LogFileModel>) -> Seq<LogEntryModel>
    decreases files.len(),
{
    if files.len() == 0 {
        Seq::empty()
    } else {
        files_entries(task_id, files.drop_last()) + lines_entries(
            task_id,
            lines_spec(files.last().content),
        )
    }
}

/// A log file of task `task_id`: named `{task_id}_{YYYY-MM}.log`, that is
/// the id, `_`, a month of 7 characters and `.log`.
pub open spec fn is_task_log(task_id: Seq<char>, name: Seq<char>) -> bool {
    &&& has_prefix(name, task_id.push('_'))
    &&& name.len() == task_id.len() + 12
    &&& name.skip(name.len() - 4) == ".log"@
}

/// The log files of task `task_id`, in listing order.
pub open spec fn task_logs(task_id: Seq<char>, files: Seq<LogFileModel>) -> Seq<LogFileModel>
    decreases files.len(),
{
    if files.len() == 0 {
        Seq::empty()
    } else if is_task_log(task_id, files.last().name) {
        task_logs(task_id, files.drop_last()).push(files.last())
    } else {
        task_logs(task_id, files.drop_last())
    }
}

pub open spec fn sorted_by_name(files: Seq<LogFileModel>) -> bool {
    forall|i: int, j: int| 0 <= i < j < files.len() ==> text_le(files[i].name, files[j].name)
}

/// `entries` is the history of task `task_id` in the listing `files`: the
/// entries of its log files taken in order of their names (month order for
/// names `{task_id}_{YYYY-MM}.log`).
pub open spec fn is_history(task_id: Seq<char>, files: Seq<LogFileModel>, entries: Seq<LogEntryModel>) -> bool {
    exists|order: Seq<LogFileModel>|
        {
            &&& sorted_by_name(order)
            &&& order.to_multiset() == task_logs(task_id, files).to_multiset()
            &&& entries == files_entries(task_id, order)
        }
}

fn is_task_log_name(prefix: &Vec<char>, name: &Vec<char>) -> (b: bool)
    ensures
        b == (has_prefix(name@, prefix@) && name@.len() == prefix@.len() + 11 && name@.skip(
            name@.len() - 4,
        ) == ".log"@),
{
    if !starts_with_chars(name, prefix) {
        return false;
    }
    if name.len() - prefix.len() != 11 {
        return false;
    }
    let tail = sub_chars(name, name.len() - 4, name.len());
    assert(tail@ =~= name@.skip(name@.len() - 4));
    chars_eq(&tail, &chars_of(".log"))
}

/// Inserts a file after those whose names are not greater.
fn insert_by_name<'a>(sorted: &mut Vec<&'a LogFile>, f: &'a LogFile)
    requires
        sorted_by_name(file_views(deref_files(old(sorted)@))),
    ensures
        sorted_by_name(file_views(deref_files(final(sorted)@))),
        file_views(deref_files(final(sorted)@)).to_multiset() == file_views(
            deref_files(old(sorted)@),
        ).to_multiset().insert(f@),
{
    let name = chars_of(f.name.as_str());
    let ghost s = file_views(deref_files(sorted@));
    let mut p: usize = 0;
    let mut stop = false;
    while !stop && p < sorted.len()
        invariant
            p <= sorted@.len(),
            sorted@ == old(sorted)@,
            s == file_views(deref_files(sorted@)),
            name@ == f.name@,
            sorted_by_name(s),
            forall|k: int| 0 <= k < p ==> text_le(#[trigger] s[k].name, name@),
            stop ==> p < sorted@.len() && !text_le(s[p as int].name, name@),
        decreases sorted@.len() - p + (if stop { 0int } else { 1int }),
    {
        let other = chars_of(sorted[p].name.as_str());
        assert(other@ == s[p as int].name);
        if chars_le(&other, &name) {
            p = p + 1;
        } else {
            stop = true;
        }
    }
    proof {
        assert forall|k: int| p <= k < s.len() implies text_le(name@, #[trigger] s[k].name) by {
            lemma_text_le_total(s[p as int].name, name@);
            if k > p {
                lemma_text_le_trans(name@, s[p as int].name, s[k].name);
            }
        }
    }
    sorted.insert(p, f);
    proof {
        let t = file_views(deref_files(sorted@));
        assert(t =~= s.insert(p as int, f@));
        lemma_insert_multiset(s, p as int, f@);
        assert forall|i: int, j: int| 0 <= i < j < t.len() implies text_le(t[i].name, t[j].name) by {
            if j == p {
                assert(t[i] == s[i]);
            } else if i == p {
                assert(t[j] == s[j - 1]);
            } else {
                let bi = if i < p { i } else { i - 1 };
                let bj = if j < p { j } else { j - 1 };
                assert(t[i] == s[bi]);
                assert(t[j] == s[bj]);
            }
        }
    }
}

/// Files of references.
pub open spec fn deref_files(s: Seq<&LogFile>) -> Seq<LogFile> {
    Seq::new(s.len(), |i: int| *s[i])
}

/// The entries of one file's content.
fn content_entries(task_id: &str, content: &String, out: &mut Vec<LogEntry>)
    ensures
        entry_views(final(out)@) == entry_views(old(out)@) + lines_entries(
            task_id@,
            lines_spec(content@),
        ),
{
    let lines = lines_chars(&chars_of(content.as_str()));
    let ghost ls = lines_spec(content@);
    let ghost start = entry_views(out@);
    let mut i: usize = 0;
    while i < lines.len()
        invariant
            views(lines@) == ls,
            i <= lines@.len(),
            entry_views(out@) == start + lines_entries(task_id@, ls.take(i as int)),
        decreases lines.len() - i,
    {
        assert(ls.take(i + 1).drop_last() =~= ls.take(i as int));
        assert(lines@[i as int]@ == ls[i as int]);
        let line = &lines[i];
        let ghost prev = out@;
        let ghost before = lines_entries(task_id@, ls.take(i as int));
        assert(ls.take(i + 1).last() == line@);
        if line.len() > 0 {
            match parse_line_chars(task_id, line) {
                Some(e) => {
                    out.push(e);
                    assert(lines_entries(task_id@, ls.take(i + 1)) == before.push(e@));
                    assert(entry_views(out@) =~= entry_views(prev).push(e@));
                },
                None => {},
            }
        }
        i = i + 1;
        assert(entry_views(out@) =~= start + lines_entries(task_id@, ls.take(i as int)));
    }
    assert(ls.take(lines.len() as int) =~= ls);
}

/// All entries of task `task_id`: its log files in name order, their
/// non-empty lines that parse, in order.
pub fn read_all_entries(task_id: &str, files: &Vec<LogFile>) -> (entries: Vec<LogEntry>)
    ensures
        is_history(task_id@, file_views(files@), entry_views(entries@)),
{
    let mut prefix = chars_of(task_id);
    prefix.push('_');
    let ghost fs = file_views(files@);
    // the task's log files, sorted by name
    let mut sorted: Vec<&LogFile> = Vec::new();
    let mut i: usize = 0;
    assert(file_views(deref_files(sorted@)) =~= Seq::<LogFileModel>::empty());
    while i < files.len()
        invariant
            i <= files@.len(),
            fs == file_views(files@),
            prefix@ == task_id@.push('_'),
            sorted_by_name(file_views(deref_files(sorted@))),
            file_views(deref_files(sorted@)).to_multiset() == task_logs(task_id@, fs.take(i as int)).to_multiset(),
        decreases files.len() - i,
    {
        assert(fs.take(i + 1).drop_last() =~= fs.take(i as int));
        assert(fs.take(i + 1).last() == files@[i as int]@);
        let name = chars_of(files[i].name.as_str());
        if is_task_log_name(&prefix, &name) {
            insert_by_name(&mut sorted, &files[i]);
            proof {
                vstd::seq_lib::to_multiset_build(task_logs(task_id@, fs.take(i as int)), files@[i as int]@);
            }
        }
        i = i + 1;
    }
    assert(fs.take(files.len() as int) =~= fs);
    // their entries, file after file
    let ghost order = file_views(deref_files(sorted@));
    let mut entries: Vec<LogEntry> = Vec::new();
    let mut k: usize = 0;
    assert(entry_views(entries@) =~= files_entries(task_id@, order.take(0)));
    while k < sorted.len()
        invariant
            k <= sorted@.len(),
            order == file_views(deref_files(sorted@)),
            entry_views(entries@) == files_entries(task_id@, order.take(k as int)),
        decreases sorted.len() - k,
    {
        assert(order.take(k + 1).drop_last() =~= order.take(k as int));
        assert(order[k as int].content == sorted@[k as int].content@);
        content_entries(task_id, &sorted[k].content, &mut entries);
        k = k + 1;
    }
    assert(order.take(sorted.len() as int) =~= order);
    entries
}

/// The last execution of task `task_id`: the last entry of its history.
pub fn last_execution(task_id: &str, files: &Vec<LogFile>) -> (r: Option<LogEntry>)
    ensures
        exists|h: Seq<LogEntryModel>|
            {
                &&& is_history(task_id@, file_views(files@), h)
                &&& match r {
                    Some(e) => h.len() > 0 && e@ == h.last(),
                    None => h.len() == 0,
                }
            },
{
    let mut entries = read_all_entries(task_id, files);
    let ghost h = entry_views(entries@);
    let ghost all = entries@;
    assert(is_history(task_id@, file_views(files@), h));
    let r = entries.pop();
    proof {
        if all.len() > 0 {
            assert(r == Some(all.last()));
            assert(h.last() == all.last()@);
        }
    }
    assert(match r {
        Some(e) => h.len() > 0 && e@ == h.last(),
        None => h.len() == 0,
    });
    r
}

/// Number of executions of task `task_id`: the length of its history.
pub fn total_executions(task_id: &str, files: &Vec<LogFile>) -> (n: usize)
    ensures
        exists|h: Seq<LogEntryModel>| is_history(task_id@, file_views(files@), h) && n == h.len(),
{
    let entries = read_all_entries(task_id, files);
    assert(entry_views(entries@).len() == entries@.len());
    entries.len()
}

/// How many entries have the status `success`.
pub open spec fn count_success(s: Seq<LogEntryModel>) -> nat
    decreases s.len(),
{
    if s.len() == 0 {
        0
    } else {
        count_success(s.drop_last()) + if s.last().status == "success"@ {
            1nat
        } else {
            0nat
        }
    }
}

/// The last `last_n` entries; all of them when `last_n` is 0 or not
/// smaller than their number.
pub open spec fn recent(h: Seq<LogEntryModel>, last_n: int) -> Seq<LogEntryModel> {
    if last_n == 0 || last_n >= h.len() {
        h
    } else {
        h.skip(h.len() - last_n)
    }
}

/// Successes and runs among the last `last_n` executions of task
/// `task_id` (all of them when `last_n` is 0); the success rate is their
/// quotient, 0 when there is no run.
pub fn success_counts(task_id: &str, files: &Vec<LogFile>, last_n: usize) -> (r: (usize, usize))
    ensures
        exists|h: Seq<LogEntryModel>|
            {
                &&& is_history(task_id@, file_views(files@), h)
                &&& r.0 == count_success(recent(h, last_n as int))
                &&& r.1 == recent(h, last_n as int).len()
            },
{
    let entries = read_all_entries(task_id, files);
    let ghost h = entry_views(entries@);
    let n = entries.len();
    let from: usize = if last_n == 0 || last_n >= n { 0 } else { n - last_n };
    let ghost w = recent(h, last_n as int);
    assert(w =~= h.skip(from as int));
    let success = chars_of("success");
    let mut ok: usize = 0;
    let mut i: usize = from;
    assert(h.skip(from as int).take(0) =~= Seq::<LogEntryModel>::empty());
    while i < n
        invariant
            from <= i <= n,
            n == entries@.len(),
            h == entry_views(entries@),
            success@ == "success"@,
            ok == count_success(h.skip(from as int).take(i - from)),
            ok <= i - from,
        decreases n - i,
    {
        let ghost part = h.skip(from as int).take(i + 1 - from);
        assert(part.drop_last() =~= h.skip(from as int).take(i - from));
        assert(part.last() == entries@[i as int]@);
        let status = chars_of(entries[i].status.as_str());
        if chars_eq(&status, &success) {
            ok = ok + 1;
        }
        i = i + 1;
    }
    assert(h.skip(from as int).take(n - from) =~= h.skip(from as int));
    (ok, n - from)
}

// ---------------------------------------------------------------------------
// Task ids found in log file names
// ---------------------------------------------------------------------------

/// Length of the UTF-8 encoding of a character.
pub open spec fn utf8_len(c: char) -> int {
    if c >= '\u{10000}' {
        4
    } else if c >= '\u{800}' {
        3
    } else if c >= '\u{80}' {
        2
    } else {
        1
    }
}

/// Length of the UTF-8 encoding of a text.
pub open spec fn bytes_len(s: Seq<char>) -> int
    decreases s.len(),
{
    if s.len() == 0 {
        0
    } else {
        bytes_len(s.drop_last()) + utf8_len(s.last())
    }
}

/// The task id in a log file name `{task_id}_{YYYY-MM}.log`: the name
/// without `.log` must be longer than 8 bytes, and its 8th byte from the
/// end must be `_`; the id is what precedes that `_`.
pub open spec fn known_id(name: Seq<char>) -> Option<Seq<char>> {
    if name.len() >= 4 && name.skip(name.len() - 4) == ".log"@ {
        let w = name.take(name.len() - 4);
        let total = bytes_len(w);
        if total > 8 && exists|i: int| 0 <= i < w.len() && bytes_len(w.take(i)) == total - 8 && w[i] == '_' {
            let i = choose|i: int| 0 <= i < w.len() && bytes_len(w.take(i)) == total - 8 && w[i] == '_';
            Some(w.take(i))
        } else {
            None
        }
    } else {
        None
    }
}

/// The task ids found in the names.
pub open spec fn known_ids(names: Seq<Seq<char>>) -> Set<Seq<char>> {
    Set::new(|id: Seq<char>| exists|k: int| 0 <= k < names.len() && known_id(names[k]) == Some(id))
}

/// Ordered, each once.
pub open spec fn strictly_sorted(s: Seq<Seq<char>>) -> bool {
    forall|i: int, j: int| 0 <= i < j < s.len() ==> text_le(s[i], s[j]) && s[i] != s[j]
}

proof fn lemma_strictly_sorted_at(s: Seq<Seq<char>>, i: int, j: int)
    requires
        strictly_sorted(s),
        0 <= i < j < s.len(),
    ensures
        text_le(s[i], s[j]),
        s[i] != s[j],
{
    assert(text_le(s[i], s[j]));
}

pub proof fn lemma_bytes_len_step(w: Seq<char>, i: int)
    requires
        0 <= i < w.len(),
    ensures
        bytes_len(w.take(i + 1)) == bytes_len(w.take(i)) + utf8_len(w[i]),
        utf8_len(w[i]) >= 1,
{
    assert(w.take(i + 1).drop_last() =~= w.take(i));
}

pub proof fn lemma_bytes_len_increasing(w: Seq<char>, i: int, j: int)
    requires
        0 <= i < j <= w.len(),
    ensures
        bytes_len(w.take(i)) < bytes_len(w.take(j)),
    decreases j - i,
{
    lemma_bytes_len_step(w, j - 1);
    if i < j - 1 {
        lemma_bytes_len_increasing(w, i, j - 1);
    }
}

fn utf8_width(c: char) -> (n: u128)
    ensures
        n == utf8_len(c),
{
    if c >= '\u{10000}' {
        4
    } else if c >= '\u{800}' {
        3
    } else if c >= '\u{80}' {
        2
    } else {
        1
    }
}

/// Byte length of the UTF-8 encoding of `s[..m]`.
fn bytes_len_of(s: &Vec<char>, m: usize) -> (total: u128)
    requires
        m <= s.len(),
    ensures
        total == bytes_len(s@.take(m as int)),
        total <= 4 * m,
{
    let mut total: u128 = 0;
    let mut i: usize = 0;
    assert(s@.take(0) =~= Seq::<char>::empty());
    while i < m
        invariant
            i <= m <= s.len(),
            total == bytes_len(s@.take(i as int)),
            total <= 4 * i,
        decreases m - i,
    {
        proof {
            lemma_bytes_len_step(s@.take(m as int), i as int);
            assert(s@.take(m as int).take(i as int) =~= s@.take(i as int));
            assert(s@.take(m as int).take(i + 1) =~= s@.take(i + 1));
        }
        total = total + utf8_width(s[i]);
        i = i + 1;
    }
    total
}

/// The first position `j <= m` whose prefix `s[..j]` is at least `target`
/// bytes long (`m` when there is none).
fn position_at_byte(s: &Vec<char>, m: usize, target: u128) -> (j: usize)
    requires
        m <= s.len(),
    ensures
        j <= m,
        forall|k: int| 0 <= k < j ==> bytes_len(s@.take(m as int).take(k)) < target,
        j < m ==> bytes_len(s@.take(m as int).take(j as int)) >= target,
{
    let ghost w = s@.take(m as int);
    let mut acc: u128 = 0;
    let mut j: usize = 0;
    assert(w.take(0) =~= Seq::<char>::empty());
    while j < m && acc < target
        invariant
            j <= m <= s.len(),
            w == s@.take(m as int),
            acc == bytes_len(w.take(j as int)),
            acc <= 4 * j,
            forall|k: int| 0 <= k < j ==> bytes_len(w.take(k)) < target,
        decreases m - j,
    {
        proof {
            lemma_bytes_len_step(w, j as int);
        }
        acc = acc + utf8_width(s[j]);
        j = j + 1;
    }
    j
}

/// `known_id` of a name whose extension is removed: `w` is the name
/// without `.log`, and `j` the first position at or past byte
/// `bytes_len(w) - 8`.
pub proof fn lemma_known_id_at(name: Seq<char>, w: Seq<char>, j: int)
    requires
        name.len() >= 4,
        name.skip(name.len() - 4) == ".log"@,
        w == name.take(name.len() - 4),
        bytes_len(w) > 8,
        0 <= j <= w.len(),
        forall|k: int| 0 <= k < j ==> bytes_len(w.take(k)) < bytes_len(w) - 8,
        j < w.len() ==> bytes_len(w.take(j)) >= bytes_len(w) - 8,
    ensures
        (j < w.len() && bytes_len(w.take(j)) == bytes_len(w) - 8 && w[j] == '_') ==> known_id(name) == Some(w.take(j)),
        !(j < w.len() && bytes_len(w.take(j)) == bytes_len(w) - 8 && w[j] == '_') ==> known_id(name) is None,
{
    let total = bytes_len(w);
    if exists|c: int| 0 <= c < w.len() && bytes_len(w.take(c)) == total - 8 && w[c] == '_' {
        let c = choose|c: int| 0 <= c < w.len() && bytes_len(w.take(c)) == total - 8 && w[c] == '_';
        if c < j {
        } else if c > j {
            if j < w.len() {
                lemma_bytes_len_increasing(w, j, c);
            }
        }
    }
}

/// The task id in a log file name (see [`known_id`]).
fn known_id_of(name: &Vec<char>) -> (r: Option<Vec<char>>)
    ensures
        match known_id(name@) {
            Some(id) => r matches Some(v) && v@ == id,
            None => r is None,
        },
{
    let n = name.len();
    if n < 4 {
        return None;
    }
    let tail = sub_chars(name, n - 4, n);
    assert(tail@ =~= name@.skip(name@.len() - 4));
    if !chars_eq(&tail, &chars_of(".log")) {
        return None;
    }
    let m = n - 4;
    let ghost w = name@.take(m as int);
    let total = bytes_len_of(name, m);
    if total <= 8 {
        return None;
    }
    let j = position_at_byte(name, m, total - 8);
    proof {
        lemma_known_id_at(name@, w, j as int);
    }
    if j < m && bytes_len_of(name, j) == total - 8 && name[j] == '_' {
        assert(name@.take(j as int) =~= w.take(j as int));
        let id = sub_chars(name, 0, j);
        assert(id@ =~= w.take(j as int));
        Some(id)
    } else {
        proof {
            if j < m {
                assert(name@.take(j as int) =~= w.take(j as int));
            }
        }
        None
    }
}

/// Inserts `id` into an ordered sequence without repetition, unless there.
fn insert_unique_sorted(ids: &mut Vec<Vec<char>>, id: Vec<char>)
    requires
        strictly_sorted(views(old(ids)@)),
    ensures
        strictly_sorted(views(final(ids)@)),
        views(final(ids)@).to_set() == views(old(ids)@).to_set().insert(id@),
{
    let ghost s = views(ids@);
    let mut p: usize = 0;
    let mut stop = false;
    while !stop && p < ids.len()
        invariant
            p <= ids@.len(),
            ids@ == old(ids)@,
            s == views(ids@),
            strictly_sorted(s),
            forall|k: int| 0 <= k < p ==> text_le(#[trigger] s[k], id@) && s[k] != id@,
            stop ==> p < ids@.len() && text_le(id@, s[p as int]) && s[p as int] != id@,
        decreases ids@.len() - p + (if stop { 0int } else { 1int }),
    {
        assert(ids@[p as int]@ == s[p as int]);
        if chars_eq(&ids[p], &id) {
            assert(s.to_set().insert(id@) =~= s.to_set());
            return;
        }
        if chars_le(&ids[p], &id) {
            p = p + 1;
        } else {
            proof {
                lemma_text_le_total(s[p as int], id@);
            }
            stop = true;
        }
    }
    proof {
        assert forall|k: int| p <= k < s.len() implies text_le(id@, #[trigger] s[k]) && s[k] != id@ by {
            if k > p {
                lemma_text_le_trans(id@, s[p as int], s[k]);
                if s[k] == id@ {
                    crate::text::lemma_text_le_antisym(s[p as int], s[k]);
                }
            }
        }
    }
    let ghost idv = id@;
    assert(forall|k: int| 0 <= k < p ==> text_le(#[trigger] s[k], idv) && s[k] != idv);
    assert(forall|k: int| p <= k < s.len() ==> text_le(idv, #[trigger] s[k]) && s[k] != idv);
    ids.insert(p, id);
    proof {
        let t = views(ids@);
        assert(t =~= s.insert(p as int, idv));
        assert forall|i: int, j: int| 0 <= i < j < t.len() implies text_le(t[i], t[j]) && t[i] != t[j] by {
            if j == p {
                assert(t[i] == s[i]);
                assert(text_le(s[i], idv) && s[i] != idv);
            } else if i == p {
                assert(t[j] == s[j - 1]);
                assert(text_le(idv, s[j - 1]) && s[j - 1] != idv);
            } else {
                let bi = if i < p { i } else { i - 1 };
                let bj = if j < p { j } else { j - 1 };
                assert(t[i] == s[bi]);
                assert(t[j] == s[bj]);
                lemma_strictly_sorted_at(s, bi, bj);
            }
        }
        assert forall|x: Seq<char>| t.to_set().contains(x) == s.to_set().insert(idv).contains(x) by {
            if t.contains(x) {
                let k = choose|k: int| 0 <= k < t.len() && t[k] == x;
                if k < p {
                    assert(s[k] == x);
                } else if k > p {
                    assert(s[k - 1] == x);
                }
            }
            if s.contains(x) {
                let k = choose|k: int| 0 <= k < s.len() && s[k] == x;
                if k < p {
                    assert(t[k] == x);
                } else {
                    assert(t[k + 1] == x);
                }
            }
            if x == idv {
                assert(t[p as int] == x);
            }
        }
        assert(t.to_set() =~= s.to_set().insert(idv));
    }
}

/// The task ids that have log files, in order, each once (`names` are the
/// names of the files of the logs directory).
pub fn list_known_tasks(names: &Vec<String>) -> (r: Vec<String>)
    ensures
        strictly_sorted(Seq::new(r@.len(), |i: int| r@[i]@)),
        Seq::new(r@.len(), |i: int| r@[i]@).to_set() == known_ids(Seq::new(names@.len(), |i: int| names@[i]@)),
{
    let ghost ns = Seq::new(names@.len(), |i: int| names@[i]@);
    let mut ids: Vec<Vec<char>> = Vec::new();
    let mut i: usize = 0;
    assert(views(ids@).to_set() =~= Set::<Seq<char>>::empty());
    while i < names.len()
        invariant
            i <= names@.len(),
            ns == Seq::new(names@.len(), |i: int| names@[i]@),
            strictly_sorted(views(ids@)),
            views(ids@).to_set() == Set::new(|id: Seq<char>| exists|k: int| 0 <= k < i && known_id(ns[k]) == Some(id)),
        decreases names.len() - i,
    {
        let name = chars_of(names[i].as_str());
        assert(name@ == ns[i as int]);
        let ghost before = views(ids@).to_set();
        match known_id_of(&name) {
            Some(id) => {
                insert_unique_sorted(&mut ids, id);
            },
            None => {},
        }
        i = i + 1;
        proof {
            assert(views(ids@).to_set() =~= Set::new(|id: Seq<char>| exists|k: int| 0 <= k < i && known_id(ns[k]) == Some(id))) by {
                assert forall|x: Seq<char>| views(ids@).to_set().contains(x) implies exists|k: int| 0 <= k < i && known_id(ns[k]) == Some(x) by {
                    if !before.contains(x) {
                        assert(known_id(ns[i - 1]) == Some(x));
                    }
                }
                assert forall|x: Seq<char>| (exists|k: int| 0 <= k < i && known_id(ns[k]) == Some(x)) implies views(ids@).to_set().contains(x) by {
                    let k = choose|k: int| 0 <= k < i && known_id(ns[k]) == Some(x);
                    if k < i - 1 {
                        assert(before.contains(x));
                    }
                }
            }
        }
    }
    assert(Set::new(|id: Seq<char>| exists|k: int| 0 <= k < names@.len() && known_id(ns[k]) == Some(id)) =~= known_ids(ns));
    let mut r: Vec<String> = Vec::new();
    let mut k: usize = 0;
    while k < ids.len()
        invariant
            k <= ids@.len(),
            r@.len() == k,
            forall|j: int| 0 <= j < k ==> (#[trigger] r@[j])@ == ids@[j]@,
        decreases ids.len() - k,
    {
        r.push(string_of(&ids[k]));
        k = k + 1;
    }
    assert(Seq::new(r@.len(), |i: int| r@[i]@) =~= views(ids@));
    r
}

} // verus!
