//! The task table of the program's `list` command and the summary that the
//! daemon prints when it starts: tasks in id order with their next run.
use vstd::prelude::*;
use crate::clock::{civil_day, civil_month, civil_year, UtcTime};
use crate::history::store::{push_int, year_text, zero_padded};
use crate::parser::schedule::{next_occurrence, next_spec, occurrence_defined, occurrence_in_range};
use crate::registry::registry::{count_enabled, derefs, TaskRegistry};
use crate::text::{
    chars_le, chars_of, decimal, int_text, lemma_insert_multiset, lemma_text_le_total,
    lemma_text_le_trans, pad_right, push_decimal, push_padded, push_str, string_of, text_le,
    trim_chars, trim_ws,
};
use crate::types::{schedule_text, ExecutionRecord, Task};

verus! {

// ---------------------------------------------------------------------------
// Dates as the table writes them
// ---------------------------------------------------------------------------

/// `%Y-%m-%d %H:%M:%S UTC` of an instant.
pub open spec fn datetime_text(t: UtcTime) -> Seq<char> {
    let d = t.day_ce();
    year_text(civil_year(d)) + seq!['-'] + zero_padded(civil_month(d) as nat, 2) + seq!['-']
        + zero_padded(civil_day(d) as nat, 2) + seq![' '] + zero_padded(t.spec_hour() as nat, 2)
        + seq![':'] + zero_padded(t.spec_minute() as nat, 2) + seq![':'] + zero_padded(
        (t.secs_of_day() % 60) as nat,
        2,
    ) + seq![' ', 'U', 'T', 'C']
}

/// `DateTime::format("%Y-%m-%d %H:%M:%S UTC")` of the instant `t`, written
/// out. Claimed, from `chrono`'s `format/formatting.rs`: the year as
/// [`year_text`] gives it, then month, day, hours, minutes and seconds in
/// two digits each, and ` UTC`.
#[verifier::external_body]
fn format_datetime(t: &UtcTime) -> (r: String)
    requires
        t.wf(),
    ensures
        r@ == datetime_text(*t),
{
    let dt = chrono::DateTime::from_timestamp(t.secs, t.nanos).expect("instant in range");
    dt.format("%Y-%m-%d %H:%M:%S UTC").to_string()
}

// ---------------------------------------------------------------------------
// Tasks in id order
// ---------------------------------------------------------------------------

/// Ordered by id.
pub open spec fn sorted_by_id(s: Seq<Task>) -> bool {
    forall|i: int, j: int| 0 <= i < j < s.len() ==> text_le(s[i].id@, s[j].id@)
}

/// Inserts a task after those whose ids are not greater.
fn insert_by_id<'a>(sorted: &mut Vec<&'a Task>, t: &'a Task)
    requires
        sorted_by_id(derefs(old(sorted)@)),
    ensures
        sorted_by_id(derefs(final(sorted)@)),
        derefs(final(sorted)@).to_multiset() == derefs(old(sorted)@).to_multiset().insert(*t),
{
    let id = chars_of(t.id.as_str());
    let ghost s = derefs(sorted@);
    let mut p: usize = 0;
    let mut stop = false;
    while !stop && p < sorted.len()
        invariant
            p <= sorted@.len(),
            sorted@ == old(sorted)@,
            s == derefs(sorted@),
            id@ == t.id@,
            sorted_by_id(s),
            forall|k: int| 0 <= k < p ==> text_le(#[trigger] s[k].id@, id@),
            stop ==> p < sorted@.len() && !text_le(s[p as int].id@, id@),
        decreases sorted@.len() - p + (if stop { 0int } else { 1int }),
    {
        let other = chars_of(sorted[p].id.as_str());
        assert(other@ == s[p as int].id@);
        if chars_le(&other, &id) {
            p = p + 1;
        } else {
            stop = true;
        }
    }
    proof {
        assert forall|k: int| p <= k < s.len() implies text_le(id@, #[trigger] s[k].id@) by {
            lemma_text_le_total(s[p as int].id@, id@);
            if k > p {
                lemma_text_le_trans(id@, s[p as int].id@, s[k].id@);
            }
        }
    }
    sorted.insert(p, t);
    proof {
        let u = derefs(sorted@);
        assert(u =~= s.insert(p as int, *t));
        lemma_insert_multiset(s, p as int, *t);
        assert forall|i: int, j: int| 0 <= i < j < u.len() implies text_le(u[i].id@, u[j].id@) by {
            if j == p {
                assert(u[i] == s[i]);
            } else if i == p {
                assert(u[j] == s[j - 1]);
            } else {
                let bi = if i < p { i } else { i - 1 };
                let bj = if j < p { j } else { j - 1 };
                assert(u[i] == s[bi]);
                assert(u[j] == s[bj]);
            }
        }
    }
}

/// The tasks of the registry in id order.
fn tasks_by_id(registry: &TaskRegistry) -> (r: Vec<&Task>)
    requires
        registry.wf(),
    ensures
        sorted_by_id(derefs(r@)),
        derefs(r@).to_multiset() == registry.entries().to_multiset(),
{
    broadcast use vstd::seq_lib::group_to_multiset_ensures;

    let all = registry.all_tasks();
    let mut r: Vec<&Task> = Vec::new();
    let mut i: usize = 0;
    assert(derefs(r@) =~= Seq::<Task>::empty());
    while i < all.len()
        invariant
            i <= all@.len(),
            derefs(all@) == registry.entries(),
            sorted_by_id(derefs(r@)),
            derefs(r@).to_multiset() == registry.entries().take(i as int).to_multiset(),
        decreases all.len() - i,
    {
        let t: &Task = all[i];
        assert(*t == registry.entries()[i as int]);
        assert(registry.entries().take(i + 1) =~= registry.entries().take(i as int).push(*t));
        insert_by_id(&mut r, t);
        proof {
            vstd::seq_lib::to_multiset_build(registry.entries().take(i as int), *t);
        }
        i = i + 1;
    }
    assert(registry.entries().take(all.len() as int) =~= registry.entries());
    r
}

// ---------------------------------------------------------------------------
// The table of `list`
// ---------------------------------------------------------------------------

/// The next run of a task as the table shows it: its date, or `—` when the
/// task is disabled, has no next run, or its next run cannot be computed.
pub open spec fn next_text_spec(t: Task, from: UtcTime) -> Seq<char> {
    if t.enabled && occurrence_defined(t.schedule@, from) && next_spec(t.schedule@, from) is Some {
        datetime_text(next_spec(t.schedule@, from)->0)
    } else {
        "—"@
    }
}

pub open spec fn table_columns(
    a: Seq<char>,
    b: Seq<char>,
    c: Seq<char>,
    d: Seq<char>,
    e: Seq<char>,
    fill: char,
) -> Seq<char> {
    pad_right(a, 20, fill) + " | "@ + pad_right(b, 25, fill) + " | "@ + pad_right(c, 22, fill) + " | "@
        + pad_right(d, 30, fill) + " | "@ + pad_right(e, 8, fill)
}

/// The header, after an empty line.
pub open spec fn table_header() -> Seq<char> {
    "\n"@ + table_columns("ID"@, "Nom"@, "Planification"@, "Prochaine exécution"@, "État"@, ' ')
}

pub open spec fn table_rule() -> Seq<char> {
    pad_right(Seq::empty(), 20, '-') + "-+-"@ + pad_right(Seq::empty(), 25, '-') + "-+-"@ + pad_right(
        Seq::empty(),
        22,
        '-',
    ) + "-+-"@ + pad_right(Seq::empty(), 30, '-') + "-+-"@ + pad_right(Seq::empty(), 8, '-')
}

pub open spec fn state_mark(enabled: bool) -> Seq<char> {
    if enabled {
        "✓ actif"@
    } else {
        "✗ inactif"@
    }
}

/// The row of a task whose next run is shown as `next`.
pub open spec fn main_list_row(t: Task, next: Seq<char>) -> Seq<char> {
    table_columns(t.id@, t.name@, schedule_text(t.schedule@), next, state_mark(t.enabled), ' ')
}

/// `\n{total} tâche(s) — {active} active(s)\n`
pub open spec fn table_footer(total: nat, active: nat) -> Seq<char> {
    "\n"@ + decimal(total) + " tâche(s) — "@ + decimal(active) + " active(s)\n"@
}

/// The next run of a task as the table shows it.
fn next_run_text(t: &Task, from: &UtcTime) -> (s: String)
    requires
        from.wf(),
    ensures
        s@ == next_text_spec(*t, *from),
{
    if t.enabled && occurrence_in_range(&t.schedule, from) {
        match next_occurrence(&t.schedule, *from) {
            Some(n) => format_datetime(&n),
            None => "—".to_owned(),
        }
    } else {
        "—".to_owned()
    }
}

fn table_row(t: &Task, next: &str) -> (row: String)
    ensures
        row@ == main_list_row(*t, next@),
{
    let mut out: Vec<char> = Vec::new();
    push_padded(&mut out, t.id.as_str(), 20, ' ');
    push_str(&mut out, " | ");
    push_padded(&mut out, t.name.as_str(), 25, ' ');
    push_str(&mut out, " | ");
    let schedule = t.schedule.to_string();
    push_padded(&mut out, schedule.as_str(), 22, ' ');
    push_str(&mut out, " | ");
    push_padded(&mut out, next, 30, ' ');
    push_str(&mut out, " | ");
    let state = if t.enabled {
        "✓ actif"
    } else {
        "✗ inactif"
    };
    push_padded(&mut out, state, 8, ' ');
    assert(out@ =~= main_list_row(*t, next@));
    string_of(&out)
}

/// The lines of `list`: the header (after an empty line), a rule, one row
/// per task in id order with its next run after `from`, and the totals.
#[verifier::rlimit(40)]
pub fn task_table_lines(registry: &TaskRegistry, from: UtcTime) -> (lines: Vec<String>)
    requires
        registry.wf(),
        from.wf(),
    ensures
        lines@.len() == registry.entries().len() + 3,
        lines@[0]@ == table_header(),
        lines@[1]@ == table_rule(),
        exists|order: Seq<Task>|
            {
                &&& sorted_by_id(order)
                &&& order.to_multiset() == registry.entries().to_multiset()
                &&& order.len() == registry.entries().len()
                &&& forall|i: int|
                    0 <= i < order.len() ==> (#[trigger] lines@[i + 2])@ == main_list_row(
                        order[i],
                        next_text_spec(order[i], from),
                    )
            },
        lines@[registry.entries().len() as int + 2]@ == table_footer(
            registry.entries().len(),
            count_enabled(registry.entries()),
        ),
{
    broadcast use vstd::seq_lib::group_to_multiset_ensures;

    let mut lines: Vec<String> = Vec::new();
    let mut header: Vec<char> = Vec::new();
    push_str(&mut header, "\n");
    push_padded(&mut header, "ID", 20, ' ');
    push_str(&mut header, " | ");
    push_padded(&mut header, "Nom", 25, ' ');
    push_str(&mut header, " | ");
    push_padded(&mut header, "Planification", 22, ' ');
    push_str(&mut header, " | ");
    push_padded(&mut header, "Prochaine exécution", 30, ' ');
    push_str(&mut header, " | ");
    push_padded(&mut header, "État", 8, ' ');
    assert(header@ =~= table_header());
    lines.push(string_of(&header));
    let mut rule: Vec<char> = Vec::new();
    push_padded(&mut rule, "", 20, '-');
    push_str(&mut rule, "-+-");
    push_padded(&mut rule, "", 25, '-');
    push_str(&mut rule, "-+-");
    push_padded(&mut rule, "", 22, '-');
    push_str(&mut rule, "-+-");
    push_padded(&mut rule, "", 30, '-');
    push_str(&mut rule, "-+-");
    push_padded(&mut rule, "", 8, '-');
    proof {
        reveal_strlit("");
    }
    assert(rule@ =~= table_rule());
    lines.push(string_of(&rule));
    let tasks = tasks_by_id(registry);
    let ghost order = derefs(tasks@);
    assert(order.len() == registry.entries().len()) by {
        assert(order.to_multiset().len() == order.len());
        assert(registry.entries().to_multiset().len() == registry.entries().len());
    }
    let mut i: usize = 0;
    while i < tasks.len()
        invariant
            i <= tasks@.len(),
            order == derefs(tasks@),
            from.wf(),
            lines@.len() == i + 2,
            lines@[0]@ == table_header(),
            lines@[1]@ == table_rule(),
            forall|j: int|
                0 <= j < i ==> (#[trigger] lines@[j + 2])@ == main_list_row(
                    order[j],
                    next_text_spec(order[j], from),
                ),
        decreases tasks.len() - i,
    {
        let t: &Task = tasks[i];
        assert(*t == order[i as int]);
        let next = next_run_text(t, &from);
        lines.push(table_row(t, next.as_str()));
        i = i + 1;
    }
    let mut footer: Vec<char> = Vec::new();
    push_str(&mut footer, "\n");
    push_decimal(&mut footer, registry.len() as u64);
    push_str(&mut footer, " tâche(s) — ");
    push_decimal(&mut footer, registry.active_count() as u64);
    push_str(&mut footer, " active(s)\n");
    assert(footer@ =~= table_footer(registry.entries().len(), count_enabled(registry.entries())));
    lines.push(string_of(&footer));
    lines
}

// ---------------------------------------------------------------------------
// What the daemon prints
// ---------------------------------------------------------------------------

/// The banner the daemon prints when it starts.
pub open spec fn daemon_banner() -> Seq<Seq<char>> {
    seq![
        "\n╔══════════════════════════════════════════╗"@,
        "║         TaskForge — Daemon actif         ║"@,
        "╚══════════════════════════════════════════╝"@,
    ]
}

/// ` {total} tâche(s) chargée(s) — {active} active(s)`
pub open spec fn loaded_line(total: nat, active: nat) -> Seq<char> {
    " "@ + decimal(total) + " tâche(s) chargée(s) — "@ + decimal(active) + " active(s)"@
}

/// The line of a task's next run in the startup summary.
pub open spec fn next_run_line(t: Task, next: UtcTime) -> Seq<char> {
    "   "@ + pad_right(t.id@, 20, ' ') + " → "@ + datetime_text(next)
}

/// The next-run lines of the tasks of `order` that are enabled and whose
/// next run can be computed and exists, in order.
pub open spec fn next_run_lines(order: Seq<Task>, from: UtcTime) -> Seq<Seq<char>>
    decreases order.len(),
{
    if order.len() == 0 {
        Seq::empty()
    } else {
        let rest = next_run_lines(order.drop_last(), from);
        let t = order.last();
        if t.enabled && occurrence_defined(t.schedule@, from) && next_spec(t.schedule@, from) is Some {
            rest.push(next_run_line(t, next_spec(t.schedule@, from)->0))
        } else {
            rest
        }
    }
}

fn push_line(lines: &mut Vec<String>, text: &str)
    ensures
        final(lines)@.len() == old(lines)@.len() + 1,
        forall|k: int| 0 <= k < old(lines)@.len() ==> final(lines)@[k] == old(lines)@[k],
        final(lines)@[old(lines)@.len() as int]@ == text@,
{
    lines.push(text.to_owned());
}

/// What the daemon prints when it starts: the banner, the number of tasks,
/// then the next run of each enabled task in id order (those whose next run
/// can be computed), and an empty line.
pub fn daemon_summary_lines(registry: &TaskRegistry, from: UtcTime) -> (lines: Vec<String>)
    requires
        registry.wf(),
        from.wf(),
    ensures
        exists|order: Seq<Task>|
            {
                &&& sorted_by_id(order)
                &&& order.to_multiset() == registry.entries().to_multiset()
                &&& views_of(lines@) == daemon_banner() + seq![
                    loaded_line(registry.entries().len(), count_enabled(registry.entries())),
                    "\n Prochaines exécutions :"@,
                ] + next_run_lines(order, from) + seq![Seq::<char>::empty()]
            },
{
    let mut lines: Vec<String> = Vec::new();
    push_line(&mut lines, "\n╔══════════════════════════════════════════╗");
    push_line(&mut lines, "║         TaskForge — Daemon actif         ║");
    push_line(&mut lines, "╚══════════════════════════════════════════╝");
    let mut loaded: Vec<char> = Vec::new();
    push_str(&mut loaded, " ");
    push_decimal(&mut loaded, registry.len() as u64);
    push_str(&mut loaded, " tâche(s) chargée(s) — ");
    push_decimal(&mut loaded, registry.active_count() as u64);
    push_str(&mut loaded, " active(s)");
    assert(loaded@ =~= loaded_line(registry.entries().len(), count_enabled(registry.entries())));
    lines.push(string_of(&loaded));
    push_line(&mut lines, "\n Prochaines exécutions :");
    let ghost head = views_of(lines@);
    assert(head =~= daemon_banner() + seq![
        loaded_line(registry.entries().len(), count_enabled(registry.entries())),
        "\n Prochaines exécutions :"@,
    ]);
    let tasks = tasks_by_id(registry);
    let ghost order = derefs(tasks@);
    let mut i: usize = 0;
    assert(order.take(0) =~= Seq::<Task>::empty());
    while i < tasks.len()
        invariant
            i <= tasks@.len(),
            order == derefs(tasks@),
            from.wf(),
            views_of(lines@) == head + next_run_lines(order.take(i as int), from),
        decreases tasks.len() - i,
    {
        let t: &Task = tasks[i];
        assert(*t == order[i as int]);
        assert(order.take(i + 1).drop_last() =~= order.take(i as int));
        assert(order.take(i + 1).last() == *t);
        let ghost before = lines@;
        if t.enabled && occurrence_in_range(&t.schedule, &from) {
            match next_occurrence(&t.schedule, from) {
                Some(n) => {
                    let mut line: Vec<char> = Vec::new();
                    push_str(&mut line, "   ");
                    push_padded(&mut line, t.id.as_str(), 20, ' ');
                    push_str(&mut line, " → ");
                    let date = format_datetime(&n);
                    push_str(&mut line, date.as_str());
                    assert(line@ =~= next_run_line(*t, n));
                    lines.push(string_of(&line));
                    assert(views_of(lines@) =~= views_of(before).push(next_run_line(*t, n)));
                },
                None => {},
            }
        }
        i = i + 1;
        assert(views_of(lines@) =~= head + next_run_lines(order.take(i as int), from));
    }
    assert(order.take(tasks.len() as int) =~= order);
    let ghost before_end = lines@;
    lines.push(String::new());
    assert(views_of(lines@) =~= views_of(before_end).push(Seq::<char>::empty()));
    lines
}

/// The texts of strings.
pub open spec fn views_of(s: Seq<String>) -> Seq<Seq<char>> {
    Seq::new(s.len(), |i: int| s[i]@)
}

/// `%H:%M:%S` of an instant.
pub open spec fn clock_text(t: UtcTime) -> Seq<char> {
    zero_padded(t.spec_hour() as nat, 2) + seq![':'] + zero_padded(t.spec_minute() as nat, 2) + seq![':']
        + zero_padded((t.secs_of_day() % 60) as nat, 2)
}

/// `DateTime::format("%H:%M:%S")` of the instant `t`, written out. Claimed,
/// from `chrono`'s `format/formatting.rs`: hours, minutes and seconds in
/// two digits each.
#[verifier::external_body]
fn format_clock(t: &UtcTime) -> (r: String)
    requires
        t.wf(),
    ensures
        r@ == clock_text(*t),
{
    let dt = chrono::DateTime::from_timestamp(t.secs, t.nanos).expect("instant in range");
    dt.format("%H:%M:%S").to_string()
}

/// An optional exit code as `{:?}` prints it: `Some(n)` or `None`.
pub open spec fn exit_text(code: Option<i32>) -> Seq<char> {
    match code {
        Some(c) => "Some("@ + int_text(c as int) + ")"@,
        None => "None"@,
    }
}

fn push_exit(out: &mut Vec<char>, code: Option<i32>)
    ensures
        final(out)@ == old(out)@ + exit_text(code),
{
    match code {
        Some(c) => {
            push_str(out, "Some(");
            push_int(out, c as i64);
            push_str(out, ")");
        },
        None => push_str(out, "None"),
    }
}

/// `[{HH:MM:SS}] {✓|✗} '{task_id}' (exit: {code})`, the daemon's line for a
/// finished run.
pub open spec fn record_line_text(r: ExecutionRecord) -> Seq<char> {
    "["@ + clock_text(r.start_time) + "] "@ + (if r.success {
        "✓"@
    } else {
        "✗"@
    }) + " '"@ + r.task_id@ + "' (exit: "@ + exit_text(r.exit_code) + ")"@
}

/// The daemon's line for a finished run.
pub fn record_line(record: &ExecutionRecord) -> (line: String)
    requires
        record.start_time.wf(),
    ensures
        line@ == record_line_text(*record),
{
    let mut out: Vec<char> = Vec::new();
    push_str(&mut out, "[");
    let clock = format_clock(&record.start_time);
    push_str(&mut out, clock.as_str());
    push_str(&mut out, "] ");
    if record.success {
        push_str(&mut out, "✓");
    } else {
        push_str(&mut out, "✗");
    }
    push_str(&mut out, " '");
    push_str(&mut out, record.task_id.as_str());
    push_str(&mut out, "' (exit: ");
    push_exit(&mut out, record.exit_code);
    push_str(&mut out, ")");
    assert(out@ =~= record_line_text(*record));
    string_of(&out)
}

// ---------------------------------------------------------------------------
// What `run` prints
// ---------------------------------------------------------------------------

/// `[taskforge] Exécution forcée de '{id}' : {command}`
pub open spec fn forced_run_text(t: Task) -> Seq<char> {
    "[taskforge] Exécution forcée de '"@ + t.id@ + "' : "@ + t.command@
}

/// `[taskforge] {✓ succès|✗ échec} (exit: {code})`
pub open spec fn run_outcome_text(r: ExecutionRecord) -> Seq<char> {
    "[taskforge] "@ + (if r.success {
        "✓ succès"@
    } else {
        "✗ échec"@
    }) + " (exit: "@ + exit_text(r.exit_code) + ")"@
}

/// `--- {label} ---` and the output, trimmed, on the next line.
pub open spec fn output_block_text(label: Seq<char>, output: Seq<char>) -> Seq<char> {
    "--- "@ + label + " ---\n"@ + trim_ws(output)
}

/// The line announcing a forced run.
pub fn forced_run_line(task: &Task) -> (line: String)
    ensures
        line@ == forced_run_text(*task),
{
    let mut out: Vec<char> = Vec::new();
    push_str(&mut out, "[taskforge] Exécution forcée de '");
    push_str(&mut out, task.id.as_str());
    push_str(&mut out, "' : ");
    push_str(&mut out, task.command.as_str());
    assert(out@ =~= forced_run_text(*task));
    string_of(&out)
}

/// The line giving the outcome of a forced run.
pub fn run_outcome_line(record: &ExecutionRecord) -> (line: String)
    ensures
        line@ == run_outcome_text(*record),
{
    let mut out: Vec<char> = Vec::new();
    push_str(&mut out, "[taskforge] ");
    if record.success {
        push_str(&mut out, "✓ succès");
    } else {
        push_str(&mut out, "✗ échec");
    }
    push_str(&mut out, " (exit: ");
    push_exit(&mut out, record.exit_code);
    push_str(&mut out, ")");
    assert(out@ =~= run_outcome_text(*record));
    string_of(&out)
}

/// The block showing an output of a forced run; `None` for an empty output.
pub fn output_block(label: &str, output: &str) -> (block: Option<String>)
    ensures
        output@.len() == 0 ==> block is None,
        output@.len() > 0 ==> (block matches Some(b) && b@ == output_block_text(label@, output@)),
{
    if output.is_empty() {
        return None;
    }
    let mut out: Vec<char> = Vec::new();
    push_str(&mut out, "--- ");
    push_str(&mut out, label);
    push_str(&mut out, " ---\n");
    let mut trimmed = trim_chars(&chars_of(output));
    out.append(&mut trimmed);
    assert(out@ =~= output_block_text(label@, output@));
    Some(string_of(&out))
}

} // verus!
