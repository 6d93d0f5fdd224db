//! The health report of the `status` command: per task, its state, its
//! success rate over its last runs and its last run.
use vstd::prelude::*;
use crate::history::query::{LogEntry, LogEntryModel};
use crate::registry::registry::{count_enabled, TaskRegistry};
use crate::text::{decimal, pad_right, push_decimal, push_padded, push_str, string_of};
use crate::types::Task;

verus! {

/// Number of last runs over which the report computes the success rate.
pub const HEALTH_WINDOW: usize = 10;

pub open spec fn health_columns(a: Seq<char>, b: Seq<char>, c: Seq<char>, d: Seq<char>, fill: char) -> Seq<char> {
    pad_right(a, 15, fill) + " | "@ + pad_right(b, 10, fill) + " | "@ + pad_right(c, 10, fill) + " | "@
        + pad_right(d, 25, fill)
}

pub open spec fn health_title() -> Seq<char> {
    "=== RAPPORT DE SANTÉ TASKFORGE ==="@
}

pub open spec fn health_header() -> Seq<char> {
    health_columns("ID Tâche"@, "État"@, "Succès (%)"@, "Dernière Exécution"@, ' ')
}

pub open spec fn health_separator() -> Seq<char> {
    pad_right(Seq::empty(), 15, '-') + "-+-"@ + pad_right(Seq::empty(), 10, '-') + "-+-"@ + pad_right(
        Seq::empty(),
        10,
        '-',
    ) + "-+-"@ + pad_right(Seq::empty(), 25, '-')
}

pub open spec fn health_state(enabled: bool) -> Seq<char> {
    if enabled {
        "Actif"@
    } else {
        "Désactivé"@
    }
}

/// `{start} ({status})` of the last run, or `Jamais exécutée`.
pub open spec fn last_run_text(last: Option<LogEntryModel>) -> Seq<char> {
    match last {
        Some(e) => e.start_time + " ("@ + e.status + ")"@,
        None => "Jamais exécutée"@,
    }
}

/// The row of a task; `rate` is its success rate in percent as printed.
pub open spec fn health_row_text(t: Task, rate: Seq<char>, last: Option<LogEntryModel>) -> Seq<char> {
    health_columns(t.id@, health_state(t.enabled), rate, last_run_text(last), ' ')
}

/// `\nTotal tâches actives : {active} / {total}`
pub open spec fn health_footer_text(active: nat, total: nat) -> Seq<char> {
    "\nTotal tâches actives : "@ + decimal(active) + " / "@ + decimal(total)
}

pub open spec fn entry_model(e: Option<LogEntry>) -> Option<LogEntryModel> {
    match e {
        Some(x) => Some(x@),
        None => None,
    }
}

/// The title, column header and rule of the report.
pub fn health_head() -> (lines: Vec<String>)
    ensures
        lines@.len() == 3,
        lines@[0]@ == health_title(),
        lines@[1]@ == health_header(),
        lines@[2]@ == health_separator(),
{
    let mut lines: Vec<String> = Vec::new();
    lines.push("=== RAPPORT DE SANTÉ TASKFORGE ===".to_owned());
    let mut header: Vec<char> = Vec::new();
    push_padded(&mut header, "ID Tâche", 15, ' ');
    push_str(&mut header, " | ");
    push_padded(&mut header, "État", 10, ' ');
    push_str(&mut header, " | ");
    push_padded(&mut header, "Succès (%)", 10, ' ');
    push_str(&mut header, " | ");
    push_padded(&mut header, "Dernière Exécution", 25, ' ');
    assert(header@ =~= health_header());
    lines.push(string_of(&header));
    let mut rule: Vec<char> = Vec::new();
    push_padded(&mut rule, "", 15, '-');
    push_str(&mut rule, "-+-");
    push_padded(&mut rule, "", 10, '-');
    push_str(&mut rule, "-+-");
    push_padded(&mut rule, "", 10, '-');
    push_str(&mut rule, "-+-");
    push_padded(&mut rule, "", 25, '-');
    proof {
        reveal_strlit("");
    }
    assert(rule@ =~= health_separator());
    lines.push(string_of(&rule));
    lines
}

/// The row of a task, given its success rate as printed and its last run.
pub fn health_row(task: &Task, rate: &str, last: &Option<LogEntry>) -> (row: String)
    ensures
        row@ == health_row_text(*task, rate@, entry_model(*last)),
{
    let mut out: Vec<char> = Vec::new();
    push_padded(&mut out, task.id.as_str(), 15, ' ');
    push_str(&mut out, " | ");
    let state = if task.enabled {
        "Actif"
    } else {
        "Désactivé"
    };
    push_padded(&mut out, state, 10, ' ');
    push_str(&mut out, " | ");
    push_padded(&mut out, rate, 10, ' ');
    push_str(&mut out, " | ");
    let mut last_text: Vec<char> = Vec::new();
    match last {
        Some(e) => {
            push_str(&mut last_text, e.start_time.as_str());
            push_str(&mut last_text, " (");
            push_str(&mut last_text, e.status.as_str());
            push_str(&mut last_text, ")");
        },
        None => {
            push_str(&mut last_text, "Jamais exécutée");
        },
    }
    assert(last_text@ =~= last_run_text(entry_model(*last)));
    let last_string = string_of(&last_text);
    push_padded(&mut out, last_string.as_str(), 25, ' ');
    assert(out@ =~= health_row_text(*task, rate@, entry_model(*last)));
    string_of(&out)
}

/// The last line of the report: active tasks out of all tasks.
pub fn health_footer(registry: &TaskRegistry) -> (line: String)
    requires
        registry.wf(),
    ensures
        line@ == health_footer_text(count_enabled(registry.entries()), registry.entries().len()),
{
    let mut out: Vec<char> = Vec::new();
    push_str(&mut out, "\nTotal tâches actives : ");
    let active = registry.active_count();
    let total = registry.len();
    push_decimal(&mut out, active as u64);
    push_str(&mut out, " / ");
    push_decimal(&mut out, total as u64);
    assert(out@ =~= health_footer_text(count_enabled(registry.entries()), registry.entries().len()));
    string_of(&out)
}

} // verus!
