//! The commands of the command line and what they print.
use vstd::prelude::*;
use crate::registry::config::{config_error_text, ConfigError};
use crate::registry::registry::TaskRegistry;
use crate::text::{chars_of, pad_right, push_padded, push_str, repeat_char, string_of};
use crate::types::{schedule_text, Task};

verus! {

/// A subcommand.
#[derive(Debug, Clone, PartialEq, Eq)]
pub enum Commands {
    /// Lists the registered tasks.
    List,
    /// Runs a task now.
    Run { name: String },
    /// Enables a task.
    Enable { name: String },
    /// Disables a task without removing it.
    Disable { name: String },
    /// Shows the health report.
    Status,
}

/// The command line: a subcommand and the configuration file to load.
#[derive(Debug, Clone)]
pub struct Cli {
    pub command: Commands,
    /// Path of the TOML configuration file.
    pub config: String,
}

/// `config/tasks.toml`, the configuration file used when none is given.
pub fn default_config_path() -> (s: String)
    ensures
        s@ == "config/tasks.toml"@,
{
    "config/tasks.toml".to_owned()
}

impl Cli {
    /// A command line; without a configuration path, the default one.
    pub fn new(command: Commands, config: Option<String>) -> (cli: Cli)
        ensures
            cli.command == command,
            cli.config@ == match config {
                Some(c) => c@,
                None => "config/tasks.toml"@,
            },
    {
        let config = match config {
            Some(c) => c,
            None => default_config_path(),
        };
        Cli { command, config }
    }
}

// ---------------------------------------------------------------------------
// What the commands print
// ---------------------------------------------------------------------------

/// The columns of the task list: id, name, schedule and state.
pub open spec fn list_columns(a: Seq<char>, b: Seq<char>, c: Seq<char>, d: Seq<char>, fill: char) -> Seq<char> {
    pad_right(a, 15, fill) + " | "@ + pad_right(b, 20, fill) + " | "@ + pad_right(c, 20, fill) + " | "@
        + pad_right(d, 10, fill)
}

pub open spec fn list_header() -> Seq<char> {
    list_columns("ID"@, "Nom"@, "Planification"@, "État"@, ' ')
}

pub open spec fn list_separator() -> Seq<char> {
    pad_right(Seq::empty(), 15, '-') + "-+-"@ + pad_right(Seq::empty(), 20, '-') + "-+-"@ + pad_right(
        Seq::empty(),
        20,
        '-',
    ) + "-+-"@ + pad_right(Seq::empty(), 10, '-')
}

pub open spec fn state_text(enabled: bool) -> Seq<char> {
    if enabled {
        "Actif"@
    } else {
        "Inactif"@
    }
}

/// The row of a task in the list.
pub open spec fn list_row(t: Task) -> Seq<char> {
    list_columns(t.id@, t.name@, schedule_text(t.schedule@), state_text(t.enabled), ' ')
}

/// `Succès : La tâche '{name}' est maintenant activée.` (or `désactivée`).
pub open spec fn enabled_message(name: Seq<char>, enabled: bool) -> Seq<char> {
    "Succès : La tâche '"@ + name + (if enabled {
        "' est maintenant activée."@
    } else {
        "' est maintenant désactivée."@
    })
}

/// `Erreur : Tâche '{name}' introuvable.`
pub open spec fn not_found_message(name: Seq<char>) -> Seq<char> {
    "Erreur : Tâche '"@ + name + "' introuvable."@
}

/// The two lines of a forced run.
pub open spec fn run_messages(t: Task) -> Seq<Seq<char>> {
    seq![
        "Exécution forcée de la tâche '"@ + t.id@ + "' (Commande: "@ + t.command@ + ")..."@,
        "Signal envoyé au moteur d'exécution (Simulation)."@,
    ]
}

/// `Erreur lors du chargement de la configuration : {error}`
pub open spec fn load_error_message(e: ConfigError) -> Seq<char> {
    "Erreur lors du chargement de la configuration : "@ + config_error_text(e)
}

fn columns(a: &str, b: &str, c: &str, d: &str, fill: char) -> (s: String)
    ensures
        s@ == list_columns(a@, b@, c@, d@, fill),
{
    let mut out: Vec<char> = Vec::new();
    push_padded(&mut out, a, 15, fill);
    push_str(&mut out, " | ");
    push_padded(&mut out, b, 20, fill);
    push_str(&mut out, " | ");
    push_padded(&mut out, c, 20, fill);
    push_str(&mut out, " | ");
    push_padded(&mut out, d, 10, fill);
    assert(out@ =~= list_columns(a@, b@, c@, d@, fill));
    string_of(&out)
}

/// The lines of `list`: a header, a rule, then one row per task in
/// registry order.
pub fn list_lines(registry: &TaskRegistry) -> (lines: Vec<String>)
    requires
        registry.wf(),
    ensures
        lines@.len() == registry.entries().len() + 2,
        lines@[0]@ == list_header(),
        lines@[1]@ == list_separator(),
        forall|i: int| 0 <= i < registry.entries().len() ==> (#[trigger] lines@[i + 2])@ == list_row(
            registry.entries()[i],
        ),
{
    let mut lines: Vec<String> = Vec::new();
    lines.push(columns("ID", "Nom", "Planification", "État", ' '));
    let mut rule: Vec<char> = Vec::new();
    push_padded(&mut rule, "", 15, '-');
    push_str(&mut rule, "-+-");
    push_padded(&mut rule, "", 20, '-');
    push_str(&mut rule, "-+-");
    push_padded(&mut rule, "", 20, '-');
    push_str(&mut rule, "-+-");
    push_padded(&mut rule, "", 10, '-');
    proof {
        reveal_strlit("");
    }
    assert(rule@ =~= list_separator());
    lines.push(string_of(&rule));
    let tasks = registry.all_tasks();
    let mut i: usize = 0;
    while i < tasks.len()
        invariant
            i <= tasks@.len(),
            crate::registry::registry::derefs(tasks@) == registry.entries(),
            lines@.len() == i + 2,
            lines@[0]@ == list_header(),
            lines@[1]@ == list_separator(),
            forall|j: int| 0 <= j < i ==> (#[trigger] lines@[j + 2])@ == list_row(registry.entries()[j]),
        decreases tasks.len() - i,
    {
        let t: &Task = tasks[i];
        assert(*t == registry.entries()[i as int]);
        let state = if t.enabled {
            "Actif"
        } else {
            "Inactif"
        };
        let schedule = t.schedule.to_string();
        lines.push(columns(t.id.as_str(), t.name.as_str(), schedule.as_str(), state, ' '));
        i = i + 1;
    }
    lines
}

/// `enable` (`enabled` true) or `disable`: the message printed, `Ok` when
/// the task exists (and is then enabled or disabled), `Err` otherwise.
pub fn set_enabled_command(registry: &mut TaskRegistry, name: &str, enabled: bool) -> (r: Result<
    String,
    String,
>)
    requires
        old(registry).wf(),
    ensures
        final(registry).wf(),
        r is Ok <==> old(registry)@.contains_key(name@),
        r is Ok ==> final(registry)@ == old(registry)@.insert(
            name@,
            Task { enabled, ..old(registry)@[name@] },
        ),
        r is Err ==> final(registry)@ == old(registry)@,
        match r {
            Ok(m) => m@ == enabled_message(name@, enabled),
            Err(m) => m@ == not_found_message(name@),
        },
{
    if registry.set_enabled(name, enabled) {
        let mut out = chars_of("Succès : La tâche '");
        push_str(&mut out, name);
        if enabled {
            push_str(&mut out, "' est maintenant activée.");
        } else {
            push_str(&mut out, "' est maintenant désactivée.");
        }
        assert(out@ =~= enabled_message(name@, enabled));
        Ok(string_of(&out))
    } else {
        Err(not_found(name))
    }
}

fn not_found(name: &str) -> (m: String)
    ensures
        m@ == not_found_message(name@),
{
    let mut out = chars_of("Erreur : Tâche '");
    push_str(&mut out, name);
    push_str(&mut out, "' introuvable.");
    assert(out@ =~= not_found_message(name@));
    string_of(&out)
}

/// `run`: the lines printed for a task that exists, the error otherwise.
pub fn run_lines(registry: &TaskRegistry, name: &str) -> (r: Result<Vec<String>, String>)
    requires
        registry.wf(),
    ensures
        r is Ok <==> registry@.contains_key(name@),
        match r {
            Ok(lines) => lines@.len() == 2 && lines@[0]@ == run_messages(registry@[name@])[0]
                && lines@[1]@ == run_messages(registry@[name@])[1],
            Err(m) => m@ == not_found_message(name@),
        },
{
    match registry.get(name) {
        Some(t) => {
            let mut first = chars_of("Exécution forcée de la tâche '");
            push_str(&mut first, t.id.as_str());
            push_str(&mut first, "' (Commande: ");
            push_str(&mut first, t.command.as_str());
            push_str(&mut first, ")...");
            assert(first@ =~= run_messages(*t)[0]);
            let mut lines: Vec<String> = Vec::new();
            lines.push(string_of(&first));
            lines.push("Signal envoyé au moteur d'exécution (Simulation).".to_owned());
            Ok(lines)
        },
        None => Err(not_found(name)),
    }
}

/// The message printed when the configuration cannot be loaded.
pub fn load_error_line(e: &ConfigError) -> (m: String)
    ensures
        m@ == load_error_message(*e),
{
    let mut out = chars_of("Erreur lors du chargement de la configuration : ");
    let text = e.to_string();
    push_str(&mut out, text.as_str());
    string_of(&out)
}

} // verus!
