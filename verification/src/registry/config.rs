//! Task configuration: the entries of the configuration file and their
//! conversion into tasks.
use vstd::prelude::*;
use crate::parser::expression::{
    cron_spec, field_as_parsed, field_spec, is_based_step, lemma_field_text_reads_back,
    lemma_parsed_field_as_parsed, parse_cron_checked, Outcome,
};
use crate::parser::macros::{
    every_value_spec, every_words, macro_is_readable, macro_name, macro_overflows, macro_spec,
    parse_macro,
};
use crate::text::{
    chars_eq, chars_of, decimal, is_digit, is_ws, lemma_decimal, lemma_parse_u32_decimal,
    lemma_words_of_five, lemma_words_of_one, string_of, words,
};
use crate::types::{cron_field_text, opt_schedule, schedule_text, CronFieldModel, Schedule, ScheduleModel, Task};

verus! {

/// One `[[task]]` entry of the configuration file.
#[derive(Debug, Clone)]
pub struct TaskConfig {
    pub id: String,
    pub name: String,
    pub command: String,
    pub schedule: String,
    pub timeout_seconds: u32,
    pub max_retries: u32,
    pub enabled: bool,
}

/// The whole configuration file: its `[[task]]` entries, in order.
#[derive(Debug, Clone)]
pub struct TomlConfig {
    pub tasks: Vec<TaskConfig>,
}

/// Why a configuration could not be loaded.
#[derive(Debug)]
pub enum ConfigError {
    /// The file could not be read (the I/O error's text).
    Io(String),
    /// The file is not valid TOML for a configuration (the parser's text).
    Parse(String),
    /// A task's schedule is neither a macro nor a cron expression.
    InvalidSchedule { task_id: String, schedule: String },
    /// Two tasks share an id.
    DuplicateId(String),
}

/// The message of a configuration error.
pub open spec fn config_error_text(e: ConfigError) -> Seq<char> {
    match e {
        ConfigError::Io(m) => "Erreur I/O : "@ + m@,
        ConfigError::Parse(m) => "TOML invalide : "@ + m@,
        ConfigError::InvalidSchedule { task_id, schedule } => "Planification invalide pour la tâche '"@
            + task_id@ + "' : '"@ + schedule@ + "'"@,
        ConfigError::DuplicateId(id) => "Identifiant dupliqué : '"@ + id@ + "'"@,
    }
}

impl ConfigError {
    /// The error's message (what `Display` shows).
    pub fn to_string(&self) -> (s: String)
        ensures
            s@ == config_error_text(*self),
    {
        let mut out: Vec<char>;
        match self {
            ConfigError::Io(m) => {
                out = chars_of("Erreur I/O : ");
                out.append(&mut chars_of(m.as_str()));
            },
            ConfigError::Parse(m) => {
                out = chars_of("TOML invalide : ");
                out.append(&mut chars_of(m.as_str()));
            },
            ConfigError::InvalidSchedule { task_id, schedule } => {
                out = chars_of("Planification invalide pour la tâche '");
                out.append(&mut chars_of(task_id.as_str()));
                out.append(&mut chars_of("' : '"));
                out.append(&mut chars_of(schedule.as_str()));
                out.append(&mut chars_of("'"));
            },
            ConfigError::DuplicateId(id) => {
                out = chars_of("Identifiant dupliqué : '");
                out.append(&mut chars_of(id.as_str()));
                out.append(&mut chars_of("'"));
            },
        }
        assert(out@ =~= config_error_text(*self));
        string_of(&out)
    }
}

/// Default `timeout_seconds`.
pub fn default_timeout() -> (r: u32)
    ensures
        r == 60,
{
    60
}

/// Default `max_retries`.
pub fn default_retries() -> (r: u32)
    ensures
        r == 0,
{
    0
}

/// Default `enabled`.
pub fn default_enabled() -> (r: bool)
    ensures
        r,
{
    true
}

/// `s` starts with `@`.
pub open spec fn is_macro_text(s: Seq<char>) -> bool {
    s.len() > 0 && s[0] == '@'
}

/// The schedule a configuration text stands for: a macro when it starts
/// with `@`, a cron expression otherwise.
#[verifier::opaque]
pub open spec fn schedule_spec(s: Seq<char>) -> Option<ScheduleModel> {
    if is_macro_text(s) {
        macro_spec(s)
    } else {
        match cron_spec(s) {
            Outcome::Parsed(v) => Some(v),
            _ => None,
        }
    }
}

/// Whether [`parse_schedule`] can read `s` at all (see
/// [`macro_overflows`] and [`cron_spec`]).
#[verifier::opaque]
pub open spec fn schedule_readable(s: Seq<char>) -> bool {
    if is_macro_text(s) {
        !macro_overflows(s)
    } else {
        !(cron_spec(s) is Aborted)
    }
}

/// Parses a schedule: a macro (`@daily`, ...) or a cron expression.
pub fn parse_schedule(s: &str) -> (r: Option<Schedule>)
    requires
        schedule_readable(s@),
    ensures
        opt_schedule(r) == schedule_spec(s@),
{
    reveal(schedule_spec);
    reveal(schedule_readable);
    let cs = chars_of(s);
    if cs.len() > 0 && cs[0] == '@' {
        parse_macro(s)
    } else {
        match parse_cron_checked(s) {
            Some(Ok(schedule)) => Some(schedule),
            _ => None,
        }
    }
}

/// Whether [`parse_schedule`] can read `s`.
pub fn schedule_is_readable(s: &str) -> (b: bool)
    ensures
        b == schedule_readable(s@),
{
    reveal(schedule_readable);
    let cs = chars_of(s);
    if cs.len() > 0 && cs[0] == '@' {
        macro_is_readable(s)
    } else {
        parse_cron_checked(s).is_some()
    }
}

/// `t` is the task that `cfg` describes.
pub open spec fn task_of_config(cfg: TaskConfig, t: Task) -> bool {
    &&& t.id == cfg.id
    &&& t.name == cfg.name
    &&& t.command == cfg.command
    &&& Some(t.schedule@) == schedule_spec(cfg.schedule@)
    &&& t.timeout_seconds == cfg.timeout_seconds
    &&& t.max_retries == cfg.max_retries
    &&& t.enabled == cfg.enabled
}

/// Converts a configuration entry into a task; its schedule must parse.
fn task_config_to_task(cfg: TaskConfig) -> (r: Result<Task, ConfigError>)
    requires
        schedule_readable(cfg.schedule@),
    ensures
        schedule_spec(cfg.schedule@) is Some ==> (r matches Ok(t) && task_of_config(cfg, t)),
        schedule_spec(cfg.schedule@) is None ==> r == Err::<Task, ConfigError>(
            ConfigError::InvalidSchedule { task_id: cfg.id, schedule: cfg.schedule },
        ),
{
    let schedule = match parse_schedule(cfg.schedule.as_str()) {
        Some(s) => s,
        None => {
            return Err(
                ConfigError::InvalidSchedule {
                    task_id: cfg.id.clone(),
                    schedule: cfg.schedule.clone(),
                },
            );
        },
    };
    Ok(
        Task {
            id: cfg.id,
            name: cfg.name,
            command: cfg.command,
            schedule,
            timeout_seconds: cfg.timeout_seconds,
            max_retries: cfg.max_retries,
            enabled: cfg.enabled,
        },
    )
}

/// The ids of configuration entries.
pub open spec fn config_ids(cfgs: Seq<TaskConfig>) -> Seq<Seq<char>> {
    cfgs.map_values(|c: TaskConfig| c.id@)
}

/// Position of the first entry whose id was already used by an earlier one,
/// among the first `n` entries.
pub open spec fn first_duplicate(ids: Seq<Seq<char>>, n: int) -> Option<int>
    decreases n,
{
    if n <= 0 {
        None
    } else {
        match first_duplicate(ids, n - 1) {
            Some(i) => Some(i),
            None => if ids.take(n - 1).contains(ids[n - 1]) {
                Some(n - 1)
            } else {
                None
            },
        }
    }
}

/// Position of the first entry whose schedule does not parse, among the
/// first `n` entries.
pub open spec fn first_invalid(cfgs: Seq<TaskConfig>, n: int) -> Option<int>
    decreases n,
{
    if n <= 0 {
        None
    } else {
        match first_invalid(cfgs, n - 1) {
            Some(i) => Some(i),
            None => if schedule_spec(cfgs[n - 1].schedule@) is None {
                Some(n - 1)
            } else {
                None
            },
        }
    }
}

/// The schedules that conversion reads before it stops can all be read:
/// with no duplicate id, each entry whose predecessors all parse.
pub open spec fn configs_readable(cfgs: Seq<TaskConfig>) -> bool {
    first_duplicate(config_ids(cfgs), cfgs.len() as int) is Some || forall|i: int|
        0 <= i < cfgs.len() && first_invalid(cfgs, i) is None ==> schedule_readable(
            #[trigger] cfgs[i].schedule@,
        )
}

/// What loading the entries gives: the first duplicate id, else the first
/// schedule that does not parse, else one task per entry, in order.
pub open spec fn tasks_from_config_ok(cfgs: Seq<TaskConfig>, r: Result<Vec<Task>, ConfigError>) -> bool {
    match first_duplicate(config_ids(cfgs), cfgs.len() as int) {
        Some(i) => r == Err::<Vec<Task>, ConfigError>(ConfigError::DuplicateId(cfgs[i].id)),
        None => match first_invalid(cfgs, cfgs.len() as int) {
            Some(i) => r == Err::<Vec<Task>, ConfigError>(
                ConfigError::InvalidSchedule { task_id: cfgs[i].id, schedule: cfgs[i].schedule },
            ),
            None => r matches Ok(tasks) && tasks@.len() == cfgs.len() && forall|i: int|
                0 <= i < cfgs.len() ==> task_of_config(cfgs[i], #[trigger] tasks@[i]),
        },
    }
}

proof fn lemma_first_invalid_stable(cfgs: Seq<TaskConfig>, m: int, n: int)
    requires
        0 <= m <= n,
        first_invalid(cfgs, m) is Some,
    ensures
        first_invalid(cfgs, n) == first_invalid(cfgs, m),
    decreases n - m,
{
    if n > m {
        lemma_first_invalid_stable(cfgs, m, n - 1);
    }
}

/// Converts the configuration entries into tasks, or `None` where a
/// schedule that conversion reads cannot be read at all.
pub fn tasks_from_config_checked(raw: TomlConfig) -> (r: Option<Result<Vec<Task>, ConfigError>>)
    ensures
        r is Some <==> configs_readable(raw.tasks@),
        r matches Some(res) ==> tasks_from_config_ok(raw.tasks@, res),
{
    let ghost cfgs = raw.tasks@;
    let n = raw.tasks.len();
    // duplicate ids
    let mut seen: Vec<Vec<char>> = Vec::new();
    let mut i: usize = 0;
    while i < n
        invariant
            n == raw.tasks@.len(),
            cfgs == raw.tasks@,
            i <= n,
            seen@.len() == i,
            forall|j: int| 0 <= j < i ==> (#[trigger] seen@[j])@ == config_ids(cfgs)[j],
            first_duplicate(config_ids(cfgs), i as int) is None,
        decreases n - i,
    {
        let id = chars_of(raw.tasks[i].id.as_str());
        let mut k: usize = 0;
        let mut dup = false;
        while k < i
            invariant
                i < n,
                n == raw.tasks@.len(),
                cfgs == raw.tasks@,
                k <= i,
                seen@.len() == i,
                id@ == config_ids(cfgs)[i as int],
                forall|j: int| 0 <= j < i ==> (#[trigger] seen@[j])@ == config_ids(cfgs)[j],
                dup ==> config_ids(cfgs).take(i as int).contains(id@),
                !dup ==> forall|j: int| 0 <= j < k ==> config_ids(cfgs)[j] != id@,
            decreases i - k,
        {
            if chars_eq(&seen[k], &id) {
                assert(config_ids(cfgs).take(i as int)[k as int] == id@);
                dup = true;
            }
            k = k + 1;
        }
        if dup {
            assert(first_duplicate(config_ids(cfgs), i + 1) == Some(i as int));
            proof {
                lemma_first_duplicate_stable(config_ids(cfgs), i + 1, n as int);
            }
            let tid = raw.tasks[i].id.clone();
            return Some(Err(ConfigError::DuplicateId(tid)));
        }
        assert(!config_ids(cfgs).take(i as int).contains(id@));
        seen.push(id);
        i = i + 1;
    }
    // conversion, in order, stopping at the first schedule that does not parse
    let mut rest = raw.tasks;
    let mut pending: Vec<TaskConfig> = Vec::new();
    while rest.len() > 0
        invariant
            n == cfgs.len(),
            pending@.len() + rest@.len() == n,
            forall|k: int| 0 <= k < rest@.len() ==> rest@[k] == cfgs[k],
            forall|k: int| 0 <= k < pending@.len() ==> pending@[k] == cfgs[n - 1 - k],
        decreases rest.len(),
    {
        let c = rest.pop().unwrap();
        pending.push(c);
    }
    let mut tasks: Vec<Task> = Vec::new();
    let mut j: usize = 0;
    while pending.len() > 0
        invariant
            n == cfgs.len(),
            cfgs == raw.tasks@,
            first_duplicate(config_ids(cfgs), n as int) is None,
            j + pending@.len() == n,
            forall|k: int| 0 <= k < pending@.len() ==> pending@[k] == cfgs[n - 1 - k],
            tasks@.len() == j,
            first_invalid(cfgs, j as int) is None,
            forall|k: int| 0 <= k < j ==> task_of_config(cfgs[k], #[trigger] tasks@[k]),
            forall|k: int| 0 <= k < j ==> schedule_readable(#[trigger] cfgs[k].schedule@),
        decreases pending.len(),
    {
        let cfg = pending.pop().unwrap();
        assert(cfg == cfgs[j as int]);
        if !schedule_is_readable(cfg.schedule.as_str()) {
            assert(!configs_readable(cfgs));
            return None;
        }
        match task_config_to_task(cfg) {
            Ok(t) => {
                tasks.push(t);
            },
            Err(e) => {
                assert(first_invalid(cfgs, j + 1) == Some(j as int));
                proof {
                    lemma_first_invalid_stable(cfgs, j + 1, n as int);
                    assert forall|i: int| 0 <= i < cfgs.len() && first_invalid(cfgs, i) is None implies schedule_readable(#[trigger] cfgs[i].schedule@) by {
                        if i > j {
                            lemma_first_invalid_stable(cfgs, j + 1, i);
                        }
                    }
                }
                return Some(Err(e));
            },
        }
        j = j + 1;
    }
    Some(Ok(tasks))
}

proof fn lemma_first_duplicate_stable(ids: Seq<Seq<char>>, m: int, n: int)
    requires
        0 <= m <= n,
        first_duplicate(ids, m) is Some,
    ensures
        first_duplicate(ids, n) == first_duplicate(ids, m),
    decreases n - m,
{
    if n > m {
        lemma_first_duplicate_stable(ids, m, n - 1);
    }
}

/// Converts the configuration entries into tasks: rejects a duplicate id
/// first, then the first schedule that does not parse.
pub fn tasks_from_config(raw: TomlConfig) -> (r: Result<Vec<Task>, ConfigError>)
    requires
        configs_readable(raw.tasks@),
    ensures
        tasks_from_config_ok(raw.tasks@, r),
{
    tasks_from_config_checked(raw).unwrap()
}

// ---------------------------------------------------------------------------
// A schedule's text reads back as the schedule
// ---------------------------------------------------------------------------

/// Whether a schedule has a step with a base other than 0 (`a-b/s`, whose
/// text is `a/s`).
pub open spec fn has_based_step(s: ScheduleModel) -> bool {
    match s {
        ScheduleModel::Cron { minute, hour, day_of_month, month, day_of_week } => is_based_step(minute)
            || is_based_step(hour) || is_based_step(day_of_month) || is_based_step(month)
            || is_based_step(day_of_week),
        _ => false,
    }
}

/// The text of a field as parsing gives it is a non-empty word whose
/// first character is a digit or `*`.
proof fn lemma_field_text_word(f: CronFieldModel, min: u32, max: u32)
    requires
        field_as_parsed(f, min, max),
    ensures
        cron_field_text(f).len() > 0,
        forall|i: int| 0 <= i < cron_field_text(f).len() ==> !is_ws(#[trigger] cron_field_text(f)[i]),
        is_digit(cron_field_text(f)[0]) || cron_field_text(f)[0] == '*',
{
    let t = cron_field_text(f);
    match f {
        CronFieldModel::Any => {},
        CronFieldModel::Single(v) => {
            lemma_decimal(v as nat);
            assert forall|i: int| 0 <= i < t.len() implies !is_ws(#[trigger] t[i]) by {
                assert(is_digit(t[i]));
            }
        },
        CronFieldModel::Range(a, b) => {
            let da = decimal(a as nat);
            let db = decimal(b as nat);
            lemma_decimal(a as nat);
            lemma_decimal(b as nat);
            assert(t[0] == da[0]);
            assert forall|i: int| 0 <= i < t.len() implies !is_ws(#[trigger] t[i]) by {
                if i < da.len() {
                    assert(t[i] == da[i] && is_digit(da[i]));
                } else if i > da.len() {
                    assert(t[i] == db[i - da.len() - 1] && is_digit(db[i - da.len() - 1]));
                }
            }
        },
        CronFieldModel::List(vs) => {
            crate::parser::expression::lemma_list_text_chars(vs);
            assert forall|i: int| 0 <= i < t.len() implies !is_ws(#[trigger] t[i]) by {
                assert(is_digit(t[i]) || t[i] == ',');
            }
            assert(is_digit(t[0]) || t[0] == ',');
        },
        CronFieldModel::Step(base, step) => {
            let ds = decimal(step as nat);
            lemma_decimal(step as nat);
            assert forall|i: int| 0 <= i < t.len() implies !is_ws(#[trigger] t[i]) by {
                if i >= 2 {
                    assert(t[i] == ds[i - 2] && is_digit(ds[i - 2]));
                }
            }
        },
    }
}

/// A cron schedule as parsing gives it reads back from its text.
proof fn lemma_cron_text_reads_back(
    minute: CronFieldModel,
    hour: CronFieldModel,
    day_of_month: CronFieldModel,
    month: CronFieldModel,
    day_of_week: CronFieldModel,
)
    requires
        field_as_parsed(minute, 0, 59),
        field_as_parsed(hour, 0, 23),
        field_as_parsed(day_of_month, 1, 31),
        field_as_parsed(month, 1, 12),
        field_as_parsed(day_of_week, 0, 7),
    ensures
        ({
            let s = ScheduleModel::Cron { minute, hour, day_of_month, month, day_of_week };
            &&& cron_spec(schedule_text(s)) == Outcome::Parsed(s)
            &&& !is_macro_text(schedule_text(s))
        }),
{
    let s = ScheduleModel::Cron { minute, hour, day_of_month, month, day_of_week };
    let t0 = cron_field_text(minute);
    let t1 = cron_field_text(hour);
    let t2 = cron_field_text(day_of_month);
    let t3 = cron_field_text(month);
    let t4 = cron_field_text(day_of_week);
    lemma_field_text_word(minute, 0, 59);
    lemma_field_text_word(hour, 0, 23);
    lemma_field_text_word(day_of_month, 1, 31);
    lemma_field_text_word(month, 1, 12);
    lemma_field_text_word(day_of_week, 0, 7);
    lemma_words_of_five(t0, t1, t2, t3, t4);
    assert(words(schedule_text(s)) == seq![t0, t1, t2, t3, t4]);
    lemma_field_text_reads_back(minute, 0, 59);
    lemma_field_text_reads_back(hour, 0, 23);
    lemma_field_text_reads_back(day_of_month, 1, 31);
    lemma_field_text_reads_back(month, 1, 12);
    lemma_field_text_reads_back(day_of_week, 0, 7);
    assert(schedule_text(s)[0] == t0[0]);
}

/// A named macro's text reads back as its schedule.
proof fn lemma_named_macro_reads_back(s: ScheduleModel)
    requires
        s is Daily || s is Hourly || s is Weekly || s is Monthly || s is Yearly,
    ensures
        macro_spec(schedule_text(s)) == Some(s),
        !macro_overflows(schedule_text(s)),
        is_macro_text(schedule_text(s)),
{
    reveal_strlit("@daily");
    reveal_strlit("@hourly");
    reveal_strlit("@weekly");
    reveal_strlit("@monthly");
    reveal_strlit("@yearly");
    reveal_strlit("daily");
    reveal_strlit("midnight");
    reveal_strlit("hourly");
    reveal_strlit("weekly");
    reveal_strlit("monthly");
    reveal_strlit("yearly");
    reveal_strlit("annually");
    let t = schedule_text(s);
    let m = macro_name(t);
    match s {
        ScheduleModel::Daily => {
            assert(m =~= "daily"@);
        },
        ScheduleModel::Hourly => {
            assert(m =~= "hourly"@);
            assert(m != "daily"@ && m != "midnight"@);
        },
        ScheduleModel::Weekly => {
            assert(m =~= "weekly"@);
            assert(m[0] == 'w' && "hourly"@[0] == 'h');
            assert(m != "daily"@ && m != "midnight"@ && m != "hourly"@);
        },
        ScheduleModel::Monthly => {
            assert(m =~= "monthly"@);
            assert(m != "daily"@ && m != "midnight"@ && m != "hourly"@ && m != "weekly"@);
        },
        ScheduleModel::Yearly => {
            assert(m =~= "yearly"@);
            assert(m[0] == 'y' && "hourly"@[0] == 'h' && "weekly"@[0] == 'w');
            assert(m != "daily"@ && m != "midnight"@ && m != "hourly"@ && m != "weekly"@ && m != "monthly"@);
        },
        _ => {},
    }
}

/// `@every {n}m` reads back as an interval of `n` minutes.
proof fn lemma_every_reads_back(n: u32)
    ensures
        macro_spec(schedule_text(ScheduleModel::EveryMinutes(n))) == Some(ScheduleModel::EveryMinutes(n)),
        !macro_overflows(schedule_text(ScheduleModel::EveryMinutes(n))),
        is_macro_text(schedule_text(ScheduleModel::EveryMinutes(n))),
{
    reveal_strlit("@every ");
    reveal_strlit("every ");
    reveal_strlit("daily");
    reveal_strlit("midnight");
    reveal_strlit("hourly");
    reveal_strlit("weekly");
    reveal_strlit("monthly");
    reveal_strlit("yearly");
    reveal_strlit("annually");
    let t = schedule_text(ScheduleModel::EveryMinutes(n));
    let d = decimal(n as nat);
    lemma_decimal(n as nat);
    let v = d + seq!['m'];
    assert(t =~= "@every "@ + v);
    let m = macro_name(t);
    assert(m =~= "every "@ + v);
    assert(m[0] == 'e');
    assert(m != "daily"@ && m != "midnight"@ && m != "hourly"@ && m != "weekly"@ && m != "monthly"@
        && m != "yearly"@ && m != "annually"@);
    assert(m.take(6) =~= "every "@);
    assert(m.skip("every "@.len() as int) =~= v);
    assert forall|i: int| 0 <= i < v.len() implies !is_ws(#[trigger] v[i]) by {
        if i < d.len() {
            assert(v[i] == d[i] && is_digit(d[i]));
        }
    }
    lemma_words_of_one(v);
    assert(every_words(t) == seq![v]);
    assert(v.drop_last() =~= d);
    lemma_parse_u32_decimal(n);
    assert(every_value_spec(v) == Some(n));
}

/// A schedule read from a configuration text reads back from its own text
/// (what `to_string` gives), but for a cron step with a base (`a-b/s`,
/// whose text `a/s` is not a step).
pub proof fn law_schedule_text_reads_back(x: Seq<char>)
    requires
        schedule_readable(x),
        schedule_spec(x) is Some,
        !has_based_step(schedule_spec(x)->0),
    ensures
        schedule_readable(schedule_text(schedule_spec(x)->0)),
        schedule_spec(schedule_text(schedule_spec(x)->0)) == schedule_spec(x),
{
    reveal(schedule_spec);
    reveal(schedule_readable);
    let s = schedule_spec(x)->0;
    match s {
        ScheduleModel::Cron { minute, hour, day_of_month, month, day_of_week } => {
            assert(!is_macro_text(x));
            let w = words(x);
            lemma_parsed_field_as_parsed(w[0], 0, 59);
            lemma_parsed_field_as_parsed(w[1], 0, 23);
            lemma_parsed_field_as_parsed(w[2], 1, 31);
            lemma_parsed_field_as_parsed(w[3], 1, 12);
            lemma_parsed_field_as_parsed(w[4], 0, 7);
            lemma_cron_text_reads_back(minute, hour, day_of_month, month, day_of_week);
        },
        ScheduleModel::EveryMinutes(n) => {
            lemma_every_reads_back(n);
        },
        _ => {
            lemma_named_macro_reads_back(s);
        },
    }
}

} // verus!
