//! Shared data types: schedules, cron fields, tasks and execution records.
use vstd::prelude::*;
use crate::clock::UtcTime;
use crate::text::{chars_of, decimal, push_decimal, string_of};

verus! {

/// One field of a five-field cron expression.
#[derive(Debug, Clone, PartialEq)]
pub enum CronField {
    /// `*`
    Any,
    /// a single value
    Single(u32),
    /// `a,b,c`
    List(Vec<u32>),
    /// `a-b`
    Range(u32, u32),
    /// `*/s` (base 0) or `a-b/s` (base `a`)
    Step(u32, u32),
}

/// Mathematical model of a [`CronField`].
pub enum CronFieldModel {
    Any,
    Single(u32),
    List(Seq<u32>),
    Range(u32, u32),
    Step(u32, u32),
}

impl View for CronField {
    type V = CronFieldModel;

    open spec fn view(&self) -> CronFieldModel {
        match self {
            CronField::Any => CronFieldModel::Any,
            CronField::Single(v) => CronFieldModel::Single(*v),
            CronField::List(vs) => CronFieldModel::List(vs@),
            CronField::Range(a, b) => CronFieldModel::Range(*a, *b),
            CronField::Step(a, b) => CronFieldModel::Step(*a, *b),
        }
    }
}

/// When a task runs.
#[derive(Debug, Clone, PartialEq)]
pub enum Schedule {
    /// Five-field cron expression.
    Cron {
        minute: CronField,
        hour: CronField,
        day_of_month: CronField,
        month: CronField,
        day_of_week: CronField,
    },
    Daily,
    Hourly,
    Weekly,
    Monthly,
    Yearly,
    /// Fixed interval, in minutes.
    EveryMinutes(u32),
}

/// Mathematical model of a [`Schedule`].
pub enum ScheduleModel {
    Cron {
        minute: CronFieldModel,
        hour: CronFieldModel,
        day_of_month: CronFieldModel,
        month: CronFieldModel,
        day_of_week: CronFieldModel,
    },
    Daily,
    Hourly,
    Weekly,
    Monthly,
    Yearly,
    EveryMinutes(u32),
}

impl View for Schedule {
    type V = ScheduleModel;

    open spec fn view(&self) -> ScheduleModel {
        match self {
            Schedule::Cron { minute, hour, day_of_month, month, day_of_week } => ScheduleModel::Cron {
                minute: minute@,
                hour: hour@,
                day_of_month: day_of_month@,
                month: month@,
                day_of_week: day_of_week@,
            },
            Schedule::Daily => ScheduleModel::Daily,
            Schedule::Hourly => ScheduleModel::Hourly,
            Schedule::Weekly => ScheduleModel::Weekly,
            Schedule::Monthly => ScheduleModel::Monthly,
            Schedule::Yearly => ScheduleModel::Yearly,
            Schedule::EveryMinutes(n) => ScheduleModel::EveryMinutes(*n),
        }
    }
}

/// Model of an optional schedule.
pub open spec fn opt_schedule(o: Option<Schedule>) -> Option<ScheduleModel> {
    match o {
        Some(s) => Some(s@),
        None => None,
    }
}

/// A task of the scheduler.
#[derive(Debug, Clone)]
pub struct Task {
    pub id: String,
    pub name: String,
    pub command: String,
    pub schedule: Schedule,
    pub timeout_seconds: u32,
    pub max_retries: u32,
    /// Disabled tasks are never due.
    pub enabled: bool,
}

/// The outcome of one run of a task, as kept in the history.
#[derive(Debug, Clone)]
pub struct ExecutionRecord {
    pub task_id: String,
    pub start_time: UtcTime,
    /// `None` while the run has not finished.
    pub end_time: Option<UtcTime>,
    /// `None` when the process did not exit normally.
    pub exit_code: Option<i32>,
    pub stdout: String,
    pub stderr: String,
    pub success: bool,
}

// ---------------------------------------------------------------------------
// Text form (cron syntax)
// ---------------------------------------------------------------------------

/// `values` printed in decimal and joined with commas.
pub open spec fn joined_decimals(values: Seq<u32>) -> Seq<char>
    decreases values.len(),
{
    if values.len() == 0 {
        Seq::empty()
    } else if values.len() == 1 {
        decimal(values[0] as nat)
    } else {
        joined_decimals(values.drop_last()) + seq![','] + decimal(values.last() as nat)
    }
}

/// Text of a cron field: `*`, `5`, `1,3,5`, `1-5`, `*/15` or `2/15`.
pub open spec fn cron_field_text(f: CronFieldModel) -> Seq<char> {
    match f {
        CronFieldModel::Any => seq!['*'],
        CronFieldModel::Single(v) => decimal(v as nat),
        CronFieldModel::List(vs) => joined_decimals(vs),
        CronFieldModel::Range(a, b) => decimal(a as nat) + seq!['-'] + decimal(b as nat),
        CronFieldModel::Step(base, step) => if base == 0 {
            seq!['*', '/'] + decimal(step as nat)
        } else {
            decimal(base as nat) + seq!['/'] + decimal(step as nat)
        },
    }
}

/// Text of a schedule: a macro (`@daily`, `@every 10m`, ...) or the five
/// cron fields separated by single spaces.
pub open spec fn schedule_text(s: ScheduleModel) -> Seq<char> {
    match s {
        ScheduleModel::Daily => "@daily"@,
        ScheduleModel::Hourly => "@hourly"@,
        ScheduleModel::Weekly => "@weekly"@,
        ScheduleModel::Monthly => "@monthly"@,
        ScheduleModel::Yearly => "@yearly"@,
        ScheduleModel::EveryMinutes(n) => "@every "@ + decimal(n as nat) + seq!['m'],
        ScheduleModel::Cron { minute, hour, day_of_month, month, day_of_week } => cron_field_text(
            minute,
        ) + seq![' '] + cron_field_text(hour) + seq![' '] + cron_field_text(day_of_month) + seq![
            ' ',
        ] + cron_field_text(month) + seq![' '] + cron_field_text(day_of_week),
    }
}

impl CronField {
    /// Appends the text of this field.
    pub fn push_text(&self, out: &mut Vec<char>)
        ensures
            final(out)@ == old(out)@ + cron_field_text(self@),
    {
        match self {
            CronField::Any => {
                out.push('*');
            },
            CronField::Single(v) => {
                push_decimal(out, *v as u64);
            },
            CronField::List(values) => {
                let ghost start = out@;
                let mut i: usize = 0;
                while i < values.len()
                    invariant
                        i <= values.len(),
                        out@ == start + joined_decimals(values@.take(i as int)),
                    decreases values.len() - i,
                {
                    assert(values@.take(i + 1).drop_last() =~= values@.take(i as int));
                    if i > 0 {
                        out.push(',');
                    }
                    push_decimal(out, values[i] as u64);
                    i = i + 1;
                    assert(out@ =~= start + joined_decimals(values@.take(i as int)));
                }
                assert(values@.take(values.len() as int) =~= values@);
            },
            CronField::Range(a, b) => {
                push_decimal(out, *a as u64);
                out.push('-');
                push_decimal(out, *b as u64);
                assert(out@ =~= old(out)@ + cron_field_text(self@));
            },
            CronField::Step(base, step) => {
                if *base == 0 {
                    out.push('*');
                    out.push('/');
                } else {
                    push_decimal(out, *base as u64);
                    out.push('/');
                }
                push_decimal(out, *step as u64);
                assert(out@ =~= old(out)@ + cron_field_text(self@));
            },
        }
    }

    /// The cron text of this field (what its `Display` printed).
    pub fn to_string(&self) -> (s: String)
        ensures
            s@ == cron_field_text(self@),
    {
        let mut out: Vec<char> = Vec::new();
        self.push_text(&mut out);
        assert(out@ =~= cron_field_text(self@));
        string_of(&out)
    }
}

impl Schedule {
    /// The text of this schedule (what its `Display` printed).
    pub fn to_string(&self) -> (s: String)
        ensures
            s@ == schedule_text(self@),
    {
        let mut out: Vec<char> = match self {
            Schedule::Daily => chars_of("@daily"),
            Schedule::Hourly => chars_of("@hourly"),
            Schedule::Weekly => chars_of("@weekly"),
            Schedule::Monthly => chars_of("@monthly"),
            Schedule::Yearly => chars_of("@yearly"),
            Schedule::EveryMinutes(n) => {
                let mut o = chars_of("@every ");
                push_decimal(&mut o, *n as u64);
                o.push('m');
                o
            },
            Schedule::Cron { minute, hour, day_of_month, month, day_of_week } => {
                let mut o: Vec<char> = Vec::new();
                minute.push_text(&mut o);
                o.push(' ');
                hour.push_text(&mut o);
                o.push(' ');
                day_of_month.push_text(&mut o);
                o.push(' ');
                month.push_text(&mut o);
                o.push(' ');
                day_of_week.push_text(&mut o);
                o
            },
        };
        assert(out@ =~= schedule_text(self@));
        string_of(&out)
    }
}

} // verus!
