//! The task table of `list`, the daemon's summary and lines, and the
//! messages of a forced run.
use chrono::{DateTime, TimeZone, Utc};
use taskforge::cli::table::{
    daemon_summary_lines, forced_run_line, output_block, record_line, run_outcome_line, task_table_lines,
};
use taskforge::clock::UtcTime;
use taskforge::registry::TaskRegistry;
use taskforge::types::{ExecutionRecord, Schedule, Task};

fn instant(dt: DateTime<Utc>) -> UtcTime {
    UtcTime { secs: dt.timestamp(), nanos: dt.timestamp_subsec_nanos() }
}

fn make_task(id: &str, schedule: Schedule, enabled: bool) -> Task {
    Task {
        id: id.to_string(),
        name: id.to_string(),
        command: format!("echo {}", id),
        schedule,
        timeout_seconds: 60,
        max_retries: 0,
        enabled,
    }
}

fn registry() -> TaskRegistry {
    let mut reg = TaskRegistry::new();
    reg.register(make_task("zeta", Schedule::EveryMinutes(5), false));
    reg.register(make_task("alpha", Schedule::Daily, true));
    reg
}

#[test]
fn test_task_table_lines() {
    let from = instant(Utc.with_ymd_and_hms(2024, 1, 1, 12, 0, 0).unwrap());
    let lines = task_table_lines(&registry(), from);
    assert_eq!(lines.len(), 5);
    assert_eq!(
        lines[0],
        "\nID                   | Nom                       | Planification          | Prochaine exécution            | État    "
    );
    assert_eq!(
        lines[1],
        "---------------------+---------------------------+------------------------+--------------------------------+---------"
    );
    assert_eq!(
        lines[2],
        "alpha                | alpha                     | @daily                 | 2024-01-02 00:00:00 UTC        | ✓ actif "
    );
    assert_eq!(
        lines[3],
        "zeta                 | zeta                      | @every 5m              | —                              | ✗ inactif"
    );
    assert_eq!(lines[4], "\n2 tâche(s) — 1 active(s)\n");
}

#[test]
fn test_daemon_summary_lines() {
    let from = instant(Utc.with_ymd_and_hms(2024, 1, 1, 12, 0, 0).unwrap());
    let lines = daemon_summary_lines(&registry(), from);
    assert_eq!(lines.len(), 7);
    assert_eq!(lines[0], "\n╔══════════════════════════════════════════╗");
    assert_eq!(lines[3], " 2 tâche(s) chargée(s) — 1 active(s)");
    assert_eq!(lines[4], "\n Prochaines exécutions :");
    assert_eq!(lines[5], "   alpha                → 2024-01-02 00:00:00 UTC");
    assert_eq!(lines[6], "");
}

#[test]
fn test_record_and_run_lines() {
    let record = ExecutionRecord {
        task_id: "ping".to_string(),
        start_time: instant(Utc.with_ymd_and_hms(2026, 4, 30, 7, 31, 5).unwrap()),
        end_time: None,
        exit_code: Some(-2),
        stdout: "  pong \n".to_string(),
        stderr: String::new(),
        success: false,
    };
    assert_eq!(record_line(&record), "[07:31:05] ✗ 'ping' (exit: Some(-2))");
    assert_eq!(run_outcome_line(&record), "[taskforge] ✗ échec (exit: Some(-2))");
    assert_eq!(output_block("stdout", &record.stdout), Some("--- stdout ---\npong".to_string()));
    assert_eq!(output_block("stderr", &record.stderr), None);
    let ok = ExecutionRecord { exit_code: None, success: true, ..record.clone() };
    assert_eq!(run_outcome_line(&ok), "[taskforge] ✓ succès (exit: None)");
    let task = make_task("uptime-check", Schedule::EveryMinutes(1), true);
    assert_eq!(forced_run_line(&task), "[taskforge] Exécution forcée de 'uptime-check' : echo uptime-check");
}
