//! The registry: registration, lookup, activation, due and upcoming tasks,
//! and registries built from configuration files.
use chrono::{DateTime, TimeZone, Utc};
use taskforge::clock::UtcTime;
use taskforge::registry::config::{default_enabled, default_retries, default_timeout};
use taskforge::registry::{parse_schedule, tasks_from_config, ConfigError, TaskConfig, TaskRegistry, TomlConfig};
use taskforge::types::{CronField, Schedule, Task};

fn instant(dt: DateTime<Utc>) -> UtcTime {
    UtcTime { secs: dt.timestamp(), nanos: dt.timestamp_subsec_nanos() }
}

fn make_task(id: &str, schedule: Schedule, enabled: bool) -> Task {
    Task {
        id: id.to_string(),
        name: format!("Tâche {}", id),
        command: format!("echo {}", id),
        schedule,
        timeout_seconds: 60,
        max_retries: 0,
        enabled,
    }
}

/// Reads the `[[task]]` entries of a TOML text, with the defaults of the
/// configuration file, and converts them into tasks.
fn load_toml(text: &str) -> Result<Vec<Task>, ConfigError> {
    let value: toml::Value = toml::from_str(text).map_err(|e| ConfigError::Parse(e.to_string()))?;
    let entries = value.get("task").and_then(|v| v.as_array()).cloned().unwrap_or_default();
    let tasks = entries
        .iter()
        .map(|e| TaskConfig {
            id: e["id"].as_str().unwrap().to_string(),
            name: e["name"].as_str().unwrap().to_string(),
            command: e["command"].as_str().unwrap().to_string(),
            schedule: e["schedule"].as_str().unwrap().to_string(),
            timeout_seconds: e
                .get("timeout_seconds")
                .and_then(|v| v.as_integer())
                .map(|v| v as u32)
                .unwrap_or_else(default_timeout),
            max_retries: e
                .get("max_retries")
                .and_then(|v| v.as_integer())
                .map(|v| v as u32)
                .unwrap_or_else(default_retries),
            enabled: e.get("enabled").and_then(|v| v.as_bool()).unwrap_or_else(default_enabled),
        })
        .collect();
    tasks_from_config(TomlConfig { tasks })
}

// ---------------------------------------------------------------------------
// Registration and lookup
// ---------------------------------------------------------------------------

#[test]
fn test_register_and_get() {
    let mut reg = TaskRegistry::new();
    let task = make_task("t1", Schedule::Daily, true);
    reg.register(task);
    assert!(reg.get("t1").is_some());
    assert_eq!(reg.get("t1").unwrap().id, "t1");
}

#[test]
fn test_register_replaces_existing() {
    let mut reg = TaskRegistry::new();
    reg.register(make_task("t1", Schedule::Daily, true));
    let old = reg.register(make_task("t1", Schedule::Hourly, false));
    assert!(old.is_some());
    assert!(!reg.get("t1").unwrap().enabled);
}

#[test]
fn test_unregister() {
    let mut reg = TaskRegistry::new();
    reg.register(make_task("t1", Schedule::Daily, true));
    let removed = reg.unregister("t1");
    assert!(removed.is_some());
    assert!(reg.get("t1").is_none());
}

#[test]
fn test_unregister_unknown() {
    let mut reg = TaskRegistry::new();
    assert!(reg.unregister("inexistant").is_none());
}

#[test]
fn test_set_enabled() {
    let mut reg = TaskRegistry::new();
    reg.register(make_task("t1", Schedule::Daily, true));
    assert!(reg.set_enabled("t1", false));
    assert!(!reg.get("t1").unwrap().enabled);
}

#[test]
fn test_set_enabled_unknown_task() {
    let mut reg = TaskRegistry::new();
    assert!(!reg.set_enabled("fantome", false));
}

#[test]
fn test_active_count() {
    let mut reg = TaskRegistry::new();
    reg.register(make_task("t1", Schedule::Daily, true));
    reg.register(make_task("t2", Schedule::Hourly, false));
    reg.register(make_task("t3", Schedule::Weekly, true));
    assert_eq!(reg.active_count(), 2);
    assert_eq!(reg.len(), 3);
}

#[test]
fn test_from_tasks() {
    let tasks = vec![make_task("a", Schedule::Daily, true), make_task("b", Schedule::Hourly, true)];
    let reg = TaskRegistry::from_tasks(tasks);
    assert_eq!(reg.len(), 2);
}

#[test]
fn test_register_returns_replaced_task() {
    let mut reg = TaskRegistry::new();
    assert!(reg.register(make_task("t1", Schedule::Daily, true)).is_none());
    let old = reg.register(make_task("t1", Schedule::Hourly, false)).unwrap();
    assert_eq!(old.schedule, Schedule::Daily);
    assert!(old.enabled);
    assert_eq!(reg.len(), 1);
    assert_eq!(reg.get("t1").unwrap().schedule, Schedule::Hourly);
}

#[test]
fn test_register_then_unregister_restores() {
    let mut reg = TaskRegistry::new();
    reg.register(make_task("keep", Schedule::Daily, true));
    reg.register(make_task("tmp", Schedule::Hourly, true));
    let removed = reg.unregister("tmp").unwrap();
    assert_eq!(removed.id, "tmp");
    assert_eq!(reg.len(), 1);
    assert_eq!(reg.get("keep").unwrap().schedule, Schedule::Daily);
    assert!(reg.get("tmp").is_none());
}

#[test]
fn test_set_enabled_keeps_other_fields() {
    let mut reg = TaskRegistry::new();
    reg.register(make_task("t1", Schedule::Weekly, true));
    assert!(reg.set_enabled("t1", false));
    assert!(reg.set_enabled("t1", false));
    let t = reg.get("t1").unwrap();
    assert!(!t.enabled);
    assert_eq!(t.schedule, Schedule::Weekly);
    assert_eq!(t.command, "echo t1");
    assert_eq!(reg.active_count(), 0);
    assert_eq!(reg.len(), 1);
}

#[test]
fn test_from_tasks_later_duplicate_wins() {
    let tasks = vec![make_task("a", Schedule::Daily, true), make_task("a", Schedule::Hourly, false)];
    let reg = TaskRegistry::from_tasks(tasks);
    assert_eq!(reg.len(), 1);
    assert_eq!(reg.get("a").unwrap().schedule, Schedule::Hourly);
}

#[test]
fn test_all_tasks_in_registration_order() {
    let mut reg = TaskRegistry::new();
    reg.register(make_task("b", Schedule::Daily, true));
    reg.register(make_task("a", Schedule::Daily, true));
    let ids: Vec<&str> = reg.all_tasks().iter().map(|t| t.id.as_str()).collect();
    assert_eq!(ids, vec!["b", "a"]);
    assert!(!reg.is_empty());
}

// ---------------------------------------------------------------------------
// Due and upcoming tasks
// ---------------------------------------------------------------------------

#[test]
fn test_due_tasks_finds_due() {
    let mut reg = TaskRegistry::new();
    reg.register(make_task("every5m", Schedule::EveryMinutes(5), true));
    let from = instant(Utc.with_ymd_and_hms(2024, 1, 1, 12, 0, 0).unwrap());
    let due = reg.due_tasks(from, 600);
    assert!(!due.is_empty());
}

#[test]
fn test_due_tasks_excludes_disabled() {
    let mut reg = TaskRegistry::new();
    reg.register(make_task("every5m", Schedule::EveryMinutes(5), false));
    let from = instant(Utc.with_ymd_and_hms(2024, 1, 1, 12, 0, 0).unwrap());
    let due = reg.due_tasks(from, 600);
    assert!(due.is_empty());
}

#[test]
fn test_due_tasks_narrow_window() {
    let mut reg = TaskRegistry::new();
    reg.register(make_task("daily", Schedule::Daily, true));
    let from = instant(Utc.with_ymd_and_hms(2024, 1, 1, 12, 0, 0).unwrap());
    let due = reg.due_tasks(from, 60);
    assert!(due.is_empty());
}

#[test]
fn test_upcoming_sorted() {
    let mut reg = TaskRegistry::new();
    reg.register(make_task("daily", Schedule::Daily, true));
    reg.register(make_task("every5m", Schedule::EveryMinutes(5), true));
    let from = instant(Utc.with_ymd_and_hms(2024, 1, 1, 12, 0, 0).unwrap());
    let upcoming = reg.upcoming(from);
    assert_eq!(upcoming.len(), 2);
    assert_eq!(upcoming[0].0.id, "every5m");
    assert_eq!(upcoming[1].0.id, "daily");
}

#[test]
fn test_due_cron_task() {
    let mut reg = TaskRegistry::new();
    let task = make_task(
        "every_min",
        Schedule::Cron {
            minute: CronField::Any,
            hour: CronField::Any,
            day_of_month: CronField::Any,
            month: CronField::Any,
            day_of_week: CronField::Any,
        },
        true,
    );
    reg.register(task);
    let from = instant(Utc.with_ymd_and_hms(2024, 6, 15, 10, 0, 0).unwrap());
    let due = reg.due_tasks(from, 120);
    assert!(!due.is_empty());
}

#[test]
fn test_due_tasks_deadline_is_inclusive() {
    let mut reg = TaskRegistry::new();
    reg.register(make_task("every5m", Schedule::EveryMinutes(5), true));
    let from = instant(Utc.with_ymd_and_hms(2024, 1, 1, 12, 0, 0).unwrap());
    assert_eq!(reg.due_tasks(from, 300).len(), 1);
    assert!(reg.due_tasks(from, 299).is_empty());
}

#[test]
fn test_upcoming_pairs_next_occurrence() {
    let mut reg = TaskRegistry::new();
    reg.register(make_task("hourly", Schedule::Hourly, true));
    reg.register(make_task("off", Schedule::EveryMinutes(1), false));
    let from = instant(Utc.with_ymd_and_hms(2024, 1, 1, 12, 30, 0).unwrap());
    let upcoming = reg.upcoming(from);
    assert_eq!(upcoming.len(), 1);
    assert_eq!(upcoming[0].1, instant(Utc.with_ymd_and_hms(2024, 1, 1, 13, 0, 0).unwrap()));
}

// ---------------------------------------------------------------------------
// Registries built from configuration files
// ---------------------------------------------------------------------------

#[test]
fn test_load_and_count_tasks() {
    let toml = r#"
[[task]]
id = "t1"
name = "Tâche 1"
command = "echo 1"
schedule = "@daily"

[[task]]
id = "t2"
name = "Tâche 2"
command = "echo 2"
schedule = "*/15 * * * *"
"#;
    let tasks = load_toml(toml).unwrap();
    assert_eq!(tasks.len(), 2);
}

#[test]
fn test_load_schedule_cron_parsed_correctly() {
    let toml = r#"
[[task]]
id = "backup"
name = "Backup"
command = "pg_dump db"
schedule = "0 1 * * *"
"#;
    let tasks = load_toml(toml).unwrap();
    assert!(matches!(tasks[0].schedule, Schedule::Cron { .. }));
}

#[test]
fn test_load_macro_daily() {
    let toml = r#"
[[task]]
id = "clean"
name = "Nettoyage"
command = "rm -rf /tmp/*"
schedule = "@daily"
"#;
    let tasks = load_toml(toml).unwrap();
    assert_eq!(tasks[0].schedule, Schedule::Daily);
}

#[test]
fn test_load_macro_every() {
    let toml = r#"
[[task]]
id = "uptime"
name = "Uptime"
command = "systemctl status nginx"
schedule = "@every 5m"
"#;
    let tasks = load_toml(toml).unwrap();
    assert_eq!(tasks[0].schedule, Schedule::EveryMinutes(5));
}

#[test]
fn test_load_defaults_applied() {
    let toml = r#"
[[task]]
id = "minimal"
name = "Minimal"
command = "true"
schedule = "@hourly"
"#;
    let tasks = load_toml(toml).unwrap();
    assert_eq!(tasks[0].timeout_seconds, 60);
    assert_eq!(tasks[0].max_retries, 0);
    assert!(tasks[0].enabled);
}

#[test]
fn test_load_disabled_task() {
    let toml = r#"
[[task]]
id = "disabled"
name = "Désactivée"
command = "echo off"
schedule = "@weekly"
enabled = false
"#;
    let tasks = load_toml(toml).unwrap();
    assert!(!tasks[0].enabled);
}

#[test]
fn test_load_invalid_schedule_is_error() {
    let toml = r#"
[[task]]
id = "bad"
name = "Mauvaise"
command = "echo bad"
schedule = "pas_une_expression_cron"
"#;
    assert!(load_toml(toml).is_err());
}

#[test]
fn test_load_duplicate_id_is_error() {
    let toml = r#"
[[task]]
id = "dup"
name = "A"
command = "echo a"
schedule = "@daily"

[[task]]
id = "dup"
name = "B"
command = "echo b"
schedule = "@hourly"
"#;
    assert!(load_toml(toml).is_err());
}

#[test]
fn test_load_errors_name_the_culprit() {
    let dup = load_toml(
        r#"
[[task]]
id = "dup"
name = "A"
command = "echo a"
schedule = "pas_une_expression"

[[task]]
id = "dup"
name = "B"
command = "echo b"
schedule = "@hourly"
"#,
    );
    match dup {
        Err(e) => assert_eq!(e.to_string(), "Identifiant dupliqué : 'dup'"),
        Ok(_) => panic!("doublon accepté"),
    }
    let bad = load_toml(
        r#"
[[task]]
id = "bad"
name = "Mauvaise"
command = "echo bad"
schedule = "61 * * * *"
"#,
    );
    match bad {
        Err(e) => assert_eq!(e.to_string(), "Planification invalide pour la tâche 'bad' : '61 * * * *'"),
        Ok(_) => panic!("planification invalide acceptée"),
    }
    assert_eq!(ConfigError::Io("absent".to_string()).to_string(), "Erreur I/O : absent");
    assert_eq!(ConfigError::Parse("ligne 1".to_string()).to_string(), "TOML invalide : ligne 1");
}

#[test]
fn test_registry_from_config_file() {
    let toml = r#"
[[task]]
id = "t1"
name = "T1"
command = "echo t1"
schedule = "@daily"

[[task]]
id = "t2"
name = "T2"
command = "echo t2"
schedule = "@hourly"
enabled = false
"#;
    let tasks = load_toml(toml).unwrap();
    let reg = TaskRegistry::from_tasks(tasks);
    assert_eq!(reg.len(), 2);
    assert_eq!(reg.active_count(), 1);
}

#[test]
fn test_registry_set_enabled_then_due() {
    let toml = r#"
[[task]]
id = "t1"
name = "T1"
command = "echo t1"
schedule = "@every 5m"
enabled = false
"#;
    let tasks = load_toml(toml).unwrap();
    let mut reg = TaskRegistry::from_tasks(tasks);
    let from = instant(Utc.with_ymd_and_hms(2024, 1, 1, 12, 0, 0).unwrap());
    assert!(reg.due_tasks(from, 600).is_empty());
    reg.set_enabled("t1", true);
    assert!(!reg.due_tasks(from, 600).is_empty());
}

#[test]
fn test_registry_upcoming_order() {
    let toml = r#"
[[task]]
id = "slow"
name = "Lente"
command = "echo slow"
schedule = "@daily"

[[task]]
id = "fast"
name = "Rapide"
command = "echo fast"
schedule = "@every 5m"
"#;
    let tasks = load_toml(toml).unwrap();
    let reg = TaskRegistry::from_tasks(tasks);
    let from = instant(Utc.with_ymd_and_hms(2024, 1, 1, 12, 0, 0).unwrap());
    let upcoming = reg.upcoming(from);
    assert_eq!(upcoming.len(), 2);
    assert_eq!(upcoming[0].0.id, "fast");
    assert_eq!(upcoming[1].0.id, "slow");
}

#[test]
fn test_registry_unregister_task() {
    let toml = r#"
[[task]]
id = "tmp"
name = "Temporaire"
command = "echo tmp"
schedule = "@hourly"
"#;
    let tasks = load_toml(toml).unwrap();
    let mut reg = TaskRegistry::from_tasks(tasks);
    assert!(reg.get("tmp").is_some());
    reg.unregister("tmp");
    assert!(reg.get("tmp").is_none());
    assert!(reg.is_empty());
}

#[test]
fn test_full_config_to_due_tasks() {
    let toml = r#"
[[task]]
id = "fast"
name = "Rapide"
command = "echo fast"
schedule = "@every 5m"

[[task]]
id = "daily"
name = "Quotidienne"
command = "echo daily"
schedule = "@daily"

[[task]]
id = "disabled"
name = "Désactivée"
command = "echo off"
schedule = "@every 5m"
enabled = false
"#;
    let tasks = load_toml(toml).unwrap();
    let reg = TaskRegistry::from_tasks(tasks);
    let from = instant(Utc.with_ymd_and_hms(2024, 1, 1, 12, 0, 0).unwrap());
    let due = reg.due_tasks(from, 600);
    assert_eq!(due.len(), 1);
    assert_eq!(due[0].id, "fast");
}

#[test]
fn test_all_macros_parse_and_register() {
    let toml = r#"
[[task]]
id = "t-hourly"
name = "Hourly"
command = "echo h"
schedule = "@hourly"

[[task]]
id = "t-daily"
name = "Daily"
command = "echo d"
schedule = "@daily"

[[task]]
id = "t-weekly"
name = "Weekly"
command = "echo w"
schedule = "@weekly"

[[task]]
id = "t-monthly"
name = "Monthly"
command = "echo m"
schedule = "@monthly"

[[task]]
id = "t-yearly"
name = "Yearly"
command = "echo y"
schedule = "@yearly"

[[task]]
id = "t-every"
name = "Every 10m"
command = "echo e"
schedule = "@every 10m"
"#;
    let tasks = load_toml(toml).unwrap();
    let reg = TaskRegistry::from_tasks(tasks);
    assert_eq!(reg.len(), 6);
    assert_eq!(reg.active_count(), 6);
}

// ---------------------------------------------------------------------------
// Configuration entries
// ---------------------------------------------------------------------------

#[test]
fn test_load_valid_config() {
    let toml = r#"
[[task]]
id = "backup"
name = "Sauvegarde BDD"
command = "pg_dump mydb > /backup/db.sql"
schedule = "0 1 * * *"
timeout_seconds = 120
max_retries = 2
enabled = true
"#;
    let tasks = load_toml(toml).unwrap();
    assert_eq!(tasks.len(), 1);
    assert_eq!(tasks[0].id, "backup");
    assert_eq!(tasks[0].timeout_seconds, 120);
    assert_eq!(tasks[0].max_retries, 2);
    assert!(tasks[0].enabled);
}

#[test]
fn test_load_macro_schedule() {
    let toml = r#"
[[task]]
id = "cleanup"
name = "Nettoyage"
command = "rm -rf /tmp/*"
schedule = "@daily"
"#;
    let tasks = load_toml(toml).unwrap();
    assert_eq!(tasks[0].schedule, Schedule::Daily);
}

#[test]
fn test_default_values() {
    let toml = r#"
[[task]]
id = "ping"
name = "Ping"
command = "ping -c1 localhost"
schedule = "@hourly"
"#;
    let tasks = load_toml(toml).unwrap();
    assert_eq!(tasks[0].timeout_seconds, 60);
    assert_eq!(tasks[0].max_retries, 0);
    assert!(tasks[0].enabled);
}

#[test]
fn test_invalid_schedule_returns_error() {
    let toml = r#"
[[task]]
id = "bad"
name = "Mauvaise tâche"
command = "echo bad"
schedule = "pas_valide"
"#;
    let result = load_toml(toml);
    assert!(result.is_err());
    let err = result.unwrap_err();
    assert!(matches!(err, ConfigError::InvalidSchedule { .. }));
}

#[test]
fn test_duplicate_id_returns_error() {
    let toml = r#"
[[task]]
id = "dup"
name = "Tâche 1"
command = "echo 1"
schedule = "@daily"

[[task]]
id = "dup"
name = "Tâche 2"
command = "echo 2"
schedule = "@hourly"
"#;
    let result = load_toml(toml);
    assert!(matches!(result.unwrap_err(), ConfigError::DuplicateId(_)));
}

#[test]
fn test_multiple_tasks() {
    let toml = r#"
[[task]]
id = "t1"
name = "Tâche 1"
command = "echo 1"
schedule = "*/15 * * * *"

[[task]]
id = "t2"
name = "Tâche 2"
command = "echo 2"
schedule = "@weekly"
enabled = false
"#;
    let tasks = load_toml(toml).unwrap();
    assert_eq!(tasks.len(), 2);
    assert!(!tasks[1].enabled);
}

#[test]
fn test_every_macro_schedule() {
    let toml = r#"
[[task]]
id = "uptime"
name = "Vérification uptime"
command = "systemctl status nginx"
schedule = "@every 5m"
"#;
    let tasks = load_toml(toml).unwrap();
    assert_eq!(tasks[0].schedule, Schedule::EveryMinutes(5));
}

#[test]
fn test_malformed_toml() {
    let result = load_toml("ceci n'est pas du TOML valide [[[");
    assert!(matches!(result.unwrap_err(), ConfigError::Parse(_)));
}

#[test]
fn test_parse_schedule_macro_or_cron() {
    assert_eq!(parse_schedule("@hourly"), Some(Schedule::Hourly));
    assert!(matches!(parse_schedule("*/5 * * * *"), Some(Schedule::Cron { .. })));
    assert_eq!(parse_schedule("@jamais"), None);
    assert_eq!(parse_schedule("99 * * * *"), None);
}

#[test]
fn test_default_registry_is_empty() {
    let reg = TaskRegistry::default();
    assert!(reg.is_empty());
    assert_eq!(reg.len(), 0);
    assert_eq!(reg.active_count(), 0);
}
