//! What the commands of the command line print.
use taskforge::cli::commands::{default_config_path, list_lines, load_error_line, run_lines, set_enabled_command, Cli, Commands};
use taskforge::cli::health::{health_footer, health_head, health_row};
use taskforge::history::query::parse_line;
use taskforge::registry::{ConfigError, TaskRegistry};
use taskforge::types::{Schedule, Task};

fn make_task(id: &str, schedule: Schedule, enabled: bool) -> Task {
    Task {
        id: id.to_string(),
        name: id.to_string(),
        command: format!("echo {}", id),
        schedule,
        timeout_seconds: 60,
        max_retries: 0,
        enabled,
    }
}

#[test]
fn test_cli_default_config_path() {
    assert_eq!(default_config_path(), "config/tasks.toml");
    let cli = Cli::new(Commands::List, None);
    assert_eq!(cli.config, "config/tasks.toml");
    assert_eq!(cli.command, Commands::List);
    let custom = Cli::new(Commands::Status, Some("/etc/taskforge/prod.toml".to_string()));
    assert_eq!(custom.config, "/etc/taskforge/prod.toml");
}

#[test]
fn test_list_lines_table() {
    let mut reg = TaskRegistry::new();
    reg.register(make_task("backup", Schedule::Daily, true));
    reg.register(make_task("off", Schedule::EveryMinutes(5), false));
    let lines = list_lines(&reg);
    assert_eq!(lines.len(), 4);
    assert_eq!(lines[0], "ID              | Nom                  | Planification        | État      ");
    assert_eq!(lines[1], "----------------+----------------------+----------------------+-----------");
    assert_eq!(lines[2], "backup          | backup               | @daily               | Actif     ");
    assert_eq!(lines[3], "off             | off                  | @every 5m            | Inactif   ");
}

#[test]
fn test_list_lines_long_values_kept_whole() {
    let mut reg = TaskRegistry::new();
    reg.register(make_task("un-identifiant-tres-long", Schedule::Hourly, true));
    let lines = list_lines(&reg);
    assert!(lines[2].starts_with("un-identifiant-tres-long | "));
}

#[test]
fn test_enable_disable_messages() {
    let mut reg = TaskRegistry::new();
    reg.register(make_task("nightly", Schedule::Daily, true));
    assert_eq!(
        set_enabled_command(&mut reg, "nightly", false),
        Ok("Succès : La tâche 'nightly' est maintenant désactivée.".to_string())
    );
    assert!(!reg.get("nightly").unwrap().enabled);
    assert_eq!(
        set_enabled_command(&mut reg, "nightly", true),
        Ok("Succès : La tâche 'nightly' est maintenant activée.".to_string())
    );
    assert_eq!(
        set_enabled_command(&mut reg, "fantome", true),
        Err("Erreur : Tâche 'fantome' introuvable.".to_string())
    );
    assert_eq!(reg.len(), 1);
}

#[test]
fn test_run_lines() {
    let mut reg = TaskRegistry::new();
    reg.register(make_task("backup_db", Schedule::Daily, true));
    let lines = run_lines(&reg, "backup_db").unwrap();
    assert_eq!(lines[0], "Exécution forcée de la tâche 'backup_db' (Commande: echo backup_db)...");
    assert_eq!(lines[1], "Signal envoyé au moteur d'exécution (Simulation).");
    assert_eq!(run_lines(&reg, "x"), Err("Erreur : Tâche 'x' introuvable.".to_string()));
}

#[test]
fn test_load_error_line() {
    let e = ConfigError::DuplicateId("dup".to_string());
    assert_eq!(load_error_line(&e), "Erreur lors du chargement de la configuration : Identifiant dupliqué : 'dup'");
}

#[test]
fn test_health_report_lines() {
    let head = health_head();
    assert_eq!(head[0], "=== RAPPORT DE SANTÉ TASKFORGE ===");
    assert_eq!(head[1], "ID Tâche        | État       | Succès (%) | Dernière Exécution       ");
    assert_eq!(head[2], "----------------+------------+------------+--------------------------");
    let active = make_task("backup-bdd", Schedule::Daily, true);
    let last = parse_line("backup-bdd", "2026-04-30 02:00:01,x,success,0,1000ms,\"ok\"");
    assert_eq!(
        health_row(&active, "100.0", &last),
        "backup-bdd      | Actif      | 100.0      | 2026-04-30 02:00:01 (success)"
    );
    let idle = make_task("rapport-charge", Schedule::Hourly, false);
    assert_eq!(
        health_row(&idle, "0.0", &None),
        "rapport-charge  | Désactivé  | 0.0        | Jamais exécutée          "
    );
}

#[test]
fn test_active_count_reflected_correctly() {
    let mut registry = TaskRegistry::new();
    registry.register(make_task("active", Schedule::EveryMinutes(5), true));
    registry.register(make_task("inactive", Schedule::EveryMinutes(5), false));
    assert_eq!(registry.active_count(), 1);
    assert_eq!(registry.len(), 2);
    assert_eq!(health_footer(&registry), "\nTotal tâches actives : 1 / 2");
}

#[test]
fn test_print_health_report_empty_registry() {
    let registry = TaskRegistry::new();
    assert_eq!(health_head().len(), 3);
    assert_eq!(health_footer(&registry), "\nTotal tâches actives : 0 / 0");
}

#[test]
fn test_health_report_empty_registry_no_panic() {
    let registry = TaskRegistry::new();
    let _ = health_head();
    let _ = health_footer(&registry);
}

#[test]
fn test_health_report_tasks_no_history_no_panic() {
    let mut registry = TaskRegistry::new();
    registry.register(make_task("t1", Schedule::EveryMinutes(5), true));
    registry.register(make_task("t2", Schedule::EveryMinutes(5), false));
    for task in registry.all_tasks() {
        let row = health_row(task, "0.0", &None);
        assert!(row.contains("Jamais exécutée"));
    }
    assert_eq!(health_footer(&registry), "\nTotal tâches actives : 1 / 2");
}
