//! The history: log lines, monthly log files, and the queries over a
//! listing of the logs directory (kept here in memory).
use chrono::{DateTime, Utc};
use taskforge::clock::UtcTime;
use taskforge::history::query::{parse_line, read_all_entries, success_counts, LogFile};
use taskforge::history::store::{log_file_name, log_path, to_csv_line};
use taskforge::history::{last_execution, list_known_tasks, total_executions};
use taskforge::types::ExecutionRecord;

fn instant(dt: DateTime<Utc>) -> UtcTime {
    UtcTime { secs: dt.timestamp(), nanos: dt.timestamp_subsec_nanos() }
}

fn at(rfc3339: &str) -> UtcTime {
    instant(DateTime::parse_from_rfc3339(rfc3339).unwrap().with_timezone(&Utc))
}

fn later(t: UtcTime, millis: i64) -> UtcTime {
    instant(DateTime::from_timestamp(t.secs, t.nanos).unwrap() + chrono::Duration::milliseconds(millis))
}

fn make_record(task_id: &str, success: bool, exit_code: Option<i32>) -> ExecutionRecord {
    let start = instant(Utc::now());
    ExecutionRecord {
        task_id: task_id.to_string(),
        start_time: start,
        end_time: Some(later(start, 800)),
        exit_code,
        stdout: if success { "tout ok".to_string() } else { String::new() },
        stderr: if !success { "erreur critique".to_string() } else { String::new() },
        success,
    }
}

fn make_record_at(task_id: &str, success: bool, rfc3339: &str) -> ExecutionRecord {
    let start = at(rfc3339);
    ExecutionRecord {
        task_id: task_id.to_string(),
        start_time: start,
        end_time: Some(later(start, 1000)),
        exit_code: if success { Some(0) } else { Some(1) },
        stdout: if success { "ok".to_string() } else { String::new() },
        stderr: if !success { "fail".to_string() } else { String::new() },
        success,
    }
}

/// Appends the line of a record to its monthly file, as the history writer does.
fn save(files: &mut Vec<LogFile>, record: &ExecutionRecord) {
    let name = log_file_name(record);
    let line = to_csv_line(record);
    match files.iter_mut().find(|f| f.name == name) {
        Some(f) => f.content.push_str(&line),
        None => files.push(LogFile { name, content: line }),
    }
}

/// Appends a raw line (and its newline) to the file `{task_id}_{month}.log`.
fn write_log_line(files: &mut Vec<LogFile>, task_id: &str, month: &str, line: &str) {
    let name = format!("{}_{}.log", task_id, month);
    let text = format!("{}\n", line);
    match files.iter_mut().find(|f| f.name == name) {
        Some(f) => f.content.push_str(&text),
        None => files.push(LogFile { name, content: text }),
    }
}

fn success_rate(task_id: &str, files: &Vec<LogFile>, last_n: usize) -> f64 {
    let (ok, total) = success_counts(task_id, files, last_n);
    if total == 0 {
        0.0
    } else {
        ok as f64 / total as f64
    }
}

fn names(files: &Vec<LogFile>) -> Vec<String> {
    files.iter().map(|f| f.name.clone()).collect()
}

fn success_line() -> String {
    "2026-04-26T01:00:00Z,2026-04-26T01:00:01Z,success,0,1000ms,\"OK\"".to_string()
}

fn failure_line() -> String {
    "2026-04-26T02:00:00Z,2026-04-26T02:00:03Z,failure,1,3000ms,\"Erreur connexion\"".to_string()
}

// ---------------------------------------------------------------------------
// Log lines
// ---------------------------------------------------------------------------

#[test]
fn test_parse_line_valide() {
    let line = "2026-04-26T01:00:00Z,2026-04-26T01:00:01Z,success,0,1250ms,\"Backup OK\"";
    let entry = parse_line("backup_db", line);
    assert!(entry.is_some());
    let e = entry.unwrap();
    assert_eq!(e.status, "success");
    assert_eq!(e.exit_code, 0);
    assert_eq!(e.duration_ms, 1250);
    assert_eq!(e.message, "Backup OK");
}

#[test]
fn test_parse_line_malformee_ignoree() {
    let line = "2026-04-26,failure,1";
    let entry = parse_line("task", line);
    assert!(entry.is_none(), "Ligne malformée doit retourner None");
}

#[test]
fn test_parse_line_fields_not_numbers() {
    let e = parse_line("t", "a,b,c,x,yms,msg, with comma").unwrap();
    assert_eq!(e.task_id, "t");
    assert_eq!(e.start_time, "a");
    assert_eq!(e.end_time, "b");
    assert_eq!(e.exit_code, -1);
    assert_eq!(e.duration_ms, -1);
    assert_eq!(e.message, "msg, with comma");
}

#[test]
fn test_log_path_format_mensuel() {
    let record = make_record("backup_db", true, Some(0));
    let path = log_path(&record);
    let name = std::path::Path::new(&path).file_name().unwrap().to_str().unwrap().to_string();
    assert!(name.starts_with("backup_db_"), "Nom incorrect : {}", name);
    assert!(name.ends_with(".log"), "Extension incorrecte : {}", name);
    assert!(name.contains("202"), "Année manquante dans : {}", name);
    assert!(path.starts_with("logs/"));
}

#[test]
fn test_log_file_name_of_month() {
    let record = make_record_at("backup", true, "2026-04-15T01:00:00Z");
    assert_eq!(log_file_name(&record), "backup_2026-04.log");
    let march = make_record_at("backup", true, "2026-03-31T23:59:59Z");
    assert_eq!(log_path(&march), "logs/backup_2026-03.log");
}

#[test]
fn test_csv_line_succes() {
    let record = make_record("ping", true, Some(0));
    let line = to_csv_line(&record);
    assert!(line.contains("success"), "Statut manquant : {}", line);
    assert!(line.contains(",0,"), "Exit code 0 manquant : {}", line);
    assert!(line.contains("ms,"), "Durée manquante : {}", line);
    assert!(line.ends_with('\n'), "Newline finale manquante");
}

#[test]
fn test_csv_line_echec_avec_stderr() {
    let record = make_record("backup", false, Some(1));
    let line = to_csv_line(&record);
    assert!(line.contains("failure"), "Statut failure manquant : {}", line);
    assert!(line.contains("erreur critique"), "Message stderr manquant : {}", line);
}

#[test]
fn test_csv_line_timeout_end_time_none() {
    let mut record = make_record("slow_task", false, None);
    record.end_time = None;
    let line = to_csv_line(&record);
    assert!(line.contains("en_cours"), "Marqueur en_cours manquant : {}", line);
    assert!(line.contains(",-1,"), "Exit code -1 manquant : {}", line);
}

#[test]
fn test_csv_line_exact_text() {
    let record = ExecutionRecord {
        task_id: "backup".to_string(),
        start_time: at("2026-04-15T01:00:00Z"),
        end_time: Some(at("2026-04-15T01:00:01.250Z")),
        exit_code: Some(0),
        stdout: "ligne \"un\"\nligne deux".to_string(),
        stderr: String::new(),
        success: true,
    };
    assert_eq!(
        to_csv_line(&record),
        "2026-04-15T01:00:00+00:00,2026-04-15T01:00:01.250+00:00,success,0,1250ms,\"ligne 'un' ligne deux\"\n"
    );
}

#[test]
fn test_csv_line_negative_duration_rounds_toward_zero() {
    let start = at("2026-04-15T01:00:01Z");
    let record = ExecutionRecord {
        task_id: "t".to_string(),
        start_time: start,
        end_time: Some(later(start, -1500)),
        exit_code: None,
        stdout: String::new(),
        stderr: String::new(),
        success: false,
    };
    let line = to_csv_line(&record);
    assert!(line.contains(",-1,-1500ms,\"\""), "{}", line);
}

#[test]
fn test_csv_line_reads_back() {
    let record = ExecutionRecord {
        task_id: "backup".to_string(),
        start_time: at("2026-04-15T01:00:00.000123Z"),
        end_time: Some(at("2026-04-15T01:00:02Z")),
        exit_code: Some(3),
        stdout: "ok".to_string(),
        stderr: "disque \"plein\", arrêt".to_string(),
        success: false,
    };
    let line = to_csv_line(&record);
    let e = parse_line("backup", line.strip_suffix('\n').unwrap()).unwrap();
    assert_eq!(e.start_time, "2026-04-15T01:00:00.000123+00:00");
    assert_eq!(e.end_time, "2026-04-15T01:00:02+00:00");
    assert_eq!(e.status, "failure");
    assert_eq!(e.exit_code, 3);
    assert_eq!(e.duration_ms, 1999);
    assert_eq!(e.message, "disque 'plein', arrêt");
}

// ---------------------------------------------------------------------------
// Queries over the log files
// ---------------------------------------------------------------------------

#[test]
fn test_last_execution_trouve() {
    let mut files = Vec::new();
    write_log_line(&mut files, "my_task", "2026-04", &success_line());
    let entry = last_execution("my_task", &files);
    assert!(entry.is_some(), "Devrait trouver une entrée");
    assert_eq!(entry.unwrap().status, "success");
}

#[test]
fn test_last_execution_retourne_la_derniere() {
    let mut files = Vec::new();
    write_log_line(&mut files, "task_a", "2026-04", &success_line());
    write_log_line(&mut files, "task_a", "2026-04", &failure_line());
    let entry = last_execution("task_a", &files);
    assert!(entry.is_some());
    assert_eq!(entry.unwrap().status, "failure", "Devrait retourner la DERNIÈRE entrée (failure)");
}

#[test]
fn test_last_execution_aucun_log() {
    let files: Vec<LogFile> = Vec::new();
    let entry = last_execution("tache_inexistante", &files);
    assert!(entry.is_none(), "Devrait retourner None si aucun log");
}

#[test]
fn test_success_rate_tous_succes() {
    let mut files = Vec::new();
    for _ in 0..4 {
        write_log_line(&mut files, "task_ok", "2026-04", &success_line());
    }
    let rate = success_rate("task_ok", &files, 10);
    assert!((rate - 1.0).abs() < 0.001, "Taux attendu : 1.0, obtenu : {}", rate);
}

#[test]
fn test_success_rate_mixte() {
    let mut files = Vec::new();
    for _ in 0..3 {
        write_log_line(&mut files, "task_mix", "2026-04", &success_line());
    }
    write_log_line(&mut files, "task_mix", "2026-04", &failure_line());
    let rate = success_rate("task_mix", &files, 10);
    assert!((rate - 0.75).abs() < 0.001, "Taux attendu : 0.75, obtenu : {}", rate);
}

#[test]
fn test_success_rate_fenetre_glissante() {
    let mut files = Vec::new();
    for _ in 0..5 {
        write_log_line(&mut files, "task_win", "2026-04", &success_line());
    }
    write_log_line(&mut files, "task_win", "2026-04", &failure_line());
    let rate = success_rate("task_win", &files, 2);
    assert!((rate - 0.5).abs() < 0.001, "Fenêtre sur 2 : taux attendu 0.5, obtenu {}", rate);
}

#[test]
fn test_success_rate_aucun_log() {
    let files: Vec<LogFile> = Vec::new();
    let rate = success_rate("inexistant", &files, 10);
    assert_eq!(rate, 0.0, "Taux doit être 0.0 si aucun log");
}

#[test]
fn test_success_counts_window() {
    let mut files = Vec::new();
    for _ in 0..5 {
        write_log_line(&mut files, "w", "2026-04", &success_line());
    }
    write_log_line(&mut files, "w", "2026-04", &failure_line());
    assert_eq!(success_counts("w", &files, 0), (5, 6));
    assert_eq!(success_counts("w", &files, 2), (1, 2));
    assert_eq!(success_counts("w", &files, 6), (5, 6));
    assert_eq!(success_counts("w", &files, 60), (5, 6));
}

#[test]
fn test_list_known_tasks() {
    let mut files = Vec::new();
    write_log_line(&mut files, "backupdb", "2026-04", &success_line());
    write_log_line(&mut files, "cleanup", "2026-04", &failure_line());
    write_log_line(&mut files, "backupdb", "2026-03", &success_line());
    let tasks = list_known_tasks(&names(&files));
    assert_eq!(tasks.len(), 2, "Attendu 2 tâches distinctes, trouvé : {:?}", tasks);
    assert!(tasks.contains(&"backupdb".to_string()));
    assert!(tasks.contains(&"cleanup".to_string()));
}

#[test]
fn test_list_known_tasks_avec_underscore_dans_id() {
    let mut files = Vec::new();
    write_log_line(&mut files, "backup_db", "2026-04", &success_line());
    let tasks = list_known_tasks(&names(&files));
    assert!(!tasks.is_empty(), "Au moins une tâche doit être détectée (même avec le bug)");
    assert_eq!(tasks, vec!["backup_db".to_string()]);
}

#[test]
fn test_list_known_tasks_sorted_and_filtered() {
    let listing = vec![
        "zeta_2026-04.log".to_string(),
        "alpha_2026-01.log".to_string(),
        "notes.txt".to_string(),
        "short.log".to_string(),
        "alpha_2026-02.log".to_string(),
        "nounderscore2026-04.log".to_string(),
    ];
    assert_eq!(list_known_tasks(&listing), vec!["alpha".to_string(), "zeta".to_string()]);
}

#[test]
fn test_total_executions() {
    let mut files = Vec::new();
    for _ in 0..7 {
        write_log_line(&mut files, "task_count", "2026-04", &success_line());
    }
    assert_eq!(total_executions("task_count", &files), 7);
}

#[test]
fn test_read_all_entries_in_month_order() {
    let mut files = Vec::new();
    write_log_line(&mut files, "m", "2026-04", &failure_line());
    write_log_line(&mut files, "m", "2026-03", &success_line());
    write_log_line(&mut files, "other", "2026-05", &success_line());
    write_log_line(&mut files, "m", "2026-04", "");
    write_log_line(&mut files, "m", "2026-04", "ligne,trop,courte");
    let entries = read_all_entries("m", &files);
    let statuses: Vec<&str> = entries.iter().map(|e| e.status.as_str()).collect();
    assert_eq!(statuses, vec!["success", "failure"]);
    assert!(entries.iter().all(|e| e.task_id == "m"));
}

// ---------------------------------------------------------------------------
// Saving then querying
// ---------------------------------------------------------------------------

#[test]
fn test_save_then_last_execution() {
    let mut files = Vec::new();
    save(&mut files, &make_record("task_a", true, Some(0)));
    let last = last_execution("task_a", &files);
    assert!(last.is_some());
    assert_eq!(last.unwrap().status, "success");
}

#[test]
fn test_last_execution_returns_most_recent() {
    let mut files = Vec::new();
    save(&mut files, &make_record_at("chrono", false, "2026-04-20T01:00:00Z"));
    save(&mut files, &make_record_at("chrono", true, "2026-03-10T01:00:00Z"));
    let last = last_execution("chrono", &files).unwrap();
    assert_eq!(last.status, "failure", "Doit correspondre à l’entrée la plus récente");
}

#[test]
fn test_last_execution_unknown_task_returns_none() {
    let files: Vec<LogFile> = Vec::new();
    assert!(last_execution("fantome", &files).is_none());
}

#[test]
fn test_success_rate_after_saves() {
    let mut files = Vec::new();
    for _ in 0..3 {
        save(&mut files, &make_record("rate_task", true, Some(0)));
    }
    save(&mut files, &make_record("rate_task", false, Some(1)));
    let rate = success_rate("rate_task", &files, 0);
    assert!((rate - 0.75).abs() < 0.001, "Taux attendu 0.75, obtenu {}", rate);
}

#[test]
fn test_success_rate_sliding_window() {
    let mut files = Vec::new();
    for _ in 0..5 {
        save(&mut files, &make_record("win_task", true, Some(0)));
    }
    for _ in 0..2 {
        save(&mut files, &make_record("win_task", false, Some(1)));
    }
    let rate = success_rate("win_task", &files, 2);
    assert!(rate.abs() < 0.001, "Fenêtre récente : taux attendu 0.0, obtenu {}", rate);
}

#[test]
fn test_success_rate_no_history_returns_zero() {
    let files: Vec<LogFile> = Vec::new();
    assert_eq!(success_rate("rien", &files, 10), 0.0);
}

#[test]
fn test_monthly_rotation_creates_separate_files() {
    let mut files = Vec::new();
    save(&mut files, &make_record_at("backup", true, "2026-03-15T01:00:00Z"));
    save(&mut files, &make_record_at("backup", true, "2026-04-15T01:00:00Z"));
    assert_eq!(files.len(), 2, "Deux mois distincts doivent produire deux fichiers");
}

#[test]
fn test_list_known_tasks_after_saves() {
    let mut files = Vec::new();
    save(&mut files, &make_record("backup_db", true, Some(0)));
    save(&mut files, &make_record("cleanup_tmp", false, Some(1)));
    save(&mut files, &make_record("backup_db", true, Some(0)));
    let tasks = list_known_tasks(&names(&files));
    assert_eq!(tasks.len(), 2);
    assert!(tasks.contains(&"backup_db".to_string()));
    assert!(tasks.contains(&"cleanup_tmp".to_string()));
}

#[test]
fn test_total_executions_counts_all() {
    let mut files = Vec::new();
    for _ in 0..6 {
        save(&mut files, &make_record("counter", true, Some(0)));
    }
    assert_eq!(total_executions("counter", &files), 6);
}

#[test]
fn test_total_executions_across_months() {
    let mut files = Vec::new();
    for i in 0..3 {
        save(&mut files, &make_record_at("multi_month", true, &format!("2026-03-{:02}T01:00:00Z", i + 1)));
    }
    for i in 0..4 {
        save(&mut files, &make_record_at("multi_month", false, &format!("2026-04-{:02}T01:00:00Z", i + 1)));
    }
    assert_eq!(total_executions("multi_month", &files), 7, "Le total doit agréger tous les mois");
}

#[test]
fn test_saved_record_reads_back_as_last_entry() {
    let mut files = Vec::new();
    save(&mut files, &make_record_at("rb", true, "2026-04-01T08:00:00Z"));
    let record = make_record_at("rb", false, "2026-04-02T08:00:00Z");
    save(&mut files, &record);
    let last = last_execution("rb", &files).unwrap();
    assert_eq!(last.task_id, "rb");
    assert_eq!(last.start_time, "2026-04-02T08:00:00+00:00");
    assert_eq!(last.end_time, "2026-04-02T08:00:01+00:00");
    assert_eq!(last.status, "failure");
    assert_eq!(last.exit_code, 1);
    assert_eq!(last.duration_ms, 1000);
    assert_eq!(last.message, "fail");
}

#[test]
fn test_save_record_cree_le_fichier() {
    let mut files = Vec::new();
    save(&mut files, &make_record("test_task", true, Some(0)));
    assert!(!files.is_empty(), "Aucun fichier de log créé");
    assert!(files[0].name.starts_with("test_task_"));
}

#[test]
fn test_save_record_append_multiple() {
    let mut files = Vec::new();
    for i in 0..5 {
        let mut record = make_record("task_multi", i % 2 == 0, Some(i % 2));
        record.start_time.secs += i as i64;
        record.end_time = Some(later(record.start_time, 800));
        save(&mut files, &record);
    }
    assert!(!files.is_empty());
    let lines: Vec<_> = files[0].content.lines().filter(|l| !l.is_empty()).collect();
    assert_eq!(lines.len(), 5, "Attendu 5 lignes, trouvé : {}", lines.len());
}

#[test]
fn test_rotation_mensuelle_fichiers_distincts() {
    let mut files = Vec::new();
    save(&mut files, &make_record_at("backup", true, "2026-04-15T01:00:00Z"));
    save(&mut files, &make_record_at("backup", false, "2026-03-15T01:00:00Z"));
    assert_eq!(files.len(), 2, "Attendu 2 fichiers (rotation mensuelle), trouvé : {}", files.len());
}

#[test]
fn test_history_keeps_to_its_task() {
    let mut files = Vec::new();
    write_log_line(&mut files, "backup", "2026-04", &success_line());
    write_log_line(&mut files, "backup_db", "2026-04", &failure_line());
    write_log_line(&mut files, "backup", "notes", &failure_line());
    assert_eq!(total_executions("backup", &files), 1);
    assert_eq!(last_execution("backup", &files).unwrap().status, "success");
    assert_eq!(total_executions("backup_db", &files), 1);
}
