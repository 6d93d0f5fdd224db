use chrono::{DateTime, Datelike, TimeZone, Timelike, Utc};
use taskforge::clock::UtcTime;
use taskforge::parser::schedule::matches_weekday;
use taskforge::parser::{next_occurrence, parse_cron_expression, parse_macro};
use taskforge::registry::parse_schedule;
use taskforge::types::{CronField, Schedule};

/// The instant of a `chrono` date and time.
fn instant(dt: DateTime<Utc>) -> UtcTime {
    UtcTime { secs: dt.timestamp(), nanos: dt.timestamp_subsec_nanos() }
}

/// The `chrono` date and time of an instant.
fn datetime(t: UtcTime) -> DateTime<Utc> {
    DateTime::from_timestamp(t.secs, t.nanos).unwrap()
}

fn next_at(schedule: &Schedule, from: DateTime<Utc>) -> Option<DateTime<Utc>> {
    next_occurrence(schedule, instant(from)).map(datetime)
}

// Tests de parsing d'expressions cron
#[test]
fn test_parse_simple_cron() {
    let result = parse_cron_expression("30 2 * * 1");
    assert!(result.is_ok());
}

#[test]
fn test_parse_cron_with_list() {
    let result = parse_cron_expression("0,30 9,17 * * 1-5");
    assert!(result.is_ok());
}

#[test]
fn test_parse_cron_with_step() {
    let result = parse_cron_expression("*/15 * * * *");
    assert!(result.is_ok());
}

#[test]
fn test_parse_cron_with_range_and_step() {
    let result = parse_cron_expression("1-30/5 * * * *");
    assert!(result.is_ok());
}

#[test]
fn test_parse_cron_too_few_fields() {
    let result = parse_cron_expression("* * *");
    assert!(result.is_err());
}

#[test]
fn test_parse_cron_too_many_fields() {
    let result = parse_cron_expression("* * * * * *");
    assert!(result.is_err());
}

#[test]
fn test_parse_cron_invalid_minute() {
    let result = parse_cron_expression("60 * * * *");
    assert!(result.is_err());
}

#[test]
fn test_parse_cron_invalid_hour() {
    let result = parse_cron_expression("* 24 * * *");
    assert!(result.is_err());
}

#[test]
fn test_parse_cron_all_wildcards() {
    let result = parse_cron_expression("* * * * *");
    assert!(result.is_ok());
}

// Tests de parsing des macros
#[test]
fn test_parse_macro_daily() {
    let result = parse_macro("@daily");
    assert!(result.is_some());
    assert_eq!(result.unwrap(), Schedule::Daily);
}

#[test]
fn test_parse_macro_hourly() {
    let result = parse_macro("@hourly");
    assert!(result.is_some());
    assert_eq!(result.unwrap(), Schedule::Hourly);
}

#[test]
fn test_parse_macro_weekly() {
    let result = parse_macro("@weekly");
    assert!(result.is_some());
    assert_eq!(result.unwrap(), Schedule::Weekly);
}

#[test]
fn test_parse_macro_monthly() {
    let result = parse_macro("@monthly");
    assert!(result.is_some());
    assert_eq!(result.unwrap(), Schedule::Monthly);
}

#[test]
fn test_parse_macro_yearly() {
    let result = parse_macro("@yearly");
    assert!(result.is_some());
    assert_eq!(result.unwrap(), Schedule::Yearly);
}

#[test]
fn test_parse_macro_annually_alias() {
    let result = parse_macro("@annually");
    assert!(result.is_some());
    assert_eq!(result.unwrap(), Schedule::Yearly);
}

#[test]
fn test_parse_macro_midnight_alias() {
    let result = parse_macro("@midnight");
    assert!(result.is_some());
    assert_eq!(result.unwrap(), Schedule::Daily);
}

#[test]
fn test_parse_macro_every_5m() {
    let result = parse_macro("@every 5m");
    assert!(result.is_some());
    assert_eq!(result.unwrap(), Schedule::EveryMinutes(5));
}

#[test]
fn test_parse_macro_every_2h() {
    let result = parse_macro("@every 2h");
    assert!(result.is_some());
    assert_eq!(result.unwrap(), Schedule::EveryMinutes(120));
}

#[test]
fn test_parse_macro_every_30s() {
    let result = parse_macro("@every 30s");
    assert!(result.is_some());
}

#[test]
fn test_parse_macro_invalid() {
    let result = parse_macro("@invalid");
    assert!(result.is_none());
}

#[test]
fn test_parse_macro_no_at_sign() {
    let result = parse_macro("daily");
    assert!(result.is_none());
}

// Tests de next_occurrence
#[test]
fn test_next_occurrence_daily_at_2am() {
    let schedule = Schedule::Cron {
        minute: CronField::Single(0),
        hour: CronField::Single(2),
        day_of_month: CronField::Any,
        month: CronField::Any,
        day_of_week: CronField::Any,
    };
    
    let from = Utc.with_ymd_and_hms(2024, 1, 1, 0, 0, 0).unwrap();
    let next = next_at(&schedule, from);
    assert!(next.is_some());
    let next = next.unwrap();
    assert_eq!(next.hour(), 2);
    assert_eq!(next.minute(), 0);
    assert_eq!(next.day(), 1);
}

#[test]
fn test_next_occurrence_every_15_min() {
    let schedule = Schedule::Cron {
        minute: CronField::Step(0, 15),
        hour: CronField::Any,
        day_of_month: CronField::Any,
        month: CronField::Any,
        day_of_week: CronField::Any,
    };
    
    let from = Utc.with_ymd_and_hms(2024, 1, 1, 12, 0, 0).unwrap();
    let next = next_at(&schedule, from);
    assert!(next.is_some());
    let next = next.unwrap();
    assert_eq!(next.minute(), 15);
    assert_eq!(next.hour(), 12);
}

#[test]
fn test_next_daily_occurrence() {
    let from = Utc.with_ymd_and_hms(2024, 1, 1, 15, 30, 0).unwrap();
    let next = next_at(&Schedule::Daily, from);
    assert!(next.is_some());
    let next = next.unwrap();
    assert_eq!(next.hour(), 0);
    assert_eq!(next.minute(), 0);
    assert_eq!(next.day(), 2);
    assert_eq!(next.month(), 1);
    assert_eq!(next.year(), 2024);
}

#[test]
fn test_next_hourly_occurrence() {
    let from = Utc.with_ymd_and_hms(2024, 1, 1, 15, 30, 0).unwrap();
    let next = next_at(&Schedule::Hourly, from);
    assert!(next.is_some());
    let next = next.unwrap();
    assert_eq!(next.hour(), 16);
    assert_eq!(next.minute(), 0);
}

#[test]
fn test_next_every_5_minutes() {
    let from = Utc.with_ymd_and_hms(2024, 1, 1, 12, 0, 0).unwrap();
    let next = next_at(&Schedule::EveryMinutes(5), from);
    assert!(next.is_some());
    assert_eq!(next.unwrap().minute(), 5);
}

#[test]
fn test_next_occurrence_specific_time_past() {
    let schedule = parse_cron_expression("30 14 * * *").unwrap();
    let from = Utc.with_ymd_and_hms(2024, 6, 15, 14, 29, 0).unwrap();
    let next = next_at(&schedule, from).unwrap();
    assert_eq!(next, Utc.with_ymd_and_hms(2024, 6, 15, 14, 30, 0).unwrap());
}

#[test]
fn test_next_occurrence_specific_time_future() {
    let schedule = parse_cron_expression("30 14 * * *").unwrap();
    let from = Utc.with_ymd_and_hms(2024, 6, 15, 14, 31, 0).unwrap();
    let next = next_at(&schedule, from).unwrap();
    assert_eq!(next, Utc.with_ymd_and_hms(2024, 6, 16, 14, 30, 0).unwrap());
}

#[test]
fn test_next_occurrence_monday_cron() {
    let schedule = parse_cron_expression("0 9 * * 1").unwrap();
    let from = Utc.with_ymd_and_hms(2023, 3, 31, 10, 0, 0).unwrap();
    let next = next_at(&schedule, from).unwrap();
    assert_eq!(next, Utc.with_ymd_and_hms(2023, 4, 3, 9, 0, 0).unwrap());
}

#[test]
fn test_next_occurrence_midnight() {
    let schedule = parse_cron_expression("0 0 * * *").unwrap();
    let from = Utc.with_ymd_and_hms(2024, 6, 15, 23, 59, 0).unwrap();
    let next = next_at(&schedule, from).unwrap();
    assert_eq!(next, Utc.with_ymd_and_hms(2024, 6, 16, 0, 0, 0).unwrap());
}

#[test]
fn test_next_monthly_occurrence() {
    let from = Utc.with_ymd_and_hms(2024, 3, 15, 10, 0, 0).unwrap();
    let next = next_at(&Schedule::Monthly, from).unwrap();
    assert_eq!(next.year(), 2024);
    assert_eq!(next.month(), 4);
    assert_eq!(next.day(), 1);
    assert_eq!(next.hour(), 0);
    assert_eq!(next.minute(), 0);
}

#[test]
fn test_next_monthly_occurrence_december() {
    let from = Utc.with_ymd_and_hms(2024, 12, 15, 10, 0, 0).unwrap();
    let next = next_at(&Schedule::Monthly, from).unwrap();
    assert_eq!(next.year(), 2025);
    assert_eq!(next.month(), 1);
    assert_eq!(next.day(), 1);
}

#[test]
fn test_next_yearly_occurrence() {
    let from = Utc.with_ymd_and_hms(2024, 6, 15, 10, 0, 0).unwrap();
    let next = next_at(&Schedule::Yearly, from).unwrap();
    assert_eq!(next.year(), 2025);
    assert_eq!(next.month(), 1);
    assert_eq!(next.day(), 1);
}

// Tests de Display
#[test]
fn test_display_schedule_daily() {
    assert_eq!(Schedule::Daily.to_string(), "@daily");
}

#[test]
fn test_display_schedule_hourly() {
    assert_eq!(Schedule::Hourly.to_string(), "@hourly");
}

#[test]
fn test_display_schedule_every_minutes() {
    assert_eq!(Schedule::EveryMinutes(10).to_string(), "@every 10m");
}

#[test]
fn test_display_cron_field_any() {
    assert_eq!(CronField::Any.to_string(), "*");
}

#[test]
fn test_display_cron_field_single() {
    assert_eq!(CronField::Single(5).to_string(), "5");
}

#[test]
fn test_display_cron_field_list() {
    assert_eq!(CronField::List(vec![1, 3, 5]).to_string(), "1,3,5");
}

#[test]
fn test_display_cron_field_range() {
    assert_eq!(CronField::Range(1, 5).to_string(), "1-5");
}

// Tests combinés parsing + next_occurrence
#[test]
fn test_parse_and_next_every_10_minutes() {
    let schedule = parse_macro("@every 10m").unwrap();
    let from = Utc.with_ymd_and_hms(2024, 1, 1, 12, 0, 0).unwrap();
    let next = next_at(&schedule, from).unwrap();
    assert_eq!(next, Utc.with_ymd_and_hms(2024, 1, 1, 12, 10, 0).unwrap());
}

#[test]
fn test_parse_and_next_weekly() {
    let schedule = parse_macro("@weekly").unwrap();
    // Mardi 2 janvier 2024
    let from = Utc.with_ymd_and_hms(2024, 1, 2, 10, 0, 0).unwrap();
    let next = next_at(&schedule, from).unwrap();
    // Lundi suivant : 8 janvier 2024
    assert_eq!(next, Utc.with_ymd_and_hms(2024, 1, 8, 0, 0, 0).unwrap());
}
// Error messages, step fields and the laws of the next occurrence
#[test]
fn test_cron_error_messages() {
    assert_eq!(
        parse_cron_expression("* * *").unwrap_err(),
        "Expression cron invalide: attendu 5 champs, obtenu 3"
    );
    assert_eq!(parse_cron_expression("60 * * * *").unwrap_err(), "Valeur 60 hors plage [0, 59]");
    assert_eq!(parse_cron_expression("* * 0 * *").unwrap_err(), "Valeur 0 hors plage [1, 31]");
    assert_eq!(parse_cron_expression("1,x * * * *").unwrap_err(), "Liste invalide: 1,x");
    assert_eq!(parse_cron_expression("5-a * * * *").unwrap_err(), "Valeur de fin invalide: a");
    assert_eq!(parse_cron_expression("*/x * * * *").unwrap_err(), "Step invalide: x");
}

#[test]
fn test_cron_fields_parsed() {
    let s = parse_cron_expression("1-30/5 9,17 * 1-12 7").unwrap();
    assert_eq!(
        s,
        Schedule::Cron {
            minute: CronField::Step(1, 5),
            hour: CronField::List(vec![9, 17]),
            day_of_month: CronField::Any,
            month: CronField::Range(1, 12),
            day_of_week: CronField::Single(7),
        }
    );
    assert_eq!(s.to_string(), "1/5 9,17 * 1-12 7");
}

#[test]
fn test_parse_macro_every_units() {
    assert_eq!(parse_macro("@every 90"), Some(Schedule::EveryMinutes(90)));
    assert_eq!(parse_macro("@every 120s"), Some(Schedule::EveryMinutes(2)));
    assert_eq!(parse_macro("@every 30s"), Some(Schedule::EveryMinutes(1)));
    assert_eq!(parse_macro("@every 5x"), None);
    assert_eq!(parse_macro("@every 5m 3"), None);
}

#[test]
fn test_next_every_zero_minutes_is_none() {
    let from = Utc.with_ymd_and_hms(2024, 1, 1, 12, 0, 0).unwrap();
    assert!(next_at(&Schedule::EveryMinutes(0), from).is_none());
}

#[test]
fn test_next_cron_keeps_seconds_of_from() {
    let schedule = parse_cron_expression("* * * * *").unwrap();
    let from = Utc.with_ymd_and_hms(2024, 1, 1, 12, 0, 42).unwrap();
    assert_eq!(next_at(&schedule, from).unwrap(), Utc.with_ymd_and_hms(2024, 1, 1, 12, 1, 42).unwrap());
}

#[test]
fn test_next_cron_sunday_as_seven_and_wrapping_range() {
    // 2024-06-15 is a Saturday
    let from = Utc.with_ymd_and_hms(2024, 6, 15, 12, 0, 0).unwrap();
    let sunday = parse_cron_expression("0 8 * * 7").unwrap();
    assert_eq!(next_at(&sunday, from).unwrap(), Utc.with_ymd_and_hms(2024, 6, 16, 8, 0, 0).unwrap());
    let weekend_to_monday = parse_cron_expression("0 8 * * 6-1").unwrap();
    assert_eq!(
        next_at(&weekend_to_monday, from).unwrap(),
        Utc.with_ymd_and_hms(2024, 6, 16, 8, 0, 0).unwrap()
    );
}

#[test]
fn test_next_cron_without_match_in_a_year_is_none() {
    let schedule = parse_cron_expression("0 0 31 2 *").unwrap();
    let from = Utc.with_ymd_and_hms(2024, 1, 1, 0, 0, 0).unwrap();
    assert!(next_at(&schedule, from).is_none());
}

#[test]
fn test_next_occurrences_come_after_from() {
    let from = Utc.with_ymd_and_hms(2024, 1, 1, 0, 0, 0).unwrap();
    for s in [Schedule::Daily, Schedule::Hourly, Schedule::Weekly, Schedule::Monthly, Schedule::Yearly, Schedule::EveryMinutes(1)] {
        let next = next_at(&s, from).unwrap();
        assert!(next > from, "{:?}", s);
    }
    // 2024-01-01 is a Monday: @weekly goes to the next one
    assert_eq!(next_at(&Schedule::Weekly, from).unwrap(), Utc.with_ymd_and_hms(2024, 1, 8, 0, 0, 0).unwrap());
}

#[test]
fn test_next_hourly_on_the_hour() {
    let from = Utc.with_ymd_and_hms(2024, 1, 1, 23, 59, 59).unwrap();
    let next = next_at(&Schedule::Hourly, from).unwrap();
    assert_eq!(next, Utc.with_ymd_and_hms(2024, 1, 2, 0, 0, 0).unwrap());
    assert_eq!(next.minute(), 0);
    assert_eq!(next.second(), 0);
}

#[test]
fn test_macros_match_their_cron_expressions() {
    let pairs = [
        (Schedule::Hourly, "0 * * * *"),
        (Schedule::Daily, "0 0 * * *"),
        (Schedule::Weekly, "0 0 * * 1"),
    ];
    let froms = [
        Utc.with_ymd_and_hms(2024, 1, 1, 0, 0, 0).unwrap(),
        Utc.with_ymd_and_hms(2024, 2, 29, 23, 59, 0).unwrap(),
        Utc.with_ymd_and_hms(2023, 12, 31, 12, 34, 0).unwrap(),
        Utc.with_ymd_and_hms(2024, 6, 16, 0, 1, 0).unwrap(),
    ];
    for (macro_schedule, cron) in pairs.iter() {
        let cron_schedule = parse_cron_expression(cron).unwrap();
        for from in froms.iter() {
            assert_eq!(next_at(macro_schedule, *from), next_at(&cron_schedule, *from), "{} {}", cron, from);
        }
    }
}

#[test]
fn test_weekday_range_with_sunday_as_seven() {
    assert!(matches_weekday(3, &CronField::Range(0, 7)));
    assert!(matches_weekday(0, &CronField::Range(0, 7)));
    assert!(matches_weekday(0, &CronField::Range(5, 7)));
    assert!(matches_weekday(6, &CronField::Range(5, 7)));
    assert!(!matches_weekday(1, &CronField::Range(5, 7)));
    assert!(matches_weekday(0, &CronField::Range(7, 7)));
    assert!(matches_weekday(1, &CronField::Range(6, 1)));
    assert!(!matches_weekday(3, &CronField::Range(6, 1)));
}

#[test]
fn test_stepped_range_bounds_checked() {
    assert_eq!(parse_cron_expression("70-80/5 * * * *").unwrap_err(), "Valeur 70 hors plage [0, 59]");
    assert_eq!(parse_cron_expression("10-80/5 * * * *").unwrap_err(), "Valeur 80 hors plage [0, 59]");
    assert_eq!(parse_cron_expression("* * 0-10/2 * *").unwrap_err(), "Valeur 0 hors plage [1, 31]");
    assert!(parse_cron_expression("0-30/10 * * * *").is_ok());
}

#[test]
fn test_every_zero_seconds_is_invalid() {
    assert_eq!(parse_macro("@every 0s"), None);
    assert_eq!(parse_macro("@every 0m"), Some(Schedule::EveryMinutes(0)));
}

#[test]
fn test_yearly_cron_from_leap_year() {
    let schedule = parse_cron_expression("0 0 1 1 *").unwrap();
    let from = Utc.with_ymd_and_hms(2024, 1, 1, 0, 0, 0).unwrap();
    assert_eq!(next_at(&schedule, from), Some(Utc.with_ymd_and_hms(2025, 1, 1, 0, 0, 0).unwrap()));
    assert_eq!(next_at(&Schedule::Yearly, from), next_at(&schedule, from));
}

#[test]
fn test_schedule_text_reads_back() {
    for text in ["@daily", "@midnight", "@hourly", "@weekly", "@monthly", "@annually", "@every 2h", "*/15 9-17 1,15 * 0-7", "30 2 * * 1"] {
        let s = parse_schedule(text).unwrap();
        assert_eq!(parse_schedule(&s.to_string()), Some(s.clone()), "{}", text);
    }
}
