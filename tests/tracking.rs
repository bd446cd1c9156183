use chron::clock::Date;
use chron::clock::Time;
use chron::commands::check_in;
use chron::commands::take_break;
use chron::commands::track;
use chron::commands::validate_append;
use chron::commands::CommandExecutionError;
use chron::config::add_project;
use chron::config::delete_project;
use chron::config::initial_config;
use chron::config::is_configured;
use chron::config::Config;
use chron::day::Day;
use chron::reporting::format_day;

fn time(hour: u32, minute: u32) -> Time {
    Time { hour, minute }
}

fn date() -> Date {
    Date { year: 2023, month: 11, day: 17 }
}

fn registry(names: &[&str]) -> Config {
    let mut config = initial_config();
    for n in names {
        add_project(&mut config, n.to_string());
    }
    config
}

fn project_names(config: &Config) -> Vec<String> {
    config.projects.clone()
}

#[test]
fn check_in_opens_a_day_once() {
    let day = check_in(false, date(), time(8, 6)).unwrap();
    assert_eq!(day.date, date());
    assert_eq!(day.check_in_time, time(8, 6));
    assert!(day.chunks.is_empty());
    assert!(matches!(
        check_in(true, date(), time(8, 6)),
        Err(CommandExecutionError::CheckedInTwice)
    ));
}

#[test]
fn track_needs_a_checked_in_day() {
    let config = registry(&["kyoshi"]);
    let r = track(None, date(), &config, time(9, 0), "kyoshi".to_string(), None, time(10, 0));
    assert!(matches!(r, Err(CommandExecutionError::NotCheckedIn(d)) if d == date()));
}

#[test]
fn track_appends_within_check_in_and_now() {
    let config = registry(&["kyoshi"]);
    let day = Day::new(date(), time(8, 6));
    let day = track(
        Some(day),
        date(),
        &config,
        time(8, 45),
        "kyoshi".to_string(),
        Some("answer messages".to_string()),
        time(9, 0),
    )
    .unwrap();
    assert_eq!(day.chunks.len(), 1);
    assert_eq!(day.chunks[0].project, "kyoshi");
    assert_eq!(day.chunks[0].description.as_deref(), Some("answer messages"));
    assert_eq!(day.chunks[0].end_time, time(8, 45));

    // Exactly at check-in and exactly now are both allowed.
    let day = track(Some(day), date(), &config, time(8, 6), "kyoshi".to_string(), None, time(9, 0))
        .unwrap();
    let day = track(Some(day), date(), &config, time(9, 0), "kyoshi".to_string(), None, time(9, 0))
        .unwrap();
    assert_eq!(day.chunks.len(), 3);
}

#[test]
fn track_rejects_times_outside_the_day() {
    let config = registry(&["kyoshi"]);
    let before = track(
        Some(Day::new(date(), time(8, 6))),
        date(),
        &config,
        time(8, 5),
        "kyoshi".to_string(),
        None,
        time(9, 0),
    );
    assert!(matches!(before, Err(CommandExecutionError::NoTrackingBeforeCheckIn)));
    let after = track(
        Some(Day::new(date(), time(8, 6))),
        date(),
        &config,
        time(9, 1),
        "kyoshi".to_string(),
        None,
        time(9, 0),
    );
    assert!(matches!(after, Err(CommandExecutionError::NoTrackingAfterCurrentTime)));
}

#[test]
fn track_rejects_unregistered_projects_but_not_breaks() {
    let config = registry(&["kyoshi"]);
    let r = track(
        Some(Day::new(date(), time(8, 6))),
        date(),
        &config,
        time(8, 5),
        "korra".to_string(),
        None,
        time(9, 0),
    );
    assert!(matches!(r, Err(CommandExecutionError::ProjectNotConfigured(p)) if p == "korra"));
    let r = track(
        Some(Day::new(date(), time(8, 6))),
        date(),
        &config,
        time(8, 30),
        "break".to_string(),
        None,
        time(9, 0),
    );
    assert!(r.is_ok());
}

#[test]
fn validate_append_reports_each_rule() {
    let config = registry(&["kyoshi"]);
    let day = Day::new(date(), time(8, 0));
    let kyoshi = "kyoshi".to_string();
    assert!(validate_append(&day, &config, &kyoshi, &time(8, 30), &time(9, 0)).is_ok());
    assert!(matches!(
        validate_append(&day, &config, &kyoshi, &time(7, 59), &time(9, 0)),
        Err(CommandExecutionError::NoTrackingBeforeCheckIn)
    ));
    assert!(matches!(
        validate_append(&day, &config, &kyoshi, &time(9, 1), &time(9, 0)),
        Err(CommandExecutionError::NoTrackingAfterCurrentTime)
    ));
    assert!(matches!(
        validate_append(&day, &config, &"aang".to_string(), &time(8, 30), &time(9, 0)),
        Err(CommandExecutionError::ProjectNotConfigured(p)) if p == "aang"
    ));
}

#[test]
fn take_break_tracks_a_break_until_now() {
    let config = registry(&[]);
    let day = take_break(
        Some(Day::new(date(), time(8, 0))),
        date(),
        &config,
        Some("coffee".to_string()),
        time(9, 15),
    )
    .unwrap();
    assert_eq!(day.chunks[0].project, "break");
    assert_eq!(day.chunks[0].end_time, time(9, 15));
    assert_eq!(day.chunks[0].description.as_deref(), Some("coffee"));
    let early = take_break(Some(Day::new(date(), time(10, 0))), date(), &config, None, time(9, 15));
    assert!(matches!(early, Err(CommandExecutionError::NoTrackingBeforeCheckIn)));
}

#[test]
fn retro_track_before_a_stored_chunk_succeeds() {
    let config = registry(&["kyoshi", "korra"]);
    let day = Day::new(date(), time(8, 0));
    let day = track(Some(day), date(), &config, time(12, 0), "kyoshi".to_string(), None, time(12, 0))
        .unwrap();
    let day = track(
        Some(day),
        date(),
        &config,
        time(9, 0),
        "korra".to_string(),
        Some("daily scrum".to_string()),
        time(12, 5),
    )
    .unwrap();
    assert_eq!(day.chunks[1].end_time, time(9, 0));
    let report = format_day(day);
    assert!(report.find("- 09:00 | korra").unwrap() < report.find("- 12:00 | kyoshi").unwrap());
}

#[test]
fn end_to_end_scenario() {
    let config = registry(&["kyoshi"]);
    let day = check_in(false, date(), time(8, 6)).unwrap();
    let day = track(
        Some(day),
        date(),
        &config,
        time(8, 45),
        "kyoshi".to_string(),
        Some("answer messages".to_string()),
        time(8, 45),
    )
    .unwrap();
    let day = track(
        Some(day),
        date(),
        &config,
        time(9, 15),
        "break".to_string(),
        Some("coffee break".to_string()),
        time(9, 15),
    )
    .unwrap();
    let day = track(Some(day), date(), &config, time(11, 23), "kyoshi".to_string(), None, time(11, 23))
        .unwrap();
    let report = format_day(day);
    assert!(report.contains("- total amount of work: 3.28h (3h 17m)"));
    assert!(report.contains("- without breaks: 2.78h (2h 47m)"));
    assert!(report.contains("| kyoshi  | 2.78h (2h 47m) |"));
    assert!(report.contains("| break   | 0.50h (0h 30m) |"));
}

#[test]
fn registry_adds_once_and_deletes() {
    let mut config = registry(&["kyoshi", "korra"]);
    add_project(&mut config, "kyoshi".to_string());
    assert_eq!(project_names(&config), vec!["kyoshi".to_string(), "korra".to_string()]);
    add_project(&mut config, "aang".to_string());
    assert_eq!(
        project_names(&config),
        vec!["kyoshi".to_string(), "korra".to_string(), "aang".to_string()]
    );
    delete_project(&mut config, &"korra".to_string());
    assert_eq!(project_names(&config), vec!["kyoshi".to_string(), "aang".to_string()]);
    delete_project(&mut config, &"zuko".to_string());
    assert_eq!(project_names(&config), vec!["kyoshi".to_string(), "aang".to_string()]);
    assert!(is_configured(&config, &"aang".to_string()));
    assert!(!is_configured(&config, &"korra".to_string()));
    assert!(initial_config().projects.is_empty());
}

#[test]
fn break_is_never_registered() {
    let mut config = registry(&["kyoshi"]);
    add_project(&mut config, "break".to_string());
    assert_eq!(project_names(&config), vec!["kyoshi".to_string()]);
    assert!(!is_configured(&config, &"break".to_string()));
    let r = track(
        Some(Day::new(date(), time(8, 0))),
        date(),
        &config,
        time(8, 30),
        "break".to_string(),
        None,
        time(9, 0),
    );
    assert!(r.is_ok());
}
