use chron::clock::format_date;
use chron::clock::format_time;
use chron::clock::Date;
use chron::clock::Time;
use chron::commands::CommandExecutionError;
use chron::commands::DirsError;
use chron::order::name_before;
use chron::parse::parse_description;
use chron::parse::parse_project;
use chron::parse::ParseCmdError;
use chron::text::same_text;

#[test]
fn times_from_hours_and_minutes() {
    assert_eq!(Time::from_hm(8, 6), Some(Time { hour: 8, minute: 6 }));
    assert_eq!(Time::from_hm(24, 0), None);
    assert_eq!(Time::from_hm(12, 60), None);
    assert_eq!(Time { hour: 8, minute: 6 }.minutes_since_midnight(), 486);
    assert!(Time { hour: 8, minute: 6 }.is_before(&Time { hour: 8, minute: 7 }));
    assert!(!Time { hour: 8, minute: 7 }.is_before(&Time { hour: 8, minute: 7 }));
    assert_eq!(format_time(&Time { hour: 0, minute: 5 }), "00:05");
    assert_eq!(format_date(&Date { year: 2023, month: 1, day: 9 }), "2023-01-09");
}

#[test]
fn names_sort_by_character() {
    assert!(name_before("korra", "kyoshi"));
    assert!(!name_before("kyoshi", "korra"));
    assert!(name_before("lake", "lake laogai"));
    assert!(!name_before("lake", "lake"));
    assert!(name_before("", "a"));
    assert!(name_before("Zuko", "aang"));
}

#[test]
fn texts_compare_exactly() {
    assert!(same_text("track", "track"));
    assert!(!same_text("track", "trac"));
    assert!(!same_text("track", "truck"));
    assert!(same_text("", ""));
}

#[test]
fn project_and_description_words() {
    let p = "kyoshi".to_string();
    assert_eq!(parse_project("track", Some(&p)), Ok("kyoshi".to_string()));
    assert_eq!(
        parse_project("track", None),
        Err(ParseCmdError::MissingParameter(
            "The command 'track' requires a parameter 'project'".to_string()
        ))
    );
    let words: Vec<String> = ["", "track", "kyoshi", "fix", "the", "bug"]
        .iter()
        .map(|w| w.to_string())
        .collect();
    assert_eq!(parse_description(&words, 3), Some("fix the bug".to_string()));
    assert_eq!(parse_description(&words, 5), Some("bug".to_string()));
    assert_eq!(parse_description(&words, 6), None);
    assert_eq!(parse_description(&words, 9), None);
}

#[test]
fn missing_directory_message() {
    let e = DirsError("data dir".to_string()).into_error();
    assert!(matches!(
        e,
        CommandExecutionError::UnexpectedError(m)
            if m == "The OS specific dir for \"data dir\" could not be found!"
    ));
}
