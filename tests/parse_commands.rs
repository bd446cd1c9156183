use chrono::Datelike;
use chron::clock::Date;
use chron::clock::Time;
use chron::parse::parse_command;
use chron::parse::Command;
use chron::parse::ParseCmdError;
use chron::parse::ProjectsSubCommand;
use chron::parse::ReportSubCommand;

fn to_args(args: &[&str]) -> Vec<String> {
    args.iter().map(std::string::ToString::to_string).collect()
}

fn today() -> Date {
    let now = chrono::offset::Local::now().date_naive();
    Date { year: now.year(), month: now.month(), day: now.day() }
}

#[test]
fn test_parse_invalid_and_missing_and_version() {
    let args = to_args(&[""]);
    assert_eq!(parse_command(args, today()), Err(ParseCmdError::NoCommand));

    let args = to_args(&["", "invalid"]);
    assert_eq!(
        parse_command(args, today()),
        Err(ParseCmdError::InvalidCommand("invalid".to_string()))
    );

    let args = to_args(&["", "version"]);
    assert_eq!(parse_command(args, today()), Ok(Command::Version));
}

#[test]
fn test_parse_track() {
    let args = to_args(&["", "track"]);
    assert_eq!(
        parse_command(args, today()),
        Err(ParseCmdError::MissingParameter(
            "The command 'track' requires a parameter 'project'".to_string()
        ))
    );

    let args = to_args(&["", "track", "project"]);
    assert_eq!(
        parse_command(args, today()),
        Ok(Command::Track {
            project: "project".to_string(),
            description: None,
        })
    );

    let args = to_args(&["", "track", "project", "a", "description"]);
    assert_eq!(
        parse_command(args, today()),
        Ok(Command::Track {
            project: "project".to_string(),
            description: Some("a description".to_string()),
        })
    );

    let args = to_args(&["", "break"]);
    assert_eq!(parse_command(args, today()), Ok(Command::Break(None)));

    let args = to_args(&["", "break", "a", "description"]);
    assert_eq!(
        parse_command(args, today()),
        Ok(Command::Break(Some("a description".to_string())))
    );
}

#[test]
fn test_parse_projects() {
    let args = to_args(&["", "projects"]);
    assert_eq!(
        parse_command(args, today()),
        Err(ParseCmdError::MissingParameter(
            "The command 'projects' requires a subcommand: chron projects <subcommand>".to_string()
        ))
    );

    let args = to_args(&["", "projects", "add"]);
    assert_eq!(
        parse_command(args, today()),
        Err(ParseCmdError::MissingParameter(
            "The command 'projects add' requires a parameter 'project'".to_string()
        ))
    );

    let args = to_args(&["", "projects", "add", "project"]);
    assert_eq!(
        parse_command(args, today()),
        Ok(Command::Projects(ProjectsSubCommand::Add("project".to_string())))
    );

    let args = to_args(&["", "projects", "delete"]);
    assert_eq!(
        parse_command(args, today()),
        Err(ParseCmdError::MissingParameter(
            "The command 'projects delete' requires a parameter 'project'".to_string()
        ))
    );

    let args = to_args(&["", "projects", "delete", "project"]);
    assert_eq!(
        parse_command(args, today()),
        Ok(Command::Projects(ProjectsSubCommand::Delete("project".to_string())))
    );

    let args = to_args(&["", "projects", "invalid"]);
    assert_eq!(
        parse_command(args, today()),
        Err(ParseCmdError::InvalidCommand("projects invalid".to_string()))
    );

    let args = to_args(&["", "projects", "list"]);
    assert_eq!(
        parse_command(args, today()),
        Ok(Command::Projects(ProjectsSubCommand::List))
    );
}

#[test]
fn test_parse_check_in_and_reset() {
    let args = to_args(&["", "check-in"]);
    assert_eq!(parse_command(args, today()), Ok(Command::CheckIn));

    let args = to_args(&["", "reset"]);
    assert_eq!(parse_command(args, today()), Ok(Command::Reset));
}

#[test]
fn test_parse_retrotrack() {
    let args = to_args(&["", "retrotrack"]);
    assert_eq!(
        parse_command(args, today()),
        Err(ParseCmdError::MissingParameter(
            "The command 'retrotrack' requires a parameter 'end_time'".to_string()
        ))
    );

    let args = to_args(&["", "retrotrack", "10:00"]);
    assert_eq!(
        parse_command(args, today()),
        Err(ParseCmdError::MissingParameter(
            "The command 'retrotrack' requires a parameter 'project'".to_string()
        ))
    );

    let args = to_args(&["", "retrotrack", "10:00", "project"]);
    assert_eq!(
        parse_command(args, today()),
        Ok(Command::RetroTrack {
            end_time: Time { hour: 10, minute: 0 },
            project: "project".to_string(),
            description: None,
        })
    );

    let args = to_args(&["", "retrotrack", "10:00", "project", "a", "description"]);
    assert_eq!(
        parse_command(args, today()),
        Ok(Command::RetroTrack {
            end_time: Time { hour: 10, minute: 0 },
            project: "project".to_string(),
            description: Some("a description".to_string()),
        })
    );
}

#[test]
fn test_parse_report() {
    let args = to_args(&["", "report"]);
    assert_eq!(
        parse_command(args, today()),
        Ok(Command::Report(ReportSubCommand::Day(today())))
    );
}

#[test]
fn parse_report_week_month_and_short_form() {
    let d = Date { year: 2023, month: 11, day: 17 };
    assert_eq!(
        parse_command(to_args(&["", "rep", "week"]), d),
        Ok(Command::Report(ReportSubCommand::Week(d)))
    );
    assert_eq!(
        parse_command(to_args(&["", "report", "month"]), d),
        Ok(Command::Report(ReportSubCommand::Month(d)))
    );
    assert_eq!(
        parse_command(to_args(&["", "report", "year"]), d),
        Err(ParseCmdError::InvalidCommand("report year".to_string()))
    );
}

#[test]
fn parse_retrotrack_rejects_bad_time() {
    let d = Date { year: 2023, month: 11, day: 17 };
    assert_eq!(
        parse_command(to_args(&["", "retrotrack", "25:00", "kyoshi"]), d),
        Err(ParseCmdError::InvalidTimeFormat("25:00".to_string()))
    );
    assert_eq!(
        parse_command(to_args(&["", "retrotrack", "noon", "kyoshi"]), d),
        Err(ParseCmdError::InvalidTimeFormat("noon".to_string()))
    );
    assert_eq!(
        parse_command(to_args(&["", "retrotrack", "16:34", "kyoshi"]), d),
        Ok(Command::RetroTrack {
            end_time: Time { hour: 16, minute: 34 },
            project: "kyoshi".to_string(),
            description: None,
        })
    );
}

#[test]
fn retrotrack_command_from_read_time() {
    let text = "10:00".to_string();
    assert_eq!(
        chron::parse::retrotrack_command(&text, Some(Time { hour: 10, minute: 0 }), "p".to_string(), None),
        Ok(Command::RetroTrack {
            end_time: Time { hour: 10, minute: 0 },
            project: "p".to_string(),
            description: None,
        })
    );
    assert_eq!(
        chron::parse::retrotrack_command(&text, None, "p".to_string(), None),
        Err(ParseCmdError::InvalidTimeFormat("10:00".to_string()))
    );
}
