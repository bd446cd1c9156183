//! Reading a command from the words of a command line.

use vstd::prelude::*;

use crate::clock::Date;
use crate::clock::Time;
use crate::clock::parse_clock_time;
use crate::clock::parsed_clock_time;
use crate::text::same_text;

verus! {

/// What to do with the registry of projects.
#[derive(PartialEq, Debug)]
pub enum ProjectsSubCommand {
    Add(String),
    Delete(String),
    List,
}

/// Which report to show, and of which day it is anchored.
#[derive(PartialEq, Debug)]
pub enum ReportSubCommand {
    Day(Date),
    Week(Date),
    Month(Date),
}

/// A command of the time tracker.
#[derive(PartialEq, Debug)]
pub enum Command {
    Track { project: String, description: Option<String> },
    Projects(ProjectsSubCommand),
    Break(Option<String>),
    CheckIn,
    RetroTrack { end_time: Time, project: String, description: Option<String> },
    Reset,
    Report(ReportSubCommand),
    Version,
}

/// Why a command line could not be read.
#[derive(PartialEq, Debug)]
pub enum ParseCmdError {
    NoCommand,
    InvalidCommand(String),
    MissingParameter(String),
    InvalidTimeFormat(String),
}

/// A command with its texts as sequences of characters.
pub enum CommandModel {
    Track(Seq<char>, Option<Seq<char>>),
    ProjectsAdd(Seq<char>),
    ProjectsDelete(Seq<char>),
    ProjectsList,
    Break(Option<Seq<char>>),
    CheckIn,
    RetroTrack((int, int), Seq<char>, Option<Seq<char>>),
    Reset,
    ReportDay(Date),
    ReportWeek(Date),
    ReportMonth(Date),
    Version,
}

/// A reading error with its text as a sequence of characters.
pub enum ParseErrorModel {
    NoCommand,
    InvalidCommand(Seq<char>),
    MissingParameter(Seq<char>),
    InvalidTimeFormat(Seq<char>),
}

pub open spec fn opt_text(o: Option<String>) -> Option<Seq<char>> {
    match o {
        Some(s) => Some(s@),
        None => None,
    }
}

pub open spec fn command_model(c: Command) -> CommandModel {
    match c {
        Command::Track { project, description } => CommandModel::Track(
            project@,
            opt_text(description),
        ),
        Command::Projects(ProjectsSubCommand::Add(p)) => CommandModel::ProjectsAdd(p@),
        Command::Projects(ProjectsSubCommand::Delete(p)) => CommandModel::ProjectsDelete(p@),
        Command::Projects(ProjectsSubCommand::List) => CommandModel::ProjectsList,
        Command::Break(d) => CommandModel::Break(opt_text(d)),
        Command::CheckIn => CommandModel::CheckIn,
        Command::RetroTrack { end_time, project, description } => CommandModel::RetroTrack(
            (end_time.hour as int, end_time.minute as int),
            project@,
            opt_text(description),
        ),
        Command::Reset => CommandModel::Reset,
        Command::Report(ReportSubCommand::Day(d)) => CommandModel::ReportDay(d),
        Command::Report(ReportSubCommand::Week(d)) => CommandModel::ReportWeek(d),
        Command::Report(ReportSubCommand::Month(d)) => CommandModel::ReportMonth(d),
        Command::Version => CommandModel::Version,
    }
}

pub open spec fn error_model(e: ParseCmdError) -> ParseErrorModel {
    match e {
        ParseCmdError::NoCommand => ParseErrorModel::NoCommand,
        ParseCmdError::InvalidCommand(s) => ParseErrorModel::InvalidCommand(s@),
        ParseCmdError::MissingParameter(s) => ParseErrorModel::MissingParameter(s@),
        ParseCmdError::InvalidTimeFormat(s) => ParseErrorModel::InvalidTimeFormat(s@),
    }
}

pub open spec fn result_model(r: Result<Command, ParseCmdError>) -> Result<
    CommandModel,
    ParseErrorModel,
> {
    match r {
        Ok(c) => Ok(command_model(c)),
        Err(e) => Err(error_model(e)),
    }
}

/// The texts of the words.
pub open spec fn args_view(a: Seq<String>) -> Seq<Seq<char>> {
    a.map_values(|s: String| s@)
}

/// The words joined by single spaces.
pub open spec fn joined(s: Seq<Seq<char>>) -> Seq<char>
    decreases s.len(),
{
    if s.len() == 0 {
        Seq::empty()
    } else if s.len() == 1 {
        s[0]
    } else {
        joined(s.drop_last()) + seq![' '] + s.last()
    }
}

/// The description made of the words from `k` on; none where there are no such words.
pub open spec fn description_from(a: Seq<Seq<char>>, k: int) -> Option<Seq<char>> {
    if k < a.len() {
        Some(joined(a.skip(k)))
    } else {
        None
    }
}

/// The message for a command that lacks its project.
pub open spec fn missing_project(cmd: Seq<char>) -> Seq<char> {
    "The command '"@ + cmd + "' requires a parameter 'project'"@
}

/// What the `projects` command reads from the words from the third on.
pub open spec fn projects_model(a: Seq<Seq<char>>) -> Result<CommandModel, ParseErrorModel> {
    if a.len() < 3 {
        Err(
            ParseErrorModel::MissingParameter(
                "The command 'projects' requires a subcommand: chron projects <subcommand>"@,
            ),
        )
    } else if a[2] == "add"@ {
        if a.len() < 4 {
            Err(ParseErrorModel::MissingParameter(missing_project("projects add"@)))
        } else {
            Ok(CommandModel::ProjectsAdd(a[3]))
        }
    } else if a[2] == "delete"@ {
        if a.len() < 4 {
            Err(ParseErrorModel::MissingParameter(missing_project("projects delete"@)))
        } else {
            Ok(CommandModel::ProjectsDelete(a[3]))
        }
    } else if a[2] == "list"@ {
        Ok(CommandModel::ProjectsList)
    } else {
        Err(ParseErrorModel::InvalidCommand("projects "@ + a[2]))
    }
}

/// What the `retrotrack` command reads from the words from the third on.
pub open spec fn retrotrack_model(a: Seq<Seq<char>>) -> Result<CommandModel, ParseErrorModel> {
    if a.len() < 3 {
        Err(
            ParseErrorModel::MissingParameter(
                "The command 'retrotrack' requires a parameter 'end_time'"@,
            ),
        )
    } else if a.len() < 4 {
        Err(ParseErrorModel::MissingParameter(missing_project("retrotrack"@)))
    } else {
        match parsed_clock_time(a[2]) {
            Some(t) => Ok(CommandModel::RetroTrack(t, a[3], description_from(a, 4))),
            None => Err(ParseErrorModel::InvalidTimeFormat(a[2])),
        }
    }
}

/// What the `report` command reads from the words from the third on; `day` where there
/// are none.
pub open spec fn report_model(a: Seq<Seq<char>>, today: Date) -> Result<
    CommandModel,
    ParseErrorModel,
> {
    let sub = if a.len() < 3 {
        "day"@
    } else {
        a[2]
    };
    if sub == "day"@ {
        Ok(CommandModel::ReportDay(today))
    } else if sub == "week"@ {
        Ok(CommandModel::ReportWeek(today))
    } else if sub == "month"@ {
        Ok(CommandModel::ReportMonth(today))
    } else {
        Err(ParseErrorModel::InvalidCommand("report "@ + sub))
    }
}

/// The command that the words of a command line give, the first word being the
/// program's name; `today` anchors reports.
pub open spec fn parse_model(a: Seq<Seq<char>>, today: Date) -> Result<
    CommandModel,
    ParseErrorModel,
> {
    if a.len() <= 1 {
        Err(ParseErrorModel::NoCommand)
    } else if a[1] == "track"@ {
        if a.len() < 3 {
            Err(ParseErrorModel::MissingParameter(missing_project("track"@)))
        } else {
            Ok(CommandModel::Track(a[2], description_from(a, 3)))
        }
    } else if a[1] == "projects"@ {
        projects_model(a)
    } else if a[1] == "break"@ {
        Ok(CommandModel::Break(description_from(a, 2)))
    } else if a[1] == "check-in"@ {
        Ok(CommandModel::CheckIn)
    } else if a[1] == "retrotrack"@ {
        retrotrack_model(a)
    } else if a[1] == "reset"@ {
        Ok(CommandModel::Reset)
    } else if a[1] == "report"@ || a[1] == "rep"@ {
        report_model(a, today)
    } else if a[1] == "version"@ {
        Ok(CommandModel::Version)
    } else {
        Err(ParseErrorModel::InvalidCommand(a[1]))
    }
}

/// The project named by `argument`, or the message that the command `cmd_name` lacks it.
pub fn parse_project(cmd_name: &str, argument: Option<&String>) -> (r: Result<String, ParseCmdError>)
    ensures
        argument is None ==> r is Err && error_model(r->Err_0)
            == ParseErrorModel::MissingParameter(missing_project(cmd_name@)),
        argument is Some ==> r is Ok && r->Ok_0@ == argument->Some_0@,
{
    match argument {
        Some(p) => Ok(p.clone()),
        None => {
            let mut m = String::from_str("The command '");
            m.append(cmd_name);
            m.append("' requires a parameter 'project'");
            assert(m@ =~= missing_project(cmd_name@));
            Err(ParseCmdError::MissingParameter(m))
        },
    }
}

/// The words from `from` on, joined by spaces; none where there are no such words.
pub fn parse_description(arguments: &Vec<String>, from: usize) -> (r: Option<String>)
    ensures
        opt_text(r) == description_from(args_view(arguments@), from as int),
{
    let ghost a = args_view(arguments@);
    if from >= arguments.len() {
        return None;
    }
    let mut s = arguments[from].clone();
    let mut i: usize = from + 1;
    assert(a.skip(from as int).take(1) =~= seq![a[from as int]]);
    while i < arguments.len()
        invariant
            from < i <= arguments@.len(),
            a == args_view(arguments@),
            s@ == joined(a.skip(from as int).take(i - from)),
        decreases arguments@.len() - i,
    {
        proof {
            reveal_strlit(" ");
            let t = a.skip(from as int).take(i + 1 - from);
            assert(t.drop_last() =~= a.skip(from as int).take(i - from));
            assert(t.last() == arguments@[i as int]@);
        }
        s.append(" ");
        s.append(arguments[i].as_str());
        i = i + 1;
        assert(s@ =~= joined(a.skip(from as int).take(i - from)));
    }
    assert(a.skip(from as int).take(i - from) =~= a.skip(from as int));
    Some(s)
}

fn parse_projects(arguments: &Vec<String>) -> (r: Result<Command, ParseCmdError>)
    requires
        arguments@.len() >= 2,
    ensures
        result_model(r) == projects_model(args_view(arguments@)),
{
    let ghost a = args_view(arguments@);
    if arguments.len() < 3 {
        return Err(
            ParseCmdError::MissingParameter(
                String::from_str(
                    "The command 'projects' requires a subcommand: chron projects <subcommand>",
                ),
            ),
        );
    }
    let sub = arguments[2].as_str();
    assert(a[2] == sub@);
    if same_text(sub, "add") {
        let project = parse_project("projects add", if arguments.len() > 3 {
            Some(&arguments[3])
        } else {
            None
        });
        match project {
            Ok(p) => Ok(Command::Projects(ProjectsSubCommand::Add(p))),
            Err(e) => Err(e),
        }
    } else if same_text(sub, "delete") {
        let project = parse_project("projects delete", if arguments.len() > 3 {
            Some(&arguments[3])
        } else {
            None
        });
        match project {
            Ok(p) => Ok(Command::Projects(ProjectsSubCommand::Delete(p))),
            Err(e) => Err(e),
        }
    } else if same_text(sub, "list") {
        Ok(Command::Projects(ProjectsSubCommand::List))
    } else {
        let mut m = String::from_str("projects ");
        m.append(sub);
        Err(ParseCmdError::InvalidCommand(m))
    }
}

fn parse_retrotrack(arguments: &Vec<String>) -> (r: Result<Command, ParseCmdError>)
    requires
        arguments@.len() >= 2,
    ensures
        result_model(r) == retrotrack_model(args_view(arguments@)),
{
    let ghost a = args_view(arguments@);
    if arguments.len() < 3 {
        return Err(
            ParseCmdError::MissingParameter(
                String::from_str("The command 'retrotrack' requires a parameter 'end_time'"),
            ),
        );
    }
    let end_time = &arguments[2];
    let project = match parse_project("retrotrack", if arguments.len() > 3 {
        Some(&arguments[3])
    } else {
        None
    }) {
        Ok(p) => p,
        Err(e) => {
            return Err(e);
        },
    };
    let description = parse_description(arguments, 4);
    retrotrack_command(end_time, parse_clock_time(end_time.as_str()), project, description)
}

/// The `retrotrack` command for the end time `time` read from the text `end_time`, or
/// the error that the text is no time.
pub fn retrotrack_command(
    end_time: &String,
    time: Option<Time>,
    project: String,
    description: Option<String>,
) -> (r: Result<Command, ParseCmdError>)
    ensures
        time matches Some(t) ==> r == Ok::<Command, ParseCmdError>(
            Command::RetroTrack { end_time: t, project, description },
        ),
        time is None ==> r is Err && error_model(r->Err_0) == ParseErrorModel::InvalidTimeFormat(
            end_time@,
        ),
{
    match time {
        Some(t) => Ok(Command::RetroTrack { end_time: t, project, description }),
        None => Err(ParseCmdError::InvalidTimeFormat(end_time.clone())),
    }
}

fn parse_report(arguments: &Vec<String>, today: Date) -> (r: Result<Command, ParseCmdError>)
    requires
        arguments@.len() >= 2,
    ensures
        result_model(r) == report_model(args_view(arguments@), today),
{
    let ghost a = args_view(arguments@);
    let sub = if arguments.len() < 3 {
        String::from_str("day")
    } else {
        arguments[2].clone()
    };
    if same_text(sub.as_str(), "day") {
        Ok(Command::Report(ReportSubCommand::Day(today)))
    } else if same_text(sub.as_str(), "week") {
        Ok(Command::Report(ReportSubCommand::Week(today)))
    } else if same_text(sub.as_str(), "month") {
        Ok(Command::Report(ReportSubCommand::Month(today)))
    } else {
        let mut m = String::from_str("report ");
        m.append(sub.as_str());
        Err(ParseCmdError::InvalidCommand(m))
    }
}

/// Reads a command from the words of a command line, the first being the program's
/// name; reports are anchored on `today`. Exactly as `parse_model` says.
pub fn parse_command(arguments: Vec<String>, today: Date) -> (r: Result<Command, ParseCmdError>)
    requires
        arguments@.len() >= 1,
    ensures
        result_model(r) == parse_model(args_view(arguments@), today),
{
    let ghost a = args_view(arguments@);
    if arguments.len() == 1 {
        return Err(ParseCmdError::NoCommand);
    }
    let word = arguments[1].as_str();
    assert(a[1] == word@);
    if same_text(word, "track") {
        let project = match parse_project("track", if arguments.len() > 2 {
            Some(&arguments[2])
        } else {
            None
        }) {
            Ok(p) => p,
            Err(e) => {
                return Err(e);
            },
        };
        let description = parse_description(&arguments, 3);
        Ok(Command::Track { project, description })
    } else if same_text(word, "projects") {
        parse_projects(&arguments)
    } else if same_text(word, "break") {
        Ok(Command::Break(parse_description(&arguments, 2)))
    } else if same_text(word, "check-in") {
        Ok(Command::CheckIn)
    } else if same_text(word, "retrotrack") {
        parse_retrotrack(&arguments)
    } else if same_text(word, "reset") {
        Ok(Command::Reset)
    } else if same_text(word, "report") || same_text(word, "rep") {
        parse_report(&arguments, today)
    } else if same_text(word, "version") {
        Ok(Command::Version)
    } else {
        Err(ParseCmdError::InvalidCommand(arguments[1].clone()))
    }
}

} // verus!
