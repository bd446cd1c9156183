//! The tracking actions: check in, track a chunk, take a break.
//!
//! Each action decides on the day as it was read; the caller writes back the day that
//! an action returns, and nothing when it fails.

use vstd::prelude::*;

use crate::clock::Date;
use crate::clock::Time;
use crate::config::Config;
use crate::config::is_configured;
use crate::day::Chunk;
use crate::day::Day;
use crate::day::break_name;
use crate::day::break_project;

verus! {

/// Why an action failed.
#[derive(Debug)]
pub enum CommandExecutionError {
    /// A day was checked in already.
    CheckedInTwice,
    /// The day has not been checked in.
    NotCheckedIn(Date),
    /// Reading or writing storage failed.
    IoError(String),
    /// A stored record is not in the expected shape.
    InvalidJsonFormat(String),
    /// Something the environment should provide is missing.
    UnexpectedError(String),
    /// The chunk would end before the check-in.
    NoTrackingBeforeCheckIn,
    /// The chunk would end after the current time.
    NoTrackingAfterCurrentTime,
    /// The project is not registered.
    ProjectNotConfigured(String),
}

/// A directory of the operating system that could not be found; it names which one.
#[derive(Debug)]
pub struct DirsError(pub String);

/// The message for a directory that could not be found.
pub open spec fn dirs_error_message(what: Seq<char>) -> Seq<char> {
    "The OS specific dir for \""@ + what + "\" could not be found!"@
}

impl DirsError {
    /// The error that a missing directory makes of an action.
    pub fn into_error(self) -> (r: CommandExecutionError)
        ensures
            r matches CommandExecutionError::UnexpectedError(m) && m@ == dirs_error_message(
                self.0@,
            ),
    {
        let mut m = String::from_str("The OS specific dir for \"");
        m.append(self.0.as_str());
        m.append("\" could not be found!");
        CommandExecutionError::UnexpectedError(m)
    }
}

/// Whether time may be tracked for `project`: a break, or a registered project.
pub open spec fn trackable(names: Seq<Seq<char>>, project: Seq<char>) -> bool {
    project == break_name() || names.contains(project)
}

/// Whether a chunk of `project` that ends at `time` may be added to a day checked in at
/// `check_in`, at the current time `now`.
pub open spec fn may_append(
    names: Seq<Seq<char>>,
    check_in: Time,
    project: Seq<char>,
    time: Time,
    now: Time,
) -> bool {
    trackable(names, project) && check_in.minutes() <= time.minutes() <= now.minutes()
}

/// Checks a chunk of `project` ending at `time` against the day's check-in, the current
/// time and the registry. An unregistered project is reported first, then an end before
/// the check-in, then an end after `now`. There is no rule on the other chunks' ends.
pub fn validate_append(day: &Day, config: &Config, project: &String, time: &Time, now: &Time) -> (r:
    Result<(), CommandExecutionError>)
    requires
        day.wf(),
        time.wf(),
        now.wf(),
    ensures
        r is Ok <==> may_append(config.names(), day.check_in_time, project@, *time, *now),
        !trackable(config.names(), project@) ==> (r matches Err(
            CommandExecutionError::ProjectNotConfigured(p),
        ) && p@ == project@),
        trackable(config.names(), project@) && time.minutes() < day.check_in_time.minutes()
            ==> r matches Err(CommandExecutionError::NoTrackingBeforeCheckIn),
        trackable(config.names(), project@) && day.check_in_time.minutes() <= time.minutes()
            && now.minutes() < time.minutes() ==> r matches Err(
            CommandExecutionError::NoTrackingAfterCurrentTime,
        ),
{
    let breaks = break_project();
    if !is_configured(config, project) && !(*project == breaks) {
        return Err(CommandExecutionError::ProjectNotConfigured(project.clone()));
    }
    if time.is_before(&day.check_in_time) {
        return Err(CommandExecutionError::NoTrackingBeforeCheckIn);
    }
    if now.is_before(time) {
        return Err(CommandExecutionError::NoTrackingAfterCurrentTime);
    }
    Ok(())
}

/// Opens the day `date` at `now`, unless a record of it `exists` already.
pub fn check_in(exists: bool, date: Date, now: Time) -> (r: Result<Day, CommandExecutionError>)
    ensures
        exists ==> r matches Err(CommandExecutionError::CheckedInTwice),
        !exists ==> (r matches Ok(d) && d.date == date && d.check_in_time == now
            && d.chunks@.len() == 0),
{
    if exists {
        return Err(CommandExecutionError::CheckedInTwice);
    }
    Ok(Day::new(date, now))
}

/// Adds a chunk of `project` ending at `time` to the day `date` as it was read (`None`
/// where it was never checked in), at the current time `now`. On success the day comes
/// back with the chunk appended and nothing else changed.
pub fn track(
    day: Option<Day>,
    date: Date,
    config: &Config,
    time: Time,
    project: String,
    description: Option<String>,
    now: Time,
) -> (r: Result<Day, CommandExecutionError>)
    requires
        day matches Some(d) ==> d.wf(),
        time.wf(),
        now.wf(),
    ensures
        day is None ==> (r matches Err(CommandExecutionError::NotCheckedIn(d)) && d == date),
        day is Some ==> (r is Ok <==> may_append(
            config.names(),
            day->Some_0.check_in_time,
            project@,
            time,
            now,
        )),
        day is Some && !trackable(config.names(), project@) ==> (r matches Err(
            CommandExecutionError::ProjectNotConfigured(p),
        ) && p@ == project@),
        day is Some && trackable(config.names(), project@) && time.minutes()
            < day->Some_0.check_in_time.minutes() ==> (r matches Err(
            CommandExecutionError::NoTrackingBeforeCheckIn,
        )),
        day is Some && trackable(config.names(), project@) && day->Some_0.check_in_time.minutes()
            <= time.minutes() && now.minutes() < time.minutes() ==> (r matches Err(
            CommandExecutionError::NoTrackingAfterCurrentTime,
        )),
        day is Some && r is Ok ==> r->Ok_0.date == day->Some_0.date && r->Ok_0.check_in_time
            == day->Some_0.check_in_time && r->Ok_0.chunks@ == day->Some_0.chunks@.push(
            Chunk { project, description, end_time: time },
        ) && r->Ok_0.wf(),
        r is Ok ==> r->Ok_0.check_in_time.minutes() <= time.minutes() <= now.minutes(),
{
    let mut day = match day {
        Some(d) => d,
        None => {
            return Err(CommandExecutionError::NotCheckedIn(date));
        },
    };
    let checked = validate_append(&day, config, &project, &time, &now);
    match checked {
        Ok(()) => {},
        Err(e) => {
            return Err(e);
        },
    }
    let ghost before = day.chunks@;
    day.chunks.push(Chunk { project, description, end_time: time });
    assert(day.chunks@[before.len() as int].end_time == time);
    Ok(day)
}

/// Tracks a break that ends now: `track` with the project `"break"` at `now`.
pub fn take_break(
    day: Option<Day>,
    date: Date,
    config: &Config,
    description: Option<String>,
    now: Time,
) -> (r: Result<Day, CommandExecutionError>)
    requires
        day matches Some(d) ==> d.wf(),
        now.wf(),
    ensures
        day is None ==> (r matches Err(CommandExecutionError::NotCheckedIn(d)) && d == date),
        day is Some ==> (r is Ok <==> day->Some_0.check_in_time.minutes() <= now.minutes()),
        day is Some && now.minutes() < day->Some_0.check_in_time.minutes() ==> (r matches Err(
            CommandExecutionError::NoTrackingBeforeCheckIn,
        )),
        day is Some && r is Ok ==> ({
            let (d, n) = (day->Some_0, r->Ok_0);
            &&& n.date == d.date
            &&& n.check_in_time == d.check_in_time
            &&& n.chunks@.drop_last() == d.chunks@
            &&& n.chunks@.len() == d.chunks@.len() + 1
            &&& n.chunks@.last().project@ == break_name()
            &&& n.chunks@.last().end_time == now
            &&& n.chunks@.last().description == description
            &&& n.wf()
        }),
{
    let project = break_project();
    let r = track(day, date, config, now, project, description, now);
    proof {
        if r is Ok {
            let n = r->Ok_0;
            assert(n.chunks@.drop_last() =~= n.chunks@.take(n.chunks@.len() - 1));
        }
    }
    r
}

} // verus!
