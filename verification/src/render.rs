//! The user-visible lines, built verified: every function pins the exact
//! text it returns, over the decimal form of the numbers and the named
//! calendar renderings.
use vstd::prelude::*;
use vstd::string::*;

use crate::calendar::{utc_debug_of, utc_debug_text, MAX_CALENDAR_TS};
use crate::numfmt::{dec_str, dec_u64};
use crate::store::{CancelOutcome, StartOutcome, StopOutcome};

verus! {

/// The "H hrs M mins" fragment: hours by integer division, minutes the
/// remainder minute of the hour.
pub open spec fn hrs_mins_text(secs: int) -> Seq<char> {
    dec_str((secs / 3600) as nat) + " hrs "@ + dec_str((secs / 60 % 60) as nat) + " mins"@
}

pub fn hrs_mins(secs: u64) -> (r: String)
    ensures
        r@ == hrs_mins_text(secs as int),
{
    let mut s = dec_u64(secs / 3600);
    s.append(" hrs ");
    s.append(dec_u64(secs / 60 % 60).as_str());
    s.append(" mins");
    s
}

/// What `start` tells the user.
pub fn start_message(o: &StartOutcome, project_code: &String) -> (m: String)
    ensures
        o is Started ==> m@ == "Starting timer for project "@ + project_code@ + "..."@,
        o is AlreadyRunning ==> m@ == "Timer is already running"@,
{
    match o {
        StartOutcome::Started => {
            let mut s = String::from_str("Starting timer for project ");
            s.append(project_code.as_str());
            s.append("...");
            s
        },
        StartOutcome::AlreadyRunning => String::from_str("Timer is already running"),
    }
}

/// The banner printed as a stop begins.
pub fn stopping_banner() -> (r: &'static str)
    ensures
        r@ == "Stopping timer..."@,
{
    "Stopping timer..."
}

/// What `stop` tells the user.
pub fn stop_message(o: &StopOutcome) -> (m: String)
    ensures
        o is Logged ==> m@ == "Timer has been running "@ + hrs_mins_text(
            o->Logged_0.duration as int,
        ),
        o is Discarded ==> m@ == "Timer has been running for less than 2 minutes, discarding..."@,
        o is NotRunning ==> m@ == "There is no running timer to stop"@,
{
    match o {
        StopOutcome::Logged(c) => {
            let mut s = String::from_str("Timer has been running ");
            s.append(hrs_mins(c.duration).as_str());
            s
        },
        StopOutcome::Discarded => String::from_str(
            "Timer has been running for less than 2 minutes, discarding...",
        ),
        StopOutcome::NotRunning => String::from_str("There is no running timer to stop"),
    }
}

/// What `cancel` tells the user.
pub fn cancel_message(o: &CancelOutcome) -> (m: String)
    ensures
        o is Cancelled ==> m@ == "Timer cancelled."@,
        o is NotRunning ==> m@ == "There is no running timer to cancel."@,
{
    match o {
        CancelOutcome::Cancelled => String::from_str("Timer cancelled."),
        CancelOutcome::NotRunning => String::from_str("There is no running timer to cancel."),
    }
}

/// The banner above a running timer's status line.
pub fn timer_running_banner() -> (r: &'static str)
    ensures
        r@ == "Timer is running"@,
{
    "Timer is running"
}

/// The status line of a running timer.
pub fn running_line(project_code: &String, elapsed: u64) -> (m: String)
    ensures
        m@ == "Timer: "@ + project_code@ + " running "@ + hrs_mins_text(elapsed as int),
{
    let mut s = String::from_str("Timer: ");
    s.append(project_code.as_str());
    s.append(" running ");
    s.append(hrs_mins(elapsed).as_str());
    s
}

/// The status line when no timer runs.
pub fn no_timer_line() -> (r: &'static str)
    ensures
        r@ == "There is no timer running"@,
{
    "There is no timer running"
}

/// The closing status line: the current ISO week, month and day of month.
pub fn calendar_line(week: u32, month: u32, day: u32) -> (m: String)
    ensures
        m@ == "Week "@ + dec_str(week as nat) + " Month "@ + dec_str(month as nat) + " Day "@
            + dec_str(day as nat) + " "@,
{
    let mut s = String::from_str("Week ");
    s.append(dec_u64(week as u64).as_str());
    s.append(" Month ");
    s.append(dec_u64(month as u64).as_str());
    s.append(" Day ");
    s.append(dec_u64(day as u64).as_str());
    s.append(" ");
    s
}

/// One flat aggregation row: the interval's labels, its start rendered as a
/// UTC datetime, and its duration.
pub fn interval_row_line(project_code: &String, task: &String, start_time: u64, duration: u64) -> (m:
    String)
    requires
        start_time <= MAX_CALENDAR_TS,
    ensures
        m@ == "Project: "@ + project_code@ + " Task: "@ + task@ + "      date "@ + utc_debug_of(
            start_time as int,
        ) + " duration "@ + hrs_mins_text(duration as int),
{
    let mut s = String::from_str("Project: ");
    s.append(project_code.as_str());
    s.append(" Task: ");
    s.append(task.as_str());
    s.append("      date ");
    s.append(utc_debug_text(start_time).as_str());
    s.append(" duration ");
    s.append(hrs_mins(duration).as_str());
    s
}

/// The grand-total line of the flat aggregation.
pub fn total_line(total: u64) -> (m: String)
    ensures
        m@ == "Total is "@ + dec_str((total / 3600) as nat) + " hours "@ + dec_str(
            (total / 60 % 60) as nat,
        ) + " minutes."@,
{
    let mut s = String::from_str("Total is ");
    s.append(dec_u64(total / 3600).as_str());
    s.append(" hours ");
    s.append(dec_u64(total / 60 % 60).as_str());
    s.append(" minutes.");
    s
}

/// One contiguous-run row of the weekly aggregation.
pub fn week_row_line(key: u32, total: u64) -> (m: String)
    ensures
        m@ == "Week "@ + dec_str(key as nat) + " Hours "@ + dec_str((total / 3600) as nat)
            + " hours "@ + dec_str((total / 60 % 60) as nat) + " minutes"@,
{
    let mut s = String::from_str("Week ");
    s.append(dec_u64(key as u64).as_str());
    s.append(" Hours ");
    s.append(dec_u64(total / 3600).as_str());
    s.append(" hours ");
    s.append(dec_u64(total / 60 % 60).as_str());
    s.append(" minutes");
    s
}

/// One contiguous-run row of the daily aggregation.
pub fn day_row_line(key: u32, total: u64) -> (m: String)
    ensures
        m@ == "Day "@ + dec_str(key as nat) + " Hours "@ + dec_str((total / 3600) as nat)
            + " hours "@ + dec_str((total / 60 % 60) as nat) + " minutes"@,
{
    let mut s = String::from_str("Day ");
    s.append(dec_u64(key as u64).as_str());
    s.append(" Hours ");
    s.append(dec_u64(total / 3600).as_str());
    s.append(" hours ");
    s.append(dec_u64(total / 60 % 60).as_str());
    s.append(" minutes");
    s
}

/// The line printed when the log store does not exist yet.
pub fn no_logfile_line() -> (r: &'static str)
    ensures
        r@ == "Unable to Total. No logfile."@,
{
    "Unable to Total. No logfile."
}

} // verus!
