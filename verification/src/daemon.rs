//! The file that holds the number of the daemon's process: who may write it, who may remove it,
//! and what the tools say of the daemon that it names.

use crate::numbers::{
    decimal, is_digit, law_decimal_is_read_back, number_in, number_text, parse_number, push_number,
};
use crate::text::{push_text, trim, trimmed, trimmed_end, trimmed_start};
use crate::views::view_opt;
use vstd::prelude::*;

verus! {

/// The process that the text of a file names, if it names one.
pub open spec fn pid_in(text: Seq<char>) -> Option<u32> {
    match number_in(trimmed(text)) {
        Some(n) => if n <= u32::MAX {
            Some(n as u32)
        } else {
            None
        },
        None => None,
    }
}

/// The process that the text of a file names, if it names one.
pub fn parse_pid(text: &str) -> (r: Option<u32>)
    ensures
        r == pid_in(text@),
{
    match parse_number(trim(text).as_str(), u32::MAX as u64) {
        Some(n) => Some(n as u32),
        None => None,
    }
}

/// What was found where the file should be.
#[derive(Debug)]
pub enum PidFile {
    Missing,
    Unreadable,
    Text(String),
}

/// What the daemon does about the file that is there before it writes its own.
#[derive(Clone, Copy, Debug, PartialEq, Eq, Structural)]
pub enum BeforeWrite {
    /// There is no file.
    Write,
    /// The file names no process: remove it first.
    RemoveFirst,
    /// The file names a process: ask whether it is running.
    AskFor(u32),
}

/// What the daemon does about the file that is there before it writes its own.
pub fn before_write(found: &PidFile) -> (r: BeforeWrite)
    ensures
        r == match *found {
            PidFile::Missing => BeforeWrite::Write,
            PidFile::Unreadable => BeforeWrite::RemoveFirst,
            PidFile::Text(text) => match pid_in(text@) {
                Some(pid) => BeforeWrite::AskFor(pid),
                None => BeforeWrite::RemoveFirst,
            },
        },
{
    match found {
        PidFile::Missing => BeforeWrite::Write,
        PidFile::Unreadable => BeforeWrite::RemoveFirst,
        PidFile::Text(text) => match parse_pid(text.as_str()) {
            Some(pid) => BeforeWrite::AskFor(pid),
            None => BeforeWrite::RemoveFirst,
        },
    }
}

/// Whether the daemon may take over the file of the given process: not while that is running.
pub fn take_over(pid: u32, running: bool) -> (r: Result<(), String>)
    ensures
        match r {
            Ok(()) => !running,
            Err(message) => running && message@ == "Kronical daemon is already running (PID: "@
                + decimal(pid as nat) + ")"@,
        },
{
    if running {
        let mut t = "Kronical daemon is already running (PID: ".to_string();
        push_number(&mut t, pid as u64);
        push_text(&mut t, ")");
        Err(t)
    } else {
        Ok(())
    }
}

/// Whether the file that was written names the process that wrote it.
pub fn verify_pid_file(text: &str, current: u32) -> (r: Result<(), String>)
    ensures
        match r {
            Ok(()) => pid_in(text@) == Some(current),
            Err(message) => match pid_in(text@) {
                Some(pid) => pid != current && message@
                    == "PID file verification failed: expected "@ + decimal(current as nat)
                    + ", found "@ + decimal(pid as nat),
                None => message@ == "parsing pid from "@ + text@,
            },
        },
{
    match parse_pid(text) {
        Some(pid) => if pid == current {
            Ok(())
        } else {
            let mut t = "PID file verification failed: expected ".to_string();
            push_number(&mut t, current as u64);
            push_text(&mut t, ", found ");
            push_number(&mut t, pid as u64);
            Err(t)
        },
        None => {
            let mut t = "parsing pid from ".to_string();
            push_text(&mut t, text);
            Err(t)
        },
    }
}

/// Whether a process may remove the file at its end: the file must name it. `reason` says why
/// the text is no number, where it is none.
pub fn cleanup_pid_file(text: &str, current: u32, reason: &str) -> (r: Result<(), String>)
    ensures
        match r {
            Ok(()) => pid_in(text@) == Some(current),
            Err(message) => match pid_in(text@) {
                Some(pid) => pid != current && message@
                    == "PID file belongs to a different process ("@ + decimal(pid as nat)
                    + "), current is "@ + decimal(current as nat),
                None => message@ == "PID file contains invalid PID '"@ + text@ + "': "@ + reason@,
            },
        },
{
    match parse_pid(text) {
        Some(pid) => if pid == current {
            Ok(())
        } else {
            let mut t = "PID file belongs to a different process (".to_string();
            push_number(&mut t, pid as u64);
            push_text(&mut t, "), current is ");
            push_number(&mut t, current as u64);
            Err(t)
        },
        None => {
            let mut t = "PID file contains invalid PID '".to_string();
            push_text(&mut t, text);
            push_text(&mut t, "': ");
            push_text(&mut t, reason);
            Err(t)
        },
    }
}

/// Removes the file when the daemon ends early.
#[derive(Debug)]
pub struct PidFileGuard {
    pub path: String,
    pub active: bool,
}

impl PidFileGuard {
    pub fn new(path: String) -> (r: Self)
        ensures
            r.path == path,
            r.active,
    {
        PidFileGuard { path, active: true }
    }

    /// The file is left alone from here on.
    pub fn disarm(&mut self)
        ensures
            final(self).path == old(self).path,
            !final(self).active,
    {
        self.active = false;
    }

    /// Whether the file is to be removed, given its text, if it could be read.
    pub fn removes(&self, text: Option<&str>, current: u32) -> (r: bool)
        ensures
            r == (self.active && text is Some && pid_in(text->0@) == Some(current)),
    {
        if !self.active {
            return false;
        }
        match text {
            Some(text) => match parse_pid(text) {
                Some(pid) => pid == current,
                None => false,
            },
            None => false,
        }
    }
}

/// The file names no process.
#[derive(Clone, Copy, Debug, PartialEq, Eq, Structural)]
pub struct InvalidPid;

impl InvalidPid {
    pub fn message(&self) -> (r: &'static str)
        ensures
            r@ == "Invalid PID in file"@,
    {
        "Invalid PID in file"
    }
}

/// The process that the file names, given its text, if there is a file.
pub fn read_pid_file(text: Option<&str>) -> (r: Result<Option<u32>, InvalidPid>)
    ensures
        r == match text {
            None => Ok(None),
            Some(text) => match pid_in(text@) {
                Some(pid) => Ok(Some(pid)),
                None => Err(InvalidPid),
            },
        },
{
    match text {
        None => Ok(None),
        Some(text) => match parse_pid(text) {
            Some(pid) => Ok(Some(pid)),
            None => Err(InvalidPid),
        },
    }
}

/// The run that a file names: none where the file is blank.
pub fn run_id_in_file(text: &str) -> (r: Option<String>)
    ensures
        match r {
            Some(id) => trimmed(text@).len() > 0 && id@ == trimmed(text@),
            None => trimmed(text@).len() == 0,
        },
{
    let id = trim(text);
    if id.as_str().is_empty() {
        None
    } else {
        Some(id)
    }
}

/// How a run is named in messages.
pub open spec fn run_name(id: Option<Seq<char>>) -> Seq<char> {
    match id {
        Some(id) => id,
        None => "null"@,
    }
}

fn name_of_run(id: &Option<String>) -> (r: String)
    ensures
        r@ == run_name(view_opt(*id)),
{
    match id {
        Some(id) => id.clone(),
        None => "null".to_string(),
    }
}

/// What stopping the daemon comes to.
#[derive(Debug)]
pub enum StopPlan {
    /// There is no daemon: say so.
    NotRunning,
    /// There is none, only its file: say so, and remove it.
    Stale,
    /// Tell the process to end, and wait.
    Signal(u32),
}

/// What stopping the daemon comes to, given the process that its file names and whether that is
/// running.
pub fn plan_stop(pid: Option<u32>, running: bool) -> (r: StopPlan)
    ensures
        r == match pid {
            None => StopPlan::NotRunning,
            Some(pid) => if running {
                StopPlan::Signal(pid)
            } else {
                StopPlan::Stale
            },
        },
{
    match pid {
        None => StopPlan::NotRunning,
        Some(pid) => if running {
            StopPlan::Signal(pid)
        } else {
            StopPlan::Stale
        },
    }
}

/// What is said before the daemon is stopped.
pub fn stop_line(plan: &StopPlan, run_id: &Option<String>) -> (r: String)
    ensures
        r@ == match *plan {
            StopPlan::NotRunning => "Kronical daemon is not running"@,
            StopPlan::Stale => "Kronical daemon is not running (stale PID file)"@,
            StopPlan::Signal(pid) => "Stopping Kronical daemon (PID: "@ + decimal(pid as nat)
                + ", run_id: "@ + run_name(view_opt(*run_id)) + ")..."@,
        },
{
    match plan {
        StopPlan::NotRunning => "Kronical daemon is not running".to_string(),
        StopPlan::Stale => "Kronical daemon is not running (stale PID file)".to_string(),
        StopPlan::Signal(pid) => {
            let mut t = "Stopping Kronical daemon (PID: ".to_string();
            push_number(&mut t, *pid as u64);
            push_text(&mut t, ", run_id: ");
            push_text(&mut t, name_of_run(run_id).as_str());
            push_text(&mut t, ")...");
            t
        },
    }
}

/// What is said after the wait. The file is removed where the process has ended.
pub fn stopped_line(running: bool, run_id: &Option<String>) -> (r: String)
    ensures
        r@ == if running {
            "Kronical daemon did not stop gracefully, you may need to kill it manually"@
        } else {
            "Kronical daemon stopped successfully (run_id: "@ + run_name(view_opt(*run_id)) + ")"@
        },
{
    if running {
        "Kronical daemon did not stop gracefully, you may need to kill it manually".to_string()
    } else {
        let mut t = "Kronical daemon stopped successfully (run_id: ".to_string();
        push_text(&mut t, name_of_run(run_id).as_str());
        push_text(&mut t, ")");
        t
    }
}

/// Whether the daemon can be started, and if so whether a file has to be removed first, given the
/// process that the file names and whether that is running.
pub fn plan_start(pid: Option<u32>, running: bool) -> (r: Result<bool, String>)
    ensures
        match r {
            Ok(remove) => !(pid is Some && running) && remove == (pid is Some),
            Err(message) => pid is Some && running && message@
                == "Kronical daemon is already running (PID: "@ + decimal(pid->0 as nat)
                + "). Use 'kronictl stop' first."@,
        },
{
    match pid {
        None => Ok(false),
        Some(pid) => if running {
            let mut t = "Kronical daemon is already running (PID: ".to_string();
            push_number(&mut t, pid as u64);
            push_text(&mut t, "). Use 'kronictl stop' first.");
            Err(t)
        } else {
            Ok(true)
        },
    }
}

/// What is said before the daemon is started.
pub fn start_line(run_id: &Option<String>) -> (r: String)
    ensures
        r@ == "Starting Kronical daemon in background (run_id: "@ + run_name(view_opt(*run_id))
            + ")..."@,
{
    let mut t = "Starting Kronical daemon in background (run_id: ".to_string();
    push_text(&mut t, name_of_run(run_id).as_str());
    push_text(&mut t, ")...");
    t
}

/// The arguments that name the run to a new daemon.
pub fn run_args(run_id: &Option<String>) -> (r: Vec<String>)
    ensures
        match *run_id {
            Some(id) => r@.len() == 2 && r@[0]@ == "--run"@ && r@[1]@ == id@,
            None => r@.len() == 0,
        },
{
    let mut args: Vec<String> = Vec::new();
    match run_id {
        Some(id) => {
            args.push("--run".to_string());
            args.push(id.clone());
        },
        None => {},
    }
    args
}

/// The run of a daemon that is started again: the one asked for, else the one before.
pub fn run_after_restart(asked: Option<String>, previous: Option<String>) -> (r: Option<String>)
    ensures
        r == if asked is Some {
            asked
        } else {
            previous
        },
{
    match asked {
        Some(id) => Some(id),
        None => previous,
    }
}

/// How much is logged.
#[derive(Clone, Copy, Debug, PartialEq, Eq, Structural)]
pub enum LogLevel {
    Warn,
    Info,
    Debug,
    Trace,
}

/// How much is logged when it was asked so many times for more.
pub fn log_level(verbose: u8) -> (r: LogLevel)
    ensures
        r == if verbose == 0 {
            LogLevel::Warn
        } else if verbose == 1 {
            LogLevel::Info
        } else if verbose == 2 {
            LogLevel::Debug
        } else {
            LogLevel::Trace
        },
{
    match verbose {
        0 => LogLevel::Warn,
        1 => LogLevel::Info,
        2 => LogLevel::Debug,
        _ => LogLevel::Trace,
    }
}

/// What the file of a process says.
pub fn pid_text(pid: u32) -> (r: String)
    ensures
        r@ == decimal(pid as nat),
{
    number_text(pid as u64)
}

/// What a process writes into its file names that process and no other: it passes its own check
/// and may remove the file at its end.
pub proof fn law_file_names_its_process(pid: u32)
    ensures
        pid_in(decimal(pid as nat)) == Some(pid),
{
    let s = decimal(pid as nat);
    law_decimal_is_read_back(pid as nat);
    assert(is_digit(s[0]) && is_digit(s.last()));
    assert(trimmed_start(s) == s);
    assert(trimmed_end(s) == s);
}

} // verus!
