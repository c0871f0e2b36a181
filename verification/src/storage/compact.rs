//! A store of compacted input alone: one table for each kind of input, and one for records.

use crate::compression::{CompactEvent, StringId};
use crate::records::ActivityRecord;
use crate::storage::labels::{label_of_state, state_label};
use crate::text::push_text;
use crate::time::Timestamp;
use crate::views::view_opt;
use vstd::prelude::*;

verus! {

/// One piece of work for the writer of this store.
#[derive(Debug)]
pub enum CompactCommand {
    Event(CompactEvent),
    Record(ActivityRecord),
    Shutdown,
}

/// What the writer stores. The values that go into a column of bytes come beside it.
#[derive(Debug)]
pub enum CompactInsert {
    /// A focus: when, and the numbers of the names of the application and the window.
    Focus { timestamp: String, app_name_id: StringId, window_title_id: StringId, pid: i32 },
    /// An event that is stored as bytes, under the instant at which it began.
    Scroll(String),
    MouseTrajectory(String),
    Keyboard(String),
    /// A record: from when to when, and in which state.
    Record { start_time: String, end_time: Option<String>, state: String },
    /// Nothing: the writer ends.
    Nothing,
}

/// When a record ended, as text.
pub open spec fn end_text(end: Option<Timestamp>) -> Option<Seq<char>> {
    match end {
        Some(t) => Some(t.text()),
        None => None,
    }
}

/// What the writer stores for a command.
pub fn plan_insert(command: &CompactCommand) -> (r: CompactInsert)
    ensures
        match *command {
            CompactCommand::Event(CompactEvent::Focus(f)) => match r {
                CompactInsert::Focus { timestamp, app_name_id, window_title_id, pid } => timestamp@
                    == f.timestamp.text() && app_name_id == f.app_name_id && window_title_id
                    == f.window_title_id && pid == f.pid,
                _ => false,
            },
            CompactCommand::Event(CompactEvent::Scroll(s)) => match r {
                CompactInsert::Scroll(timestamp) => timestamp@ == s.start_time.text(),
                _ => false,
            },
            CompactCommand::Event(CompactEvent::MouseTrajectory(t)) => match r {
                CompactInsert::MouseTrajectory(timestamp) => timestamp@ == t.start_time.text(),
                _ => false,
            },
            CompactCommand::Event(CompactEvent::Keyboard(k)) => match r {
                CompactInsert::Keyboard(timestamp) => timestamp@ == k.start_time.text(),
                _ => false,
            },
            CompactCommand::Record(record) => match r {
                CompactInsert::Record { start_time, end_time, state } => start_time@
                    == record.start_time.text() && view_opt(end_time) == end_text(record.end_time)
                    && state@ == state_label(record.state),
                _ => false,
            },
            CompactCommand::Shutdown => r is Nothing,
        },
{
    match command {
        CompactCommand::Event(event) => match event {
            CompactEvent::Focus(f) => CompactInsert::Focus {
                timestamp: f.timestamp.to_rfc3339(),
                app_name_id: f.app_name_id,
                window_title_id: f.window_title_id,
                pid: f.pid,
            },
            CompactEvent::Scroll(s) => CompactInsert::Scroll(s.start_time.to_rfc3339()),
            CompactEvent::MouseTrajectory(t) => {
                CompactInsert::MouseTrajectory(t.start_time.to_rfc3339())
            },
            CompactEvent::Keyboard(k) => CompactInsert::Keyboard(k.start_time.to_rfc3339()),
        },
        CompactCommand::Record(record) => {
            let end_time = match &record.end_time {
                Some(t) => Some(t.to_rfc3339()),
                None => None,
            };
            CompactInsert::Record {
                start_time: record.start_time.to_rfc3339(),
                end_time,
                state: label_of_state(record.state).to_string(),
            }
        },
        CompactCommand::Shutdown => CompactInsert::Nothing,
    }
}

impl CompactInsert {
    /// The statement that stores it.
    pub fn statement(&self) -> (r: Option<&'static str>)
        ensures
            view_opt(r) == match *self {
                CompactInsert::Focus { .. } => Some(
                    "INSERT INTO focus_events (timestamp, app_name_id, window_title_id, pid) VALUES (?, ?, ?, ?)"@,
                ),
                CompactInsert::Scroll(_) => Some(
                    "INSERT INTO scroll_events (timestamp, data) VALUES (?, ?)"@,
                ),
                CompactInsert::MouseTrajectory(_) => Some(
                    "INSERT INTO mouse_trajectory_events (timestamp, data) VALUES (?, ?)"@,
                ),
                CompactInsert::Keyboard(_) => Some(
                    "INSERT INTO keyboard_events (timestamp, data) VALUES (?, ?)"@,
                ),
                CompactInsert::Record { .. } => Some(
                    "INSERT INTO activity_records (start_time, end_time, state, focus_info) VALUES (?, ?, ?, ?)"@,
                ),
                CompactInsert::Nothing => None,
            },
    {
        match self {
            CompactInsert::Focus { .. } => Some(
                "INSERT INTO focus_events (timestamp, app_name_id, window_title_id, pid) VALUES (?, ?, ?, ?)",
            ),
            CompactInsert::Scroll(_) => Some(
                "INSERT INTO scroll_events (timestamp, data) VALUES (?, ?)",
            ),
            CompactInsert::MouseTrajectory(_) => Some(
                "INSERT INTO mouse_trajectory_events (timestamp, data) VALUES (?, ?)",
            ),
            CompactInsert::Keyboard(_) => Some(
                "INSERT INTO keyboard_events (timestamp, data) VALUES (?, ?)",
            ),
            CompactInsert::Record { .. } => Some(
                "INSERT INTO activity_records (start_time, end_time, state, focus_info) VALUES (?, ?, ?, ?)",
            ),
            CompactInsert::Nothing => None,
        }
    }
}

/// A failure to write, as it is reported.
pub fn write_failure(error: &str) -> (r: String)
    ensures
        r@ == "Failed to write to DB: "@ + error@,
{
    let mut t = "Failed to write to DB: ".to_string();
    push_text(&mut t, error);
    t
}

/// A failure to commit, as it is reported.
pub fn commit_failure(error: &str) -> (r: String)
    ensures
        r@ == "Failed to commit transaction: "@ + error@,
{
    let mut t = "Failed to commit transaction: ".to_string();
    push_text(&mut t, error);
    t
}

} // verus!
