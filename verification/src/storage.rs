//! What the storage writer is told, when it commits, and how far behind it is.

use crate::compression::CompactEvent;
use crate::events::model::EventEnvelope;
use crate::events::RawEvent;
use crate::records::ActivityRecord;
use crate::snapshot::Transition;
use crate::text::push_text;
use crate::time::{is_instant, Timestamp};
use crate::views::view_opt;
use vstd::prelude::*;

pub mod compact;
pub mod labels;
pub mod metrics;
pub mod plan;
pub mod rows;
pub mod schema;

verus! {

/// After how many commands the writer commits.
pub const COMMANDS_PER_COMMIT: u32 = 100;

/// One piece of work for the writer.
#[derive(Debug)]
pub enum StorageCommand {
    RawEvent(RawEvent),
    Record(ActivityRecord),
    Envelope(EventEnvelope),
    CompactEvents(Vec<CompactEvent>),
    Transition(Transition),
    Shutdown,
}

/// How far behind the writer is, and when it last committed.
#[derive(Clone, Copy, Debug, PartialEq, Eq, Structural)]
pub struct StorageMetrics {
    pub backlog_count: u64,
    pub last_flush_at: Option<Timestamp>,
}

/// Counts the commands that wait for the writer, and holds the second of the last commit. The
/// second 0 stands for no commit yet.
#[derive(Clone, Copy, Debug)]
pub struct StorageGauge {
    pub backlog: u64,
    pub last_flush_epoch: i64,
}

impl StorageGauge {
    pub fn new() -> (r: Self)
        ensures
            r.backlog == 0,
            r.last_flush_epoch == 0,
    {
        StorageGauge { backlog: 0, last_flush_epoch: 0 }
    }

    /// What the gauge shows. A second outside the calendar, or not after the epoch, shows as no
    /// commit.
    pub fn storage_metrics_snapshot(&self) -> (r: StorageMetrics)
        ensures
            r.backlog_count == self.backlog,
            match r.last_flush_at {
                Some(t) => self.last_flush_epoch > 0 && t.secs() == self.last_flush_epoch
                    && t.nanos() == 0,
                None => self.last_flush_epoch <= 0 || !is_instant(self.last_flush_epoch as int, 0),
            },
    {
        let last = if self.last_flush_epoch > 0 {
            Timestamp::from_timestamp(self.last_flush_epoch, 0)
        } else {
            None
        };
        StorageMetrics { backlog_count: self.backlog, last_flush_at: last }
    }
}

/// One command more waits for the writer. The count goes round at its limit.
pub fn inc_backlog(gauge: &mut StorageGauge)
    ensures
        final(gauge).backlog == if old(gauge).backlog == u64::MAX {
            0
        } else {
            old(gauge).backlog + 1
        },
        final(gauge).last_flush_epoch == old(gauge).last_flush_epoch,
{
    gauge.backlog = gauge.backlog.wrapping_add(1);
}

/// One command less waits for the writer. The count goes round at 0.
pub fn dec_backlog(gauge: &mut StorageGauge)
    ensures
        final(gauge).backlog == if old(gauge).backlog == 0 {
            u64::MAX as int
        } else {
            old(gauge).backlog - 1
        },
        final(gauge).last_flush_epoch == old(gauge).last_flush_epoch,
{
    gauge.backlog = gauge.backlog.wrapping_sub(1);
}

/// The writer committed at `t`.
pub fn set_last_flush(gauge: &mut StorageGauge, t: Timestamp)
    ensures
        final(gauge).backlog == old(gauge).backlog,
        final(gauge).last_flush_epoch == t.secs(),
        is_instant(t.secs(), 0),
{
    gauge.last_flush_epoch = t.timestamp();
}

/// How many commands a call adds to the backlog: one for each item, but one for a whole batch of
/// condensed events, and none for an empty batch.
pub fn compact_commands(events: Vec<CompactEvent>) -> (r: Option<StorageCommand>)
    ensures
        match r {
            Some(StorageCommand::CompactEvents(batch)) => batch == events && events@.len() > 0,
            Some(_) => false,
            None => events@.len() == 0,
        },
{
    if events.len() == 0 {
        None
    } else {
        Some(StorageCommand::CompactEvents(events))
    }
}

/// The databases that the writer can write to.
#[derive(Clone, Copy, Debug, PartialEq, Eq, Structural)]
pub enum Backend {
    Sqlite,
    DuckDb,
}

/// What the writer calls its database in messages.
pub open spec fn backend_name(b: Backend) -> Seq<char> {
    match b {
        Backend::Sqlite => "db"@,
        Backend::DuckDb => "duckdb"@,
    }
}

/// What to do after a command was written.
#[derive(Debug)]
pub struct AfterWrite {
    /// A message for the list of health messages.
    pub health: Option<String>,
    /// Whether the transaction was given up and has to be started anew.
    pub restart: bool,
    /// Whether the transaction has to be committed, the commit noted, and the next one started.
    pub commit: bool,
}

/// Counts the commands of a transaction.
pub struct Writer {
    backend: Backend,
    written: u32,
}

impl Writer {
    pub closed spec fn backend(&self) -> Backend {
        self.backend
    }

    /// How many commands were written since the last commit.
    pub closed spec fn written(&self) -> int {
        self.written as int
    }

    pub open spec fn wf(&self) -> bool {
        0 <= self.written() < COMMANDS_PER_COMMIT
    }

    pub fn new(backend: Backend) -> (r: Self)
        ensures
            r.wf(),
            r.backend() == backend,
            r.written() == 0,
    {
        Writer { backend, written: 0 }
    }

    /// A message about a step that failed.
    fn message(&self, step: &str, error: &Option<String>) -> (r: Option<String>)
        ensures
            view_opt(r) == match *error {
                Some(e) => Some(backend_name(self.backend()) + step@ + e@),
                None => None,
            },
    {
        match error {
            Some(e) => {
                let mut text = match self.backend {
                    Backend::Sqlite => "db".to_string(),
                    Backend::DuckDb => "duckdb".to_string(),
                };
                push_text(&mut text, step);
                push_text(&mut text, e.as_str());
                Some(text)
            },
            None => None,
        }
    }

    /// Notes that a command was written, or failed with the given error.
    pub fn wrote(&mut self, error: Option<String>) -> (r: AfterWrite)
        requires
            old(self).wf(),
        ensures
            final(self).wf(),
            final(self).backend() == old(self).backend(),
            final(self).written() == (old(self).written() + 1) % (COMMANDS_PER_COMMIT as int),
            r.commit == (final(self).written() == 0),
            r.restart == (error is Some && old(self).backend() == Backend::DuckDb),
            view_opt(r.health) == match error {
                Some(e) => Some(backend_name(old(self).backend()) + " write error: "@ + e@),
                None => None,
            },
    {
        let health = self.message(" write error: ", &error);
        let restart = error.is_some() && self.backend == Backend::DuckDb;
        self.written = self.written + 1;
        let commit = self.written == COMMANDS_PER_COMMIT;
        if commit {
            self.written = 0;
        }
        AfterWrite { health, restart, commit }
    }

    /// The message about a commit that failed with the given error.
    pub fn committed(&self, error: Option<String>) -> (r: Option<String>)
        ensures
            view_opt(r) == match error {
                Some(e) => Some(backend_name(self.backend()) + " commit error: "@ + e@),
                None => None,
            },
    {
        self.message(" commit error: ", &error)
    }

    /// The message about a last commit that failed with the given error.
    pub fn finished(&self, error: Option<String>) -> (r: Option<String>)
        ensures
            view_opt(r) == match error {
                Some(e) => Some(backend_name(self.backend()) + " final commit error: "@ + e@),
                None => None,
            },
    {
        self.message(" final commit error: ", &error)
    }
}

/// How many commands a new writer has written since its last commit, after `n` of them.
pub open spec fn written_after(n: nat) -> int
    decreases n,
{
    if n == 0 {
        0
    } else {
        (written_after((n - 1) as nat) + 1) % (COMMANDS_PER_COMMIT as int)
    }
}

/// A writer commits after every hundredth command, and after no other.
pub proof fn law_commits_every_hundred(n: nat)
    ensures
        written_after(n) == n % (COMMANDS_PER_COMMIT as nat),
    decreases n,
{
    if n > 0 {
        law_commits_every_hundred((n - 1) as nat);
    }
}

} // verus!
