//! Measurements of processes, and how they are stored.

use crate::numbers::{decimal, push_number};
use crate::storage::rows::{
    from_stored, is_instant_of, is_refusal_of, law_ids_are_read_back, loaded_id, stored_id,
    to_stored, ReadError,
};
use crate::storage::Backend;
use crate::text::push_text;
use crate::time::{lemma_same_instant, Timestamp};
use vstd::prelude::*;

verus! {

/// What a process used at an instant. The share of a processor is a percentage in the binary
/// format of double precision.
#[derive(Clone, Copy, Debug)]
pub struct SystemMetrics {
    pub timestamp: Timestamp,
    pub cpu_percent_bits: u64,
    pub memory_bytes: u64,
    pub disk_io_bytes: u64,
}

/// How much memory DuckDB may take where nothing else is said, in megabytes.
pub const DEFAULT_LIMIT_MB: u64 = 10;

/// The settings of a DuckDB connection.
pub fn limit_statement(limit_mb: u64) -> (r: String)
    ensures
        r@ == "PRAGMA memory_limit='"@ + decimal(limit_mb as nat) + "MB'; PRAGMA threads=2;"@,
{
    let mut t = "PRAGMA memory_limit='".to_string();
    push_number(&mut t, limit_mb);
    push_text(&mut t, "MB'; PRAGMA threads=2;");
    t
}

/// The query for the measurements of a process, the latest first, no more than `limit` of them.
pub fn recent_query(limit: Option<usize>) -> (r: String)
    ensures
        r@ == match limit {
            Some(n) =>
                "SELECT timestamp, cpu_percent, memory_bytes, disk_io_bytes FROM system_metrics WHERE pid = ? ORDER BY timestamp DESC"@
                + " LIMIT "@ + decimal(n as nat),
            None =>
                "SELECT timestamp, cpu_percent, memory_bytes, disk_io_bytes FROM system_metrics WHERE pid = ? ORDER BY timestamp DESC"@,
        },
{
    let mut t =
        "SELECT timestamp, cpu_percent, memory_bytes, disk_io_bytes FROM system_metrics WHERE pid = ? ORDER BY timestamp DESC".to_string();
    match limit {
        Some(n) => {
            push_text(&mut t, " LIMIT ");
            push_number(&mut t, n as u64);
        },
        None => {},
    }
    t
}

/// The statement that stores one measurement. SQLite replaces a measurement of the same process
/// and instant, DuckDB refuses a second one.
pub fn insert_statement(backend: Backend) -> (r: &'static str)
    ensures
        r@ == match backend {
            Backend::Sqlite =>
                "INSERT OR REPLACE INTO system_metrics (timestamp, pid, cpu_percent, memory_bytes, disk_io_bytes) VALUES (?, ?, ?, ?, ?)"@,
            Backend::DuckDb =>
                "INSERT INTO system_metrics (timestamp, pid, cpu_percent, memory_bytes, disk_io_bytes) VALUES (?, ?, ?, ?, ?)"@,
        },
{
    match backend {
        Backend::Sqlite =>
            "INSERT OR REPLACE INTO system_metrics (timestamp, pid, cpu_percent, memory_bytes, disk_io_bytes) VALUES (?, ?, ?, ?, ?)",
        Backend::DuckDb =>
            "INSERT INTO system_metrics (timestamp, pid, cpu_percent, memory_bytes, disk_io_bytes) VALUES (?, ?, ?, ?, ?)",
    }
}

/// A row of a measurement.
#[derive(Debug)]
pub struct MetricsRow {
    pub timestamp: String,
    pub pid: i64,
    pub cpu_percent_bits: u64,
    pub memory_bytes: i64,
    pub disk_io_bytes: i64,
}

#[verifier::ext_equal]
pub struct MetricsRowView {
    pub timestamp: Seq<char>,
    pub pid: int,
    pub cpu_percent_bits: u64,
    pub memory_bytes: int,
    pub disk_io_bytes: int,
}

impl View for MetricsRow {
    type V = MetricsRowView;

    open spec fn view(&self) -> MetricsRowView {
        MetricsRowView {
            timestamp: self.timestamp@,
            pid: self.pid as int,
            cpu_percent_bits: self.cpu_percent_bits,
            memory_bytes: self.memory_bytes as int,
            disk_io_bytes: self.disk_io_bytes as int,
        }
    }
}

/// The row of a measurement.
pub open spec fn metrics_row(m: SystemMetrics, pid: u32) -> MetricsRowView {
    MetricsRowView {
        timestamp: m.timestamp.text(),
        pid: pid as int,
        cpu_percent_bits: m.cpu_percent_bits,
        memory_bytes: stored_id(m.memory_bytes),
        disk_io_bytes: stored_id(m.disk_io_bytes),
    }
}

/// Writes a measurement as a row. The text of its instant is read back in the years 0 to 9999.
pub fn write_metrics(m: &SystemMetrics, pid: u32) -> (r: MetricsRow)
    ensures
        r@ == metrics_row(*m, pid),
        m.timestamp.in_common_years() ==> is_instant_of(r@.timestamp, m.timestamp) && forall|
            at: Timestamp,
        |
            is_instant_of(r@.timestamp, at) ==> #[trigger] metrics_of_row(r@, at) == *m,
{
    let row = MetricsRow {
        timestamp: m.timestamp.to_rfc3339(),
        pid: pid as i64,
        cpu_percent_bits: m.cpu_percent_bits,
        memory_bytes: to_stored(m.memory_bytes),
        disk_io_bytes: to_stored(m.disk_io_bytes),
    };
    proof {
        law_metrics_are_read_back(*m, pid);
        if m.timestamp.in_common_years() {
            assert forall|at: Timestamp| is_instant_of(row@.timestamp, at) implies #[trigger]
                metrics_of_row(row@, at) == *m by {
                lemma_same_instant(at, m.timestamp);
            }
        }
    }
    row
}

/// The measurement of a row whose timestamp is read as `at`.
pub open spec fn metrics_of_row(row: MetricsRowView, at: Timestamp) -> SystemMetrics {
    SystemMetrics {
        timestamp: at,
        cpu_percent_bits: row.cpu_percent_bits,
        memory_bytes: loaded_id(row.memory_bytes) as u64,
        disk_io_bytes: loaded_id(row.disk_io_bytes) as u64,
    }
}

/// Reads a measurement from a row.
pub fn read_metrics(row: &MetricsRow) -> (r: Result<SystemMetrics, ReadError>)
    ensures
        match r {
            Ok(m) => is_instant_of(row@.timestamp, m.timestamp) && m == metrics_of_row(
                row@,
                m.timestamp,
            ),
            Err(e) => is_refusal_of(row@.timestamp, e@),
        },
{
    match Timestamp::parse_from_rfc3339(row.timestamp.as_str()) {
        Ok(timestamp) => Ok(
            SystemMetrics {
                timestamp,
                cpu_percent_bits: row.cpu_percent_bits,
                memory_bytes: from_stored(row.memory_bytes),
                disk_io_bytes: from_stored(row.disk_io_bytes),
            },
        ),
        Err(cause) => Err(ReadError::InvalidTimestamp(cause)),
    }
}

/// A measurement is read back from its row.
pub proof fn law_metrics_are_read_back(m: SystemMetrics, pid: u32)
    ensures
        metrics_of_row(metrics_row(m, pid), m.timestamp) == m,
{
    law_ids_are_read_back(m.memory_bytes);
    law_ids_are_read_back(m.disk_io_bytes);
}

} // verus!
