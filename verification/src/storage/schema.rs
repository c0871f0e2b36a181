//! The tables of the databases, and the queries on them.

use vstd::prelude::*;

verus! {

/// The tables of the SQLite store.
pub const SQLITE_SCHEMA: &'static str = "CREATE TABLE IF NOT EXISTS raw_events (
    id INTEGER PRIMARY KEY,
    timestamp TEXT NOT NULL,
    event_type TEXT NOT NULL,
    data TEXT NOT NULL
);
CREATE INDEX IF NOT EXISTS idx_raw_events_timestamp ON raw_events(timestamp);
CREATE TABLE IF NOT EXISTS raw_envelopes (
    id INTEGER PRIMARY KEY,
    event_id INTEGER,
    timestamp TEXT NOT NULL,
    source TEXT NOT NULL,
    kind TEXT NOT NULL,
    payload TEXT,
    derived INTEGER NOT NULL,
    polling INTEGER NOT NULL,
    sensitive INTEGER NOT NULL
);
CREATE INDEX IF NOT EXISTS idx_raw_envelopes_timestamp ON raw_envelopes(timestamp);
CREATE TABLE IF NOT EXISTS activity_records (
    id INTEGER PRIMARY KEY,
    start_time TEXT NOT NULL,
    end_time TEXT,
    state TEXT NOT NULL,
    focus_info TEXT,
    run_id TEXT
);
CREATE TABLE IF NOT EXISTS compact_events (
    start_time TEXT NOT NULL,
    end_time TEXT NOT NULL,
    kind TEXT NOT NULL,
    payload TEXT,
    raw_event_ref TEXT
);
CREATE INDEX IF NOT EXISTS idx_compact_events_start_time ON compact_events(start_time);
CREATE INDEX IF NOT EXISTS idx_activity_records_start_time ON activity_records(start_time);
CREATE TABLE IF NOT EXISTS recent_transitions (
    id INTEGER PRIMARY KEY AUTOINCREMENT,
    at TEXT NOT NULL,
    from_state TEXT NOT NULL,
    to_state TEXT NOT NULL,
    by_signal TEXT,
    run_id TEXT
);
CREATE INDEX IF NOT EXISTS idx_recent_transitions_at ON recent_transitions(at);";

/// The tables of the DuckDB store.
pub const DUCKDB_SCHEMA: &'static str = "CREATE TABLE IF NOT EXISTS raw_events (
    id BIGINT,
    timestamp TIMESTAMPTZ NOT NULL,
    event_type TEXT NOT NULL,
    data TEXT NOT NULL
);
CREATE INDEX IF NOT EXISTS idx_raw_events_timestamp ON raw_events(timestamp);
CREATE TABLE IF NOT EXISTS raw_envelopes (
    id BIGINT,
    event_id BIGINT,
    timestamp TIMESTAMPTZ NOT NULL,
    source TEXT NOT NULL,
    kind TEXT NOT NULL,
    payload TEXT,
    derived BOOLEAN NOT NULL,
    polling BOOLEAN NOT NULL,
    sensitive BOOLEAN NOT NULL
);
CREATE INDEX IF NOT EXISTS idx_raw_envelopes_timestamp ON raw_envelopes(timestamp);
CREATE TABLE IF NOT EXISTS activity_records (
    id BIGINT,
    start_time TIMESTAMPTZ NOT NULL,
    end_time TIMESTAMPTZ,
    state TEXT NOT NULL,
    focus_info TEXT
);
CREATE TABLE IF NOT EXISTS compact_events (
    start_time TIMESTAMPTZ NOT NULL,
    end_time TIMESTAMPTZ NOT NULL,
    kind TEXT NOT NULL,
    payload TEXT,
    raw_event_ids TEXT NOT NULL
);
CREATE INDEX IF NOT EXISTS idx_compact_events_start_time ON compact_events(start_time);
CREATE INDEX IF NOT EXISTS idx_activity_records_start_time ON activity_records(start_time);";

/// The table of measurements in a new DuckDB database.
pub const DUCKDB_NEW_METRICS_SCHEMA: &'static str = "CREATE TABLE system_metrics (
    timestamp TIMESTAMPTZ NOT NULL,
    pid INTEGER NOT NULL,
    cpu_percent DOUBLE NOT NULL,
    memory_bytes BIGINT NOT NULL,
    disk_io_bytes BIGINT NOT NULL,
    PRIMARY KEY (timestamp, pid)
);
CREATE INDEX idx_system_metrics_timestamp ON system_metrics(timestamp);
CREATE INDEX idx_system_metrics_pid ON system_metrics(pid);";

/// The table of measurements in a DuckDB file.
pub const DUCKDB_METRICS_SCHEMA: &'static str = "CREATE TABLE IF NOT EXISTS system_metrics (
    timestamp TIMESTAMPTZ NOT NULL,
    pid INTEGER NOT NULL,
    cpu_percent DOUBLE NOT NULL,
    memory_bytes BIGINT NOT NULL,
    disk_io_bytes BIGINT NOT NULL,
    PRIMARY KEY (timestamp, pid)
);
CREATE INDEX IF NOT EXISTS idx_system_metrics_timestamp ON system_metrics(timestamp);
CREATE INDEX IF NOT EXISTS idx_system_metrics_pid ON system_metrics(pid);";

/// The table of measurements in a SQLite file.
pub const SQLITE_METRICS_SCHEMA: &'static str = "CREATE TABLE IF NOT EXISTS system_metrics (
    timestamp TEXT NOT NULL,
    pid INTEGER NOT NULL,
    cpu_percent REAL NOT NULL,
    memory_bytes INTEGER NOT NULL,
    disk_io_bytes INTEGER NOT NULL,
    PRIMARY KEY (timestamp, pid)
);
CREATE INDEX IF NOT EXISTS idx_system_metrics_timestamp ON system_metrics(timestamp);
CREATE INDEX IF NOT EXISTS idx_system_metrics_pid ON system_metrics(pid);";

/// The tables of the store of compacted input.
pub const COMPACT_SCHEMA: &'static str = "PRAGMA journal_mode = WAL;
PRAGMA synchronous = NORMAL;
CREATE TABLE IF NOT EXISTS string_interner (
    id INTEGER PRIMARY KEY,
    value TEXT NOT NULL UNIQUE
);
CREATE TABLE IF NOT EXISTS focus_events (
    timestamp TEXT NOT NULL,
    app_name_id INTEGER NOT NULL,
    window_title_id INTEGER NOT NULL,
    pid INTEGER NOT NULL
);
CREATE TABLE IF NOT EXISTS scroll_events (
    timestamp TEXT NOT NULL,
    data BLOB NOT NULL
);
CREATE TABLE IF NOT EXISTS mouse_trajectory_events (
    timestamp TEXT NOT NULL,
    data BLOB NOT NULL
);
CREATE TABLE IF NOT EXISTS keyboard_events (
    timestamp TEXT NOT NULL,
    data BLOB NOT NULL
);
CREATE TABLE IF NOT EXISTS activity_records (
    start_time TEXT NOT NULL,
    end_time TEXT,
    state TEXT NOT NULL,
    focus_info BLOB
);";

/// The records that ended at an instant or later, or have not ended.
pub const SQLITE_RECORDS_QUERY: &'static str = "SELECT id, start_time, end_time, state, focus_info, run_id FROM activity_records WHERE (end_time IS NULL OR end_time >= ?1) ORDER BY start_time ASC";

/// The same, of one run.
pub const SQLITE_RUN_RECORDS_QUERY: &'static str = "SELECT id, start_time, end_time, state, focus_info, run_id FROM activity_records WHERE (end_time IS NULL OR end_time >= ?1) AND run_id = ?2 ORDER BY start_time ASC";

/// The records that ended at an instant or later, or have not ended, in the DuckDB store.
pub const DUCKDB_RECORDS_QUERY: &'static str = "SELECT id, start_time, end_time, state, focus_info FROM activity_records WHERE (end_time IS NULL OR end_time >= ?) ORDER BY start_time ASC";

/// The envelopes between two instants, both included.
pub const ENVELOPES_QUERY: &'static str = "SELECT event_id, timestamp, source, kind, payload, derived, polling, sensitive FROM raw_envelopes WHERE timestamp >= ? AND timestamp <= ? ORDER BY timestamp ASC";

/// The latest transitions, latest first.
pub const TRANSITIONS_QUERY: &'static str = "SELECT at, from_state, to_state, by_signal, run_id FROM recent_transitions ORDER BY at DESC LIMIT ?";

/// The latest transitions of one run, latest first.
pub const RUN_TRANSITIONS_QUERY: &'static str = "SELECT at, from_state, to_state, by_signal, run_id FROM recent_transitions WHERE run_id = ? ORDER BY at DESC LIMIT ?";

/// The measurements of a process between two instants, both included.
pub const METRICS_RANGE_QUERY: &'static str = "SELECT timestamp, cpu_percent, memory_bytes, disk_io_bytes FROM system_metrics WHERE pid = ? AND timestamp >= ? AND timestamp <= ? ORDER BY timestamp ASC";

/// The averages over the measurements of a process from an instant on.
pub const METRICS_AVERAGE_QUERY: &'static str = "SELECT AVG(cpu_percent) AS avg_cpu, CAST(AVG(memory_bytes) AS BIGINT) AS avg_mem, CAST(AVG(disk_io_bytes) AS BIGINT) AS avg_io FROM system_metrics WHERE pid = ? AND timestamp >= ?";

/// Removes the measurements before an instant.
pub const METRICS_CLEANUP: &'static str = "DELETE FROM system_metrics WHERE timestamp < ?";

/// Counts all measurements.
pub const METRICS_COUNT_QUERY: &'static str = "SELECT COUNT(*) FROM system_metrics";

/// The compacted ways of the pointer, in the order in which they began.
pub const TRAJECTORIES_QUERY: &'static str = "SELECT rowid, payload, raw_event_ref FROM compact_events WHERE kind='compact:mouse_traj' ORDER BY start_time";

} // verus!
