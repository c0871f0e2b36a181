//! How the daemon and its tools are set up.

use crate::paths::{join_path, path_below, DATA_DB_NAME_DUCKDB, DATA_DB_NAME_SQLITE};
use vstd::prelude::*;

verus! {

#[derive(Clone, Copy, Debug, PartialEq, Eq, Structural)]
pub enum DatabaseBackendConfig {
    Duckdb,
    Sqlite3,
}

impl DatabaseBackendConfig {
    /// The name under which a setting chooses the database.
    pub open spec fn label(self) -> Seq<char> {
        match self {
            DatabaseBackendConfig::Duckdb => "duckdb"@,
            DatabaseBackendConfig::Sqlite3 => "sqlite3"@,
        }
    }

    /// The name of the file that holds the data.
    pub open spec fn file_name(self) -> Seq<char> {
        match self {
            DatabaseBackendConfig::Duckdb => "data.duckdb"@,
            DatabaseBackendConfig::Sqlite3 => "data.sqlite3"@,
        }
    }

    /// The name under which a setting chooses the database.
    pub fn name(&self) -> (r: &'static str)
        ensures
            r@ == self.label(),
    {
        match self {
            DatabaseBackendConfig::Duckdb => "duckdb",
            DatabaseBackendConfig::Sqlite3 => "sqlite3",
        }
    }

    /// The file below the workspace directory that holds the data.
    pub fn data_file(&self, workspace_dir: &str) -> (r: String)
        ensures
            r@ == path_below(workspace_dir@, self.file_name()),
    {
        match self {
            DatabaseBackendConfig::Duckdb => join_path(workspace_dir, DATA_DB_NAME_DUCKDB),
            DatabaseBackendConfig::Sqlite3 => join_path(workspace_dir, DATA_DB_NAME_SQLITE),
        }
    }
}

/// The settings. The two intervals of the tracker are numbers of seconds in the binary format
/// of double precision; the limits of DuckDB are in megabytes.
#[derive(Debug)]
pub struct AppConfig {
    pub workspace_dir: String,
    pub db_backend: DatabaseBackendConfig,
    pub tracker_db_backend: DatabaseBackendConfig,
    pub persist_raw_events: bool,
    pub retention_minutes: u64,
    pub active_grace_secs: u64,
    pub idle_threshold_secs: u64,
    pub ephemeral_max_duration_secs: u64,
    pub ephemeral_min_distinct_ids: usize,
    pub max_windows_per_app: usize,
    pub ephemeral_app_max_duration_secs: u64,
    pub ephemeral_app_min_distinct_procs: usize,
    pub pid_cache_capacity: usize,
    pub title_cache_capacity: usize,
    pub title_cache_ttl_secs: u64,
    pub focus_interner_max_strings: usize,
    pub focus_window_coalesce_ms: u64,
    pub tracker_enabled: bool,
    pub tracker_interval_secs_bits: u64,
    pub tracker_batch_size: usize,
    pub tracker_refresh_secs_bits: u64,
    pub duckdb_memory_limit_mb_main: u64,
    pub duckdb_memory_limit_mb_tracker: u64,
}

/// One second in the binary format of double precision.
pub const ONE_SECOND_BITS: u64 = 0x3ff0_0000_0000_0000;

/// The first of the given directories, the current one where there is none.
pub open spec fn first_dir(
    home: Option<String>,
    home_var: Option<String>,
    current: Option<String>,
) -> Seq<char> {
    if home is Some {
        home->0@
    } else if home_var is Some {
        home_var->0@
    } else if current is Some {
        current->0@
    } else {
        "."@
    }
}

impl AppConfig {
    /// The settings where nothing else is said, with the workspace below the home directory. Where
    /// that is not known the variable that names it counts, then the current directory.
    pub fn default_in(
        home: Option<String>,
        home_var: Option<String>,
        current: Option<String>,
    ) -> (r: Self)
        ensures
            r.workspace_dir@ == path_below(first_dir(home, home_var, current), ".kronical"@),
            r.db_backend == DatabaseBackendConfig::Duckdb,
            r.tracker_db_backend == DatabaseBackendConfig::Duckdb,
            !r.persist_raw_events,
            r.retention_minutes == 72 * 60,
            r.active_grace_secs == 30,
            r.idle_threshold_secs == 300,
            r.ephemeral_max_duration_secs == 60,
            r.ephemeral_min_distinct_ids == 3,
            r.max_windows_per_app == 30,
            r.ephemeral_app_max_duration_secs == 60,
            r.ephemeral_app_min_distinct_procs == 3,
            r.pid_cache_capacity == 1024,
            r.title_cache_capacity == 512,
            r.title_cache_ttl_secs == 0,
            r.focus_interner_max_strings == 4096,
            r.focus_window_coalesce_ms == 100,
            !r.tracker_enabled,
            r.tracker_interval_secs_bits == ONE_SECOND_BITS,
            r.tracker_batch_size == 60,
            r.tracker_refresh_secs_bits == ONE_SECOND_BITS,
            r.duckdb_memory_limit_mb_main == 10,
            r.duckdb_memory_limit_mb_tracker == 10,
    {
        let base = match home {
            Some(dir) => dir,
            None => match home_var {
                Some(dir) => dir,
                None => match current {
                    Some(dir) => dir,
                    None => ".".to_string(),
                },
            },
        };
        AppConfig {
            workspace_dir: join_path(base.as_str(), ".kronical"),
            db_backend: DatabaseBackendConfig::Duckdb,
            tracker_db_backend: DatabaseBackendConfig::Duckdb,
            persist_raw_events: false,
            retention_minutes: 72 * 60,
            active_grace_secs: 30,
            idle_threshold_secs: 300,
            ephemeral_max_duration_secs: 60,
            ephemeral_min_distinct_ids: 3,
            max_windows_per_app: 30,
            ephemeral_app_max_duration_secs: 60,
            ephemeral_app_min_distinct_procs: 3,
            pid_cache_capacity: 1024,
            title_cache_capacity: 512,
            title_cache_ttl_secs: 0,
            focus_interner_max_strings: 4096,
            focus_window_coalesce_ms: 100,
            tracker_enabled: false,
            tracker_interval_secs_bits: ONE_SECOND_BITS,
            tracker_batch_size: 60,
            tracker_refresh_secs_bits: ONE_SECOND_BITS,
            duckdb_memory_limit_mb_main: 10,
            duckdb_memory_limit_mb_tracker: 10,
        }
    }
}

} // verus!
