//! Kronical tracks what the user of a machine does: it derives signals and states from raw input,
//! cuts time into records, sums them up by application and window, and keeps snapshots of all that
//! for clients to follow. What reads hooks, files, sockets and clocks lies outside this crate.

pub mod aggregate;
pub mod aggregation_manager;
pub mod app_tree;
pub mod bus;
pub mod compression;
pub mod config;
pub mod coordinator;
pub mod daemon;
pub mod display;
pub mod events;
pub mod grouping;
pub mod input;
pub mod interner;
pub mod log_cli;
pub mod log_files;
pub mod lru;
pub mod monitor;
pub mod monitor_loop;
pub mod numbers;
pub mod path_order;
pub mod paths;
pub mod record_processor;
pub mod records;
pub mod report;
pub mod rpc;
pub mod selection_rules;
pub mod shown_lines;
pub mod sleep;
pub mod sleep_stretches;
pub mod snapshot;
pub mod storage;
pub mod stream;
pub mod text;
pub mod thinning;
pub mod threading;
pub mod time;
pub mod trajectory;
pub mod tree_entries;
pub mod use_totals;
pub mod views;
pub mod window_groups;
pub mod window_places;
pub mod window_rules;
