//! Verified core of a notes backend.

pub mod assignments;
pub mod collecting_laws;
pub mod commands;
pub mod confine;
pub mod disk_laws;
pub mod fault_laws;
pub mod find_laws;
pub mod fsio;
pub mod job;
pub mod job_laws;
pub mod link_laws;
pub mod listing;
pub mod moving_laws;
pub mod names;
pub mod path;
pub mod prune;
pub mod prune_laws;
pub mod reading_laws;
pub mod relocate;
pub mod resolve;
pub mod rule_laws;
pub mod save;
pub mod shell;
pub mod shell_laws;
pub mod string_map;
pub mod text;
pub mod view_laws;
pub mod walk;
pub mod walk_laws;
pub mod watch;
pub mod watch_laws;
pub mod watchers;
pub mod window_laws;
pub mod windows;
pub mod world;
pub mod world_laws;
