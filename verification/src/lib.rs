//! Data acquisition and aggregation for a per-process block-I/O monitor.

pub mod ioprio;
pub mod preflight;
pub mod proc_cache;
pub mod proc_reader;
pub mod process;
pub mod process_list;
pub mod scheduler;
pub mod sort;
pub mod taskstats;
pub mod text;
pub mod ui;
pub mod users;
