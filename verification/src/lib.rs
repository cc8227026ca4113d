//! Detection of silent periods in timestamped log files.
//!
//! A log line is expected to open with a bracketed timestamp such as
//! `[2024-07-10 11:32:55]`. The crate decodes that prefix into an ordinal
//! number of seconds and reports every pair of neighbouring timestamped lines
//! that lie at least a threshold apart.
pub mod batch;
pub mod calendar;
pub mod digits;
pub mod report;
pub mod scan_laws;
pub mod scanner;
pub mod timestamp;
