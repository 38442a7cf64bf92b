//! Disk usage analysis: classifies directories as temporary or ordinary,
//! attributes file sizes to directories and sums them over subtrees.
//!
//! The library works on what a walk of a directory tree has seen: it
//! never touches the file system itself.
//!
//! - `utils`: which directory names are temporary; sizes for people to read
//! - `scanner`: the passes of a scan and the scan as a whole
//! - `scan_laws`: what holds of every scan
//! - `aggregate`: subtree totals over a forest
//! - `ranking`: entries by cumulative size
//! - `paths`: what `std::path` makes of a path
//! - `csv_handler`, `decimal`: snapshots as comma-separated text
//! - `interactive`, `summary_ui`, `scan_ui`, `deletion`, `cli`: the state
//!   behind the screens and the command line

pub mod aggregate;
pub mod cli;
pub mod csv_handler;
pub mod decimal;
pub mod deletion;
pub mod interactive;
pub mod paths;
pub mod ranking;
pub mod scan_laws;
pub mod scan_ui;
pub mod scanner;
pub mod summary_ui;
pub mod utils;
