//! Host telemetry sampling engine.
//!
//! The library parses semi-structured text from operating-system interfaces
//! (`/proc/cpuinfo`, `/proc/meminfo`, `/proc/loadavg`) and the CSV-style
//! output of a GPU diagnostic command into one numeric snapshot per poll,
//! collecting recoverable failures in an error log instead of aborting.
//! All reading of files and running of commands happens outside the
//! library; callers hand in the raw bytes of each source (or `None` when a
//! source could not be read) and receive a fully populated snapshot back.

pub mod counter;
pub mod extract;
pub mod rules;
