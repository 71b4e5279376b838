//! The search engine of a small `grep`: which files a list of paths names, and
//! which lines of a file a pattern selects.
//!
//! Everything here works on plain values. Walking directories, opening files
//! and writing to the terminal are left to the caller; compiling and running
//! the pattern is done by the `regex` crate.

pub mod config;
pub mod driver;
pub mod error;
pub mod lines;
pub mod pattern;
pub mod resolve;
pub mod text;

pub use config::{get_args, Config};
pub use driver::{many_files, report, run, Candidate, Emission};
pub use error::GrepError;
pub use lines::find_lines;
pub use resolve::{ends_walk, find_files, EntryKind, Walk, WalkEvent};
pub use text::is_sentinel;
