//! A verified core for a line-oriented text search tool.
//!
//! Given a query string and a list of target files (optionally expanded
//! recursively from directories), the library decides which lines match,
//! which lines are emitted under an inverted match, and how an emitted
//! line is rendered (highlighting, filename and line-number prefixes).

pub mod config;
pub mod format;
pub mod scan;
pub mod text;
pub mod walk;

pub use config::Config;
pub use config::ConfigError;
pub use config::ParsedCommand;
pub use format::{format_match, highlight, prefix_line, strip_markers_exec, to_decimal};
pub use scan::{scan_lines, MatchedLine};
pub use text::{contains_str, line_matches, should_emit};
pub use walk::{collect_files_recursively, keep_regular_files, plan_targets, FileEntry};
