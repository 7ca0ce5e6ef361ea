//! Parser for `os-release` files: `KEY=value` lines describing the running
//! operating system, mapped onto a fixed set of fields plus an ordered map of
//! the keys that are not part of that set.
//!
//! Parsing never fails: lines that cannot be classified are skipped.

pub mod laws;
pub mod release;
pub mod text;

pub use release::OsRelease;
pub use text::{find_separator, has_prefix, is_enclosed_with, parse_line, trim_spaces};
