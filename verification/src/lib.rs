//! Disk usage analysis: the result model, the traversal bookkeeping, the
//! bottom-up aggregation of directory sizes and the text of the report.
//!
//! Everything here works on plain values. Walking the file system and
//! printing are left to the caller.

pub mod aggregate;
pub mod cli;
pub mod display;
pub mod invariance;
pub mod node;
pub mod paths;
pub mod progress;
pub mod scanner;
pub mod style;
pub mod sums;
pub mod text;
pub mod traversal;
