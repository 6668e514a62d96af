//! Verified core of a batch log exporter.
//!
//! Raw log files live in a date-partitioned hierarchy
//! `logs/<folder>/<YYYY>/<MM>/<DD>/`. Over a caller-supplied inclusive date
//! range, the exporter locates each day's partition and concatenates every
//! file in it into a single output file under `logs/exported/`.
//!
//! This crate holds the verified logic of that pipeline: calendar dates and
//! their linear day numbering, strict `YYYY-MM-DD` parsing and formatting,
//! date-range validation and generation, partition-path construction, and
//! byte-level concatenation of file contents. Argument handling, filesystem
//! access and task fan-out are left to the surrounding binary.

pub mod date;
pub mod export;
pub mod parse;
pub mod paths;
pub mod range;
pub mod validate;
