//! Commit statistics from the textual log of a version-control tool.
//!
//! The log is cut into lines (`text`), the lines are scanned into commits
//! (`commit`) or into commits with their insertions and deletions (`stat`,
//! `file`), and the records are tallied per author or per calendar day
//! (`tally`, `summary`), the rows written as a table (`table`) and the days
//! labelled for a chart (`chart`).
//!
//! What a line must look like is stated in `grammar`, over the character
//! classes, runs and numbers of `chars`. `writing` states how a log is laid
//! out and proves that what was written is read back. `order` is the order
//! of strings by which authors with equal sums are listed, `calendar` the
//! seconds, days and labels of the time axis, and `request` the arguments
//! that ask the tool for each kind of log.
pub mod calendar;
pub mod chars;
pub mod chart;
pub mod commit;
pub mod data;
pub mod file;
pub mod grammar;
pub mod order;
pub mod request;
pub mod stat;
pub mod summary;
pub mod table;
pub mod tally;
pub mod text;
pub mod writing;
