//! The history of single files.
use crate::data::{detailed_views, DetailedCommit};
use crate::stat::{get_stats, stats_from};
use crate::text::lines_of;
use vstd::prelude::*;

verus! {

/// The commits of the log of one file with their insertions and deletions.
/// Such a log has the shape of any log with diff summaries, and is read in
/// the same way.
pub fn get_file_stats(log: &str) -> (commits: Vec<DetailedCommit>)
    ensures
        detailed_views(commits@) == stats_from(lines_of(log@), 0),
{
    get_stats(log)
}

} // verus!
