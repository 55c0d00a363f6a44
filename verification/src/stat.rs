//! The stat-block scanner: from the lines of a log with diff summaries to
//! its commits with their insertions and deletions.
//!
//! Behind the date line of a commit the scanner looks for the diff summary.
//! The search ends at the summary, which is read, or at the next commit
//! header or the end of the log, which are left alone: a commit without a
//! summary changed nothing.
use crate::chart::{is_change_series, label_changes, Point};
use crate::commit::{
    commit_at, expect_commit, header_count, lemma_commit_at_after, lemma_lines_of_a_block,
    lemma_no_headers_between, merge_count,
};
use crate::data::{
    detailed_views, Author, AuthorView, Commit, CommitView, DetailedCommit, DetailedCommitView,
    Rejection,
};
use crate::grammar::{
    author_of, changes_of, commit_header, diff_summary, is_commit_header, is_diff_summary,
    merge_marker, parse_diff_summary, timestamp_of,
};
use crate::summary::{
    author_changes_shares, author_shares, day_changes_shares, day_shares, entries, filter_view,
    tally_by_author, tally_by_day, AuthorChanges, DayChanges,
};
use crate::table::{changes_table, changes_table_of, table_views};
use crate::tally::{is_grouping, is_ranked, total_shares, Ranking};
use crate::text::{chars_of, line_views, lines_of, split_lines};
use vstd::prelude::*;

verus! {

/// Where the search for a diff summary that begins at line `from` ends: at
/// the first line that is a commit header or a diff summary, or at the end
/// of the log.
pub open spec fn summary_search_end(lines: Seq<Seq<char>>, from: int) -> int
    decreases lines.len() - from,
{
    if from < 0 || from >= lines.len() {
        lines.len() as int
    } else if commit_header(lines[from]) || diff_summary(lines[from]) {
        from
    } else {
        summary_search_end(lines, from + 1)
    }
}

/// The search for a diff summary never goes backwards.
pub proof fn lemma_summary_search_end(lines: Seq<Seq<char>>, from: int)
    requires
        0 <= from <= lines.len(),
    ensures
        from <= summary_search_end(lines, from) <= lines.len(),
    decreases lines.len() - from,
{
    if from < lines.len() && !(commit_header(lines[from]) || diff_summary(lines[from])) {
        lemma_summary_search_end(lines, from + 1);
    }
}

/// The search for a diff summary passes over lines that are neither commit
/// headers nor diff summaries, and ends at one that is, or at the end.
pub proof fn lemma_summary_search(lines: Seq<Seq<char>>, from: int)
    requires
        0 <= from <= lines.len(),
    ensures
        forall|at: int|
            from <= at < summary_search_end(lines, from) ==> !commit_header(#[trigger] lines[at])
                && !diff_summary(lines[at]),
        summary_search_end(lines, from) < lines.len() ==> commit_header(
            lines[summary_search_end(lines, from)],
        ) || diff_summary(lines[summary_search_end(lines, from)]),
    decreases lines.len() - from,
{
    if from < lines.len() && !(commit_header(lines[from]) || diff_summary(lines[from])) {
        lemma_summary_search(lines, from + 1);
    }
}

/// The search for a diff summary that begins at `from` ends at `to` where
/// no line between the two is a commit header or a diff summary, and the
/// line at `to` is one, or the log ends there.
pub proof fn lemma_summary_search_is(lines: Seq<Seq<char>>, from: int, to: int)
    requires
        0 <= from <= to <= lines.len(),
        forall|at: int|
            from <= at < to ==> !commit_header(#[trigger] lines[at]) && !diff_summary(lines[at]),
        to < lines.len() ==> commit_header(lines[to]) || diff_summary(lines[to]),
    ensures
        summary_search_end(lines, from) == to,
    decreases to - from,
{
    if from < to {
        lemma_summary_search_is(lines, from + 1, to);
    }
}

/// What `commit` becomes when its diff summary is looked for from line
/// `from` on, and the index of the first line behind what was read.
pub open spec fn stat_at(lines: Seq<Seq<char>>, commit: CommitView, from: int) -> (
    Result<DetailedCommitView, Rejection>,
    int,
) {
    let at = summary_search_end(lines, from);
    if at >= lines.len() || commit_header(lines[at]) {
        (Ok(DetailedCommitView { commit, insertions: 0, deletions: 0 }), at)
    } else {
        match changes_of(lines[at]) {
            Ok((insertions, deletions)) => (
                Ok(DetailedCommitView { commit, insertions, deletions }),
                at + 1,
            ),
            Err(e) => (Err(e), at + 1),
        }
    }
}

/// The detailed commits of the blocks whose headers stand at or after line
/// `from`, in the order of the log.
pub open spec fn stats_from(lines: Seq<Seq<char>>, from: int) -> Seq<DetailedCommitView>
    decreases lines.len() - from,
{
    if from < 0 || from >= lines.len() {
        Seq::empty()
    } else if !commit_header(lines[from]) {
        stats_from(lines, from + 1)
    } else {
        let (outcome, next) = commit_at(lines, from + 1);
        match outcome {
            Err(_) => stats_from(lines, next),
            Ok(commit) => {
                proof {
                    if next <= lines.len() {
                        lemma_summary_search_end(lines, next);
                    }
                }
                let (detailed, after) = stat_at(lines, commit, next);
                match detailed {
                    Ok(record) => seq![record] + stats_from(lines, after),
                    Err(_) => stats_from(lines, after),
                }
            },
        }
    }
}

/// What stands before a line of a log has no part in where the search for
/// a diff summary from that line on ends.
pub proof fn lemma_summary_search_after(front: Seq<Seq<char>>, back: Seq<Seq<char>>, from: int)
    requires
        0 <= from <= back.len(),
    ensures
        summary_search_end(front + back, front.len() + from) == front.len() + summary_search_end(
            back,
            from,
        ),
    decreases back.len() - from,
{
    if from < back.len() {
        if !(commit_header(back[from]) || diff_summary(back[from])) {
            lemma_summary_search_after(front, back, from + 1);
        }
    }
}

/// What stands before a line of a log has no part in what the search for a
/// diff summary from that line on gives.
pub proof fn lemma_stat_at_after(
    front: Seq<Seq<char>>,
    back: Seq<Seq<char>>,
    commit: CommitView,
    from: int,
)
    requires
        0 <= from <= back.len(),
    ensures
        stat_at(front + back, commit, front.len() + from).0 == stat_at(back, commit, from).0,
        stat_at(front + back, commit, front.len() + from).1 == front.len() + stat_at(
            back,
            commit,
            from,
        ).1,
{
    lemma_summary_search_after(front, back, from);
    lemma_summary_search_end(back, from);
}

/// What stands before a line of a log has no part in the detailed commits
/// from that line on.
pub proof fn lemma_stats_after(front: Seq<Seq<char>>, back: Seq<Seq<char>>, from: int)
    requires
        0 <= from,
    ensures
        stats_from(front + back, front.len() + from) == stats_from(back, from),
    decreases back.len() - from,
{
    if from < back.len() {
        if !commit_header(back[from]) {
            lemma_stats_after(front, back, from + 1);
        } else {
            lemma_commit_at_after(front, back, from + 1);
            let outcome = commit_at(back, from + 1).0;
            let next = commit_at(back, from + 1).1;
            match outcome {
                Err(_) => {
                    lemma_stats_after(front, back, next);
                },
                Ok(commit) => {
                    lemma_stat_at_after(front, back, commit, next);
                    lemma_summary_search_end(back, next);
                    lemma_stats_after(front, back, stat_at(back, commit, next).1);
                },
            }
        }
    }
}

/// Every block of the log can be read with its diff summary: what follows
/// each commit header is a merge marker, or an author line and a date line
/// that give a commit, and the counts of the diff summary of that commit,
/// where it has one, fit in 64 bits.
#[verifier::opaque]
pub open spec fn records_are_readable(lines: Seq<Seq<char>>) -> bool {
    forall|at: int|
        0 <= at < lines.len() && commit_header(#[trigger] lines[at]) ==> match commit_at(
            lines,
            at + 1,
        ).0 {
            Ok(commit) => stat_at(lines, commit, commit_at(lines, at + 1).1).0 is Ok,
            Err(e) => e == Rejection::MergeCommit,
        }
}

/// What a log whose blocks can all be read has behind the commit header at
/// line `at`.
pub proof fn lemma_readable_record(lines: Seq<Seq<char>>, at: int)
    requires
        records_are_readable(lines),
        0 <= at < lines.len(),
        commit_header(lines[at]),
    ensures
        match commit_at(lines, at + 1).0 {
            Ok(commit) => stat_at(lines, commit, commit_at(lines, at + 1).1).0 is Ok,
            Err(e) => e == Rejection::MergeCommit,
        },
{
    reveal(records_are_readable);
}

/// What the search for a diff summary has read is no commit header.
pub proof fn lemma_lines_of_a_summary(lines: Seq<Seq<char>>, commit: CommitView, from: int)
    requires
        0 <= from <= lines.len(),
    ensures
        from <= stat_at(lines, commit, from).1 <= lines.len(),
        forall|at: int|
            from <= at < stat_at(lines, commit, from).1 ==> !commit_header(#[trigger] lines[at]),
{
    lemma_summary_search(lines, from);
    lemma_summary_search_end(lines, from);
}

/// In a log whose blocks can all be read with their diff summaries, the
/// detailed commits from line `from` on and the merges from there on are as
/// many as the headers from there on.
pub proof fn lemma_stats_and_merges_are_the_headers(lines: Seq<Seq<char>>, from: int)
    requires
        records_are_readable(lines),
        0 <= from,
    ensures
        stats_from(lines, from).len() + merge_count(lines, from) == header_count(lines, from),
    decreases lines.len() - from,
{
    if from < lines.len() {
        if !commit_header(lines[from]) {
            lemma_stats_and_merges_are_the_headers(lines, from + 1);
        } else {
            let outcome = commit_at(lines, from + 1).0;
            let next = commit_at(lines, from + 1).1;
            lemma_readable_record(lines, from);
            lemma_lines_of_a_block(lines, from + 1);
            if outcome is Ok {
                let commit = outcome->Ok_0;
                let after = stat_at(lines, commit, next).1;
                lemma_lines_of_a_summary(lines, commit, next);
                lemma_stats_and_merges_are_the_headers(lines, after);
                lemma_no_headers_between(lines, next, after);
                assert(next == from + 3);
                assert(header_count(lines, from + 1) == header_count(lines, from + 2));
                assert(merge_count(lines, from + 1) == merge_count(lines, from + 2));
                assert(merge_count(lines, from) == merge_count(lines, from + 1));
            } else {
                lemma_stats_and_merges_are_the_headers(lines, next);
                assert(next == from + 2);
                assert(merge_count(lines, from + 1) == merge_count(lines, from + 2));
            }
        }
    }
}

/// The detailed commits of a log are its commit headers less its merges, as
/// long as every block of the log can be read with its diff summary.
pub proof fn stats_are_headers_less_merges(lines: Seq<Seq<char>>)
    requires
        records_are_readable(lines),
    ensures
        stats_from(lines, 0).len() == header_count(lines, 0) - merge_count(lines, 0),
{
    lemma_stats_and_merges_are_the_headers(lines, 0);
}

/// The line at which the header of record `k` of `stats_from(lines, from)`
/// stands; the number of lines where there is no such record.
pub open spec fn record_header_of(lines: Seq<Seq<char>>, from: int, k: int) -> int
    decreases lines.len() - from,
{
    if from < 0 || from >= lines.len() {
        lines.len() as int
    } else if !commit_header(lines[from]) {
        record_header_of(lines, from + 1, k)
    } else {
        let (outcome, next) = commit_at(lines, from + 1);
        match outcome {
            Err(_) => record_header_of(lines, next, k),
            Ok(commit) => {
                proof {
                    if next <= lines.len() {
                        lemma_summary_search_end(lines, next);
                    }
                }
                let (detailed, after) = stat_at(lines, commit, next);
                if detailed is Err {
                    record_header_of(lines, after, k)
                } else if k == 0 {
                    from
                } else {
                    record_header_of(lines, after, k - 1)
                }
            },
        }
    }
}

/// A detailed commit exists only for a block that is no merge and has an
/// author line and a date line of their shapes: every record that the
/// scanner gives stands behind a commit header of the log, with its author
/// on the next line, which is no merge marker, and its time on the line
/// after that, and its changes are what the search for the diff summary
/// behind the date line gives.
pub proof fn every_record_has_its_block(lines: Seq<Seq<char>>, from: int, k: int)
    requires
        0 <= from,
        0 <= k < stats_from(lines, from).len(),
    ensures
        ({
            let at = record_header_of(lines, from, k);
            let record = stats_from(lines, from)[k];
            &&& from <= at
            &&& at + 2 < lines.len()
            &&& commit_header(lines[at])
            &&& !merge_marker(lines[at + 1])
            &&& author_of(lines[at + 1]) == Ok::<AuthorView, Rejection>(record.commit.author)
            &&& timestamp_of(lines[at + 2]) == Ok::<int, Rejection>(record.commit.time)
            &&& stat_at(lines, record.commit, at + 3).0 == Ok::<DetailedCommitView, Rejection>(
                record,
            )
        }),
    decreases lines.len() - from,
{
    if from < lines.len() {
        if !commit_header(lines[from]) {
            every_record_has_its_block(lines, from + 1, k);
        } else {
            let outcome = commit_at(lines, from + 1).0;
            let next = commit_at(lines, from + 1).1;
            match outcome {
                Err(_) => {
                    every_record_has_its_block(lines, next, k);
                },
                Ok(commit) => {
                    lemma_summary_search_end(lines, next);
                    let detailed = stat_at(lines, commit, next).0;
                    let after = stat_at(lines, commit, next).1;
                    if detailed is Err {
                        every_record_has_its_block(lines, after, k);
                    } else if k > 0 {
                        every_record_has_its_block(lines, after, k - 1);
                    }
                },
            }
        }
    }
}

/// The records come in the order of the log: the header of a record stands
/// before the header of the record that follows it.
pub proof fn records_keep_the_order_of_the_log(lines: Seq<Seq<char>>, from: int, k: int)
    requires
        0 <= from,
        0 <= k,
        k + 1 < stats_from(lines, from).len(),
    ensures
        record_header_of(lines, from, k) < record_header_of(lines, from, k + 1),
    decreases lines.len() - from,
{
    if from < lines.len() {
        if !commit_header(lines[from]) {
            records_keep_the_order_of_the_log(lines, from + 1, k);
        } else {
            let outcome = commit_at(lines, from + 1).0;
            let next = commit_at(lines, from + 1).1;
            match outcome {
                Err(_) => {
                    records_keep_the_order_of_the_log(lines, next, k);
                },
                Ok(commit) => {
                    lemma_summary_search_end(lines, next);
                    let detailed = stat_at(lines, commit, next).0;
                    let after = stat_at(lines, commit, next).1;
                    if detailed is Err {
                        records_keep_the_order_of_the_log(lines, after, k);
                    } else if k > 0 {
                        records_keep_the_order_of_the_log(lines, after, k - 1);
                    } else {
                        every_record_has_its_block(lines, after, 0);
                    }
                },
            }
        }
    }
}

/// Looks for the diff summary of `commit` from line `from` on: returns the
/// commit with its insertions and deletions, or why it has none, and the
/// index of the first line behind what was read.
pub fn expect_stat(lines: &Vec<Vec<char>>, from: usize, commit: Commit) -> (step: (
    Result<DetailedCommit, Rejection>,
    usize,
))
    ensures
        step.1 == stat_at(line_views(lines@), commit@, from as int).1,
        match step.0 {
            Ok(record) => stat_at(line_views(lines@), commit@, from as int).0 == Ok::<
                DetailedCommitView,
                Rejection,
            >(record@),
            Err(e) => stat_at(line_views(lines@), commit@, from as int).0 == Err::<
                DetailedCommitView,
                Rejection,
            >(e),
        },
{
    let mut at: usize = from;
    while at < lines.len() && !is_commit_header(&lines[at]) && !is_diff_summary(&lines[at])
        invariant
            summary_search_end(line_views(lines@), from as int) == summary_search_end(
                line_views(lines@),
                at as int,
            ),
        decreases lines.len() - at,
    {
        at += 1;
    }
    if at >= lines.len() {
        return (Ok(DetailedCommit { commit, insertions: 0, deletions: 0 }), lines.len());
    }
    if is_commit_header(&lines[at]) {
        return (Ok(DetailedCommit { commit, insertions: 0, deletions: 0 }), at);
    }
    match parse_diff_summary(&lines[at]) {
        Ok((insertions, deletions)) => (
            Ok(DetailedCommit { commit, insertions, deletions }),
            at + 1,
        ),
        Err(e) => (Err(e), at + 1),
    }
}

/// Scans the lines of a log for its commits and their diff summaries.
pub fn scan_stats(lines: &Vec<Vec<char>>) -> (commits: Vec<DetailedCommit>)
    ensures
        detailed_views(commits@) == stats_from(line_views(lines@), 0),
{
    let mut commits: Vec<DetailedCommit> = Vec::new();
    let mut at: usize = 0;
    while at < lines.len()
        invariant
            stats_from(line_views(lines@), 0) == detailed_views(commits@) + stats_from(
                line_views(lines@),
                at as int,
            ),
        decreases lines.len() - at,
    {
        if is_commit_header(&lines[at]) {
            let (outcome, next) = expect_commit(lines, at + 1);
            match outcome {
                Ok(commit) => {
                    proof {
                        if next <= lines.len() {
                            lemma_summary_search_end(line_views(lines@), next as int);
                        }
                    }
                    let (detailed, after) = expect_stat(lines, next, commit);
                    if let Ok(record) = detailed {
                        commits.push(record);
                    }
                    at = after;
                },
                Err(_) => {
                    at = next;
                },
            }
        } else {
            at += 1;
        }
    }
    commits
}

/// The commits of a log with their insertions and deletions, in the order
/// in which the log holds them. Merge commits and blocks that cannot be read
/// are left out; a commit without a diff summary has no changes.
pub fn get_stats(log: &str) -> (commits: Vec<DetailedCommit>)
    ensures
        detailed_views(commits@) == stats_from(lines_of(log@), 0),
{
    let text = chars_of(log);
    let lines = split_lines(&text);
    scan_stats(&lines)
}

/// Sums the insertions and the deletions of each author.
///
/// With a name in `author`, only the commits whose author has exactly that
/// name are summed. The rows are listed by insertions, the largest first,
/// then by deletions, the largest first; authors with the same sums are
/// listed by name and then by address, in the order of strings.
pub fn aggregate_stats(stats: &Vec<DetailedCommit>, author: &Option<String>) -> (rows: Vec<
    AuthorChanges,
>)
    ensures
        is_grouping(
            author_shares(entries(stats@), filter_view(author)),
            author_changes_shares(rows@),
        ),
        is_ranked::<Author>(Ranking::BySums, author_changes_shares(rows@)),
{
    let totals = tally_by_author(stats, author);
    let mut rows: Vec<AuthorChanges> = Vec::new();
    let mut i: usize = 0;
    while i < totals.len()
        invariant
            i <= totals.len(),
            author_changes_shares(rows@) == total_shares(totals@).take(i as int),
        decreases totals.len() - i,
    {
        let ghost before = author_changes_shares(rows@);
        let row = AuthorChanges {
            author: totals[i].key.clone(),
            insertions: totals[i].first,
            deletions: totals[i].second,
        };
        rows.push(row);
        proof {
            assert(author_changes_shares(rows@) == before.push(row.share()));
        }
        i += 1;
    }
    proof {
        assert(total_shares(totals@).take(i as int) == total_shares(totals@));
    }
    rows
}

/// Sums the insertions and the deletions of each day.
///
/// With a name in `author`, only the commits whose author has exactly that
/// name are summed. The points are listed by day, the earliest first.
pub fn bucket_stats(stats: &Vec<DetailedCommit>, author: &Option<String>) -> (points: Vec<
    DayChanges,
>)
    ensures
        is_grouping(day_shares(entries(stats@), filter_view(author)), day_changes_shares(points@)),
        is_ranked::<i64>(Ranking::ByKey, day_changes_shares(points@)),
{
    let totals = tally_by_day(stats, author);
    let mut points: Vec<DayChanges> = Vec::new();
    let mut i: usize = 0;
    while i < totals.len()
        invariant
            i <= totals.len(),
            day_changes_shares(points@) == total_shares(totals@).take(i as int),
        decreases totals.len() - i,
    {
        let ghost before = day_changes_shares(points@);
        let point = DayChanges {
            day: totals[i].key,
            insertions: totals[i].first,
            deletions: totals[i].second,
        };
        points.push(point);
        proof {
            assert(day_changes_shares(points@) == before.push(point.share()));
        }
        i += 1;
    }
    proof {
        assert(total_shares(totals@).take(i as int) == total_shares(totals@));
    }
    points
}

/// The table of the changes per author, as the lines to print: the
/// heading, then one line for each author of `aggregate_stats`, in its
/// order.
pub fn print_stats(stats: Vec<DetailedCommit>, author: Option<String>) -> (lines: Vec<String>)
    ensures
        exists|rows: Seq<AuthorChanges>|
            {
                &&& is_grouping(
                    author_shares(entries(stats@), filter_view(&author)),
                    #[trigger] author_changes_shares(rows),
                )
                &&& is_ranked::<Author>(Ranking::BySums, author_changes_shares(rows))
                &&& table_views(lines@) == changes_table_of(rows)
            },
{
    let rows = aggregate_stats(&stats, &author);
    let lines = changes_table(&rows);
    lines
}

/// The two series of the changes per day, insertions and deletions, as the
/// points to plot: one point of each for each day of `bucket_stats`, in its
/// order, with the label of the day. `None` where a day has no label.
pub fn plot_stats(stats: Vec<DetailedCommit>, author: Option<String>) -> (series: Option<
    (Vec<Point>, Vec<Point>),
>)
    ensures
        exists|days: Seq<DayChanges>|
            {
                &&& is_grouping(
                    day_shares(entries(stats@), filter_view(&author)),
                    #[trigger] day_changes_shares(days),
                )
                &&& is_ranked::<i64>(Ranking::ByKey, day_changes_shares(days))
                &&& is_change_series(days, series)
            },
{
    let days = bucket_stats(&stats, &author);
    let series = label_changes(&days);
    series
}

} // verus!
