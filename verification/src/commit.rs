//! The log scanner: from the lines of a log to its commits.
//!
//! The scanner looks for a commit header. The line after a header is either
//! a merge marker, and then the block is dropped, or the author line, which
//! the date line follows. A block that is cut short or whose lines do not
//! have their shape is dropped too, and the search for the next header goes
//! on behind the last line that was read.
use crate::calendar::day_of;
use crate::chart::{is_commit_series, label_commits, Point};
use crate::data::{commit_views, Author, AuthorView, Commit, CommitView, Rejection};
use crate::grammar::{
    author_of, commit_header, is_commit_header, is_merge_marker, lemma_no_other_line_is_a_header,
    merge_marker, parse_author_line, parse_date_line, timestamp_of,
};
use crate::summary::{
    author_commits_shares, author_shares, day_commits_shares, day_shares, entries, filter_view,
    lemma_shares_come_from_entries, tally_by_author, tally_by_day, AuthorCommits, DayCommits,
    Entry,
};
use crate::table::{commits_table, commits_table_of, table_views};
use crate::tally::{is_grouping, is_ranked, lemma_total_bound, total_shares, Ranking};
use crate::text::{chars_of, line_views, lines_of, split_lines};
use vstd::prelude::*;

verus! {

/// What the block gives whose header is followed by line `at`, and the index
/// of the first line behind what was read of it.
pub open spec fn commit_at(lines: Seq<Seq<char>>, at: int) -> (Result<CommitView, Rejection>, int) {
    if at < 0 || at >= lines.len() {
        (Err(Rejection::MissingLine), at)
    } else if merge_marker(lines[at]) {
        (Err(Rejection::MergeCommit), at + 1)
    } else {
        match author_of(lines[at]) {
            Err(e) => (Err(e), at + 1),
            Ok(author) => {
                if at + 1 >= lines.len() {
                    (Err(Rejection::MissingLine), at + 1)
                } else {
                    match timestamp_of(lines[at + 1]) {
                        Err(e) => (Err(e), at + 2),
                        Ok(time) => (Ok(CommitView { author, time }), at + 2),
                    }
                }
            },
        }
    }
}

/// The commits of the blocks whose headers stand at or after line `from`,
/// in the order of the log.
pub open spec fn commits_from(lines: Seq<Seq<char>>, from: int) -> Seq<CommitView>
    decreases lines.len() - from,
{
    if from < 0 || from >= lines.len() {
        Seq::empty()
    } else if !commit_header(lines[from]) {
        commits_from(lines, from + 1)
    } else {
        let (outcome, next) = commit_at(lines, from + 1);
        match outcome {
            Ok(commit) => seq![commit] + commits_from(lines, next),
            Err(_) => commits_from(lines, next),
        }
    }
}

/// What stands before a block of a log has no part in what the block gives.
pub proof fn lemma_commit_at_after(front: Seq<Seq<char>>, back: Seq<Seq<char>>, at: int)
    requires
        0 <= at,
    ensures
        commit_at(front + back, front.len() + at).0 == commit_at(back, at).0,
        commit_at(front + back, front.len() + at).1 == front.len() + commit_at(back, at).1,
{
}

/// What stands before a line of a log has no part in the commits from that
/// line on.
pub proof fn lemma_commits_after(front: Seq<Seq<char>>, back: Seq<Seq<char>>, from: int)
    requires
        0 <= from,
    ensures
        commits_from(front + back, front.len() + from) == commits_from(back, from),
    decreases back.len() - from,
{
    if from < back.len() {
        if !commit_header(back[from]) {
            lemma_commits_after(front, back, from + 1);
        } else {
            lemma_commit_at_after(front, back, from + 1);
            lemma_commits_after(front, back, commit_at(back, from + 1).1);
        }
    }
}

/// Lines that are no commit headers give no commits.
pub proof fn lemma_no_commits_between(lines: Seq<Seq<char>>, from: int, to: int)
    requires
        0 <= from <= to <= lines.len(),
        forall|at: int| from <= at < to ==> !commit_header(#[trigger] lines[at]),
    ensures
        commits_from(lines, from) == commits_from(lines, to),
    decreases to - from,
{
    if from < to {
        lemma_no_commits_between(lines, from + 1, to);
    }
}

/// The number of commit headers among the lines from `from` on.
pub open spec fn header_count(lines: Seq<Seq<char>>, from: int) -> nat
    decreases lines.len() - from,
{
    if from < 0 || from >= lines.len() {
        0
    } else if commit_header(lines[from]) {
        1 + header_count(lines, from + 1)
    } else {
        header_count(lines, from + 1)
    }
}

/// The number of commit headers among the lines from `from` on that a merge
/// marker follows.
pub open spec fn merge_count(lines: Seq<Seq<char>>, from: int) -> nat
    decreases lines.len() - from,
{
    if from < 0 || from >= lines.len() {
        0
    } else if commit_header(lines[from]) && from + 1 < lines.len() && merge_marker(
        lines[from + 1],
    ) {
        1 + merge_count(lines, from + 1)
    } else {
        merge_count(lines, from + 1)
    }
}

/// Every block of the log can be read: what follows each commit header is a
/// merge marker, or an author line and a date line that give a commit.
pub open spec fn blocks_are_readable(lines: Seq<Seq<char>>) -> bool {
    forall|at: int|
        0 <= at < lines.len() && commit_header(#[trigger] lines[at]) ==> commit_at(
            lines,
            at + 1,
        ).0 is Ok || commit_at(lines, at + 1).0 == Err::<CommitView, Rejection>(
            Rejection::MergeCommit,
        )
}

/// Lines that are no commit headers count neither as headers nor as merges.
pub proof fn lemma_no_headers_between(lines: Seq<Seq<char>>, from: int, to: int)
    requires
        0 <= from <= to <= lines.len(),
        forall|at: int| from <= at < to ==> !commit_header(#[trigger] lines[at]),
    ensures
        header_count(lines, from) == header_count(lines, to),
        merge_count(lines, from) == merge_count(lines, to),
    decreases to - from,
{
    if from < to {
        lemma_no_headers_between(lines, from + 1, to);
    }
}

/// What a block that can be read has read: a merge marker, or an author
/// line and a date line, none of which is a commit header.
pub proof fn lemma_lines_of_a_block(lines: Seq<Seq<char>>, at: int)
    requires
        0 <= at,
    ensures
        commit_at(lines, at).0 is Ok ==> {
            &&& commit_at(lines, at).1 == at + 2
            &&& at + 1 < lines.len()
            &&& !commit_header(lines[at])
            &&& !merge_marker(lines[at])
            &&& !commit_header(lines[at + 1])
        },
        commit_at(lines, at).0 == Err::<CommitView, Rejection>(Rejection::MergeCommit) ==> {
            &&& commit_at(lines, at).1 == at + 1
            &&& at < lines.len()
            &&& !commit_header(lines[at])
            &&& merge_marker(lines[at])
        },
{
    if at < lines.len() {
        lemma_no_other_line_is_a_header(lines[at]);
        if at + 1 < lines.len() {
            lemma_no_other_line_is_a_header(lines[at + 1]);
        }
    }
}

/// In a log whose blocks can all be read, the commits from line `from` on
/// and the merges from there on are as many as the headers from there on.
pub proof fn lemma_commits_and_merges_are_the_headers(lines: Seq<Seq<char>>, from: int)
    requires
        blocks_are_readable(lines),
        0 <= from,
    ensures
        commits_from(lines, from).len() + merge_count(lines, from) == header_count(lines, from),
    decreases lines.len() - from,
{
    if from < lines.len() {
        if !commit_header(lines[from]) {
            lemma_commits_and_merges_are_the_headers(lines, from + 1);
        } else {
            let outcome = commit_at(lines, from + 1).0;
            let next = commit_at(lines, from + 1).1;
            assert(outcome is Ok || outcome == Err::<CommitView, Rejection>(
                Rejection::MergeCommit,
            ));
            lemma_lines_of_a_block(lines, from + 1);
            lemma_commits_and_merges_are_the_headers(lines, next);
            if outcome is Ok {
                assert(header_count(lines, from + 1) == header_count(lines, from + 2));
                assert(merge_count(lines, from + 1) == merge_count(lines, from + 2));
                assert(commits_from(lines, from).len() == 1 + commits_from(lines, next).len());
            } else {
                assert(merge_count(lines, from + 1) == merge_count(lines, from + 2));
            }
        }
    }
}

/// The commits of a log are its commit headers less its merges, as long as
/// every block of the log can be read.
pub proof fn commits_are_headers_less_merges(lines: Seq<Seq<char>>)
    requires
        blocks_are_readable(lines),
    ensures
        commits_from(lines, 0).len() == header_count(lines, 0) - merge_count(lines, 0),
{
    lemma_commits_and_merges_are_the_headers(lines, 0);
}

/// The line at which the header of commit `k` of `commits_from(lines, from)`
/// stands; the number of lines where there is no such commit.
pub open spec fn header_of(lines: Seq<Seq<char>>, from: int, k: int) -> int
    decreases lines.len() - from,
{
    if from < 0 || from >= lines.len() {
        lines.len() as int
    } else if !commit_header(lines[from]) {
        header_of(lines, from + 1, k)
    } else {
        let (outcome, next) = commit_at(lines, from + 1);
        if outcome is Err {
            header_of(lines, next, k)
        } else if k == 0 {
            from
        } else {
            header_of(lines, next, k - 1)
        }
    }
}

/// A commit exists only for a block that is no merge and has an author line
/// and a date line of their shapes: every commit that the scanner gives
/// stands behind a commit header of the log, with its author on the next
/// line, which is no merge marker, and its time on the line after that.
pub proof fn every_commit_has_its_block(lines: Seq<Seq<char>>, from: int, k: int)
    requires
        0 <= from,
        0 <= k < commits_from(lines, from).len(),
    ensures
        ({
            let at = header_of(lines, from, k);
            let commit = commits_from(lines, from)[k];
            &&& from <= at
            &&& at + 2 < lines.len()
            &&& commit_header(lines[at])
            &&& !merge_marker(lines[at + 1])
            &&& author_of(lines[at + 1]) == Ok::<AuthorView, Rejection>(commit.author)
            &&& timestamp_of(lines[at + 2]) == Ok::<int, Rejection>(commit.time)
        }),
    decreases lines.len() - from,
{
    if from < lines.len() {
        if !commit_header(lines[from]) {
            every_commit_has_its_block(lines, from + 1, k);
        } else {
            let outcome = commit_at(lines, from + 1).0;
            let next = commit_at(lines, from + 1).1;
            if outcome is Err {
                every_commit_has_its_block(lines, next, k);
            } else if k > 0 {
                every_commit_has_its_block(lines, next, k - 1);
            }
        }
    }
}

/// The commits come in the order of the log: the header of a commit stands
/// before the header of the commit that follows it.
pub proof fn commits_keep_the_order_of_the_log(lines: Seq<Seq<char>>, from: int, k: int)
    requires
        0 <= from,
        0 <= k,
        k + 1 < commits_from(lines, from).len(),
    ensures
        header_of(lines, from, k) < header_of(lines, from, k + 1),
    decreases lines.len() - from,
{
    if from < lines.len() {
        if !commit_header(lines[from]) {
            commits_keep_the_order_of_the_log(lines, from + 1, k);
        } else {
            let outcome = commit_at(lines, from + 1).0;
            let next = commit_at(lines, from + 1).1;
            if outcome is Err {
                commits_keep_the_order_of_the_log(lines, next, k);
            } else if k > 0 {
                commits_keep_the_order_of_the_log(lines, next, k - 1);
            } else {
                every_commit_has_its_block(lines, next, 0);
            }
        }
    }
}

/// Reads the block whose header is followed by line `at`: returns its commit
/// or why it has none, and the index of the first line behind what was read.
pub fn expect_commit(lines: &Vec<Vec<char>>, at: usize) -> (step: (
    Result<Commit, Rejection>,
    usize,
))
    ensures
        step.1 == commit_at(line_views(lines@), at as int).1,
        match step.0 {
            Ok(commit) => commit_at(line_views(lines@), at as int).0 == Ok::<
                CommitView,
                Rejection,
            >(commit@),
            Err(e) => commit_at(line_views(lines@), at as int).0 == Err::<CommitView, Rejection>(
                e,
            ),
        },
{
    if at >= lines.len() {
        return (Err(Rejection::MissingLine), at);
    }
    if is_merge_marker(&lines[at]) {
        return (Err(Rejection::MergeCommit), at + 1);
    }
    let author = match parse_author_line(&lines[at]) {
        Ok(author) => author,
        Err(e) => {
            return (Err(e), at + 1);
        },
    };
    if at + 1 >= lines.len() {
        return (Err(Rejection::MissingLine), at + 1);
    }
    match parse_date_line(&lines[at + 1]) {
        Ok(time) => (Ok(Commit { author, time }), at + 2),
        Err(e) => (Err(e), at + 2),
    }
}

/// Scans the lines of a log for its commits.
pub fn scan_commits(lines: &Vec<Vec<char>>) -> (commits: Vec<Commit>)
    ensures
        commit_views(commits@) == commits_from(line_views(lines@), 0),
{
    let mut commits: Vec<Commit> = Vec::new();
    let mut at: usize = 0;
    while at < lines.len()
        invariant
            commits_from(line_views(lines@), 0) == commit_views(commits@) + commits_from(
                line_views(lines@),
                at as int,
            ),
        decreases lines.len() - at,
    {
        if is_commit_header(&lines[at]) {
            let (outcome, next) = expect_commit(lines, at + 1);
            if let Ok(commit) = outcome {
                commits.push(commit);
            }
            at = next;
        } else {
            at += 1;
        }
    }
    commits
}

/// The commits of a log, in the order in which the log holds them. Merge
/// commits and blocks that cannot be read are left out.
pub fn get_commits(log: &str) -> (commits: Vec<Commit>)
    ensures
        commit_views(commits@) == commits_from(lines_of(log@), 0),
{
    let text = chars_of(log);
    let lines = split_lines(&text);
    scan_commits(&lines)
}

/// Counts the commits of each author.
///
/// With a name in `author`, only the commits whose author has exactly that
/// name are counted. The rows are listed by the number of commits, the
/// largest first; authors with the same number are listed by name and then
/// by address, in the order of strings.
pub fn aggregate_commits(commits: &Vec<Commit>, author: &Option<String>) -> (rows: Vec<
    AuthorCommits,
>)
    ensures
        is_grouping(
            author_shares(entries(commits@), filter_view(author)),
            author_commits_shares(rows@),
        ),
        is_ranked::<Author>(Ranking::BySums, author_commits_shares(rows@)),
{
    let totals = tally_by_author(commits, author);
    let ghost shares = author_shares(entries(commits@), filter_view(author));
    proof {
        lemma_shares_come_from_entries(
            entries(commits@),
            filter_view(author),
            |entry: Entry| entry.author,
        );
    }
    let mut rows: Vec<AuthorCommits> = Vec::new();
    let mut i: usize = 0;
    while i < totals.len()
        invariant
            i <= totals.len(),
            shares.len() <= commits.len(),
            is_grouping(shares, total_shares(totals@)),
            forall|j: int|
                0 <= j < shares.len() ==> (#[trigger] shares[j]).first <= 1 && shares[j].second
                    <= 0,
            author_commits_shares(rows@) == total_shares(totals@).take(i as int),
        decreases totals.len() - i,
    {
        proof {
            lemma_total_bound(shares, total_shares(totals@)[i as int].key, 1, 0);
        }
        let ghost before = author_commits_shares(rows@);
        let row = AuthorCommits { author: totals[i].key.clone(), commits: totals[i].first as u64 };
        rows.push(row);
        proof {
            assert(author_commits_shares(rows@) == before.push(row.share()));
        }
        i += 1;
    }
    proof {
        assert(total_shares(totals@).take(i as int) == total_shares(totals@));
    }
    rows
}

/// Counts the commits of each day.
///
/// With a name in `author`, only the commits whose author has exactly that
/// name are counted. The points are listed by day, the earliest first.
pub fn bucket_commits(commits: &Vec<Commit>, author: &Option<String>) -> (points: Vec<DayCommits>)
    ensures
        is_grouping(
            day_shares(entries(commits@), filter_view(author)),
            day_commits_shares(points@),
        ),
        is_ranked::<i64>(Ranking::ByKey, day_commits_shares(points@)),
{
    let totals = tally_by_day(commits, author);
    let ghost shares = day_shares(entries(commits@), filter_view(author));
    proof {
        lemma_shares_come_from_entries(
            entries(commits@),
            filter_view(author),
            |entry: Entry| day_of(entry.time),
        );
    }
    let mut points: Vec<DayCommits> = Vec::new();
    let mut i: usize = 0;
    while i < totals.len()
        invariant
            i <= totals.len(),
            shares.len() <= commits.len(),
            is_grouping(shares, total_shares(totals@)),
            forall|j: int|
                0 <= j < shares.len() ==> (#[trigger] shares[j]).first <= 1 && shares[j].second
                    <= 0,
            day_commits_shares(points@) == total_shares(totals@).take(i as int),
        decreases totals.len() - i,
    {
        proof {
            lemma_total_bound(shares, total_shares(totals@)[i as int].key, 1, 0);
        }
        let ghost before = day_commits_shares(points@);
        let point = DayCommits { day: totals[i].key, commits: totals[i].first as u64 };
        points.push(point);
        proof {
            assert(day_commits_shares(points@) == before.push(point.share()));
        }
        i += 1;
    }
    proof {
        assert(total_shares(totals@).take(i as int) == total_shares(totals@));
    }
    points
}

/// The table of the commits per author, as the lines to print: the heading,
/// then one line for each author of `aggregate_commits`, in its order.
pub fn print_commit(commits: Vec<Commit>, author: Option<String>) -> (lines: Vec<String>)
    ensures
        exists|rows: Seq<AuthorCommits>|
            {
                &&& is_grouping(
                    author_shares(entries(commits@), filter_view(&author)),
                    #[trigger] author_commits_shares(rows),
                )
                &&& is_ranked::<Author>(Ranking::BySums, author_commits_shares(rows))
                &&& table_views(lines@) == commits_table_of(rows)
            },
{
    let rows = aggregate_commits(&commits, &author);
    let lines = commits_table(&rows);
    lines
}

/// The series of the commits per day, as the points to plot: one point for
/// each day of `bucket_commits`, in its order, with the label of the day.
/// `None` where a day has no label.
pub fn plot_commit(commits: Vec<Commit>, author: Option<String>) -> (series: Option<Vec<Point>>)
    ensures
        exists|days: Seq<DayCommits>|
            {
                &&& is_grouping(
                    day_shares(entries(commits@), filter_view(&author)),
                    #[trigger] day_commits_shares(days),
                )
                &&& is_ranked::<i64>(Ranking::ByKey, day_commits_shares(days))
                &&& is_commit_series(days, series)
            },
{
    let days = bucket_commits(&commits, &author);
    let series = label_commits(&days);
    series
}

} // verus!
