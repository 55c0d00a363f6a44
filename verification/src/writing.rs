//! Writing a log: how records are laid out as lines, and the proof that the
//! scanners read back what was written.
use crate::calendar::unix_timestamp_accepted;
use crate::chars::{
    decimal_digits, lemma_decimal_digits, lemma_run_end_is, lemma_run_start_is, lower_hex,
    CharClass,
};
use crate::commit::{commits_from, lemma_commits_after, lemma_no_commits_between};
use crate::data::{AuthorView, CommitView, DetailedCommitView, Rejection};
use crate::grammar::{
    at_sign_inside, author_of, changes_of, commit_header, count_before, counted_at,
    diff_summary, first_counted, lemma_no_other_line_is_a_header, separator_from, timestamp_of,
};
use crate::stat::{lemma_stats_after, lemma_summary_search_is, stats_from};
use crate::text::{fits_a_line, lines_are_read_back, lines_of, text_of};
use vstd::prelude::*;

verus! {

/// The date line of a commit made at second `seconds` of the Unix epoch.
pub open spec fn date_line(seconds: nat) -> Seq<char> {
    "Date:   "@ + decimal_digits(seconds)
}

/// A second of the Unix epoch that is written as a date line is read back
/// from it, as long as it fits in 64 bits with a sign and `time` can
/// represent it.
pub proof fn date_line_is_read_back(seconds: nat)
    requires
        seconds <= i64::MAX,
        unix_timestamp_accepted(seconds as i64),
    ensures
        timestamp_of(date_line(seconds)) == Ok::<int, Rejection>(seconds as int),
{
    reveal_strlit("Date:   ");
    reveal_strlit("Date:");
    let line = date_line(seconds);
    let digits = decimal_digits(seconds);
    lemma_decimal_digits(seconds);
    assert(line.subrange(0, 5) =~= "Date:"@);
    lemma_run_end_is(line, 5, 8, CharClass::Whitespace);
    lemma_run_end_is(line, 8, line.len() as int, CharClass::Digit);
    assert(line.subrange(8, line.len() as int) =~= digits);
}

/// The author line of a commit by `author`.
pub open spec fn author_line(author: AuthorView) -> Seq<char> {
    "Author: "@ + author.name + " <"@ + author.email + ">"@
}

/// An author whose line can be read back: the name does not begin with `<`
/// and holds no ` <`, and the address holds an `@` with a character on each
/// side.
pub open spec fn writable_author(author: AuthorView) -> bool {
    &&& author.name.len() > 0 ==> author.name[0] != '<'
    &&& forall|k: int|
        0 <= k < author.name.len() - 1 ==> !(#[trigger] author.name[k] == ' ' && author.name[k
            + 1] == '<')
    &&& at_sign_inside(author.email, 0, author.email.len() as int)
}

/// The first ` <` at or after `from` stands at `at` where none stands
/// between the two.
pub proof fn lemma_separator_is(line: Seq<char>, from: int, at: int)
    requires
        0 <= from <= at,
        at + 1 < line.len(),
        line[at] == ' ',
        line[at + 1] == '<',
        forall|k: int| from <= k < at ==> !(#[trigger] line[k] == ' ' && line[k + 1] == '<'),
    ensures
        separator_from(line, from) == Some(at),
    decreases at - from,
{
    if from < at {
        lemma_separator_is(line, from + 1, at);
    }
}

/// An author who is written as an author line is read back from it.
pub proof fn author_line_is_read_back(author: AuthorView)
    requires
        writable_author(author),
    ensures
        author_of(author_line(author)) == Ok::<AuthorView, Rejection>(author),
{
    reveal_strlit("Author: ");
    reveal_strlit(" <");
    reveal_strlit(">");
    let line = author_line(author);
    let n = author.name.len() as int;
    let m = author.email.len() as int;
    assert forall|i: int| 0 <= i < 8 implies #[trigger] line[i] == "Author: "@[i] by {}
    assert forall|i: int| 0 <= i < n implies #[trigger] line[8 + i] == author.name[i] by {}
    assert forall|i: int| 0 <= i < m implies #[trigger] line[8 + n + 2 + i]
        == author.email[i] by {}
    assert(line.subrange(0, 8) =~= "Author: "@);
    lemma_separator_is(line, 0, 8 + n);
    lemma_run_start_is(line, line.len() as int, line.len() as int, CharClass::Whitespace);
    let from = 8 + n + 2;
    let to = line.len() - 1;
    assert(line.subrange(8, 8 + n) =~= author.name);
    assert(line.subrange(from, to) =~= author.email);
}

/// The diff summary of a commit that changed `files` files, with
/// `insertions` lines added and `deletions` lines removed.
pub open spec fn summary_line(files: nat, insertions: nat, deletions: nat) -> Seq<char> {
    " "@ + decimal_digits(files) + " files changed, "@ + decimal_digits(insertions)
        + " insertions(+), "@ + decimal_digits(deletions) + " deletions(-)"@
}

/// Where the parts of a diff summary stand: the index at which the digits
/// of the insertions begin.
pub open spec fn insertions_start(files: nat) -> int {
    17 + decimal_digits(files).len() as int
}

/// The index at which ` insertions(+)` begins.
pub open spec fn insertions_end(files: nat, insertions: nat) -> int {
    insertions_start(files) + decimal_digits(insertions).len() as int
}

/// The index at which the digits of the deletions begin.
pub open spec fn deletions_start(files: nat, insertions: nat) -> int {
    insertions_end(files, insertions) + 16
}

/// The index at which ` deletions(-)` begins.
pub open spec fn deletions_end(files: nat, insertions: nat, deletions: nat) -> int {
    deletions_start(files, insertions) + decimal_digits(deletions).len() as int
}

/// What stands where in a diff summary.
proof fn lemma_summary_layout(files: nat, insertions: nat, deletions: nat)
    ensures
        ({
            let line = summary_line(files, insertions, deletions);
            let counted = decimal_digits(files);
            let added = decimal_digits(insertions);
            let removed = decimal_digits(deletions);
            let w = 1 + counted.len() as int;
            let a = insertions_start(files);
            let b = insertions_end(files, insertions);
            let c = deletions_start(files, insertions);
            let d = deletions_end(files, insertions, deletions);
            &&& line.len() == d + 13
            &&& line[0] == ' '
            &&& forall|k: int| 1 <= k < w ==> #[trigger] line[k] == counted[k - 1]
            &&& forall|k: int| w <= k < a ==> #[trigger] line[k] == " files changed, "@[k - w]
            &&& forall|k: int| a <= k < b ==> #[trigger] line[k] == added[k - a]
            &&& forall|k: int| b <= k < c ==> #[trigger] line[k] == " insertions(+), "@[k - b]
            &&& forall|k: int| c <= k < d ==> #[trigger] line[k] == removed[k - c]
            &&& forall|k: int| d <= k < d + 13 ==> #[trigger] line[k] == " deletions(-)"@[k - d]
        }),
{
    reveal_strlit(" ");
    reveal_strlit(" files changed, ");
    reveal_strlit(" insertions(+), ");
    reveal_strlit(" deletions(-)");
}

/// The first place at or after `from` at which a count stands before
/// `phrase` is `at` where none stands between the two.
pub proof fn lemma_first_counted_is(line: Seq<char>, phrase: Seq<char>, from: int, at: int)
    requires
        0 <= from <= at < line.len(),
        counted_at(line, phrase, at),
        forall|k: int| from <= k < at ==> !(#[trigger] line[k] == phrase[0] && line[k + 1]
            == phrase[1]),
        phrase.len() >= 2,
    ensures
        first_counted(line, phrase, from) == Some(at),
    decreases at - from,
{
    if from < at {
        lemma_first_counted_is(line, phrase, from + 1, at);
    }
}

/// A diff summary that was written has the shape of a diff summary.
pub proof fn lemma_summary_line_has_its_shape(files: nat, insertions: nat, deletions: nat)
    ensures
        diff_summary(summary_line(files, insertions, deletions)),
{
    reveal_strlit(" files changed, ");
    reveal_strlit(" files changed");
    let line = summary_line(files, insertions, deletions);
    let counted = decimal_digits(files);
    lemma_summary_layout(files, insertions, deletions);
    lemma_decimal_digits(files);
    let words = 1 + counted.len() as int;
    lemma_run_end_is(line, 0, 1, CharClass::Space);
    lemma_run_end_is(line, 1, words, CharClass::Digit);
    assert(line.subrange(words, words + 14) =~= " files changed"@);
}

/// The insertions of a diff summary that was written are read back from
/// it, and so are its deletions.
pub proof fn lemma_summary_counts_are_read_back(files: nat, insertions: nat, deletions: nat)
    ensures
        count_before(summary_line(files, insertions, deletions), " insertions(+)"@) == Some(
            insertions,
        ),
        count_before(summary_line(files, insertions, deletions), " deletions(-)"@) == Some(
            deletions,
        ),
{
    reveal_strlit(" files changed, ");
    reveal_strlit(" insertions(+), ");
    reveal_strlit(" insertions(+)");
    reveal_strlit(" deletions(-)");
    let line = summary_line(files, insertions, deletions);
    let added = decimal_digits(insertions);
    let removed = decimal_digits(deletions);
    let a = insertions_start(files);
    let b = insertions_end(files, insertions);
    let c = deletions_start(files, insertions);
    let d = deletions_end(files, insertions, deletions);
    lemma_summary_layout(files, insertions, deletions);
    lemma_decimal_digits(files);
    lemma_decimal_digits(insertions);
    lemma_decimal_digits(deletions);
    let first = " insertions(+)"@;
    let second = " deletions(-)"@;
    assert(counted_at(line, first, b)) by {
        assert(line.subrange(b, b + 14) =~= first);
    }
    assert(counted_at(line, second, d)) by {
        assert(line.subrange(d, d + 13) =~= second);
    }
    lemma_first_counted_is(line, first, 0, b);
    lemma_first_counted_is(line, second, 0, d);
    lemma_run_start_is(line, a, b, CharClass::Digit);
    assert(line.subrange(a, b) =~= added);
    lemma_run_start_is(line, c, d, CharClass::Digit);
    assert(line.subrange(c, d) =~= removed);
}

/// The insertions and deletions that are written as a diff summary are
/// read back from it, as long as each fits in 64 bits.
pub proof fn summary_line_is_read_back(files: nat, insertions: nat, deletions: nat)
    requires
        insertions <= u64::MAX,
        deletions <= u64::MAX,
    ensures
        diff_summary(summary_line(files, insertions, deletions)),
        changes_of(summary_line(files, insertions, deletions)) == Ok::<(nat, nat), Rejection>(
            (insertions, deletions),
        ),
{
    lemma_summary_line_has_its_shape(files, insertions, deletions);
    lemma_summary_counts_are_read_back(files, insertions, deletions);
}

/// The header of the commit with the hash `hash`.
pub open spec fn header_line(hash: Seq<char>) -> Seq<char> {
    "commit "@ + hash
}

/// Forty lower-case hexadecimal digits.
pub open spec fn is_hash(hash: Seq<char>) -> bool {
    hash.len() == 40 && forall|i: int| 0 <= i < 40 ==> lower_hex(#[trigger] hash[i])
}

/// The header of a hash is a commit header.
pub proof fn header_line_is_a_header(hash: Seq<char>)
    requires
        is_hash(hash),
    ensures
        commit_header(header_line(hash)),
{
    reveal_strlit("commit ");
    let line = header_line(hash);
    assert(line.subrange(0, 7) =~= "commit "@);
}

/// One block of a log: the hash of the commit, what the scanners are to
/// read from the block, the number of files in its diff summary, and the
/// lines of the message between the date line and the diff summary.
pub struct Block {
    pub hash: Seq<char>,
    pub record: DetailedCommitView,
    pub files: nat,
    pub message: Seq<Seq<char>>,
}

/// `text` holds no line feed.
pub open spec fn on_one_line(text: Seq<char>) -> bool {
    forall|i: int| 0 <= i < text.len() ==> #[trigger] text[i] != '\n'
}

/// A block that can be written and read back: the hash is a hash, the
/// author can be written on one line, the time is a second that can be
/// represented, the counts fit in 64 bits, and the lines of the message are
/// lines that are neither commit headers nor diff summaries.
pub open spec fn writable_block(block: Block) -> bool {
    &&& is_hash(block.hash)
    &&& writable_author(block.record.commit.author)
    &&& on_one_line(block.record.commit.author.name)
    &&& on_one_line(block.record.commit.author.email)
    &&& 0 <= block.record.commit.time <= i64::MAX
    &&& unix_timestamp_accepted(block.record.commit.time as i64)
    &&& block.record.insertions <= u64::MAX
    &&& block.record.deletions <= u64::MAX
    &&& forall|i: int|
        0 <= i < block.message.len() ==> {
            &&& fits_a_line(#[trigger] block.message[i])
            &&& !commit_header(block.message[i])
            &&& !diff_summary(block.message[i])
        }
}

/// The lines of a block: header, author line, date line, message and diff
/// summary.
pub open spec fn block_lines(block: Block) -> Seq<Seq<char>> {
    seq![
        header_line(block.hash),
        author_line(block.record.commit.author),
        date_line(block.record.commit.time as nat),
    ] + block.message + seq![
        summary_line(block.files, block.record.insertions, block.record.deletions),
    ]
}

/// The lines of a log: the lines of its blocks, one block after the other.
pub open spec fn log_lines(blocks: Seq<Block>) -> Seq<Seq<char>>
    decreases blocks.len(),
{
    if blocks.len() == 0 {
        Seq::empty()
    } else {
        block_lines(blocks.first()) + log_lines(blocks.drop_first())
    }
}

/// The text of a log: its lines, each ended by a line feed.
pub open spec fn log_text(blocks: Seq<Block>) -> Seq<char> {
    text_of(log_lines(blocks))
}

/// The detailed commits that the blocks stand for.
pub open spec fn records_of(blocks: Seq<Block>) -> Seq<DetailedCommitView> {
    blocks.map_values(|block: Block| block.record)
}

/// The commits that the blocks stand for.
pub open spec fn commits_of(blocks: Seq<Block>) -> Seq<CommitView> {
    blocks.map_values(|block: Block| block.record.commit)
}

/// A block that was written is read back, whatever follows it: the scanners
/// give its record and go on with what follows.
pub proof fn lemma_block_is_read_back(block: Block, rest: Seq<Seq<char>>)
    requires
        writable_block(block),
    ensures
        stats_from(block_lines(block) + rest, 0) == seq![block.record] + stats_from(rest, 0),
        commits_from(block_lines(block) + rest, 0) == seq![block.record.commit] + commits_from(
            rest,
            0,
        ),
{
    let own = block_lines(block);
    let lines = own + rest;
    let record = block.record;
    let commit = record.commit;
    let m = block.message.len() as int;
    let summary = summary_line(block.files, record.insertions, record.deletions);
    assert forall|at: int| 3 <= at < 3 + m implies #[trigger] lines[at] == block.message[at
        - 3] by {}
    header_line_is_a_header(block.hash);
    author_line_is_read_back(commit.author);
    date_line_is_read_back(commit.time as nat);
    summary_line_is_read_back(block.files, record.insertions, record.deletions);
    lemma_no_other_line_is_a_header(lines[1]);
    lemma_no_other_line_is_a_header(summary);
    lemma_summary_search_is(lines, 3, 3 + m);
    lemma_stats_after(own, rest, 0);
    lemma_no_commits_between(lines, 3, 4 + m);
    lemma_commits_after(own, rest, 0);
}

/// The lines of a log that was written are read back: the scanners give
/// the records of its blocks, in the order of the blocks.
pub proof fn written_lines_are_read_back(blocks: Seq<Block>)
    requires
        forall|i: int| 0 <= i < blocks.len() ==> writable_block(#[trigger] blocks[i]),
    ensures
        stats_from(log_lines(blocks), 0) == records_of(blocks),
        commits_from(log_lines(blocks), 0) == commits_of(blocks),
    decreases blocks.len(),
{
    if blocks.len() > 0 {
        let rest = blocks.drop_first();
        written_lines_are_read_back(rest);
        lemma_block_is_read_back(blocks.first(), log_lines(rest));
    }
}

/// Every line of a log that was written can stand as a line of a text.
pub proof fn lemma_written_lines_fit(blocks: Seq<Block>)
    requires
        forall|i: int| 0 <= i < blocks.len() ==> writable_block(#[trigger] blocks[i]),
    ensures
        forall|i: int|
            0 <= i < log_lines(blocks).len() ==> fits_a_line(#[trigger] log_lines(blocks)[i]),
    decreases blocks.len(),
{
    if blocks.len() > 0 {
        let block = blocks.first();
        let rest = blocks.drop_first();
        lemma_written_lines_fit(rest);
        lemma_block_lines_fit(block);
        let own = block_lines(block);
        let lines = log_lines(blocks);
        assert forall|i: int| 0 <= i < lines.len() implies fits_a_line(#[trigger] lines[i]) by {
            if i >= own.len() {
                assert(lines[i] == log_lines(rest)[i - own.len()]);
            }
        }
    }
}

/// Every line of a block that was written can stand as a line of a text.
pub proof fn lemma_block_lines_fit(block: Block)
    requires
        writable_block(block),
    ensures
        forall|i: int|
            0 <= i < block_lines(block).len() ==> fits_a_line(#[trigger] block_lines(block)[i]),
{
    reveal_strlit("commit ");
    reveal_strlit("Author: ");
    reveal_strlit(" <");
    reveal_strlit(">");
    reveal_strlit("Date:   ");
    lemma_decimal_digits(block.record.commit.time as nat);
    lemma_summary_line_fits(block.files, block.record.insertions, block.record.deletions);
}

/// A diff summary that was written can stand as a line of a text.
proof fn lemma_summary_line_fits(files: nat, insertions: nat, deletions: nat)
    ensures
        fits_a_line(summary_line(files, insertions, deletions)),
{
    reveal_strlit(" files changed, ");
    reveal_strlit(" insertions(+), ");
    reveal_strlit(" deletions(-)");
    lemma_summary_layout(files, insertions, deletions);
    lemma_decimal_digits(files);
    lemma_decimal_digits(insertions);
    lemma_decimal_digits(deletions);
}

/// A log that was written is read back: from the text of the log the
/// scanners give the records of its blocks, with exactly the authors, times,
/// insertions and deletions that were written, in the order of the blocks.
pub proof fn written_log_is_read_back(blocks: Seq<Block>)
    requires
        forall|i: int| 0 <= i < blocks.len() ==> writable_block(#[trigger] blocks[i]),
    ensures
        stats_from(lines_of(log_text(blocks)), 0) == records_of(blocks),
        commits_from(lines_of(log_text(blocks)), 0) == commits_of(blocks),
{
    lemma_written_lines_fit(blocks);
    lines_are_read_back(log_lines(blocks));
    written_lines_are_read_back(blocks);
}

} // verus!
