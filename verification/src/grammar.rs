//! The shapes of the lines that a log is made of.
//!
//! Every shape is stated as a spec function over the characters of one line,
//! and decided or read by an executable function that is proved to agree
//! with it. A line is what `split_lines` cuts: it holds no line feed.
use crate::calendar::{accepts_unix_timestamp, unix_timestamp_accepted};
use crate::chars::{
    back_run, decimal_value, digit, is_digit, is_lower_hex, lemma_run_end,
    lemma_run_start, lower_hex, matches_at, occurs_at, parse_decimal, run_end, run_start,
    skip_run, CharClass,
};
use crate::data::{Author, AuthorView, Rejection};
use crate::text::{slice_of, string_of};
use vstd::prelude::*;

verus! {

/// A commit header: `commit `, forty lower-case hexadecimal digits, and
/// nothing else.
pub open spec fn commit_header(line: Seq<char>) -> bool {
    &&& line.len() == 47
    &&& occurs_at(line, "commit "@, 0)
    &&& forall|i: int| 7 <= i < 47 ==> lower_hex(#[trigger] line[i])
}

/// A merge marker: `Merge: ` and anything after it.
pub open spec fn merge_marker(line: Seq<char>) -> bool {
    occurs_at(line, "Merge: "@, 0)
}

/// The lines of a block are told apart by how they begin: a merge marker,
/// an author line and a date line are no commit headers, and a diff summary
/// is none either.
pub proof fn lemma_no_other_line_is_a_header(line: Seq<char>)
    ensures
        merge_marker(line) ==> !commit_header(line),
        author_of(line) is Ok ==> !commit_header(line) && !merge_marker(line),
        timestamp_of(line) is Ok ==> !commit_header(line),
        diff_summary(line) ==> !commit_header(line),
{
    reveal_strlit("commit ");
    reveal_strlit("Merge: ");
    reveal_strlit("Author: ");
    reveal_strlit("Date:");
    if commit_header(line) {
        assert(line.subrange(0, 7)[0] == 'c');
        if diff_summary(line) {
            lemma_run_end(line, 0, CharClass::Space);
        }
    }
    if author_of(line) is Ok && merge_marker(line) {
        assert(line.subrange(0, 8)[0] == 'A');
    }
}

/// Decides `commit_header`.
pub fn is_commit_header(line: &Vec<char>) -> (yes: bool)
    ensures
        yes == commit_header(line@),
{
    if line.len() != 47 || !matches_at(line, "commit ", 0) {
        return false;
    }
    let mut i: usize = 7;
    while i < 47
        invariant
            7 <= i <= 47,
            line.len() == 47,
            forall|j: int| 7 <= j < i ==> lower_hex(#[trigger] line@[j]),
        decreases 47 - i,
    {
        if !is_lower_hex(line[i]) {
            return false;
        }
        i += 1;
    }
    true
}

/// Decides `merge_marker`.
pub fn is_merge_marker(line: &Vec<char>) -> (yes: bool)
    ensures
        yes == merge_marker(line@),
{
    matches_at(line, "Merge: ", 0)
}

/// The index of the first ` <` of `line` at or after `from`.
pub open spec fn separator_from(line: Seq<char>, from: int) -> Option<int>
    decreases line.len() - from,
{
    if from < 0 || from + 1 >= line.len() {
        None
    } else if line[from] == ' ' && line[from + 1] == '<' {
        Some(from)
    } else {
        separator_from(line, from + 1)
    }
}

/// `line` holds an `@` strictly inside the characters from `from` up to
/// `to`: at least one of them stands before it and at least one after it.
pub open spec fn at_sign_inside(line: Seq<char>, from: int, to: int) -> bool {
    exists|at: int| from < at < to - 1 && #[trigger] line[at] == '@'
}

/// Where the address of `line` stands, given that its ` <` is at
/// `separator`: from the `<` to the end of the line, whitespace at the end
/// aside, the line is `<`, an address and `>`, and the result is the range
/// of the address.
pub open spec fn address_range(line: Seq<char>, separator: int) -> Option<(int, int)> {
    let open = separator + 1;
    let close = run_start(line, line.len() as int, CharClass::Whitespace) - 1;
    if open < close && line[open] == '<' && line[close] == '>' && at_sign_inside(
        line,
        open + 1,
        close,
    ) {
        Some((open + 1, close))
    } else {
        None
    }
}

/// The author that an author line names, or why it names none.
///
/// The line is cut at its first ` <`. What stands before the cut is
/// `Author: ` and the name, which may be empty; what stands after the space
/// of the cut is the address in angle brackets.
pub open spec fn author_of(line: Seq<char>) -> Result<AuthorView, Rejection> {
    match separator_from(line, 0) {
        None => Err(Rejection::MissingSeparator),
        Some(separator) => {
            if !(separator >= 8 && occurs_at(line, "Author: "@, 0)) {
                Err(Rejection::BadAuthor)
            } else {
                match address_range(line, separator) {
                    None => Err(Rejection::BadEmail),
                    Some((from, to)) => Ok(
                        AuthorView {
                            name: line.subrange(8, separator),
                            email: line.subrange(from, to),
                        },
                    ),
                }
            }
        },
    }
}

/// Computes `separator_from(line, 0)`.
pub fn find_separator(line: &Vec<char>) -> (found: Option<usize>)
    ensures
        match found {
            Some(at) => separator_from(line@, 0) == Some(at as int) && at + 1 < line.len(),
            None => separator_from(line@, 0) is None,
        },
{
    let mut i: usize = 0;
    while i < line.len() && i + 1 < line.len()
        invariant
            i <= line.len(),
            separator_from(line@, 0) == separator_from(line@, i as int),
        decreases line.len() - i,
    {
        if line[i] == ' ' && line[i + 1] == '<' {
            return Some(i);
        }
        i += 1;
    }
    None
}

/// Decides `at_sign_inside`.
pub fn has_at_sign_inside(line: &Vec<char>, from: usize, to: usize) -> (yes: bool)
    requires
        from <= to <= line.len(),
    ensures
        yes == at_sign_inside(line@, from as int, to as int),
{
    if to - from < 3 {
        return false;
    }
    let mut i: usize = from + 1;
    while i < to - 1
        invariant
            from < i <= to - 1,
            to <= line.len(),
            forall|at: int| from < at < i ==> #[trigger] line@[at] != '@',
        decreases to - i,
    {
        if line[i] == '@' {
            return true;
        }
        i += 1;
    }
    false
}

/// Reads an author line.
pub fn parse_author_line(line: &Vec<char>) -> (author: Result<Author, Rejection>)
    ensures
        match author {
            Ok(a) => author_of(line@) == Ok::<AuthorView, Rejection>(a@),
            Err(e) => author_of(line@) == Err::<AuthorView, Rejection>(e),
        },
{
    let separator = match find_separator(line) {
        Some(at) => at,
        None => {
            return Err(Rejection::MissingSeparator);
        },
    };
    if separator < 8 || !matches_at(line, "Author: ", 0) {
        return Err(Rejection::BadAuthor);
    }
    let open = separator + 1;
    let end = back_run(line, line.len(), CharClass::Whitespace);
    if end == 0 || open >= end - 1 {
        return Err(Rejection::BadEmail);
    }
    let close = end - 1;
    if line[open] != '<' || line[close] != '>' || !has_at_sign_inside(line, open + 1, close) {
        return Err(Rejection::BadEmail);
    }
    let name = slice_of(line, 8, separator);
    let email = slice_of(line, open + 1, close);
    Ok(Author { name: string_of(&name), email: string_of(&email) })
}

/// The index at which the digits of a date line begin: the line is `Date:`,
/// whitespace or none, and one digit or more up to its end.
pub open spec fn date_digits(line: Seq<char>) -> Option<int> {
    let from = run_end(line, 5, CharClass::Whitespace);
    if occurs_at(line, "Date:"@, 0) && from < line.len() && run_end(line, from, CharClass::Digit)
        == line.len() {
        Some(from)
    } else {
        None
    }
}

/// The second of the Unix epoch that a date line names, or why it names
/// none.
///
/// The digits are read as a decimal number. The number must fit in 64 bits
/// with a sign, and `time` must be able to represent the instant.
pub open spec fn timestamp_of(line: Seq<char>) -> Result<int, Rejection> {
    match date_digits(line) {
        None => Err(Rejection::BadDate),
        Some(from) => {
            let seconds = decimal_value(line.subrange(from, line.len() as int));
            if seconds <= i64::MAX && unix_timestamp_accepted(seconds as i64) {
                Ok(seconds as int)
            } else {
                Err(Rejection::DateOutOfRange)
            }
        },
    }
}

/// Reads a date line.
pub fn parse_date_line(line: &Vec<char>) -> (timestamp: Result<i64, Rejection>)
    ensures
        match timestamp {
            Ok(t) => timestamp_of(line@) == Ok::<int, Rejection>(t as int),
            Err(e) => timestamp_of(line@) == Err::<int, Rejection>(e),
        },
{
    if !matches_at(line, "Date:", 0) {
        return Err(Rejection::BadDate);
    }
    proof {
        reveal_strlit("Date:");
    }
    let from = skip_run(line, 5, CharClass::Whitespace);
    if from >= line.len() || skip_run(line, from, CharClass::Digit) != line.len() {
        return Err(Rejection::BadDate);
    }
    proof {
        lemma_run_end(line@, from as int, CharClass::Digit);
    }
    match parse_decimal(line, from, line.len(), 0x7fff_ffff_ffff_ffff) {
        None => Err(Rejection::DateOutOfRange),
        Some(seconds) => {
            let seconds: i64 = seconds as i64;
            if accepts_unix_timestamp(seconds) {
                Ok(seconds)
            } else {
                Err(Rejection::DateOutOfRange)
            }
        },
    }
}

/// A diff summary begins with one space or more, one digit or more, and
/// ` file changed` or ` files changed`; anything may follow.
pub open spec fn diff_summary(line: Seq<char>) -> bool {
    let digits = run_end(line, 0, CharClass::Space);
    let words = run_end(line, digits, CharClass::Digit);
    &&& 0 < digits < words
    &&& occurs_at(line, " file changed"@, words) || occurs_at(line, " files changed"@, words)
}

/// Decides `diff_summary`.
pub fn is_diff_summary(line: &Vec<char>) -> (yes: bool)
    ensures
        yes == diff_summary(line@),
{
    let digits = skip_run(line, 0, CharClass::Space);
    let words = skip_run(line, digits, CharClass::Digit);
    0 < digits && digits < words && (matches_at(line, " file changed", words) || matches_at(
        line,
        " files changed",
        words,
    ))
}

/// A count stands before `phrase` at index `at`: the phrase stands there,
/// and a digit stands directly before it.
pub open spec fn counted_at(line: Seq<char>, phrase: Seq<char>, at: int) -> bool {
    at >= 1 && digit(line[at - 1]) && occurs_at(line, phrase, at)
}

/// The first index at or after `from` at which a count stands before
/// `phrase`.
pub open spec fn first_counted(line: Seq<char>, phrase: Seq<char>, from: int) -> Option<int>
    decreases line.len() - from,
{
    if from < 0 || from >= line.len() {
        None
    } else if counted_at(line, phrase, from) {
        Some(from)
    } else {
        first_counted(line, phrase, from + 1)
    }
}

/// The number that `line` gives for `phrase`: the digits that stand before
/// the first place at which a count stands before the phrase, read as a
/// decimal number. `None` where the line gives none.
pub open spec fn count_before(line: Seq<char>, phrase: Seq<char>) -> Option<nat> {
    match first_counted(line, phrase, 0) {
        None => None,
        Some(at) => Some(
            decimal_value(line.subrange(run_start(line, at, CharClass::Digit), at)),
        ),
    }
}

/// A count that the line does not give is zero.
pub open spec fn count_or_zero(count: Option<nat>) -> nat {
    match count {
        Some(n) => n,
        None => 0,
    }
}

/// The insertions and deletions that a diff summary reports, or why it
/// reports none: the number before ` insertions(+)` and the number before
/// ` deletions(-)`, each zero where the line does not give it. Both must fit
/// in 64 bits.
pub open spec fn changes_of(line: Seq<char>) -> Result<(nat, nat), Rejection> {
    let insertions = count_or_zero(count_before(line, " insertions(+)"@));
    let deletions = count_or_zero(count_before(line, " deletions(-)"@));
    if insertions <= u64::MAX && deletions <= u64::MAX {
        Ok((insertions, deletions))
    } else {
        Err(Rejection::CountOutOfRange)
    }
}

/// Reads the number that `line` gives for `phrase`, zero where it gives
/// none. `None` where the number does not fit in 64 bits.
pub fn parse_count(line: &Vec<char>, phrase: &str) -> (count: Option<u64>)
    ensures
        match count {
            Some(n) => n == count_or_zero(count_before(line@, phrase@)),
            None => count_or_zero(count_before(line@, phrase@)) > u64::MAX,
        },
{
    let mut at: usize = 0;
    while at < line.len()
        invariant
            at <= line.len(),
            first_counted(line@, phrase@, 0) == first_counted(line@, phrase@, at as int),
        decreases line.len() - at,
    {
        if at >= 1 && is_digit(line[at - 1]) && matches_at(line, phrase, at) {
            let from = back_run(line, at, CharClass::Digit);
            proof {
                lemma_run_start(line@, at as int, CharClass::Digit);
            }
            return parse_decimal(line, from, at, u64::MAX);
        }
        at += 1;
    }
    Some(0)
}

/// Reads the insertions and deletions of a diff summary.
pub fn parse_diff_summary(line: &Vec<char>) -> (changes: Result<(u64, u64), Rejection>)
    ensures
        match changes {
            Ok((i, d)) => changes_of(line@) == Ok::<(nat, nat), Rejection>((i as nat, d as nat)),
            Err(e) => changes_of(line@) == Err::<(nat, nat), Rejection>(e),
        },
{
    let insertions = parse_count(line, " insertions(+)");
    let deletions = parse_count(line, " deletions(-)");
    match (insertions, deletions) {
        (Some(i), Some(d)) => Ok((i, d)),
        _ => Err(Rejection::CountOutOfRange),
    }
}

} // verus!
