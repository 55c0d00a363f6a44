//! Tables of the tallies per author: one line of text for the heading and
//! one for each row, in columns of fixed width, the numbers in colour.
//!
//! A column is filled up with spaces to its width; what is wider than its
//! column is written in full.
use crate::chars::{decimal_digits, digit_of};
use crate::summary::{AuthorChanges, AuthorCommits};
use crate::text::{chars_of, string_of};
use vstd::prelude::*;

verus! {

/// `text`, filled up with spaces to `width` characters where it is shorter.
pub open spec fn padded(text: Seq<char>, width: nat) -> Seq<char> {
    if text.len() >= width {
        text
    } else {
        text + Seq::new((width - text.len()) as nat, |i: int| ' ')
    }
}

/// The heading of the table of commits.
pub open spec fn commits_heading() -> Seq<char> {
    padded("Author"@, 30) + " | "@ + padded("Commits"@, 30)
}

/// The row of the table of commits for an author of the name `name` with
/// `commits` commits: the name, and the number in blue.
pub open spec fn commits_row(name: Seq<char>, commits: nat) -> Seq<char> {
    padded(name, 30) + " | "@ + "\u{1b}[94m"@ + padded(decimal_digits(commits), 30)
        + "\u{1b}[0m"@
}

/// The heading of the table of changes.
pub open spec fn changes_heading() -> Seq<char> {
    padded("Author"@, 30) + " | "@ + padded("Insertions"@, 12) + " | "@ + padded(
        "Deletions"@,
        12,
    )
}

/// The row of the table of changes for an author of the name `name` with
/// `insertions` lines added and `deletions` lines removed: the name, the
/// insertions with a plus sign in green, and the deletions with a minus
/// sign in red.
pub open spec fn changes_row(name: Seq<char>, insertions: nat, deletions: nat) -> Seq<char> {
    padded(name, 30) + " | "@ + "\u{1b}[92m"@ + padded(decimal_digits(insertions) + "+"@, 12)
        + "\u{1b}[0m"@ + " | "@ + "\u{1b}[31m"@ + padded(decimal_digits(deletions) + "-"@, 12)
        + "\u{1b}[0m"@
}

/// The lines of a table as character sequences.
pub open spec fn table_views(lines: Seq<String>) -> Seq<Seq<char>> {
    lines.map_values(|line: String| line@)
}

/// The table of commits for `rows`: the heading, then one line for each
/// row.
pub open spec fn commits_table_of(rows: Seq<AuthorCommits>) -> Seq<Seq<char>> {
    seq![commits_heading()] + rows.map_values(
        |row: AuthorCommits| commits_row(row.author.name@, row.commits as nat),
    )
}

/// The table of changes for `rows`: the heading, then one line for each
/// row.
pub open spec fn changes_table_of(rows: Seq<AuthorChanges>) -> Seq<Seq<char>> {
    seq![changes_heading()] + rows.map_values(
        |row: AuthorChanges|
            changes_row(row.author.name@, row.insertions as nat, row.deletions as nat),
    )
}

/// Computes `digit_of`.
pub fn digit_char(value: u8) -> (c: char)
    requires
        value < 10,
    ensures
        c == digit_of(value as nat),
{
    if value == 0 {
        '0'
    } else if value == 1 {
        '1'
    } else if value == 2 {
        '2'
    } else if value == 3 {
        '3'
    } else if value == 4 {
        '4'
    } else if value == 5 {
        '5'
    } else if value == 6 {
        '6'
    } else if value == 7 {
        '7'
    } else if value == 8 {
        '8'
    } else {
        '9'
    }
}

/// Writes `value` in decimal digits, without leading zeros.
pub fn decimal_chars(value: u128) -> (digits: Vec<char>)
    ensures
        digits@ == decimal_digits(value as nat),
    decreases value,
{
    if value < 10 {
        let mut digits: Vec<char> = Vec::new();
        digits.push(digit_char(value as u8));
        digits
    } else {
        let mut digits = decimal_chars(value / 10);
        digits.push(digit_char((value % 10) as u8));
        digits
    }
}

/// Appends the characters of `text` to `line`.
pub fn push_text(line: &mut Vec<char>, text: &str)
    ensures
        final(line)@ == old(line)@ + text@,
{
    let chars = chars_of(text);
    push_chars(line, &chars);
}

/// Appends `chars` to `line`.
pub fn push_chars(line: &mut Vec<char>, chars: &Vec<char>)
    ensures
        final(line)@ == old(line)@ + chars@,
{
    let ghost before = line@;
    let mut i: usize = 0;
    while i < chars.len()
        invariant
            i <= chars.len(),
            line@ == before + chars@.take(i as int),
        decreases chars.len() - i,
    {
        line.push(chars[i]);
        i += 1;
    }
}

/// Appends `chars` to `line` and fills the column up with spaces to `width`
/// characters.
pub fn push_padded(line: &mut Vec<char>, chars: &Vec<char>, width: usize)
    ensures
        final(line)@ == old(line)@ + padded(chars@, width as nat),
{
    let ghost before = line@;
    push_chars(line, chars);
    let mut filled: usize = chars.len();
    while filled < width
        invariant
            chars.len() <= filled,
            filled <= width || filled == chars.len(),
            line@ == before + chars@ + Seq::new((filled - chars.len()) as nat, |i: int| ' '),
        decreases width - filled,
    {
        line.push(' ');
        proof {
            assert(Seq::new((filled + 1 - chars.len()) as nat, |i: int| ' ') =~= Seq::new(
                (filled - chars.len()) as nat,
                |i: int| ' ',
            ).push(' '));
        }
        filled += 1;
    }
}

/// Writes the table of commits for `rows`.
pub fn commits_table(rows: &Vec<AuthorCommits>) -> (lines: Vec<String>)
    ensures
        table_views(lines@) == commits_table_of(rows@),
{
    let mut lines: Vec<String> = Vec::new();
    let mut heading: Vec<char> = Vec::new();
    push_padded(&mut heading, &chars_of("Author"), 30);
    push_text(&mut heading, " | ");
    push_padded(&mut heading, &chars_of("Commits"), 30);
    lines.push(string_of(&heading));
    let mut i: usize = 0;
    while i < rows.len()
        invariant
            i <= rows.len(),
            table_views(lines@) == commits_table_of(rows@.take(i as int)),
        decreases rows.len() - i,
    {
        let mut line: Vec<char> = Vec::new();
        push_padded(&mut line, &chars_of(rows[i].author.name.as_str()), 30);
        push_text(&mut line, " | ");
        push_text(&mut line, "\u{1b}[94m");
        push_padded(&mut line, &decimal_chars(rows[i].commits as u128), 30);
        push_text(&mut line, "\u{1b}[0m");
        proof {
            assert(line@ =~= commits_row(
                rows[i as int].author.name@,
                rows[i as int].commits as nat,
            ));
        }
        lines.push(string_of(&line));
        proof {
            assert(commits_table_of(rows@.take(i + 1)) =~= commits_table_of(
                rows@.take(i as int),
            ).push(line@));
        }
        i += 1;
    }
    lines
}

/// Writes the table of changes for `rows`.
pub fn changes_table(rows: &Vec<AuthorChanges>) -> (lines: Vec<String>)
    ensures
        table_views(lines@) == changes_table_of(rows@),
{
    let mut lines: Vec<String> = Vec::new();
    let mut heading: Vec<char> = Vec::new();
    push_padded(&mut heading, &chars_of("Author"), 30);
    push_text(&mut heading, " | ");
    push_padded(&mut heading, &chars_of("Insertions"), 12);
    push_text(&mut heading, " | ");
    push_padded(&mut heading, &chars_of("Deletions"), 12);
    lines.push(string_of(&heading));
    let mut i: usize = 0;
    while i < rows.len()
        invariant
            i <= rows.len(),
            table_views(lines@) == changes_table_of(rows@.take(i as int)),
        decreases rows.len() - i,
    {
        let mut line: Vec<char> = Vec::new();
        push_padded(&mut line, &chars_of(rows[i].author.name.as_str()), 30);
        push_text(&mut line, " | ");
        push_text(&mut line, "\u{1b}[92m");
        let mut insertions = decimal_chars(rows[i].insertions);
        push_text(&mut insertions, "+");
        push_padded(&mut line, &insertions, 12);
        push_text(&mut line, "\u{1b}[0m");
        push_text(&mut line, " | ");
        push_text(&mut line, "\u{1b}[31m");
        let mut deletions = decimal_chars(rows[i].deletions);
        push_text(&mut deletions, "-");
        push_padded(&mut line, &deletions, 12);
        push_text(&mut line, "\u{1b}[0m");
        proof {
            assert(line@ =~= changes_row(
                rows[i as int].author.name@,
                rows[i as int].insertions as nat,
                rows[i as int].deletions as nat,
            ));
        }
        lines.push(string_of(&line));
        proof {
            assert(changes_table_of(rows@.take(i + 1)) =~= changes_table_of(
                rows@.take(i as int),
            ).push(line@));
        }
        i += 1;
    }
    lines
}

} // verus!
