//! Characters and lines: the ground the scanners stand on.
//!
//! A log is handled as a sequence of characters. It is cut into lines at
//! line feeds; a carriage return directly before a line feed belongs to the
//! line ending, and the last line need not be terminated.
use vstd::prelude::*;

verus! {

/// The index of the first line feed of `text` at or after `from`, or the
/// length of `text` if there is none.
pub open spec fn line_end(text: Seq<char>, from: int) -> int
    decreases text.len() - from,
{
    if from < 0 || from >= text.len() {
        text.len() as int
    } else if text[from] == '\n' {
        from
    } else {
        line_end(text, from + 1)
    }
}

/// A terminated line without the carriage return that may close it.
pub open spec fn without_carriage_return(line: Seq<char>) -> Seq<char> {
    if line.len() > 0 && line.last() == '\r' {
        line.drop_last()
    } else {
        line
    }
}

/// The lines of `text` that begin at or after `from`.
///
/// Each line runs up to the next line feed. Where a line feed ends it, one
/// carriage return before that line feed is dropped with it; an unterminated
/// last line is kept as it stands, and nothing follows a final line feed.
pub open spec fn lines_from(text: Seq<char>, from: int) -> Seq<Seq<char>>
    decreases text.len() - from,
{
    if from < 0 || from >= text.len() {
        Seq::empty()
    } else {
        proof {
            lemma_line_end(text, from);
        }
        let end = line_end(text, from);
        if end >= text.len() {
            seq![text.subrange(from, text.len() as int)]
        } else {
            seq![without_carriage_return(text.subrange(from, end))] + lines_from(text, end + 1)
        }
    }
}

/// The lines of `text`.
pub open spec fn lines_of(text: Seq<char>) -> Seq<Seq<char>> {
    lines_from(text, 0)
}

/// The character sequences that a vector of lines stands for.
pub open spec fn line_views(lines: Seq<Vec<char>>) -> Seq<Seq<char>> {
    lines.map_values(|line: Vec<char>| line@)
}

/// `line_end` stays within the text and stops at a line feed.
pub proof fn lemma_line_end(text: Seq<char>, from: int)
    requires
        0 <= from <= text.len(),
    ensures
        from <= line_end(text, from) <= text.len(),
        line_end(text, from) < text.len() ==> text[line_end(text, from)] == '\n',
        forall|i: int| from <= i < line_end(text, from) ==> text[i] != '\n',
    decreases text.len() - from,
{
    if from < text.len() && text[from] != '\n' {
        lemma_line_end(text, from + 1);
    }
}

/// What stands before a position of a text has no part in where the line
/// that begins there ends.
pub proof fn lemma_line_end_after(front: Seq<char>, back: Seq<char>, from: int)
    requires
        0 <= from <= back.len(),
    ensures
        line_end(front + back, front.len() + from) == front.len() + line_end(back, from),
    decreases back.len() - from,
{
    if from < back.len() {
        if back[from] != '\n' {
            lemma_line_end_after(front, back, from + 1);
        }
    }
}

/// What stands before a position of a text has no part in the lines that
/// begin from there on.
pub proof fn lemma_lines_after(front: Seq<char>, back: Seq<char>, from: int)
    requires
        0 <= from <= back.len(),
    ensures
        lines_from(front + back, front.len() + from) == lines_from(back, from),
    decreases back.len() - from,
{
    let text = front + back;
    let shift = front.len() as int;
    if from < back.len() {
        lemma_line_end_after(front, back, from);
        lemma_line_end(back, from);
        let end = line_end(back, from);
        assert(text.subrange(shift + from, shift + end) =~= back.subrange(from, end));
        if end < back.len() {
            lemma_lines_after(front, back, end + 1);
        } else {
            assert(text.subrange(shift + from, text.len() as int) =~= back.subrange(
                from,
                back.len() as int,
            ));
        }
    }
}

/// A sequence of characters that can stand as one line of a text: it holds
/// no line feed and does not end with a carriage return.
pub open spec fn fits_a_line(line: Seq<char>) -> bool {
    &&& forall|i: int| 0 <= i < line.len() ==> #[trigger] line[i] != '\n'
    &&& line.len() > 0 ==> line.last() != '\r'
}

/// The text that holds `lines`, each ended by a line feed.
pub open spec fn text_of(lines: Seq<Seq<char>>) -> Seq<char>
    decreases lines.len(),
{
    if lines.len() == 0 {
        Seq::empty()
    } else {
        lines.first() + seq!['\n'] + text_of(lines.drop_first())
    }
}

/// Lines that are written as a text are read back from it.
pub proof fn lines_are_read_back(lines: Seq<Seq<char>>)
    requires
        forall|i: int| 0 <= i < lines.len() ==> fits_a_line(#[trigger] lines[i]),
    ensures
        lines_of(text_of(lines)) == lines,
    decreases lines.len(),
{
    if lines.len() > 0 {
        let first = lines.first();
        let rest = lines.drop_first();
        let front = first + seq!['\n'];
        let back = text_of(rest);
        let text = front + back;
        lines_are_read_back(rest);
        lemma_line_end_is(text, 0, first.len() as int);
        assert(text.subrange(0, first.len() as int) =~= first);
        lemma_lines_after(front, back, 0);
    }
}

/// The line that begins at `from` ends at the line feed at `to` where no
/// line feed stands between the two.
pub proof fn lemma_line_end_is(text: Seq<char>, from: int, to: int)
    requires
        0 <= from <= to < text.len(),
        text[to] == '\n',
        forall|i: int| from <= i < to ==> #[trigger] text[i] != '\n',
    ensures
        line_end(text, from) == to,
    decreases to - from,
{
    if from < to {
        lemma_line_end_is(text, from + 1, to);
    }
}

/// The characters of `text`, in order.
pub fn chars_of(text: &str) -> (chars: Vec<char>)
    ensures
        chars@ == text@,
{
    let mut chars: Vec<char> = Vec::new();
    for c in it: text.chars()
        invariant
            chars@ == it.seq().take(it.index() as int),
            it.seq() == text@,
    {
        chars.push(c);
    }
    chars
}

/// The string made of `chars`.
///
/// Trusted: `String::from_iter` over characters gives the string that holds
/// exactly those characters in that order.
#[verifier::external_body]
pub(crate) fn string_of(chars: &Vec<char>) -> (text: String)
    ensures
        text@ == chars@,
{
    String::from_iter(chars)
}

/// The characters of `chars` from `from` up to `to`, as a vector of their own.
pub fn slice_of(chars: &Vec<char>, from: usize, to: usize) -> (part: Vec<char>)
    requires
        from <= to <= chars.len(),
    ensures
        part@ == chars@.subrange(from as int, to as int),
{
    let mut part: Vec<char> = Vec::new();
    let mut i: usize = from;
    while i < to
        invariant
            from <= i <= to <= chars.len(),
            part@ == chars@.subrange(from as int, i as int),
        decreases to - i,
    {
        part.push(chars[i]);
        i += 1;
    }
    part
}

/// Cuts `text` into its lines.
pub fn split_lines(text: &Vec<char>) -> (lines: Vec<Vec<char>>)
    ensures
        line_views(lines@) == lines_of(text@),
{
    let mut lines: Vec<Vec<char>> = Vec::new();
    let mut start: usize = 0;
    let n = text.len();
    while start < n
        invariant
            n == text.len(),
            start <= n,
            lines_of(text@) == line_views(lines@) + lines_from(text@, start as int),
        decreases n - start,
    {
        let mut end: usize = start;
        while end < n && text[end] != '\n'
            invariant
                n == text.len(),
                start <= end <= n,
                line_end(text@, start as int) == line_end(text@, end as int),
            decreases n - end,
        {
            end += 1;
        }
        if end >= n {
            let line = slice_of(text, start, n);
            lines.push(line);
            start = n;
        } else {
            let stop: usize = if end > start && text[end - 1] == '\r' {
                end - 1
            } else {
                end
            };
            let line = slice_of(text, start, stop);
            lines.push(line);
            proof {
                let whole = text@.subrange(start as int, end as int);
                assert(line@ == without_carriage_return(whole));
            }
            start = end + 1;
        }
    }
    lines
}

} // verus!
