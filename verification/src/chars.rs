//! Classes of characters, runs of one class within a line, fixed phrases
//! and decimal numbers: what the shapes of the log's lines are built from.
use vstd::prelude::*;

verus! {

/// A class of characters that a run in a line may be made of.
#[derive(Debug, Clone, Copy, PartialEq, Eq, Structural)]
pub enum CharClass {
    /// The ASCII decimal digits.
    Digit,
    /// The space character alone.
    Space,
    /// The characters with the Unicode property `White_Space`.
    Whitespace,
}

/// An ASCII decimal digit.
pub open spec fn digit(c: char) -> bool {
    '0' <= c && c <= '9'
}

/// A digit of a lower-case hexadecimal number.
pub open spec fn lower_hex(c: char) -> bool {
    digit(c) || ('a' <= c && c <= 'f')
}

/// A character with the Unicode property `White_Space`.
pub open spec fn whitespace(c: char) -> bool {
    let code = c as u32;
    (0x09 <= code && code <= 0x0d) || code == 0x20 || code == 0x85 || code == 0xa0 || code
        == 0x1680 || (0x2000 <= code && code <= 0x200a) || code == 0x2028 || code == 0x2029
        || code == 0x202f || code == 0x205f || code == 0x3000
}

/// Decides `digit`.
pub fn is_digit(c: char) -> (yes: bool)
    ensures
        yes == digit(c),
{
    '0' <= c && c <= '9'
}

/// Decides `lower_hex`.
pub fn is_lower_hex(c: char) -> (yes: bool)
    ensures
        yes == lower_hex(c),
{
    is_digit(c) || ('a' <= c && c <= 'f')
}

/// Decides `whitespace`.
pub fn is_whitespace(c: char) -> (yes: bool)
    ensures
        yes == whitespace(c),
{
    let code: u32 = c as u32;
    (0x09 <= code && code <= 0x0d) || code == 0x20 || code == 0x85 || code == 0xa0 || code
        == 0x1680 || (0x2000 <= code && code <= 0x200a) || code == 0x2028 || code == 0x2029
        || code == 0x202f || code == 0x205f || code == 0x3000
}

/// `needle` stands in `line` at index `at`.
pub open spec fn occurs_at(line: Seq<char>, needle: Seq<char>, at: int) -> bool {
    0 <= at && at + needle.len() <= line.len() && line.subrange(at, at + needle.len()) == needle
}

/// Decides `occurs_at`.
pub fn matches_at(line: &Vec<char>, needle: &str, at: usize) -> (yes: bool)
    ensures
        yes == occurs_at(line@, needle@, at as int),
{
    let n = needle.unicode_len();
    if at > line.len() || n > line.len() - at {
        return false;
    }
    let mut i: usize = 0;
    while i < n
        invariant
            n == needle@.len(),
            at + n <= line.len(),
            i <= n,
            line@.subrange(at as int, at + i) == needle@.subrange(0, i as int),
        decreases n - i,
    {
        if line[at + i] != needle.get_char(i) {
            return false;
        }
        proof {
            assert(line@.subrange(at as int, at + i + 1) == line@.subrange(at as int, at + i).push(
                line@[at + i],
            ));
            assert(needle@.subrange(0, i + 1) == needle@.subrange(0, i as int).push(
                needle@[i as int],
            ));
        }
        i += 1;
    }
    proof {
        assert(needle@.subrange(0, n as int) == needle@);
    }
    true
}

/// Whether `c` belongs to `class`.
pub open spec fn in_class(c: char, class: CharClass) -> bool {
    match class {
        CharClass::Digit => digit(c),
        CharClass::Space => c == ' ',
        CharClass::Whitespace => whitespace(c),
    }
}

/// Decides `in_class`.
pub fn has_class(c: char, class: CharClass) -> (yes: bool)
    ensures
        yes == in_class(c, class),
{
    match class {
        CharClass::Digit => is_digit(c),
        CharClass::Space => c == ' ',
        CharClass::Whitespace => is_whitespace(c),
    }
}

/// Where the run of characters of `class` that begins at `from` ends: the
/// first index at or after `from` whose character is outside the class, or
/// the length of the line.
pub open spec fn run_end(line: Seq<char>, from: int, class: CharClass) -> int
    decreases line.len() - from,
{
    if from < 0 || from >= line.len() {
        line.len() as int
    } else if !in_class(line[from], class) {
        from
    } else {
        run_end(line, from + 1, class)
    }
}

/// Where the run of characters of `class` that ends before `to` begins.
pub open spec fn run_start(line: Seq<char>, to: int, class: CharClass) -> int
    decreases to,
{
    if to <= 0 || to > line.len() {
        0
    } else if !in_class(line[to - 1], class) {
        to
    } else {
        run_start(line, to - 1, class)
    }
}

/// `run_end` names the end of a run: everything before it is in the class,
/// and what stands at it is not.
pub proof fn lemma_run_end(line: Seq<char>, from: int, class: CharClass)
    requires
        0 <= from <= line.len(),
    ensures
        from <= run_end(line, from, class) <= line.len(),
        forall|i: int| from <= i < run_end(line, from, class) ==> in_class(line[i], class),
        run_end(line, from, class) < line.len() ==> !in_class(
            line[run_end(line, from, class)],
            class,
        ),
    decreases line.len() - from,
{
    if from < line.len() && in_class(line[from], class) {
        lemma_run_end(line, from + 1, class);
    }
}

/// `run_start` names the start of a run: everything from it on is in the
/// class, and what stands before it is not.
pub proof fn lemma_run_start(line: Seq<char>, to: int, class: CharClass)
    requires
        0 <= to <= line.len(),
    ensures
        0 <= run_start(line, to, class) <= to,
        forall|i: int| run_start(line, to, class) <= i < to ==> in_class(line[i], class),
        run_start(line, to, class) > 0 ==> !in_class(
            line[run_start(line, to, class) - 1],
            class,
        ),
    decreases to,
{
    if to > 0 && in_class(line[to - 1], class) {
        lemma_run_start(line, to - 1, class);
    }
}

/// A run that holds every character from `from` up to `to` and that the
/// character at `to` does not continue, or the end of the line cuts off,
/// ends at `to`.
pub proof fn lemma_run_end_is(line: Seq<char>, from: int, to: int, class: CharClass)
    requires
        0 <= from <= to <= line.len(),
        forall|i: int| from <= i < to ==> in_class(#[trigger] line[i], class),
        to < line.len() ==> !in_class(line[to], class),
    ensures
        run_end(line, from, class) == to,
    decreases to - from,
{
    if from < to {
        lemma_run_end_is(line, from + 1, to, class);
    }
}

/// A run that holds every character from `from` up to `to` and that the
/// character before `from` does not begin, or the start of the line cuts
/// off, begins at `from`.
pub proof fn lemma_run_start_is(line: Seq<char>, from: int, to: int, class: CharClass)
    requires
        0 <= from <= to <= line.len(),
        forall|i: int| from <= i < to ==> in_class(#[trigger] line[i], class),
        from > 0 ==> !in_class(line[from - 1], class),
    ensures
        run_start(line, to, class) == from,
    decreases to - from,
{
    if from < to {
        lemma_run_start_is(line, from, to - 1, class);
    }
}

/// Computes `run_end`.
pub fn skip_run(line: &Vec<char>, from: usize, class: CharClass) -> (end: usize)
    requires
        from <= line.len(),
    ensures
        end == run_end(line@, from as int, class),
        from <= end <= line.len(),
{
    let mut end: usize = from;
    while end < line.len() && has_class(line[end], class)
        invariant
            from <= end <= line.len(),
            run_end(line@, from as int, class) == run_end(line@, end as int, class),
        decreases line.len() - end,
    {
        end += 1;
    }
    end
}

/// Computes `run_start`.
pub fn back_run(line: &Vec<char>, to: usize, class: CharClass) -> (start: usize)
    requires
        to <= line.len(),
    ensures
        start == run_start(line@, to as int, class),
        start <= to,
{
    let mut start: usize = to;
    while start > 0 && has_class(line[start - 1], class)
        invariant
            start <= to <= line.len(),
            run_start(line@, to as int, class) == run_start(line@, start as int, class),
        decreases start,
    {
        start -= 1;
    }
    start
}

/// The number that a decimal digit stands for.
pub open spec fn digit_value(c: char) -> nat {
    (c as u32 - 0x30) as nat
}

/// The number that a sequence of decimal digits writes; the empty sequence
/// writes zero.
pub open spec fn decimal_value(digits: Seq<char>) -> nat
    decreases digits.len(),
{
    if digits.len() == 0 {
        0
    } else {
        decimal_value(digits.drop_last()) * 10 + digit_value(digits.last())
    }
}

/// The decimal digit that stands for `value`, where `value` is less than
/// ten.
pub open spec fn digit_of(value: nat) -> char {
    if value == 0 {
        '0'
    } else if value == 1 {
        '1'
    } else if value == 2 {
        '2'
    } else if value == 3 {
        '3'
    } else if value == 4 {
        '4'
    } else if value == 5 {
        '5'
    } else if value == 6 {
        '6'
    } else if value == 7 {
        '7'
    } else if value == 8 {
        '8'
    } else {
        '9'
    }
}

/// The decimal digits that write `value`, without leading zeros.
pub open spec fn decimal_digits(value: nat) -> Seq<char>
    decreases value,
{
    if value < 10 {
        seq![digit_of(value)]
    } else {
        decimal_digits(value / 10).push(digit_of(value % 10))
    }
}

/// What is written can be read: the digits of a number are digits, and they
/// write that number.
pub proof fn lemma_decimal_digits(value: nat)
    ensures
        decimal_digits(value).len() >= 1,
        all_digits(decimal_digits(value)),
        decimal_value(decimal_digits(value)) == value,
    decreases value,
{
    let digits = decimal_digits(value);
    if value < 10 {
        assert(decimal_value(digits.drop_last()) == 0);
    } else {
        lemma_decimal_digits(value / 10);
        assert(digits.drop_last() =~= decimal_digits(value / 10));
    }
}

/// Every character of `digits` is a decimal digit.
pub open spec fn all_digits(digits: Seq<char>) -> bool {
    forall|i: int| 0 <= i < digits.len() ==> digit(#[trigger] digits[i])
}

/// A number is at least what any beginning of its digits writes.
pub proof fn lemma_decimal_prefix(digits: Seq<char>, n: int)
    requires
        0 <= n <= digits.len(),
    ensures
        decimal_value(digits.subrange(0, n)) <= decimal_value(digits),
    decreases digits.len(),
{
    if n == digits.len() {
        assert(digits.subrange(0, n) == digits);
    } else {
        assert(digits.drop_last().subrange(0, n) == digits.subrange(0, n));
        lemma_decimal_prefix(digits.drop_last(), n);
    }
}

/// Reads the decimal number written by the digits of `line` from `from` up
/// to `to`, if it is at most `limit`.
pub fn parse_decimal(line: &Vec<char>, from: usize, to: usize, limit: u64) -> (value: Option<u64>)
    requires
        from <= to <= line.len(),
        all_digits(line@.subrange(from as int, to as int)),
    ensures
        match value {
            Some(v) => v == decimal_value(line@.subrange(from as int, to as int)) && v <= limit,
            None => decimal_value(line@.subrange(from as int, to as int)) > limit,
        },
{
    let ghost digits = line@.subrange(from as int, to as int);
    let mut value: u64 = 0;
    let mut i: usize = from;
    while i < to
        invariant
            from <= i <= to <= line.len(),
            digits == line@.subrange(from as int, to as int),
            all_digits(digits),
            value == decimal_value(digits.subrange(0, i - from)),
            value <= limit,
        decreases to - i,
    {
        let c = line[i];
        proof {
            let longer = digits.subrange(0, i - from + 1);
            assert(longer.drop_last() == digits.subrange(0, i - from));
            lemma_decimal_prefix(digits, i - from + 1);
        }
        let d: u64 = (c as u32 - 0x30) as u64;
        if d > limit || value > (limit - d) / 10 {
            return None;
        }
        value = value * 10 + d;
        i += 1;
    }
    proof {
        assert(digits.subrange(0, to - from) == digits);
    }
    Some(value)
}

} // verus!
