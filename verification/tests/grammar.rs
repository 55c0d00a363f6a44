use commit_stats::chars::{
    back_run, has_class, is_digit, is_lower_hex, is_whitespace, matches_at, parse_decimal,
    skip_run, CharClass,
};
use commit_stats::data::{Author, Rejection};
use commit_stats::grammar::{
    find_separator, has_at_sign_inside, is_commit_header, is_diff_summary, is_merge_marker,
    parse_author_line, parse_count, parse_date_line, parse_diff_summary,
};
use regex::Regex;

fn chars(text: &str) -> Vec<char> {
    text.chars().collect()
}

fn samples() -> Vec<String> {
    let hash: String = std::iter::repeat("0123456789abcdef").take(3).collect::<String>()[..40].to_string();
    let mut lines: Vec<String> = vec![
        String::new(),
        " ".to_string(),
        format!("commit {}", hash),
        format!("commit {}", &hash[..39]),
        format!("commit {}0", hash),
        format!("commit {}", hash.to_uppercase()),
        format!("commit {}", hash.replace('a', "g")),
        format!("commit  {}", &hash[..39]),
        format!(" commit {}", hash),
        format!("commit {} ", hash),
        format!("Commit {}", hash),
        format!("commit\t{}", hash),
        "commit".to_string(),
        "Merge: abcd1234 ef567890".to_string(),
        "Merge: ".to_string(),
        "Merge:".to_string(),
        "Merge:abcd1234".to_string(),
        " Merge: abcd1234 ef567890".to_string(),
        "merge: abcd1234 ef567890".to_string(),
        "Author: A <a@x.com>".to_string(),
        "Date:   1700000000".to_string(),
        "Date:1700000000".to_string(),
        "Date: \t 17".to_string(),
        "Date:".to_string(),
        "Date:   ".to_string(),
        "Date:   12a".to_string(),
        "Date:   12 ".to_string(),
        "Date:   -12".to_string(),
        "Date:   +12".to_string(),
        " Date:   12".to_string(),
        "Date:\u{a0}\u{2003}12".to_string(),
        "Date: 1 2".to_string(),
        "date: 12".to_string(),
        "Date:   00000000000000000000000000012".to_string(),
        " 3 files changed, 10 insertions(+)".to_string(),
        " 1 file changed, 1 insertion(+), 1 deletion(-)".to_string(),
        " 1 file changed, 7 deletions(-)".to_string(),
        " 12 files changed, 340 insertions(+), 56 deletions(-)".to_string(),
        "  12 files changed".to_string(),
        "   7 file changed and more".to_string(),
        "12 files changed".to_string(),
        " files changed".to_string(),
        " 12  files changed".to_string(),
        " 12 filess changed".to_string(),
        " 12 file  changed".to_string(),
        " 12 files change".to_string(),
        " 12 Files changed".to_string(),
        " x files changed".to_string(),
        "\t12 files changed".to_string(),
        " 12files changed".to_string(),
        "    a message with 3 insertions(+) in it".to_string(),
        "12 insertions(+)12 insertions(+)".to_string(),
        "x insertions(+), 4 insertions(+)".to_string(),
        "a1b22 deletions(-) 3 deletions(-)".to_string(),
        " insertions(+)".to_string(),
        "7 insertions(+".to_string(),
        "7  insertions(+)".to_string(),
        "7 Insertions(+)".to_string(),
    ];
    let more: Vec<String> = lines.iter().map(|line| format!("{}\r", line)).collect();
    lines.extend(more);
    lines
}

#[test]
fn character_classes() {
    for c in "0123456789".chars() {
        assert!(is_digit(c) && is_lower_hex(c) && has_class(c, CharClass::Digit));
    }
    for c in "abcdef".chars() {
        assert!(!is_digit(c) && is_lower_hex(c));
    }
    for c in "/:`gGAF \u{0660}\u{ff11}".chars() {
        assert!(!is_digit(c) && !is_lower_hex(c), "{:?}", c);
    }
    assert!(has_class(' ', CharClass::Space));
    assert!(!has_class('\t', CharClass::Space));
    assert!(has_class('\t', CharClass::Whitespace));
    assert!(!has_class('x', CharClass::Whitespace));
}

#[test]
fn whitespace_is_the_unicode_property() {
    for code in 0u32..0x11_0000 {
        if let Some(c) = char::from_u32(code) {
            assert_eq!(is_whitespace(c), c.is_whitespace(), "{:x}", code);
        }
    }
}

#[test]
fn phrases_are_found_where_they_stand() {
    let line = chars("ab insertions(+) ");
    assert!(matches_at(&line, " insertions(+)", 2));
    assert!(!matches_at(&line, " insertions(+)", 1));
    assert!(!matches_at(&line, " insertions(+)", 3));
    assert!(!matches_at(&line, " insertions(+)", 4));
    assert!(!matches_at(&line, " insertions(+)", 400));
    assert!(matches_at(&line, "", 0));
    assert!(matches_at(&line, "", 17));
    assert!(!matches_at(&line, "", 18));
    assert!(matches_at(&chars("größe"), "öß", 2));
}

#[test]
fn runs_end_where_the_class_ends() {
    let line = chars("  12345 x");
    assert_eq!(skip_run(&line, 0, CharClass::Space), 2);
    assert_eq!(skip_run(&line, 2, CharClass::Digit), 7);
    assert_eq!(skip_run(&line, 2, CharClass::Space), 2);
    assert_eq!(skip_run(&line, 9, CharClass::Space), 9);
    assert_eq!(skip_run(&chars("123"), 0, CharClass::Digit), 3);
    assert_eq!(back_run(&line, 7, CharClass::Digit), 2);
    assert_eq!(back_run(&line, 7, CharClass::Space), 7);
    assert_eq!(back_run(&line, 2, CharClass::Space), 0);
    assert_eq!(back_run(&line, 0, CharClass::Space), 0);
    assert_eq!(back_run(&chars("x \t\u{3000}"), 4, CharClass::Whitespace), 1);
}

#[test]
fn decimal_numbers_up_to_the_limit() {
    let line = chars("x18446744073709551615y");
    assert_eq!(parse_decimal(&line, 1, 21, u64::MAX), Some(u64::MAX));
    assert_eq!(parse_decimal(&line, 1, 21, u64::MAX - 1), None);
    assert_eq!(parse_decimal(&line, 1, 4, 1000), Some(184));
    assert_eq!(parse_decimal(&line, 1, 4, 184), Some(184));
    assert_eq!(parse_decimal(&line, 1, 4, 183), None);
    assert_eq!(parse_decimal(&line, 3, 3, 0), Some(0));
    let more = chars("18446744073709551616");
    assert_eq!(parse_decimal(&more, 0, 20, u64::MAX), None);
    let zeros = chars("0000000000000000000000000000000000000042");
    assert_eq!(parse_decimal(&zeros, 0, 40, 42), Some(42));
    assert_eq!(parse_decimal(&chars("9223372036854775807"), 0, 19, i64::MAX as u64), Some(i64::MAX as u64));
    assert_eq!(parse_decimal(&chars("9223372036854775808"), 0, 19, i64::MAX as u64), None);
}

#[test]
fn commit_headers_are_what_the_pattern_accepts() {
    let pattern = Regex::new(r"^commit [a-f0-9]{40}$").unwrap();
    let mut seen = 0;
    for line in samples() {
        assert_eq!(is_commit_header(&chars(&line)), pattern.is_match(&line), "{:?}", line);
        if pattern.is_match(&line) {
            seen += 1;
        }
    }
    assert_eq!(seen, 1);
}

#[test]
fn merge_markers_are_what_the_pattern_accepts() {
    let pattern = Regex::new(r"^Merge: .*$").unwrap();
    let mut seen = 0;
    for line in samples() {
        assert_eq!(is_merge_marker(&chars(&line)), pattern.is_match(&line), "{:?}", line);
        if pattern.is_match(&line) {
            seen += 1;
        }
    }
    assert_eq!(seen, 4);
}

#[test]
fn diff_summaries_are_what_the_pattern_accepts() {
    let pattern = Regex::new(r"^ +[0-9]+ files? changed").unwrap();
    let mut seen = 0;
    for line in samples() {
        assert_eq!(is_diff_summary(&chars(&line)), pattern.is_match(&line), "{:?}", line);
        if pattern.is_match(&line) {
            seen += 1;
        }
    }
    assert_eq!(seen, 12);
}

#[test]
fn date_lines_are_what_the_pattern_accepts() {
    let pattern = Regex::new(r"^Date:\s*([0-9]+)$").unwrap();
    let mut seen = 0;
    for line in samples() {
        let expected = match pattern.captures(&line) {
            Some(found) => match found[1].parse::<i64>() {
                Ok(seconds) => Ok(seconds),
                Err(_) => Err(Rejection::DateOutOfRange),
            },
            None => Err(Rejection::BadDate),
        };
        assert_eq!(parse_date_line(&chars(&line)), expected, "{:?}", line);
        if expected.is_ok() {
            seen += 1;
        }
    }
    assert_eq!(seen, 5);
}

#[test]
fn counts_are_what_the_patterns_capture() {
    let insertions = Regex::new(r"([0-9]+) insertions\(\+\)").unwrap();
    let deletions = Regex::new(r"([0-9]+) deletions\(-\)").unwrap();
    let mut seen = 0;
    for line in samples() {
        let i = insertions.captures(&line).map_or(0, |found| found[1].parse::<u64>().unwrap());
        let d = deletions.captures(&line).map_or(0, |found| found[1].parse::<u64>().unwrap());
        assert_eq!(parse_count(&chars(&line), " insertions(+)"), Some(i), "{:?}", line);
        assert_eq!(parse_count(&chars(&line), " deletions(-)"), Some(d), "{:?}", line);
        assert_eq!(parse_diff_summary(&chars(&line)), Ok((i, d)), "{:?}", line);
        if i > 0 || d > 0 {
            seen += 1;
        }
    }
    assert_eq!(seen, 14);
}

#[test]
fn author_lines_are_what_the_patterns_capture() {
    let name = Regex::new(r"^Author: (.*?)$").unwrap();
    let email = Regex::new(r"^<(.+@.+)>$").unwrap();
    let mut lines = samples();
    for line in [
        "Author: A <a@x.com>",
        "Author:  <a@x.com>",
        "Author: <a@x.com>",
        "Author: A B C <a.b@c.d>  ",
        "Author: A <a@x.com> trailing",
        "Author: A <@x.com>",
        "Author: A <a@>",
        "Author: A <@>",
        "Author: A <a@b>",
        "Author: A <a@@b>",
        "Author: A <<a@b>>",
        "Author: A <a@b> <c@d>",
        "Author: A  <a@b>",
        "Author: A <a b@c d>",
        "Author: A < a@b >",
        "Author: A <a@b",
        "Author: A a@b>",
        "Author A <a@b>",
        "author: A <a@b>",
        " Author: A <a@b>",
        "Author: A <a@b>\t\u{2003}",
        "Author: Ünï Cödé <ünï@cödé.example>",
        "Author: A <",
        "Author: A <>",
        " <a@b>",
        " <",
    ] {
        lines.push(line.to_string());
    }
    let mut seen = 0;
    for line in lines {
        let expected = match line.find(" <") {
            None => Err(Rejection::MissingSeparator),
            Some(at) => {
                let (before, after) = line.split_at(at);
                match name.captures(before) {
                    None => Err(Rejection::BadAuthor),
                    Some(n) => match email.captures(after.trim()) {
                        None => Err(Rejection::BadEmail),
                        Some(e) => Ok(Author { name: n[1].to_string(), email: e[1].to_string() }),
                    },
                }
            }
        };
        let found = parse_author_line(&chars(&line));
        assert_eq!(found.is_ok(), expected.is_ok(), "{:?}", line);
        match (found, expected) {
            (Ok(f), Ok(e)) => {
                seen += 1;
                assert_eq!(f, e, "{:?}", line);
            }
            (Err(f), Err(e)) => assert_eq!(f, e, "{:?}", line),
            _ => unreachable!(),
        }
    }
    assert_eq!(seen, 14);
}

#[test]
fn separator_is_the_first_space_before_an_angle_bracket() {
    assert_eq!(find_separator(&chars("Author: A <a@b> <c@d>")), Some(9));
    assert_eq!(find_separator(&chars(" <")), Some(0));
    assert_eq!(find_separator(&chars("< <")), Some(1));
    assert_eq!(find_separator(&chars("  <")), Some(1));
    assert_eq!(find_separator(&chars("Author: A<a@b>")), None);
    assert_eq!(find_separator(&chars(" ")), None);
    assert_eq!(find_separator(&chars("")), None);
}

#[test]
fn at_sign_needs_a_character_on_each_side() {
    let line = chars("<a@b>");
    assert!(has_at_sign_inside(&line, 1, 4));
    assert!(!has_at_sign_inside(&line, 2, 4));
    assert!(!has_at_sign_inside(&line, 1, 3));
    assert!(!has_at_sign_inside(&line, 2, 2));
    assert!(has_at_sign_inside(&chars("@@@"), 0, 3));
    assert!(!has_at_sign_inside(&chars("@@"), 0, 2));
}

#[test]
fn date_must_be_a_second_that_can_be_represented() {
    assert_eq!(parse_date_line(&chars("Date:   0")), Ok(0));
    assert_eq!(parse_date_line(&chars("Date:   253402300799")), Ok(253_402_300_799));
    assert_eq!(parse_date_line(&chars("Date:   253402300800")), Err(Rejection::DateOutOfRange));
    assert_eq!(
        parse_date_line(&chars("Date:   9223372036854775807")),
        Err(Rejection::DateOutOfRange)
    );
    assert_eq!(
        parse_date_line(&chars("Date:   9223372036854775808")),
        Err(Rejection::DateOutOfRange)
    );
    assert_eq!(parse_date_line(&chars("Date:   \u{0661}\u{0662}")), Err(Rejection::BadDate));
}

#[test]
fn counts_that_do_not_fit_are_rejected() {
    let line = chars(" 1 file changed, 18446744073709551615 insertions(+), 18446744073709551616 deletions(-)");
    assert_eq!(parse_count(&line, " insertions(+)"), Some(u64::MAX));
    assert_eq!(parse_count(&line, " deletions(-)"), None);
    assert_eq!(parse_diff_summary(&line), Err(Rejection::CountOutOfRange));
}

#[test]
fn count_is_the_whole_run_of_digits_before_the_first_phrase() {
    let line = chars(" 2 files changed, 0012 insertions(+), 5 insertions(+), x9 deletions(-)");
    assert_eq!(parse_diff_summary(&line), Ok((12, 9)));
    assert_eq!(parse_count(&chars(" insertions(+) 3 insertions(+)"), " insertions(+)"), Some(3));
}
