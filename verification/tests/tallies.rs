use commit_stats::calendar::day_number;
use commit_stats::chart::{day_label, label_changes, label_commits};
use commit_stats::commit::{aggregate_commits, bucket_commits, get_commits};
use commit_stats::data::{Author, Commit, DetailedCommit};
use commit_stats::order::{is_bytes_before, is_text_before};
use commit_stats::stat::{aggregate_stats, bucket_stats, get_stats};
use commit_stats::summary::{
    is_admitted, tally_by_author, tally_by_day, AuthorChanges, AuthorCommits, DayChanges,
    DayCommits, Record,
};
use commit_stats::tally::{comes_first, Key, Ranking, Tally, Total};

fn author(name: &str, email: &str) -> Author {
    Author { name: name.to_string(), email: email.to_string() }
}

fn commit(name: &str, email: &str, time: i64) -> Commit {
    Commit { author: author(name, email), time }
}

fn detailed(name: &str, email: &str, time: i64, insertions: u64, deletions: u64) -> DetailedCommit {
    DetailedCommit { commit: commit(name, email, time), insertions, deletions }
}

fn counts(rows: &Vec<AuthorCommits>) -> Vec<(String, String, u64)> {
    rows.iter().map(|r| (r.author.name.clone(), r.author.email.clone(), r.commits)).collect()
}

fn changes(rows: &Vec<AuthorChanges>) -> Vec<(String, u128, u128)> {
    rows.iter().map(|r| (r.author.name.clone(), r.insertions, r.deletions)).collect()
}

fn row(name: &str, email: &str, commits: u64) -> (String, String, u64) {
    (name.to_string(), email.to_string(), commits)
}

fn change(name: &str, insertions: u128, deletions: u128) -> (String, u128, u128) {
    (name.to_string(), insertions, deletions)
}

#[test]
fn two_commits_by_a_and_one_by_b() {
    let commits = vec![commit("A", "a@x.com", 3), commit("B", "b@x.com", 2), commit("A", "a@x.com", 1)];
    let rows = aggregate_commits(&commits, &None);
    assert_eq!(counts(&rows), vec![row("A", "a@x.com", 2), row("B", "b@x.com", 1)]);
}

#[test]
fn two_commits_by_a_and_one_by_b_from_a_log() {
    let log = "commit 1111111111111111111111111111111111111111\nAuthor: A <a@x.com>\nDate:   3\n\n    one\n\ncommit 2222222222222222222222222222222222222222\nAuthor: B <b@x.com>\nDate:   2\n\n    two\n\ncommit 3333333333333333333333333333333333333333\nAuthor: A <a@x.com>\nDate:   1\n\n    three\n";
    let rows = aggregate_commits(&get_commits(log), &None);
    assert_eq!(counts(&rows), vec![row("A", "a@x.com", 2), row("B", "b@x.com", 1)]);
}

#[test]
fn no_records_give_no_rows() {
    assert!(aggregate_commits(&vec![], &None).is_empty());
    assert!(aggregate_commits(&vec![], &Some("A".to_string())).is_empty());
    assert!(aggregate_stats(&vec![], &None).is_empty());
    assert!(bucket_commits(&vec![], &None).is_empty());
    assert!(bucket_stats(&vec![], &None).is_empty());
}

#[test]
fn authors_differ_by_name_or_by_address() {
    let commits = vec![
        commit("A", "a@x.com", 1),
        commit("A", "a@y.com", 1),
        commit("a", "a@x.com", 1),
        commit("A", "a@x.com", 1),
        commit("A ", "a@x.com", 1),
    ];
    let rows = aggregate_commits(&commits, &None);
    assert_eq!(
        counts(&rows),
        vec![
            row("A", "a@x.com", 2),
            row("A", "a@y.com", 1),
            row("A ", "a@x.com", 1),
            row("a", "a@x.com", 1),
        ]
    );
}

#[test]
fn rows_never_rise_and_ties_go_by_name_then_address() {
    let commits = vec![
        commit("delta", "d@x", 1),
        commit("bravo", "b@x", 1),
        commit("echo", "e@x", 1),
        commit("bravo", "b@x", 1),
        commit("alpha", "z@x", 1),
        commit("echo", "e@x", 1),
        commit("alpha", "a@x", 1),
        commit("charlie", "c@x", 1),
        commit("echo", "e@x", 1),
    ];
    let rows = aggregate_commits(&commits, &None);
    assert_eq!(
        counts(&rows),
        vec![
            row("echo", "e@x", 3),
            row("bravo", "b@x", 2),
            row("alpha", "a@x", 1),
            row("alpha", "z@x", 1),
            row("charlie", "c@x", 1),
            row("delta", "d@x", 1),
        ]
    );
    for pair in rows.windows(2) {
        assert!(pair[0].commits >= pair[1].commits);
    }
}

#[test]
fn order_of_the_records_does_not_show() {
    let mut commits = vec![
        commit("delta", "d@x", 1),
        commit("bravo", "b@x", 2),
        commit("echo", "e@x", 3),
        commit("bravo", "b@x", 4),
        commit("alpha", "a@x", 5),
        commit("charlie", "c@x", 6),
    ];
    let forwards = counts(&aggregate_commits(&commits, &None));
    commits.reverse();
    let backwards = counts(&aggregate_commits(&commits, &None));
    commits.rotate_left(2);
    let rotated = counts(&aggregate_commits(&commits, &None));
    assert_eq!(forwards, backwards);
    assert_eq!(forwards, rotated);
    assert_eq!(forwards[0], row("bravo", "b@x", 2));
    assert_eq!(forwards[1], row("alpha", "a@x", 1));
}

#[test]
fn aggregating_twice_gives_the_same_rows() {
    let commits = vec![commit("B", "b@x", 1), commit("A", "a@x", 1), commit("B", "b@x", 1)];
    let once = counts(&aggregate_commits(&commits, &None));
    let again = counts(&aggregate_commits(&commits, &None));
    assert_eq!(once, again);
    let stats = vec![detailed("B", "b@x", 1, 5, 6), detailed("A", "a@x", 1, 5, 6)];
    assert_eq!(changes(&aggregate_stats(&stats, &None)), changes(&aggregate_stats(&stats, &None)));
    assert_eq!(bucket_commits(&commits, &None), bucket_commits(&commits, &None));
    assert_eq!(bucket_stats(&stats, &None), bucket_stats(&stats, &None));
}

#[test]
fn filter_takes_the_whole_name() {
    let commits = vec![
        commit("Ann Lee", "ann@x", 1),
        commit("Ann", "ann@y", 1),
        commit("Ann Lee", "ann@x", 1),
        commit("Bo", "bo@x", 1),
    ];
    let rows = aggregate_commits(&commits, &Some("Ann Lee".to_string()));
    assert_eq!(counts(&rows), vec![row("Ann Lee", "ann@x", 2)]);
    let rows = aggregate_commits(&commits, &Some("Ann".to_string()));
    assert_eq!(counts(&rows), vec![row("Ann", "ann@y", 1)]);
}

#[test]
fn filter_by_a_part_of_a_name_finds_nobody() {
    let commits = vec![commit("Ann Lee", "ann@x", 1), commit("Joanne Lee", "jo@x", 1)];
    for part in ["Ann", "Lee", "ann", "n", "", " Lee", "Ann Le", "ANN LEE", "Ann Lee "] {
        assert!(aggregate_commits(&commits, &Some(part.to_string())).is_empty(), "{:?}", part);
        assert!(bucket_commits(&commits, &Some(part.to_string())).is_empty(), "{:?}", part);
    }
    let stats = vec![detailed("Ann Lee", "ann@x", 1, 2, 3)];
    assert!(aggregate_stats(&stats, &Some("Ann".to_string())).is_empty());
    assert!(bucket_stats(&stats, &Some("Ann".to_string())).is_empty());
}

#[test]
fn filter_keeps_every_address_of_the_name() {
    let commits = vec![
        commit("Ann", "ann@work", 1),
        commit("Bo", "bo@x", 1),
        commit("Ann", "ann@home", 1),
        commit("Ann", "ann@work", 1),
    ];
    let rows = aggregate_commits(&commits, &Some("Ann".to_string()));
    assert_eq!(counts(&rows), vec![row("Ann", "ann@work", 2), row("Ann", "ann@home", 1)]);
}

#[test]
fn changes_are_summed_per_author() {
    let stats = vec![
        detailed("A", "a@x", 1, 10, 1),
        detailed("B", "b@x", 1, 7, 0),
        detailed("A", "a@x", 1, 0, 4),
        detailed("C", "c@x", 1, 10, 9),
        detailed("D", "d@x", 1, 10, 5),
        detailed("E", "e@x", 1, 10, 5),
    ];
    let rows = aggregate_stats(&stats, &None);
    assert_eq!(
        changes(&rows),
        vec![
            change("C", 10, 9),
            change("A", 10, 5),
            change("D", 10, 5),
            change("E", 10, 5),
            change("B", 7, 0),
        ]
    );
    let rows = aggregate_stats(&stats, &Some("A".to_string()));
    assert_eq!(changes(&rows), vec![change("A", 10, 5)]);
}

#[test]
fn sums_do_not_overflow() {
    let stats = vec![
        detailed("A", "a@x", 1, u64::MAX, u64::MAX),
        detailed("A", "a@x", 1, u64::MAX, 1),
        detailed("A", "a@x", 1, u64::MAX, 0),
    ];
    let rows = aggregate_stats(&stats, &None);
    assert_eq!(changes(&rows), vec![change("A", 3 * (u64::MAX as u128), u64::MAX as u128 + 1)]);
    let points = bucket_stats(&stats, &None);
    assert_eq!(
        points,
        vec![DayChanges { day: 0, insertions: 3 * (u64::MAX as u128), deletions: u64::MAX as u128 + 1 }]
    );
}

#[test]
fn changes_from_a_log() {
    let log = "commit 1111111111111111111111111111111111111111\nAuthor: A <a@x.com>\nDate:   3\n\n    one\n\n 3 files changed, 10 insertions(+)\n\ncommit 2222222222222222222222222222222222222222\nAuthor: B <b@x.com>\nDate:   2\n\n    two\n\n 1 file changed, 2 insertions(+), 30 deletions(-)\n\ncommit 3333333333333333333333333333333333333333\nAuthor: A <a@x.com>\nDate:   1\n\n    three\n\n 1 file changed, 5 deletions(-)\n";
    let rows = aggregate_stats(&get_stats(log), &None);
    assert_eq!(changes(&rows), vec![change("A", 10, 5), change("B", 2, 30)]);
}

#[test]
fn days_are_counted_from_the_epoch() {
    assert_eq!(day_number(0), 0);
    assert_eq!(day_number(86_399), 0);
    assert_eq!(day_number(86_400), 1);
    assert_eq!(day_number(-1), -1);
    assert_eq!(day_number(-86_400), -1);
    assert_eq!(day_number(-86_401), -2);
    assert_eq!(day_number(1_700_000_000), 19_675);
    assert_eq!(day_number(i64::MAX), 106_751_991_167_300);
    assert_eq!(day_number(i64::MIN), -106_751_991_167_301);
}

#[test]
fn two_commits_on_one_day_by_different_authors_are_one_point() {
    let commits = vec![commit("A", "a@x.com", 1_700_000_000), commit("B", "b@x.com", 1_700_003_600)];
    let points = bucket_commits(&commits, &None);
    assert_eq!(points, vec![DayCommits { day: 19_675, commits: 2 }]);
    let series = label_commits(&points).unwrap();
    assert_eq!(series.len(), 1);
    assert_eq!(series[0].label, "2023/11/14T00:00:00");
    assert_eq!(series[0].value, 2);
}

#[test]
fn points_are_listed_by_day() {
    let commits = vec![
        commit("A", "a@x", 3 * 86_400 + 5),
        commit("B", "b@x", 86_400),
        commit("A", "a@x", -1),
        commit("B", "b@x", 3 * 86_400),
        commit("B", "b@x", 2 * 86_400 - 1),
        commit("C", "c@x", 4 * 86_400 - 1),
    ];
    let points = bucket_commits(&commits, &None);
    assert_eq!(
        points,
        vec![
            DayCommits { day: -1, commits: 1 },
            DayCommits { day: 1, commits: 2 },
            DayCommits { day: 3, commits: 3 },
        ]
    );
    let points = bucket_commits(&commits, &Some("B".to_string()));
    assert_eq!(points, vec![DayCommits { day: 1, commits: 2 }, DayCommits { day: 3, commits: 1 }]);
}

#[test]
fn changes_are_summed_per_day() {
    let stats = vec![
        detailed("A", "a@x", 86_400 * 10 + 1, 5, 1),
        detailed("B", "b@x", 86_400 * 9, 7, 0),
        detailed("A", "a@x", 86_400 * 10 + 2, 1, 1),
    ];
    let points = bucket_stats(&stats, &None);
    assert_eq!(
        points,
        vec![
            DayChanges { day: 9, insertions: 7, deletions: 0 },
            DayChanges { day: 10, insertions: 6, deletions: 2 },
        ]
    );
    let (insertions, deletions) = label_changes(&points).unwrap();
    let shown: Vec<(&str, u128)> = insertions.iter().map(|p| (p.label.as_str(), p.value)).collect();
    assert_eq!(shown, vec![("1970/01/10T00:00:00", 7), ("1970/01/11T00:00:00", 6)]);
    let shown: Vec<(&str, u128)> = deletions.iter().map(|p| (p.label.as_str(), p.value)).collect();
    assert_eq!(shown, vec![("1970/01/10T00:00:00", 0), ("1970/01/11T00:00:00", 2)]);
    let points = bucket_stats(&stats, &Some("A".to_string()));
    assert_eq!(points, vec![DayChanges { day: 10, insertions: 6, deletions: 2 }]);
}

#[test]
fn labels_name_the_day() {
    assert_eq!(day_label(0).unwrap(), "1970/01/01T00:00:00");
    assert_eq!(day_label(-1).unwrap(), "1969/12/31T00:00:00");
    assert_eq!(day_label(19_675).unwrap(), "2023/11/14T00:00:00");
    assert_eq!(day_label(11_016).unwrap(), "2000/02/29T00:00:00");
    assert_eq!(day_label(2_932_896).unwrap(), "9999/12/31T00:00:00");
}

#[test]
fn days_that_cannot_be_written_have_no_label() {
    assert_eq!(day_label(2_932_897), None);
    assert_eq!(day_label(i64::MAX), None);
    assert_eq!(day_label(i64::MIN), None);
    assert_eq!(day_label(106_751_991_167_301), None);
    let points = vec![DayCommits { day: 0, commits: 1 }, DayCommits { day: i64::MAX, commits: 1 }];
    assert!(label_commits(&points).is_none());
    let points = vec![DayChanges { day: i64::MIN, insertions: 1, deletions: 1 }];
    assert!(label_changes(&points).is_none());
    assert!(label_commits(&vec![]).unwrap().is_empty());
}

#[test]
fn strings_are_ordered_byte_by_byte() {
    let words = ["", " ", "A", "AB", "Ab", "B", "a", "ab", "b", "é", "z", "ü", "\u{10000}", "\u{ffff}", "aa", "a\u{0}"];
    for a in words {
        for b in words {
            assert_eq!(is_text_before(a, b), a < b, "{:?} {:?}", a, b);
            assert_eq!(is_bytes_before(a.as_bytes(), b.as_bytes()), a.as_bytes() < b.as_bytes());
        }
    }
}

#[test]
fn authors_are_ordered_like_their_fields() {
    let authors = [
        author("A", "a@x"),
        author("A", "b@x"),
        author("A", ""),
        author("", "z"),
        author("B", "a@x"),
        author("a", "a@x"),
        author("Ab", "a@x"),
        author("É", "a@x"),
    ];
    for a in &authors {
        for b in &authors {
            let fields = (&a.name, &a.email).cmp(&(&b.name, &b.email));
            assert_eq!(a.partial_cmp(b), Some(fields), "{:?} {:?}", a, b);
            assert_eq!(a.cmp(b), fields, "{:?} {:?}", a, b);
            assert_eq!(a < b, fields.is_lt(), "{:?} {:?}", a, b);
            assert_eq!(a.comes_before(b), fields.is_lt(), "{:?} {:?}", a, b);
            assert_eq!(a.same_as(b), fields.is_eq(), "{:?} {:?}", a, b);
            assert_eq!(a == b, fields.is_eq(), "{:?} {:?}", a, b);
        }
        assert_eq!(&a.duplicate(), a);
        assert_eq!(&a.clone(), a);
    }
    assert!(3i64.comes_before(&4));
    assert!(!4i64.comes_before(&4));
    assert!((-4i64).comes_before(&3));
    assert!(4i64.same_as(&4));
    assert_eq!(4i64.duplicate(), 4);
}

#[test]
fn tally_adds_up_and_lists() {
    let mut tally: Tally<i64> = Tally::new();
    tally.add(&5, 1, 10);
    tally.add(&3, 2, 20);
    tally.add(&5, 3, 30);
    tally.add(&9, 4, 0);
    tally.add(&1, 4, 0);
    let listed = tally.ranked(Ranking::ByKey);
    let shown: Vec<(i64, u128, u128)> = listed.iter().map(|t| (t.key, t.first, t.second)).collect();
    assert_eq!(shown, vec![(1, 4, 0), (3, 2, 20), (5, 4, 40), (9, 4, 0)]);

    let mut tally: Tally<i64> = Tally::new();
    for (key, first, second) in [(5, 1, 10), (3, 2, 20), (5, 3, 30), (9, 4, 0), (1, 4, 0), (7, 4, 41)] {
        tally.add(&key, first, second);
    }
    let listed = tally.ranked(Ranking::BySums);
    let shown: Vec<(i64, u128, u128)> = listed.iter().map(|t| (t.key, t.first, t.second)).collect();
    assert_eq!(shown, vec![(7, 4, 41), (5, 4, 40), (1, 4, 0), (9, 4, 0), (3, 2, 20)]);
    let empty: Tally<i64> = Tally::new();
    assert!(empty.ranked(Ranking::BySums).is_empty());
}

#[test]
fn ranking_compares_sums_then_keys() {
    let total = |key: i64, first: u128, second: u128| Total { key, first, second };
    assert!(comes_first(Ranking::BySums, &total(9, 2, 0), &total(1, 1, 9)));
    assert!(comes_first(Ranking::BySums, &total(9, 2, 5), &total(1, 2, 4)));
    assert!(comes_first(Ranking::BySums, &total(1, 2, 5), &total(9, 2, 5)));
    assert!(!comes_first(Ranking::BySums, &total(9, 2, 5), &total(9, 2, 5)));
    assert!(!comes_first(Ranking::BySums, &total(1, 1, 9), &total(9, 2, 0)));
    assert!(comes_first(Ranking::ByKey, &total(1, 1, 9), &total(9, 2, 0)));
    assert!(!comes_first(Ranking::ByKey, &total(9, 9, 9), &total(1, 0, 0)));
}

#[test]
fn records_are_tallied_by_what_they_bring() {
    let c = commit("A", "a@x", 86_400);
    assert_eq!(c.amounts(), (1, 0));
    assert_eq!(Record::time(&c), 86_400);
    assert_eq!(Record::author(&c).name, "A");
    let d = detailed("B", "b@x", 5, 7, 9);
    assert_eq!(d.amounts(), (7, 9));
    assert_eq!(Record::time(&d), 5);
    assert_eq!(Record::author(&d).email, "b@x");
    let totals = tally_by_author(&vec![d.clone(), d], &None);
    assert_eq!(totals.len(), 1);
    assert_eq!((totals[0].first, totals[0].second), (14, 18));
    let totals = tally_by_day(&vec![c.clone(), c], &None);
    assert_eq!(totals.len(), 1);
    assert_eq!((totals[0].key, totals[0].first, totals[0].second), (1, 2, 0));
}

#[test]
fn filter_without_a_name_admits_everybody() {
    assert!(is_admitted(&None, &author("A", "a@x")));
    assert!(is_admitted(&Some("A".to_string()), &author("A", "a@x")));
    assert!(!is_admitted(&Some("A".to_string()), &author("a", "a@x")));
    assert!(!is_admitted(&Some("".to_string()), &author("A", "a@x")));
    assert!(is_admitted(&Some("".to_string()), &author("", "a@x")));
}

#[test]
fn a_long_log_is_tallied() {
    let mut log = String::new();
    let authors = 150;
    let commits = 6_000;
    for i in 0..commits {
        let who = (i * 7) % authors;
        log += &format!(
            "commit {:040x}\nAuthor: Author {} <author{}@example.org>\nDate:   {}\n\n    change number {}\n\n {} files changed, {} insertions(+), {} deletions(-)\n\n",
            i,
            who,
            who,
            1_600_041_600 + (i as i64) * 7_200,
            i,
            1 + i % 3,
            i % 50,
            i % 20
        );
    }
    let stats = get_stats(&log);
    assert_eq!(stats.len(), commits);
    let rows = aggregate_stats(&stats, &None);
    assert_eq!(rows.len(), authors);
    let insertions: u128 = rows.iter().map(|r| r.insertions).sum();
    let deletions: u128 = rows.iter().map(|r| r.deletions).sum();
    assert_eq!(insertions, (0..commits as u128).map(|i| i % 50).sum::<u128>());
    assert_eq!(deletions, (0..commits as u128).map(|i| i % 20).sum::<u128>());
    for pair in rows.windows(2) {
        assert!((pair[0].insertions, pair[0].deletions) >= (pair[1].insertions, pair[1].deletions));
    }
    let list = get_commits(&log);
    assert_eq!(list.len(), commits);
    let counts = aggregate_commits(&list, &None);
    assert_eq!(counts.iter().map(|r| r.commits).sum::<u64>(), commits as u64);
    let days = bucket_commits(&list, &None);
    assert_eq!(days.len(), 500);
    assert!(days.iter().all(|d| d.commits == 12));
    for pair in days.windows(2) {
        assert!(pair[0].day < pair[1].day);
    }
    assert_eq!(label_commits(&days).unwrap().len(), 500);
}
