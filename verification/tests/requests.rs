use commit_stats::request::{log_arguments, LogRequest};

#[test]
fn commits_are_asked_for_without_decoration_and_with_unix_dates() {
    assert_eq!(log_arguments(&LogRequest::Commits), vec!["log", "--decorate=no", "--date=unix"]);
}

#[test]
fn stats_are_asked_for_with_short_diff_statistics() {
    assert_eq!(
        log_arguments(&LogRequest::Stats),
        vec!["log", "--decorate=no", "--date=unix", "--shortstat"]
    );
}

#[test]
fn file_history_is_followed() {
    assert_eq!(
        log_arguments(&LogRequest::File("src/a b.rs".to_string())),
        vec!["log", "--decorate=no", "--date=unix", "--shortstat", "--follow", "src/a b.rs"]
    );
}
