use rootrat::commands::git::{commit_count, commit_failed, contains_text, parse_count, trim_text};

#[test]
fn git_commit_nothing_to_commit_is_ok() {
    let out = "On branch main\nnothing to commit, working tree clean\n";
    assert!(!commit_failed(false, out));
}

#[test]
fn git_commit_failure_is_reported() {
    assert!(commit_failed(false, "error: something broke"));
    assert!(!commit_failed(true, "whatever"));
}

#[test]
fn parse_count_reads_trimmed_number() {
    assert_eq!(parse_count("3\n"), 3);
    assert_eq!(parse_count("  42  "), 42);
    assert_eq!(parse_count("+7"), 7);
    assert_eq!(parse_count("0"), 0);
}

#[test]
fn parse_count_rejects_garbage() {
    assert_eq!(parse_count(""), 0);
    assert_eq!(parse_count("+"), 0);
    assert_eq!(parse_count("-3"), 0);
    assert_eq!(parse_count("12a"), 0);
    assert_eq!(parse_count("99999999999999999999999999"), 0);
}

#[test]
fn parse_count_matches_std_parse() {
    for s in ["5", " 18\n", "+0", "x", "", "184467440737095516150", "\u{3000}9\u{a0}"] {
        let expected: usize = s.trim().parse().unwrap_or(0);
        assert_eq!(parse_count(s), expected);
    }
}

#[test]
fn commit_count_of_failed_run_is_zero() {
    assert_eq!(commit_count(false, "5"), 0);
    assert_eq!(commit_count(true, "5\n"), 5);
}

#[test]
fn trim_text_matches_std_trim() {
    for s in ["  a b  ", "\t\nx\r\n", "", "   ", "\u{2003}y\u{205f}"] {
        assert_eq!(trim_text(s), s.trim());
    }
}

#[test]
fn contains_text_finds_substrings() {
    assert!(contains_text("hello world", "lo w"));
    assert!(contains_text("abc", ""));
    assert!(!contains_text("abc", "abcd"));
    assert!(!contains_text("abc", "bd"));
}
