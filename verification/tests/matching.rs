use fast_win_launcher::fuzzy::{rank, rank_lowered, score};
use fast_win_launcher::state::AppEntry;

fn app(lower_name: &str) -> AppEntry {
    AppEntry {
        name: lower_name.to_owned(),
        parsing_name: format!("id of {lower_name}"),
        lower_name: lower_name.to_owned(),
        icon: None,
    }
}

fn apps(names: &[&str]) -> Vec<AppEntry> {
    names.iter().map(|n| app(n)).collect()
}

#[test]
fn prefix_scores() {
    assert_eq!(score("no", "notepad"), Some(10 + 15 + 10 + 10 + 5 - 1));
}

#[test]
fn empty_query_scores_nothing() {
    assert_eq!(score("", "notepad"), Some(0));
    assert_eq!(score("", ""), Some(0));
}

#[test]
fn only_subsequences_match() {
    assert_eq!(score("zz", "notepad"), None);
    assert_eq!(score("on", "notepad"), None);
    assert_eq!(score("notepads", "notepad"), None);
    assert_eq!(score("a", ""), None);
    assert!(score("npd", "notepad").is_some());
}

#[test]
fn word_starts_score() {
    for c in [' ', '-', '_', '.', '/', '\\', '('] {
        assert_eq!(score("s", &format!("a{c}s")), Some(25), "after {c:?}");
    }
    assert_eq!(score("s", "a,s"), Some(10));
    assert_eq!(score("s", "s"), Some(35));
}

#[test]
fn runs_score_more_and_more() {
    assert_eq!(score("abc", "abc"), Some(35 + 15 + 20));
    assert_eq!(score("abc", "xabc"), Some(10 + 15 + 20 - 1));
    assert_eq!(score("abcd", "ab.cd"), Some(35 + 15 + 25 + 15 - 1));
}

#[test]
fn leftmost_match_counts() {
    assert_eq!(score("vs", "visual studio"), Some(35 + 10 - 3));
}

#[test]
fn longer_candidates_score_lower() {
    assert_eq!(score("abc", "abcdefg"), Some(69));
    assert_eq!(score("abc", "abcdefgh"), Some(68));
}

#[test]
fn characters_are_counted_not_bytes() {
    assert_eq!(score("é", "éééé"), Some(35 - 1));
}

#[test]
fn long_run_wraps_around() {
    // The runs add up to more than 32 bits hold.
    let text = "a".repeat(30_000);
    let n: i64 = 30_000;
    let exact: i64 = 10 * n + 25 + 5 * (n * (n - 1) / 2) - n / 4;
    assert!(exact > i32::MAX as i64);
    assert_eq!(score(&text, &text), Some(exact as i32));
    let text = "a".repeat(29_000);
    let n: i64 = 29_000;
    let exact: i64 = 10 * n + 25 + 5 * (n * (n - 1) / 2) - n / 4;
    assert_eq!(score(&text, &text).map(i64::from), Some(exact));
}

#[test]
fn better_scores_rank_first() {
    let list = apps(&["file explorer", "firefox", "paint"]);
    assert_eq!(rank("fi", &list), vec![1, 0]);
    assert_eq!(rank("zzz", &list), Vec::<usize>::new());
}

#[test]
fn query_is_trimmed_and_lowered() {
    let list = apps(&["file explorer", "firefox", "élan", "straße"]);
    assert_eq!(rank("  FI\t", &list), vec![1, 0]);
    assert_eq!(rank("ÉLAN", &list), vec![2]);
    assert_eq!(rank_lowered("FI", &list), Vec::<usize>::new());
    assert_eq!(rank_lowered("fi", &list), vec![1, 0]);
}

#[test]
fn blank_query_keeps_the_order() {
    let list = apps(&["c", "a", "b"]);
    assert_eq!(rank("", &list), vec![0, 1, 2]);
    assert_eq!(rank(" \u{3000}", &list), vec![0, 1, 2]);
}

#[test]
fn equal_scores_rank_by_length_in_bytes_then_place() {
    assert_eq!(rank("ab", &apps(&["abc", "ab", "abd"])), vec![1, 0, 2]);
    assert_eq!(rank("ab", &apps(&["abé", "abc"])), vec![1, 0]);
}
