use clipdeck::files::File;
use clipdeck::ordering::{natural_compare, sort_names, split_chunks, Rank, TextNum};
use clipdeck::text::{contains_substr, str_eq};

fn names(list: &[&str]) -> Vec<String> {
    list.iter().map(|s| s.to_string()).collect()
}

fn plain(list: Vec<String>) -> Vec<&'static str> {
    list.into_iter()
        .map(|s| Box::leak(s.into_boxed_str()) as &'static str)
        .collect()
}

#[test]
fn orders_numbered_recordings_naturally() {
    let sorted = sort_names(names(&["Recording 2", "Recording 10", "Recording 1"]));
    assert_eq!(
        plain(sorted),
        vec!["Recording 1", "Recording 2", "Recording 10"]
    );
}

#[test]
fn orders_case_insensitively_by_run_rule() {
    // Case-folded, "B2" against "a10" gains one bias on each side — 'b'
    // after 'a', but 2 before 10 — so the two tie, as does "b" against
    // "B2", and the accumulated-bias rule keeps the given order.
    assert_eq!(natural_compare("B2", "a10"), Rank::Same);
    assert_eq!(natural_compare("b", "B2"), Rank::Same);
    let sorted = sort_names(names(&["b", "B2", "a10"]));
    assert_eq!(plain(sorted), vec!["b", "B2", "a10"]);
    // With no number run to offset it, the text rule alone puts "a10"
    // first, case-insensitively.
    let sorted = sort_names(names(&["b", "B", "a10"]));
    assert_eq!(plain(sorted), vec!["a10", "b", "B"]);
}

#[test]
fn text_run_sorts_after_number_run() {
    // At the first position one side has a text run, the other a number
    // run: the text side is ranked strictly after, whatever follows.
    assert_eq!(natural_compare("abc", "9zzzzzz"), Rank::After);
    assert_eq!(natural_compare("9zzzzzz", "abc"), Rank::Before);
}

#[test]
fn numbers_compare_by_value_not_digits() {
    assert_eq!(natural_compare("track 9", "track 10"), Rank::Before);
    assert_eq!(natural_compare("track 0010", "track 9"), Rank::After);
    assert_eq!(natural_compare("track 007", "track 7"), Rank::Same);
}

#[test]
fn case_folding_reaches_the_comparison() {
    // 'B' precedes 'a' in code-point order; only after folding does "a"
    // come first.
    assert_eq!(natural_compare("B", "a"), Rank::After);
    assert_eq!(plain(sort_names(names(&["B", "a"]))), vec!["a", "B"]);
}

#[test]
fn shorter_text_run_sorts_first() {
    assert_eq!(natural_compare("song", "songs"), Rank::Before);
    assert_eq!(natural_compare("songs", "song"), Rank::After);
}

#[test]
fn biases_accumulate_across_runs() {
    // The order is decided by the accumulated bias totals, not by the
    // first differing run: one differing character on each side ties.
    assert_eq!(natural_compare("ab1ba", "ba1ab"), Rank::Same);
}

#[test]
fn splits_into_alternating_runs() {
    let runs = split_chunks("Recording 12b");
    let as_text: Vec<&str> = runs.iter().map(|s| s.as_str()).collect();
    assert_eq!(as_text, vec!["Recording ", "12", "b"]);
}

#[test]
fn split_text_and_numbers_parses_number_runs() {
    let parts = TextNum::split_text_and_numbers("Track 42 take 7".to_string());
    assert_eq!(parts.len(), 4);
    assert!(matches!(&parts[0], TextNum::Text(t) if t == "Track "));
    assert!(matches!(&parts[1], TextNum::Number(42)));
    assert!(matches!(&parts[2], TextNum::Text(t) if t == " take "));
    assert!(matches!(&parts[3], TextNum::Number(7)));
}

#[test]
fn split_of_single_run_is_one_item() {
    let parts = TextNum::split_text_and_numbers("2026".to_string());
    assert_eq!(parts.len(), 1);
    assert!(matches!(&parts[0], TextNum::Number(2026)));
}

#[test]
fn truncate_strips_extension() {
    let mut name = "Recording 1.wav".to_string();
    let r = File::truncate(&mut name, ".", 0);
    assert_eq!(r, "Recording 1");
    assert_eq!(name, "Recording 1");
}

#[test]
fn truncate_strips_two_path_segments() {
    let mut path = "/home/app/target/debug/engine".to_string();
    let r = File::truncate(&mut path, "/", 2);
    assert_eq!(r, "/home/app");
}

#[test]
fn truncate_without_stop_char_keeps_name() {
    let mut name = "plainname".to_string();
    let r = File::truncate(&mut name, ".", 0);
    assert_eq!(r, "plainname");
}

#[test]
fn str_eq_compares_characters() {
    assert!(str_eq("abc", "abc"));
    assert!(!str_eq("abc", "abd"));
    assert!(!str_eq("abc", "ab"));
}

#[test]
fn contains_substr_finds_marker() {
    assert!(contains_substr("Default taken... 3", "Default taken..."));
    assert!(!contains_substr("Recording 3", "Default taken..."));
    assert!(contains_substr("anything", ""));
}

#[test]
fn empty_names_compare_equal() {
    assert_eq!(natural_compare("", ""), Rank::Same);
    // With no common run prefix, no bias accumulates.
    assert_eq!(natural_compare("", "anything"), Rank::Same);
}

#[test]
fn extra_runs_past_the_common_prefix_are_ignored() {
    // Only the common prefix of the run lists is compared.
    assert_eq!(natural_compare("a", "a1"), Rank::Same);
}
