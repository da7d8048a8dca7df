use fuzzy_picker::filter::{compute_fuzzy_find_score, fuzzy_find};

fn strings(items: &[&str]) -> Vec<String> {
    items.iter().map(|item| item.to_string()).collect()
}

#[test]
fn empty_query_returns_the_list_unchanged() {
    let list = strings(&["apple", "banana", "grape"]);
    assert_eq!(fuzzy_find("", &list), list);
}

#[test]
fn empty_query_keeps_duplicates_and_empty_lines() {
    let list = strings(&["b", "", "a", "b", " a "]);
    assert_eq!(fuzzy_find("", &list), list);
}

#[test]
fn empty_query_on_empty_list() {
    let list: Vec<String> = Vec::new();
    assert_eq!(fuzzy_find("", &list), list);
}

#[test]
fn query_ap_lists_weakest_match_first_and_keeps_ties_in_order() {
    let list = strings(&["apple", "banana", "grape"]);
    assert_eq!(fuzzy_find("ap", &list), strings(&["grape", "apple", "banana"]));
}

#[test]
fn scores_of_the_ap_example() {
    assert_eq!(compute_fuzzy_find_score("ap", "apple"), 3);
    assert_eq!(compute_fuzzy_find_score("ap", "banana"), 3);
    assert_eq!(compute_fuzzy_find_score("ap", "grape"), 2);
}

#[test]
fn score_of_empty_query_or_empty_subject_is_zero() {
    assert_eq!(compute_fuzzy_find_score("", "apple"), 0);
    assert_eq!(compute_fuzzy_find_score("ap", ""), 0);
    assert_eq!(compute_fuzzy_find_score("", ""), 0);
}

#[test]
fn repeated_query_character_counts_each_time() {
    assert_eq!(compute_fuzzy_find_score("a", "banana"), 3);
    assert_eq!(compute_fuzzy_find_score("aa", "banana"), 6);
    assert_eq!(compute_fuzzy_find_score("ana", "banana"), 8);
}

#[test]
fn score_is_case_sensitive() {
    assert_eq!(compute_fuzzy_find_score("A", "apple"), 0);
    assert_eq!(compute_fuzzy_find_score("A", "Apple"), 1);
}

#[test]
fn score_does_not_depend_on_the_order_of_the_query() {
    assert_eq!(
        compute_fuzzy_find_score("pa", "apple"),
        compute_fuzzy_find_score("ap", "apple")
    );
}

#[test]
fn score_counts_characters_not_bytes() {
    assert_eq!(compute_fuzzy_find_score("é", "été"), 2);
    assert_eq!(compute_fuzzy_find_score("日", "日本日"), 2);
}

#[test]
fn candidates_without_a_match_are_left_out() {
    let list = strings(&["xyz", "apple", "", "kiwi"]);
    assert_eq!(fuzzy_find("a", &list), strings(&["apple"]));
}

#[test]
fn no_match_at_all_gives_an_empty_result() {
    let list = strings(&["apple", "banana"]);
    assert_eq!(fuzzy_find("z", &list), Vec::<String>::new());
}

#[test]
fn result_is_sorted_by_ascending_score() {
    let list = strings(&["aaaa", "aaa", "aa", "a"]);
    assert_eq!(fuzzy_find("a", &list), strings(&["a", "aa", "aaa", "aaaa"]));
}

#[test]
fn equal_scores_keep_the_order_of_the_list() {
    let list = strings(&["xa", "ay", "aa", "za", "b", "a"]);
    assert_eq!(fuzzy_find("a", &list), strings(&["xa", "ay", "za", "a", "aa"]));
}

#[test]
fn duplicates_are_each_shown() {
    let list = strings(&["ab", "a", "ab", "a"]);
    assert_eq!(fuzzy_find("ab", &list), strings(&["a", "a", "ab", "ab"]));
}

#[test]
fn every_entry_shown_has_a_positive_score_and_comes_from_the_list() {
    let list = strings(&["pear", "plum", "fig", "apple", "grape", "lime"]);
    let shown = fuzzy_find("pe", &list);
    assert_eq!(shown.len(), 5);
    for entry in &shown {
        assert!(compute_fuzzy_find_score("pe", entry) > 0);
        assert!(list.contains(entry));
    }
    for pair in shown.windows(2) {
        assert!(compute_fuzzy_find_score("pe", &pair[0]) <= compute_fuzzy_find_score("pe", &pair[1]));
    }
}
