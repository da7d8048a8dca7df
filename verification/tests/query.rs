use fuzzy_picker::query::{Edit, Query};

fn typed(text: &str) -> Query {
    let mut query = Query::new();
    for c in text.chars() {
        query.insert(c);
    }
    query
}

#[test]
fn new_query_is_empty() {
    let query = Query::new();
    assert_eq!(query.value(), "");
    assert_eq!(query.cursor(), 0);
}

#[test]
fn insert_appends_at_the_cursor() {
    let query = typed("abc");
    assert_eq!(query.value(), "abc");
    assert_eq!(query.cursor(), 3);
}

#[test]
fn insert_in_the_middle() {
    let mut query = typed("ac");
    query.move_cursor(-1);
    query.insert('b');
    assert_eq!(query.value(), "abc");
    assert_eq!(query.cursor(), 2);
}

#[test]
fn delete_backward_removes_the_character_before_the_cursor() {
    let mut query = typed("abc");
    query.move_cursor(-1);
    query.delete_backward();
    assert_eq!(query.value(), "ac");
    assert_eq!(query.cursor(), 1);
}

#[test]
fn delete_backward_at_the_start_changes_nothing() {
    let mut query = typed("abc");
    query.move_cursor(-3);
    query.delete_backward();
    assert_eq!(query.value(), "abc");
    assert_eq!(query.cursor(), 0);
}

#[test]
fn move_cursor_stops_at_both_ends() {
    let mut query = typed("abc");
    query.move_cursor(5);
    assert_eq!(query.cursor(), 3);
    query.move_cursor(-2);
    assert_eq!(query.cursor(), 1);
    query.move_cursor(-7);
    assert_eq!(query.cursor(), 0);
    query.move_cursor(isize::MAX);
    assert_eq!(query.cursor(), 3);
    query.move_cursor(isize::MIN);
    assert_eq!(query.cursor(), 0);
    query.move_cursor(0);
    assert_eq!(query.cursor(), 0);
    assert_eq!(query.value(), "abc");
}

#[test]
fn cursor_counts_characters() {
    let mut query = typed("日本語");
    assert_eq!(query.cursor(), 3);
    query.move_cursor(-1);
    query.delete_backward();
    assert_eq!(query.value(), "日語");
    assert_eq!(query.cursor(), 1);
}

#[test]
fn char_motions() {
    let mut query = typed("ab");
    query.apply(Edit::GoToPrevChar);
    assert_eq!(query.cursor(), 1);
    query.apply(Edit::GoToPrevChar);
    query.apply(Edit::GoToPrevChar);
    assert_eq!(query.cursor(), 0);
    query.apply(Edit::GoToNextChar);
    assert_eq!(query.cursor(), 1);
    query.apply(Edit::GoToNextChar);
    query.apply(Edit::GoToNextChar);
    assert_eq!(query.cursor(), 2);
    assert_eq!(query.value(), "ab");
}

#[test]
fn start_and_end_motions() {
    let mut query = typed("hello");
    query.apply(Edit::GoToStart);
    assert_eq!(query.cursor(), 0);
    query.apply(Edit::GoToEnd);
    assert_eq!(query.cursor(), 5);
    assert_eq!(query.value(), "hello");
}

#[test]
fn word_motions() {
    let mut query = typed("one two  three");
    query.apply(Edit::GoToPrevWord);
    assert_eq!(query.cursor(), 9);
    query.apply(Edit::GoToPrevWord);
    assert_eq!(query.cursor(), 4);
    query.apply(Edit::GoToNextWord);
    assert_eq!(query.cursor(), 9);
    query.apply(Edit::GoToNextWord);
    assert_eq!(query.cursor(), 14);
    query.apply(Edit::GoToStart);
    query.apply(Edit::GoToPrevWord);
    assert_eq!(query.cursor(), 0);
    assert_eq!(query.value(), "one two  three");
}

#[test]
fn delete_next_char() {
    let mut query = typed("abc");
    query.apply(Edit::DeleteNextChar);
    assert_eq!(query.value(), "abc");
    query.apply(Edit::GoToStart);
    query.apply(Edit::DeleteNextChar);
    assert_eq!(query.value(), "bc");
    assert_eq!(query.cursor(), 0);
}

#[test]
fn delete_prev_word() {
    let mut query = typed("one two three");
    query.move_cursor(-6);
    query.apply(Edit::DeletePrevWord);
    assert_eq!(query.value(), "one  three");
    assert_eq!(query.cursor(), 4);
}

#[test]
fn delete_next_word() {
    let mut query = typed("one two three");
    query.move_cursor(-9);
    query.apply(Edit::DeleteNextWord);
    assert_eq!(query.value(), "one three");
    assert_eq!(query.cursor(), 4);
}

#[test]
fn delete_line_and_delete_till_end() {
    let mut query = typed("one two");
    query.move_cursor(-4);
    query.apply(Edit::DeleteTillEnd);
    assert_eq!(query.value(), "one");
    assert_eq!(query.cursor(), 3);
    query.apply(Edit::DeleteLine);
    assert_eq!(query.value(), "");
    assert_eq!(query.cursor(), 0);
    query.apply(Edit::DeleteLine);
    assert_eq!(query.value(), "");
    assert_eq!(query.cursor(), 0);
}

#[test]
fn with_edit_leaves_the_query_alone() {
    let query = typed("ab");
    let after = query.with_edit(Edit::InsertChar('c'));
    assert_eq!(query.value(), "ab");
    assert_eq!(query.cursor(), 2);
    assert_eq!(after.value(), "abc");
    assert_eq!(after.cursor(), 3);
}

#[test]
fn visual_cursor_of_plain_text_is_the_cursor() {
    let mut query = typed("hello");
    assert_eq!(query.visual_cursor(), 5);
    query.move_cursor(-2);
    assert_eq!(query.visual_cursor(), 3);
    query.move_cursor(-3);
    assert_eq!(query.visual_cursor(), 0);
}

#[test]
fn visual_cursor_counts_wide_characters_twice() {
    let mut query = typed("日本語");
    assert_eq!(query.visual_cursor(), 6);
    query.move_cursor(-1);
    assert_eq!(query.visual_cursor(), 4);
}

#[test]
fn visual_scroll_keeps_the_cursor_in_the_window() {
    let mut query = typed("hello world");
    assert_eq!(query.visual_scroll(20), 0);
    assert_eq!(query.visual_scroll(11), 0);
    assert_eq!(query.visual_scroll(10), 1);
    assert_eq!(query.visual_scroll(4), 7);
    assert_eq!(query.visual_scroll(0), 11);
    query.move_cursor(-6);
    assert_eq!(query.visual_scroll(4), 1);
    assert_eq!(query.visual_scroll(5), 0);
}

#[test]
fn visual_scroll_steps_over_whole_wide_characters() {
    let query = typed("日本語");
    assert_eq!(query.visual_scroll(6), 0);
    assert_eq!(query.visual_scroll(5), 2);
    assert_eq!(query.visual_scroll(4), 2);
    assert_eq!(query.visual_scroll(3), 4);
}
