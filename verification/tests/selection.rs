use fuzzy_picker::selection::{move_down, move_up, reconcile};

#[test]
fn down_from_nothing_selects_the_first_entry() {
    assert_eq!(move_down(None, 3), Some(0));
}

#[test]
fn down_at_the_last_entry_stays() {
    let mut selection = move_down(None, 3);
    selection = move_down(selection, 3);
    selection = move_down(selection, 3);
    assert_eq!(selection, Some(2));
    selection = move_down(selection, 3);
    assert_eq!(selection, Some(2));
    selection = move_down(selection, 3);
    assert_eq!(selection, Some(2));
}

#[test]
fn up_at_the_first_entry_stays() {
    assert_eq!(move_up(Some(0), 3), Some(0));
}

#[test]
fn up_moves_one_entry() {
    assert_eq!(move_up(Some(2), 3), Some(1));
}

#[test]
fn up_from_nothing_selects_the_last_entry() {
    assert_eq!(move_up(None, 3), Some(2));
}

#[test]
fn moves_in_an_empty_list_select_nothing() {
    assert_eq!(move_up(None, 0), None);
    assert_eq!(move_down(None, 0), None);
}

#[test]
fn down_moves_one_entry() {
    assert_eq!(move_down(Some(0), 3), Some(1));
}

#[test]
fn down_at_the_largest_index_does_not_overflow() {
    assert_eq!(move_down(Some(usize::MAX), usize::MAX), Some(usize::MAX));
}

#[test]
fn reconcile_selects_the_first_entry_of_a_new_list() {
    assert_eq!(reconcile(None, 3), Some(0));
}

#[test]
fn reconcile_keeps_nothing_selected_in_an_empty_list() {
    assert_eq!(reconcile(None, 0), None);
}

#[test]
fn reconcile_keeps_an_index_in_range() {
    assert_eq!(reconcile(Some(1), 3), Some(1));
}

#[test]
fn reconcile_clamps_to_the_last_entry() {
    assert_eq!(reconcile(Some(5), 3), Some(2));
    assert_eq!(reconcile(Some(3), 3), Some(2));
}

#[test]
fn reconcile_unselects_when_the_list_is_empty() {
    assert_eq!(reconcile(Some(0), 0), None);
    assert_eq!(reconcile(Some(4), 0), None);
}
