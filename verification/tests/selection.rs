use sto_clare::selection::{SelectionEvent, SelectionTracker};

#[test]
fn a_plain_click_picks_a_group_and_a_second_one_clears_it() {
    let mut s = SelectionTracker::new();
    assert_eq!(SelectionEvent::Group(4), s.select_group(4));
    assert!(s.is_selected(4));
    assert_eq!(SelectionEvent::Group(5), s.select_group(5));
    assert!(!s.is_selected(4));
    assert_eq!(SelectionEvent::Clear, s.select_group(5));
    assert!(!s.is_selected(5));
}

#[test]
fn ctrl_clicks_add_and_take_away_single_rows() {
    let mut s = SelectionTracker::new();
    s.select_group(9);
    // A single row replaces the group.
    assert_eq!(SelectionEvent::Single(1), s.select_or_unselect_single(1));
    assert!(!s.is_selected(9));
    assert_eq!(SelectionEvent::AddSingle(2), s.select_or_unselect_single(2));
    assert_eq!(SelectionEvent::AddSingle(3), s.select_or_unselect_single(3));
    assert_eq!(SelectionEvent::Unselect(2), s.select_or_unselect_single(2));
    assert!(s.is_selected(1) && !s.is_selected(2) && s.is_selected(3));
    assert_eq!(SelectionEvent::Unselect(1), s.select_or_unselect_single(1));
    // The last single row goes: nothing is picked.
    assert_eq!(SelectionEvent::Clear, s.select_or_unselect_single(3));
    assert!(!s.is_selected(3));
}

#[test]
fn ctrl_clicking_a_row_twice_gives_back_the_rows_picked_before() {
    let mut s = SelectionTracker::new();
    s.select_or_unselect_single(1);
    s.select_or_unselect_single(2);
    s.select_or_unselect_single(7);
    s.select_or_unselect_single(7);
    assert!(s.is_selected(1) && s.is_selected(2) && !s.is_selected(7));
    s.select_or_unselect_single(2);
    s.select_or_unselect_single(2);
    assert!(s.is_selected(1) && s.is_selected(2));
}
