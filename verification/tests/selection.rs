use rip::selection::Selection;

fn at(index: usize, count: usize) -> Selection {
    let mut selection = Selection::new();
    selection.reconcile(count);
    for _ in 0..index {
        selection.next(count);
    }
    assert_eq!(selection.selected(), Some(index));
    selection
}

#[test]
fn new_selection_selects_nothing() {
    assert_eq!(Selection::new().selected(), None);
}

#[test]
fn next_cycles_through_all_rows_and_wraps() {
    let mut selection = Selection::new();
    selection.next(4);
    assert_eq!(selection.selected(), Some(0));
    let mut seen = vec![];
    for _ in 0..8 {
        selection.next(4);
        seen.push(selection.selected().unwrap());
    }
    assert_eq!(seen, vec![1, 2, 3, 0, 1, 2, 3, 0]);
}

#[test]
fn previous_cycles_through_all_rows_and_wraps() {
    let mut selection = Selection::new();
    selection.previous(4);
    assert_eq!(selection.selected(), Some(0));
    let mut seen = vec![];
    for _ in 0..8 {
        selection.previous(4);
        seen.push(selection.selected().unwrap());
    }
    assert_eq!(seen, vec![3, 2, 1, 0, 3, 2, 1, 0]);
}

#[test]
fn next_and_previous_undo_each_other() {
    for count in 1..6 {
        for index in 0..count {
            let mut selection = at(index, count);
            selection.next(count);
            selection.previous(count);
            assert_eq!(selection.selected(), Some(index));
            selection.previous(count);
            selection.next(count);
            assert_eq!(selection.selected(), Some(index));
        }
    }
}

#[test]
fn as_many_steps_as_rows_lead_back() {
    for count in 1..6 {
        for index in 0..count {
            let mut forward = at(index, count);
            let mut back = at(index, count);
            for _ in 0..count {
                forward.next(count);
                back.previous(count);
            }
            assert_eq!(forward.selected(), Some(index));
            assert_eq!(back.selected(), Some(index));
        }
    }
}

#[test]
fn single_row_stays_selected() {
    let mut selection = at(0, 1);
    selection.next(1);
    assert_eq!(selection.selected(), Some(0));
    selection.previous(1);
    assert_eq!(selection.selected(), Some(0));
}

#[test]
fn steps_do_nothing_in_an_empty_list() {
    let mut selection = Selection::new();
    selection.next(0);
    assert_eq!(selection.selected(), None);
    selection.previous(0);
    assert_eq!(selection.selected(), None);
    let mut selection = at(2, 3);
    selection.next(0);
    assert_eq!(selection.selected(), Some(2));
    selection.previous(0);
    assert_eq!(selection.selected(), Some(2));
}

#[test]
fn next_from_a_row_beyond_the_list_goes_by_the_remainder() {
    let mut selection = at(4, 5);
    selection.next(3);
    assert_eq!(selection.selected(), Some(2));
    let mut selection = at(5, 6);
    selection.next(3);
    assert_eq!(selection.selected(), Some(0));
}

#[test]
fn previous_from_a_row_beyond_the_list_goes_one_back() {
    let mut selection = at(5, 6);
    selection.previous(3);
    assert_eq!(selection.selected(), Some(4));
}

#[test]
fn reconcile_drops_the_selection_of_an_empty_list() {
    let mut selection = at(2, 5);
    selection.reconcile(0);
    assert_eq!(selection.selected(), None);
    let mut selection = Selection::new();
    selection.reconcile(0);
    assert_eq!(selection.selected(), None);
}

#[test]
fn reconcile_clamps_to_the_last_row() {
    let mut selection = at(4, 5);
    selection.reconcile(3);
    assert_eq!(selection.selected(), Some(2));
    let mut selection = at(3, 5);
    selection.reconcile(3);
    assert_eq!(selection.selected(), Some(2));
    let mut selection = at(4, 5);
    selection.reconcile(1);
    assert_eq!(selection.selected(), Some(0));
}

#[test]
fn reconcile_selects_the_first_row_where_none_was() {
    let mut selection = Selection::new();
    selection.reconcile(7);
    assert_eq!(selection.selected(), Some(0));
}

#[test]
fn reconcile_keeps_a_row_that_is_still_there() {
    let mut selection = at(2, 5);
    selection.reconcile(3);
    assert_eq!(selection.selected(), Some(2));
    selection.reconcile(100);
    assert_eq!(selection.selected(), Some(2));
    let mut selection = at(0, 5);
    selection.reconcile(1);
    assert_eq!(selection.selected(), Some(0));
}
