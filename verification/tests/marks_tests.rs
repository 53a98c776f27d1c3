use spool::game::no_aims;
use spool::marks::{no_marks, remove_marked};

#[test]
fn fresh_marks_are_unset() {
    assert_eq!(no_marks(0), Vec::<bool>::new());
    assert_eq!(no_marks(3), vec![false, false, false]);
}

#[test]
fn unmarked_items_stay_in_order() {
    let mut items = vec![10, 11, 12, 13, 14, 15];
    remove_marked(&mut items, &vec![false, true, false, true, true, false]);
    assert_eq!(items, vec![10, 12, 15]);
}

#[test]
fn removal_without_marks_changes_nothing() {
    let mut items = vec!['a', 'b', 'c'];
    remove_marked(&mut items, &no_marks(3));
    assert_eq!(items, vec!['a', 'b', 'c']);
}

#[test]
fn removal_of_everything_leaves_nothing() {
    let mut items = vec![1, 2, 3];
    remove_marked(&mut items, &vec![true, true, true]);
    assert!(items.is_empty());
    let mut nothing: Vec<u8> = Vec::new();
    remove_marked(&mut nothing, &Vec::new());
    assert!(nothing.is_empty());
}

#[test]
fn removal_of_the_ends() {
    let mut items = vec![1, 2, 3, 4];
    remove_marked(&mut items, &vec![true, false, false, true]);
    assert_eq!(items, vec![2, 3]);
}

#[test]
fn fresh_aims_are_empty() {
    assert_eq!(no_aims(0), Vec::new());
    assert_eq!(no_aims(2), vec![None, None]);
}
