use moonlit::cursor::Cursor;
use moonlit::history::{is_power_of_two, Edit, EditHistory, MAX_HISTORY_CAPACITY};

fn insert(index: usize) -> Edit {
    Edit::Insert { char_idx: index, ch: 'a', point: Cursor { x: index, y: 0 } }
}

#[test]
fn power_of_two_is_recognised() {
    assert!(!is_power_of_two(0));
    assert!(is_power_of_two(1));
    assert!(is_power_of_two(2));
    assert!(!is_power_of_two(3));
    assert!(is_power_of_two(256));
    assert!(is_power_of_two(1024));
    assert!(!is_power_of_two(1023));
    assert!(!is_power_of_two(96));
    assert!(is_power_of_two(1 << 31));
    assert!(!is_power_of_two(usize::MAX));
}

#[test]
fn history_capacity_has_to_be_a_power_of_two() {
    assert!(EditHistory::with_capacity(0).is_none());
    assert!(EditHistory::with_capacity(3).is_none());
    assert!(EditHistory::with_capacity(1000).is_none());
    assert!(EditHistory::with_capacity(1).is_some());
    assert!(EditHistory::with_capacity(256).is_some());
    assert!(EditHistory::with_capacity(MAX_HISTORY_CAPACITY).is_some());
    assert!(EditHistory::with_capacity(MAX_HISTORY_CAPACITY * 2).is_none());
}

#[test]
fn history_starts_empty() {
    let history = EditHistory::with_capacity(4).unwrap();
    assert_eq!(history.len(), 0);
    assert_eq!(history.capacity(), 4);
    assert!(history.is_empty());
    assert!(!history.is_full());
    assert_eq!(history.get(0), None);
    assert_eq!(history.newest_at(0), None);
    assert_eq!(history.to_vec(), vec![]);
}

#[test]
fn history_keeps_edits_in_order() {
    let mut history = EditHistory::with_capacity(4).unwrap();
    history.push(insert(0));
    history.push(Edit::Group(2));
    history.push(Edit::Delete { char_idx: 5, ch: 'z', point: Cursor { x: 1, y: 2 } });
    assert_eq!(history.len(), 3);
    assert!(!history.is_empty());
    assert!(!history.is_full());
    assert_eq!(history.get(0), Some(insert(0)));
    assert_eq!(history.get(1), Some(Edit::Group(2)));
    assert_eq!(
        history.get(2),
        Some(Edit::Delete { char_idx: 5, ch: 'z', point: Cursor { x: 1, y: 2 } })
    );
    assert_eq!(history.get(3), None);
    assert_eq!(
        history.newest_at(0),
        Some(Edit::Delete { char_idx: 5, ch: 'z', point: Cursor { x: 1, y: 2 } })
    );
    assert_eq!(history.newest_at(2), Some(insert(0)));
    assert_eq!(history.newest_at(3), None);
}

#[test]
fn history_drops_oldest_when_full() {
    let mut history = EditHistory::with_capacity(4).unwrap();
    for i in 0..4 {
        history.push(insert(i));
    }
    assert!(history.is_full());
    assert_eq!(history.to_vec(), vec![insert(0), insert(1), insert(2), insert(3)]);
    history.push(insert(4));
    assert_eq!(history.len(), 4);
    assert_eq!(history.capacity(), 4);
    assert_eq!(history.to_vec(), vec![insert(1), insert(2), insert(3), insert(4)]);
    assert_eq!(history.get(0), Some(insert(1)));
    assert_eq!(history.newest_at(0), Some(insert(4)));
}

#[test]
fn history_holds_exactly_the_newest_after_many_pushes() {
    let mut history = EditHistory::with_capacity(8).unwrap();
    for i in 0..29 {
        history.push(insert(i));
    }
    assert_eq!(history.len(), 8);
    let expected: Vec<Edit> = (21..29).map(insert).collect();
    assert_eq!(history.to_vec(), expected);
    for back in 0..8 {
        assert_eq!(history.newest_at(back), Some(insert(28 - back)));
    }
    assert_eq!(history.newest_at(8), None);
}

#[test]
fn history_of_capacity_one_holds_the_latest() {
    let mut history = EditHistory::with_capacity(1).unwrap();
    history.push(insert(1));
    history.push(insert(2));
    assert_eq!(history.to_vec(), vec![insert(2)]);
    assert!(history.is_full());
}

#[test]
fn history_stays_right_over_very_many_pushes() {
    let mut history = EditHistory::with_capacity(4).unwrap();
    let total: usize = (1 << 24) + (1 << 10) + 3;
    for i in 0..total {
        history.push(insert(i));
    }
    assert_eq!(history.len(), 4);
    assert_eq!(
        history.to_vec(),
        vec![insert(total - 4), insert(total - 3), insert(total - 2), insert(total - 1)]
    );
    assert_eq!(history.newest_at(3), Some(insert(total - 4)));
    history.push(insert(7));
    assert_eq!(history.newest_at(0), Some(insert(7)));
    assert_eq!(history.get(0), Some(insert(total - 3)));
}
