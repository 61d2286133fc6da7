use studio_core::history::{History, HISTORY_LIMIT};

#[test]
fn first_record_becomes_current() {
    let mut h: History<u32> = History::new();
    assert_eq!(h.current(), None);
    assert!(h.record(1, "a".to_string()));
    assert_eq!(h.len(), 1);
    assert_eq!(h.index(), 0);
    assert_eq!(h.current(), Some(&1));
}

#[test]
fn same_state_is_recorded_once() {
    let mut h: History<u32> = History::new();
    assert!(h.record(1, "a".to_string()));
    assert!(!h.record(2, "a".to_string()));
    assert_eq!(h.len(), 1);
    assert_eq!(h.current(), Some(&1));
}

#[test]
fn undo_and_redo_move_between_snapshots() {
    let mut h: History<u32> = History::new();
    h.record(1, "a".to_string());
    h.record(2, "b".to_string());
    h.record(3, "c".to_string());
    assert!(h.undo());
    assert_eq!(h.current(), Some(&2));
    assert!(h.undo());
    assert_eq!(h.current(), Some(&1));
    assert!(!h.undo());
    assert_eq!(h.index(), 0);
    assert!(h.redo());
    assert!(h.redo());
    assert_eq!(h.current(), Some(&3));
    assert!(!h.redo());
}

#[test]
fn recording_after_undo_drops_the_redo_branch() {
    let mut h: History<u32> = History::new();
    h.record(1, "a".to_string());
    h.record(2, "b".to_string());
    h.record(3, "c".to_string());
    h.undo();
    h.undo();
    assert!(h.record(4, "d".to_string()));
    assert_eq!(h.len(), 2);
    assert_eq!(h.current(), Some(&4));
    assert!(!h.redo());
    h.undo();
    assert_eq!(h.current(), Some(&1));
}

#[test]
fn recording_compares_with_current_snapshot() {
    let mut h: History<u32> = History::new();
    h.record(1, "a".to_string());
    h.record(2, "b".to_string());
    h.undo();
    // equal to the current one (at index 0): nothing recorded
    assert!(!h.record(9, "a".to_string()));
    assert_eq!(h.len(), 2);
}

#[test]
fn history_keeps_at_most_the_limit() {
    let mut h: History<usize> = History::new();
    for i in 0..(HISTORY_LIMIT + 5) {
        assert!(h.record(i, format!("s{}", i)));
    }
    assert_eq!(h.len(), HISTORY_LIMIT);
    assert_eq!(h.index(), HISTORY_LIMIT - 1);
    assert_eq!(h.current(), Some(&(HISTORY_LIMIT + 4)));
    for _ in 0..HISTORY_LIMIT {
        h.undo();
    }
    assert_eq!(h.current(), Some(&5));
}

#[test]
fn clear_forgets_everything() {
    let mut h: History<u32> = History::new();
    h.record(1, "a".to_string());
    h.record(2, "b".to_string());
    h.clear();
    assert_eq!(h.len(), 0);
    assert_eq!(h.index(), 0);
    assert!(h.record(1, "a".to_string()));
}
