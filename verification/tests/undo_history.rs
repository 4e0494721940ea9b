//! The undo history as a flat, truncating snapshot log: a full
//! record/undo/redo cycle over three commands, and the boundary no-ops.

use cs::lang::CodeNode;
use cs::undo::UndoHistory;

fn leaf(id: u64) -> CodeNode {
    CodeNode::NullLiteral(id)
}

#[test]
fn three_undos_return_to_the_first_state_and_three_redos_to_the_last() {
    let mut history = UndoHistory::new();
    let s0 = leaf(10);
    let s1 = leaf(11);
    let s2 = leaf(12);
    let s3 = leaf(13);

    history.record_previous_state(&s0, Some(10));
    history.record_previous_state(&s1, Some(11));
    history.record_previous_state(&s2, Some(12));

    let r1 = history.undo(&s3, Some(13)).unwrap();
    assert_eq!(r1.root.id(), 12);
    assert_eq!(r1.cursor_position, Some(12));
    let r2 = history.undo(&r1.root, r1.cursor_position).unwrap();
    assert_eq!(r2.root.id(), 11);
    let r3 = history.undo(&r2.root, r2.cursor_position).unwrap();
    assert_eq!(r3.root.id(), 10);
    assert_eq!(r3.cursor_position, Some(10));

    // at the lower boundary undo is a no-op
    assert!(history.undo(&r3.root, r3.cursor_position).is_none());

    let f1 = history.redo().unwrap();
    assert_eq!(f1.root.id(), 11);
    let f2 = history.redo().unwrap();
    assert_eq!(f2.root.id(), 12);
    let f3 = history.redo().unwrap();
    assert_eq!(f3.root.id(), 13);
    assert_eq!(f3.cursor_position, Some(13));

    // at the upper boundary redo is a no-op
    assert!(history.redo().is_none());
}

#[test]
fn recording_discards_the_redo_future() {
    let mut history = UndoHistory::new();
    let s0 = leaf(20);
    let s1 = leaf(21);
    let s2 = leaf(22);

    history.record_previous_state(&s0, None);
    history.record_previous_state(&s1, None);
    let back = history.undo(&s2, None).unwrap();
    assert_eq!(back.root.id(), 21);

    // a new edit from here truncates the redo branch
    history.record_previous_state(&back.root, None);
    let replay = history.redo();
    assert!(replay.is_none());
}

#[test]
fn undo_on_empty_history_is_a_no_op() {
    let mut history = UndoHistory::new();
    let current = leaf(30);
    assert!(history.undo(&current, None).is_none());
    assert!(history.redo().is_none());
}
