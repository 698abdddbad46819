use weld::undo::UndoStack;

#[test]
fn push_and_pop_undo() {
    let mut stack = UndoStack::new(3);
    stack.push("a");
    stack.push("b");

    assert_eq!(stack.pop_undo(), Some("b"));
    assert_eq!(stack.pop_undo(), Some("a"));
    assert_eq!(stack.pop_undo(), None);
}

#[test]
fn push_redo_and_pop_redo() {
    let mut stack = UndoStack::new(3);
    stack.push_redo("a");

    assert!(stack.can_redo());
    assert_eq!(stack.pop_redo(), Some("a"));
    assert!(!stack.can_redo());
}

#[test]
fn push_clears_redo() {
    let mut stack = UndoStack::new(3);
    stack.push_redo("a");
    stack.push("b"); // redo cleared

    assert!(!stack.can_redo());
}

#[test]
fn push_undo_does_not_clear_redo() {
    let mut stack = UndoStack::new(3);
    stack.push_redo("a");
    stack.push_undo("b");

    assert!(stack.can_redo());
    assert!(stack.can_undo());
}

#[test]
fn capacity_drops_oldest() {
    let mut stack = UndoStack::new(2);
    stack.push("a");
    stack.push("b");
    stack.push("c"); // "a" dropped

    assert_eq!(stack.pop_undo(), Some("c"));
    assert_eq!(stack.pop_undo(), Some("b"));
    assert_eq!(stack.pop_undo(), None);
}

#[test]
fn can_undo_and_redo() {
    let mut stack: UndoStack<&str> = UndoStack::new(2);
    assert!(!stack.can_undo());
    assert!(!stack.can_redo());

    stack.push("a");
    assert!(stack.can_undo());
    assert!(!stack.can_redo());
}

#[test]
fn push_undo_respects_capacity_too() {
    let mut stack = UndoStack::new(1);
    stack.push_undo(1);
    stack.push_undo(2);
    assert_eq!(stack.pop_undo(), Some(2));
    assert_eq!(stack.pop_undo(), None);
}

#[test]
fn redo_pops_newest_first() {
    let mut stack = UndoStack::new(3);
    stack.push_redo(1);
    stack.push_redo(2);
    assert_eq!(stack.pop_redo(), Some(2));
    assert_eq!(stack.pop_redo(), Some(1));
    assert_eq!(stack.pop_redo(), None);
}
