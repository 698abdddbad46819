use weld::diff_model::DiffModel;
use weld::file_io::FileContent;

fn content_from(lines: &[&str]) -> FileContent {
    FileContent::from_lines(lines)
}

#[test]
fn copy_left_to_right_updates_content() {
    let left = content_from(&["a", "b", "c"]);
    let right = content_from(&["a", "X", "c"]);
    let mut model = DiffModel::new(left, right);

    assert_eq!(model.change_count, 1);
    model.copy_left_to_right();
    assert_eq!(model.right_content.lines(), &["a", "b", "c"]);
    assert!(model.right_dirty);
    assert_eq!(model.change_count, 0);
}

#[test]
fn copy_right_to_left_updates_content() {
    let left = content_from(&["a", "b", "c"]);
    let right = content_from(&["a", "X", "c"]);
    let mut model = DiffModel::new(left, right);

    model.copy_right_to_left();
    assert_eq!(model.left_content.lines(), &["a", "X", "c"]);
    assert!(model.left_dirty);
}

#[test]
fn undo_restores_original_content() {
    let left = content_from(&["a", "b", "c"]);
    let right = content_from(&["a", "X", "c"]);
    let mut model = DiffModel::new(left, right);

    model.copy_left_to_right();
    assert_eq!(model.change_count, 0);

    model.undo();
    assert_eq!(model.right_content.lines(), &["a", "X", "c"]);
    assert!(!model.right_dirty);
    assert_eq!(model.change_count, 1);
}

#[test]
fn redo_reapplies_undone_copy() {
    let left = content_from(&["a", "b", "c"]);
    let right = content_from(&["a", "X", "c"]);
    let mut model = DiffModel::new(left, right);

    model.copy_left_to_right();
    model.undo();
    model.redo();
    assert_eq!(model.right_content.lines(), &["a", "b", "c"]);
    assert!(model.right_dirty);
    assert_eq!(model.change_count, 0);
}

#[test]
fn undo_redo_with_line_count_change() {
    // Left has 2 lines in the changed block, right has 1.
    let left = content_from(&["a", "b", "c", "d"]);
    let right = content_from(&["a", "X", "d"]);
    let mut model = DiffModel::new(left, right);

    model.copy_left_to_right();
    assert_eq!(model.right_content.lines(), &["a", "b", "c", "d"]);

    model.undo();
    assert_eq!(model.right_content.lines(), &["a", "X", "d"]);

    model.redo();
    assert_eq!(model.right_content.lines(), &["a", "b", "c", "d"]);
}

#[test]
fn multiple_undo_redo_round_trips() {
    let left = content_from(&["a", "b", "c"]);
    let right = content_from(&["a", "X", "c"]);
    let mut model = DiffModel::new(left, right);

    model.copy_left_to_right();
    for _ in 0..3 {
        model.undo();
        assert_eq!(model.right_content.lines(), &["a", "X", "c"]);
        model.redo();
        assert_eq!(model.right_content.lines(), &["a", "b", "c"]);
    }
}

#[test]
fn new_copy_after_undo_clears_redo() {
    let left = content_from(&["a", "b"]);
    let right = content_from(&["a", "X"]);
    let mut model = DiffModel::new(left, right);

    model.copy_left_to_right();
    model.undo();
    assert!(model.can_redo());

    // Redo a fresh copy — redo stack should be cleared.
    model.copy_left_to_right();
    assert!(!model.can_redo());
}

#[test]
fn undo_noop_on_empty_stack() {
    let left = content_from(&["a"]);
    let right = content_from(&["a"]);
    let mut model = DiffModel::new(left, right);

    model.undo(); // should not panic
    assert!(!model.can_undo());
}

#[test]
fn redo_noop_on_empty_stack() {
    let left = content_from(&["a"]);
    let right = content_from(&["a"]);
    let mut model = DiffModel::new(left, right);

    model.redo(); // should not panic
    assert!(!model.can_redo());
}

#[test]
fn dirty_flag_restored_on_undo() {
    let left = content_from(&["a", "b"]);
    let right = content_from(&["a", "X"]);
    let mut model = DiffModel::new(left, right);

    assert!(!model.right_dirty);
    model.copy_left_to_right();
    assert!(model.right_dirty);
    model.undo();
    assert!(!model.right_dirty);
}

#[test]
fn undo_restores_current_block_after_copy() {
    let left = content_from(&["a", "b", "c", "d", "e"]);
    let right = content_from(&["a", "X", "c", "Y", "e"]);
    let mut model = DiffModel::new(left, right);
    assert_eq!(model.change_count, 2);
    model.current_block = 1;
    model.copy_left_to_right();
    assert_eq!(model.right_content.lines(), &["a", "X", "c", "d", "e"]);
    assert_eq!(model.current_block, 0);
    model.undo();
    assert_eq!(model.current_block, 1);
    assert_eq!(model.right_content.lines(), &["a", "X", "c", "Y", "e"]);
}

#[test]
fn copy_without_changes_does_nothing() {
    let left = content_from(&["a", "b"]);
    let right = content_from(&["a", "b"]);
    let mut model = DiffModel::new(left, right);
    model.copy_left_to_right();
    model.copy_right_to_left();
    assert!(!model.left_dirty);
    assert!(!model.right_dirty);
    assert!(!model.can_undo());
}

#[test]
fn derived_state_tracks_contents() {
    let left = content_from(&["\tx", "yy"]);
    let right = content_from(&["\tx", "zzz", "w"]);
    let model = DiffModel::new(left, right);
    // Widest shown line: "    x" (5) or "zzz" (3); plus one for the leading space.
    assert_eq!(model.max_content_width, 6);
    assert_eq!(model.change_count, model.change_block_indices.len());
    assert_eq!(model.display_rows.len(), 3);
}
