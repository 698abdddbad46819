use weld::diff::{BlockKind, DiffBlock, DiffResult};
use weld::display::build_display_rows;

fn equal(left_start: usize, right_start: usize, len: usize) -> DiffBlock {
    DiffBlock {
        kind: BlockKind::Equal,
        left_range: left_start..left_start + len,
        right_range: right_start..right_start + len,
        inline_diffs: vec![],
    }
}

fn delete(left_start: usize, left_len: usize, right_pos: usize) -> DiffBlock {
    DiffBlock {
        kind: BlockKind::Delete,
        left_range: left_start..left_start + left_len,
        right_range: right_pos..right_pos,
        inline_diffs: vec![],
    }
}

fn insert(left_pos: usize, right_start: usize, right_len: usize) -> DiffBlock {
    DiffBlock {
        kind: BlockKind::Insert,
        left_range: left_pos..left_pos,
        right_range: right_start..right_start + right_len,
        inline_diffs: vec![],
    }
}

fn replace(left_start: usize, left_len: usize, right_start: usize, right_len: usize) -> DiffBlock {
    DiffBlock {
        kind: BlockKind::Replace,
        left_range: left_start..left_start + left_len,
        right_range: right_start..right_start + right_len,
        inline_diffs: vec![],
    }
}

#[test]
fn equal_block_produces_paired_rows() {
    let diff = DiffResult {
        blocks: vec![equal(0, 0, 3)],
    };
    let rows = build_display_rows(&diff);
    assert_eq!(rows.len(), 3);
    for (i, row) in rows.iter().enumerate() {
        assert_eq!(row.left_line, Some(i));
        assert_eq!(row.right_line, Some(i));
        assert_eq!(row.kind, BlockKind::Equal);
    }
}

#[test]
fn delete_block_pads_right_side() {
    let diff = DiffResult {
        blocks: vec![delete(2, 3, 2)],
    };
    let rows = build_display_rows(&diff);
    assert_eq!(rows.len(), 3);
    for (i, row) in rows.iter().enumerate() {
        assert_eq!(row.left_line, Some(2 + i));
        assert_eq!(row.right_line, None);
        assert_eq!(row.kind, BlockKind::Delete);
    }
}

#[test]
fn insert_block_pads_left_side() {
    let diff = DiffResult {
        blocks: vec![insert(1, 1, 2)],
    };
    let rows = build_display_rows(&diff);
    assert_eq!(rows.len(), 2);
    for (i, row) in rows.iter().enumerate() {
        assert_eq!(row.left_line, None);
        assert_eq!(row.right_line, Some(1 + i));
        assert_eq!(row.kind, BlockKind::Insert);
    }
}

#[test]
fn replace_block_pairs_then_pads_shorter_side() {
    let diff = DiffResult {
        blocks: vec![replace(5, 2, 5, 4)],
    };
    let rows = build_display_rows(&diff);
    assert_eq!(rows.len(), 4);
    assert_eq!(rows[0].left_line, Some(5));
    assert_eq!(rows[0].right_line, Some(5));
    assert_eq!(rows[1].left_line, Some(6));
    assert_eq!(rows[1].right_line, Some(6));
    assert_eq!(rows[2].left_line, None);
    assert_eq!(rows[2].right_line, Some(7));
    assert_eq!(rows[3].left_line, None);
    assert_eq!(rows[3].right_line, Some(8));
}

#[test]
fn mixed_blocks_produce_correct_sequence() {
    let diff = DiffResult {
        blocks: vec![
            equal(0, 0, 2),
            delete(2, 1, 2),
            equal(3, 2, 1),
            insert(4, 3, 2),
        ],
    };
    let rows = build_display_rows(&diff);
    assert_eq!(rows.len(), 6);
    assert_eq!(rows[0].kind, BlockKind::Equal);
    assert_eq!(rows[1].kind, BlockKind::Equal);
    assert_eq!(rows[2].kind, BlockKind::Delete);
    assert_eq!(rows[3].kind, BlockKind::Equal);
    assert_eq!(rows[4].kind, BlockKind::Insert);
    assert_eq!(rows[5].kind, BlockKind::Insert);
}

#[test]
fn empty_diff_produces_no_rows() {
    let diff = DiffResult { blocks: vec![] };
    let rows = build_display_rows(&diff);
    assert!(rows.is_empty());
}

#[test]
fn rows_carry_block_indices_and_pad_left_side() {
    let diff = DiffResult {
        blocks: vec![equal(0, 0, 1), replace(1, 3, 1, 1)],
    };
    let rows = build_display_rows(&diff);
    assert_eq!(rows.len(), 4);
    assert_eq!(rows[0].block_index, 0);
    assert_eq!(rows[1].block_index, 1);
    assert_eq!(rows[1].right_line, Some(1));
    assert_eq!(rows[2].right_line, None);
    assert_eq!(rows[3].left_line, Some(3));
    assert_eq!(rows[3].right_line, None);
}

#[test]
fn every_line_shown_once_in_order() {
    // Blocks that tile 5 left lines and 4 right lines.
    let diff = DiffResult {
        blocks: vec![equal(0, 0, 1), replace(1, 2, 1, 1), insert(3, 2, 1), delete(3, 1, 3), equal(4, 3, 1)],
    };
    let rows = build_display_rows(&diff);
    let left: Vec<usize> = rows.iter().filter_map(|r| r.left_line).collect();
    let right: Vec<usize> = rows.iter().filter_map(|r| r.right_line).collect();
    assert_eq!(left, vec![0, 1, 2, 3, 4]);
    assert_eq!(right, vec![0, 1, 2, 3]);
    assert!(rows.len() >= 5);
}

#[test]
fn equal_rows_show_the_same_text_on_both_sides() {
    let left = weld::file_io::FileContent::from_lines(&["keep", "old", "same", "gone", "tail"]);
    let right = weld::file_io::FileContent::from_lines(&["keep", "new", "same", "tail", "added"]);
    let app = weld::state::App::from_contents(left, right);
    let mut equal_rows = 0;
    for row in &app.display_rows {
        if row.kind == BlockKind::Equal {
            equal_rows += 1;
            let l = row.left_line.expect("left line");
            let r = row.right_line.expect("right line");
            assert_eq!(app.left_content.lines()[l], app.right_content.lines()[r]);
        }
    }
    assert_eq!(equal_rows, 3);
}
