use weld::diff::{BlockKind, DiffResult};
use weld::file_io::FileContent;

fn make_content(lines: &[&str]) -> FileContent {
    FileContent::from_lines(lines)
}

#[test]
fn identical_files_produce_single_equal_block() {
    let left = make_content(&["hello", "world"]);
    let right = make_content(&["hello", "world"]);
    let result = DiffResult::compute(&left, &right);
    assert!(result.is_identical());
    assert_eq!(result.blocks.len(), 1);
    assert_eq!(result.blocks[0].kind, BlockKind::Equal);
}

#[test]
fn insertion_detected() {
    let left = make_content(&["line1", "line3"]);
    let right = make_content(&["line1", "line2", "line3"]);
    let result = DiffResult::compute(&left, &right);
    let changes = result.change_blocks();
    assert_eq!(changes.len(), 1);
    assert_eq!(changes[0].1.kind, BlockKind::Insert);
    assert_eq!(changes[0].1.right_range, 1..2);
}

#[test]
fn deletion_detected() {
    let left = make_content(&["line1", "line2", "line3"]);
    let right = make_content(&["line1", "line3"]);
    let result = DiffResult::compute(&left, &right);
    let changes = result.change_blocks();
    assert_eq!(changes.len(), 1);
    assert_eq!(changes[0].1.kind, BlockKind::Delete);
    assert_eq!(changes[0].1.left_range, 1..2);
}

#[test]
fn replacement_detected_with_inline_diffs() {
    let left = make_content(&["let app = App::new();"]);
    let right = make_content(&["let app = App::with_config(&config);"]);
    let result = DiffResult::compute(&left, &right);
    let changes = result.change_blocks();
    assert_eq!(changes.len(), 1);
    assert_eq!(changes[0].1.kind, BlockKind::Replace);
    assert!(!changes[0].1.inline_diffs.is_empty());
}

#[test]
fn change_blocks_excludes_equal() {
    let left = make_content(&["same", "different_a", "same"]);
    let right = make_content(&["same", "different_b", "same"]);
    let result = DiffResult::compute(&left, &right);
    let changes = result.change_blocks();
    assert_eq!(changes.len(), 1);
    assert_ne!(changes[0].1.kind, BlockKind::Equal);
}

#[test]
fn empty_files_are_identical() {
    let left = make_content(&[]);
    let right = make_content(&[]);
    let result = DiffResult::compute(&left, &right);
    assert!(result.is_identical());
}

#[test]
fn left_empty_right_has_content() {
    let left = make_content(&[]);
    let right = make_content(&["line1", "line2"]);
    let result = DiffResult::compute(&left, &right);
    let changes = result.change_blocks();
    assert_eq!(changes.len(), 1);
    assert_eq!(changes[0].1.kind, BlockKind::Insert);
}

#[test]
fn blocks_tile_both_files() {
    let left = make_content(&["a", "b", "c", "d", "e"]);
    let right = make_content(&["a", "x", "c", "e", "f", "g"]);
    let result = DiffResult::compute(&left, &right);
    let mut l = 0;
    let mut r = 0;
    for b in &result.blocks {
        assert_eq!(b.left_range.start, l);
        assert_eq!(b.right_range.start, r);
        l = b.left_range.end;
        r = b.right_range.end;
    }
    assert_eq!(l, 5);
    assert_eq!(r, 6);
}

#[test]
fn change_blocks_carry_their_indices() {
    let left = make_content(&["a", "b", "c", "d", "e"]);
    let right = make_content(&["a", "X", "c", "d", "Y"]);
    let result = DiffResult::compute(&left, &right);
    let changes = result.change_blocks();
    assert_eq!(changes.len(), 2);
    for (i, block) in &changes {
        assert_eq!(result.blocks[*i].kind, block.kind);
        assert_ne!(block.kind, BlockKind::Equal);
    }
    assert!(changes[0].0 < changes[1].0);
    assert!(!result.is_identical());
}

#[test]
fn replace_block_pairs_lines_for_inline_diffs() {
    let left = make_content(&["one", "two", "three"]);
    let right = make_content(&["uno", "dos"]);
    let result = DiffResult::compute(&left, &right);
    assert_eq!(result.blocks.len(), 1);
    assert_eq!(result.blocks[0].kind, BlockKind::Replace);
    // Two paired lines: the shorter side has two.
    assert_eq!(result.blocks[0].inline_diffs.len(), 2);
}

fn assert_equal_blocks_pair_equal_lines(left: &FileContent, right: &FileContent) {
    let result = DiffResult::compute(left, right);
    let mut seen_equal = false;
    for block in &result.blocks {
        if block.kind == BlockKind::Equal {
            seen_equal = true;
            assert_eq!(block.left_range.len(), block.right_range.len());
            for (l, r) in block.left_range.clone().zip(block.right_range.clone()) {
                assert_eq!(left.lines()[l], right.lines()[r]);
            }
        }
    }
    assert!(seen_equal);
}

#[test]
fn equal_blocks_pair_equal_lines_small() {
    let left = FileContent::from_lines(&["a", "b", "c", "d", "b"]);
    let right = FileContent::from_lines(&["x", "b", "c", "y", "b", "z"]);
    assert_equal_blocks_pair_equal_lines(&left, &right);
}

#[test]
fn equal_blocks_pair_equal_lines_large() {
    // More than 100 lines on a side takes the interned-line path of the diff.
    let left_lines: Vec<String> = (0..150).map(|i| format!("line {}", i % 37)).collect();
    let right_lines: Vec<String> = (0..160).map(|i| format!("line {}", (i * 7) % 41)).collect();
    let l: Vec<&str> = left_lines.iter().map(|s| s.as_str()).collect();
    let r: Vec<&str> = right_lines.iter().map(|s| s.as_str()).collect();
    assert_equal_blocks_pair_equal_lines(&FileContent::from_lines(&l), &FileContent::from_lines(&r));
}

#[test]
fn blocks_are_never_empty_and_equal_runs_alternate_with_changes() {
    let cases: [(&[&str], &[&str]); 4] = [
        (&["a", "b", "c"], &["a", "x", "c", "d"]),
        (&[], &["a"]),
        (&["a", "b"], &[]),
        (&["1", "2", "3", "4"], &["0", "2", "5", "4", "6"]),
    ];
    for (l, r) in cases {
        let result = DiffResult::compute(&make_content(l), &make_content(r));
        for b in &result.blocks {
            match b.kind {
                BlockKind::Insert => assert!(!b.right_range.is_empty()),
                BlockKind::Delete => assert!(!b.left_range.is_empty()),
                _ => assert!(!b.left_range.is_empty() && !b.right_range.is_empty()),
            }
        }
        for w in result.blocks.windows(2) {
            assert!((w[0].kind == BlockKind::Equal) != (w[1].kind == BlockKind::Equal));
        }
    }
    assert!(DiffResult::compute(&make_content(&[]), &make_content(&[])).blocks.is_empty());
}
