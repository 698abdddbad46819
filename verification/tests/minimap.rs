use weld::diff::BlockKind;
use weld::display::DisplayRow;
use weld::minimap::{
    is_active_at_minimap_row, is_diff_at_minimap_row, minimap_rows, viewport_indicator, MinimapFill,
};

fn make_rows(kinds: &[BlockKind]) -> Vec<DisplayRow> {
    kinds
        .iter()
        .enumerate()
        .map(|(i, &kind)| DisplayRow {
            left_line: Some(i),
            right_line: Some(i),
            kind,
            block_index: 0,
        })
        .collect()
}

/// Build display rows with realistic block indices (new block index on each kind transition).
fn make_rows_with_blocks(kinds: &[BlockKind]) -> Vec<DisplayRow> {
    let mut rows = Vec::new();
    let mut block_index = 0;
    for (i, &kind) in kinds.iter().enumerate() {
        if i > 0 && kind != kinds[i - 1] {
            block_index += 1;
        }
        rows.push(DisplayRow {
            left_line: Some(i),
            right_line: Some(i),
            kind,
            block_index,
        });
    }
    rows
}

#[test]
fn empty_display_rows_returns_false() {
    assert!(!is_diff_at_minimap_row(&[], 0, 10));
}

#[test]
fn all_equal_rows_returns_false() {
    let rows = make_rows(&[BlockKind::Equal; 20]);
    for r in 0..10 {
        assert!(!is_diff_at_minimap_row(&rows, r, 10));
    }
}

#[test]
fn diff_row_maps_to_correct_minimap_row() {
    // 10 display rows, minimap height 10 → 1:1 mapping.
    let mut kinds = vec![BlockKind::Equal; 10];
    kinds[5] = BlockKind::Replace;
    let rows = make_rows(&kinds);

    assert!(!is_diff_at_minimap_row(&rows, 4, 10));
    assert!(is_diff_at_minimap_row(&rows, 5, 10));
    assert!(!is_diff_at_minimap_row(&rows, 6, 10));
}

#[test]
fn multiple_display_rows_per_minimap_row() {
    // 20 display rows, minimap height 10 → 2 display rows per minimap row.
    // Put a diff at display row 11 → should appear at minimap row 5.
    let mut kinds = vec![BlockKind::Equal; 20];
    kinds[11] = BlockKind::Insert;
    let rows = make_rows(&kinds);

    assert!(!is_diff_at_minimap_row(&rows, 4, 10));
    assert!(is_diff_at_minimap_row(&rows, 5, 10));
    assert!(!is_diff_at_minimap_row(&rows, 6, 10));
}

#[test]
fn fewer_display_rows_than_minimap_rows() {
    // 5 display rows, minimap height 10 → some minimap rows share display rows.
    let mut kinds = vec![BlockKind::Equal; 5];
    kinds[2] = BlockKind::Delete;
    let rows = make_rows(&kinds);

    // Display row 2 maps to minimap rows 4 and 5 (2*10/5=4, 3*10/5=6).
    assert!(!is_diff_at_minimap_row(&rows, 3, 10));
    assert!(is_diff_at_minimap_row(&rows, 4, 10));
    assert!(is_diff_at_minimap_row(&rows, 5, 10));
    assert!(!is_diff_at_minimap_row(&rows, 6, 10));
}

#[test]
fn viewport_indicator_full_file_visible() {
    // 20 display rows, viewport 20, minimap 10 → indicator spans full height.
    let (top, height) = viewport_indicator(0, 20, 20, 10);
    assert_eq!(top, 0);
    assert_eq!(height, 10);
}

#[test]
fn viewport_indicator_half_scrolled() {
    // 100 display rows, viewport 20, scroll_y 50, minimap 50.
    let (top, height) = viewport_indicator(50, 20, 100, 50);
    assert_eq!(top, 25);
    assert_eq!(height, 10);
}

#[test]
fn viewport_indicator_minimum_height() {
    // Very large file, tiny viewport → indicator height must be at least 1.
    let (_, height) = viewport_indicator(0, 1, 10000, 20);
    assert_eq!(height, 1);
}

#[test]
fn viewport_indicator_empty_file() {
    let (top, height) = viewport_indicator(0, 10, 0, 20);
    assert_eq!(top, 0);
    assert_eq!(height, 20);
}

#[test]
fn viewport_indicator_scrolled_to_end() {
    // 100 display rows, viewport 20, scrolled to max (80), minimap 50.
    // Indicator should not overflow the minimap.
    let (top, height) = viewport_indicator(80, 20, 100, 50);
    assert!(
        top + height <= 50,
        "indicator must not overflow minimap: top={top}, height={height}"
    );
    assert!(height >= 1, "indicator height must be at least 1");
}

#[test]
fn active_none_returns_false() {
    let rows = make_rows(&[BlockKind::Replace; 10]);
    assert!(!is_active_at_minimap_row(&rows, 0, 10, None));
}

#[test]
fn active_matches_correct_block() {
    // Equal(block 0) → Replace(block 1) → Equal(block 2) → Insert(block 3)
    let kinds = vec![
        BlockKind::Equal,
        BlockKind::Equal,
        BlockKind::Replace,
        BlockKind::Replace,
        BlockKind::Equal,
        BlockKind::Equal,
        BlockKind::Insert,
    ];
    let rows = make_rows_with_blocks(&kinds);
    // 7 display rows, minimap height 7 → 1:1 mapping.

    // Block 1 (Replace) is active — rows 2 and 3 should match.
    assert!(!is_active_at_minimap_row(&rows, 1, 7, Some(1)));
    assert!(is_active_at_minimap_row(&rows, 2, 7, Some(1)));
    assert!(is_active_at_minimap_row(&rows, 3, 7, Some(1)));
    assert!(!is_active_at_minimap_row(&rows, 4, 7, Some(1)));

    // Block 3 (Insert) is active — only row 6 should match.
    assert!(!is_active_at_minimap_row(&rows, 5, 7, Some(3)));
    assert!(is_active_at_minimap_row(&rows, 6, 7, Some(3)));
}

#[test]
fn active_ignores_equal_rows_with_matching_block_index() {
    // Equal rows happen to have block_index 0, but active should not highlight them.
    let rows = make_rows(&[BlockKind::Equal; 5]);
    assert!(!is_active_at_minimap_row(&rows, 0, 5, Some(0)));
}

#[test]
fn zero_minimap_height_shows_nothing() {
    let rows = make_rows(&[BlockKind::Replace; 4]);
    assert!(!is_diff_at_minimap_row(&rows, 0, 0));
    assert!(!is_active_at_minimap_row(&rows, 0, 0, Some(0)));
    assert_eq!(viewport_indicator(3, 5, 10, 0), (0, 0));
}

#[test]
fn indicator_height_limited_by_room_below_top() {
    // 10 rows, minimap 10, scroll 8, viewport 5 → top 8, height min(5, 2) = 2.
    assert_eq!(viewport_indicator(8, 5, 10, 10), (8, 2));
}

#[test]
fn minimap_rows_combine_fill_and_indicator() {
    // Rows 0-1 equal (block 0), 2-3 replace (block 1), 4-5 equal (block 2), 6-7 insert (block 3).
    let kinds = [
        BlockKind::Equal,
        BlockKind::Equal,
        BlockKind::Replace,
        BlockKind::Replace,
        BlockKind::Equal,
        BlockKind::Equal,
        BlockKind::Insert,
        BlockKind::Insert,
    ];
    let rows = make_rows_with_blocks(&kinds);
    // Minimap of 4 rows: each stands for two display rows.
    let mm = minimap_rows(&rows, 0, 4, Some(3), 4);
    let fills: Vec<MinimapFill> = mm.iter().map(|r| r.fill).collect();
    assert_eq!(
        fills,
        vec![MinimapFill::Background, MinimapFill::Diff, MinimapFill::Background, MinimapFill::Active]
    );
    // Viewport of 4 rows at the top covers half the file: minimap rows 0 and 1.
    let ind: Vec<bool> = mm.iter().map(|r| r.indicator).collect();
    assert_eq!(ind, vec![true, true, false, false]);
}

#[test]
fn minimap_rows_of_zero_height_is_empty() {
    let rows = make_rows(&[BlockKind::Replace]);
    assert!(minimap_rows(&rows, 0, 10, None, 0).is_empty());
}

#[test]
fn every_change_shows_on_some_minimap_row() {
    for total in [1usize, 3, 7, 50, 101] {
        for h in [1u16, 2, 3, 10, 40] {
            for i in 0..total {
                let mut kinds = vec![BlockKind::Equal; total];
                kinds[i] = BlockKind::Insert;
                let rows = make_rows(&kinds);
                assert!(
                    (0..h).any(|r| is_diff_at_minimap_row(&rows, r, h)),
                    "change at row {i} of {total} missing from a minimap {h} rows tall"
                );
            }
        }
    }
}

#[test]
fn active_minimap_row_is_a_diff_row() {
    let kinds = [BlockKind::Equal, BlockKind::Replace, BlockKind::Equal, BlockKind::Delete];
    let rows = make_rows_with_blocks(&kinds);
    for h in 1u16..6 {
        for r in 0..h {
            for active in [Some(0usize), Some(1), Some(2), Some(3), None] {
                if is_active_at_minimap_row(&rows, r, h, active) {
                    assert!(is_diff_at_minimap_row(&rows, r, h));
                }
            }
        }
    }
}
