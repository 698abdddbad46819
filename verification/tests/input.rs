use weld::file_io::FileContent;
use weld::input::{handle_key, scroll_to_current_block, Key};
use weld::state::App;
use weld::viewport::Viewport;

fn key(c: char) -> Key {
    Key::Char(c)
}

fn test_app(left_lines: &[&str], right_lines: &[&str], viewport: (u16, u16)) -> App {
    let left_content = FileContent::from_lines(left_lines);
    let right_content = FileContent::from_lines(right_lines);
    let mut app = App::from_contents(left_content, right_content);
    app.viewport = Viewport {
        scroll_y: 0,
        scroll_x: 0,
        height: viewport.1,
        width: viewport.0,
    };
    app
}

#[test]
fn j_caps_at_viewport_bottom() {
    let lines = vec!["line"; 20];
    let mut app = test_app(&lines, &lines, (40, 10));

    for _ in 0..25 {
        handle_key(&mut app, key('j'));
    }

    // 20 identical lines = 20 display rows. max scroll = 20 - 10 = 10
    assert_eq!(app.viewport.scroll_y, 10);
}

#[test]
fn j_scrolls_to_max() {
    let lines = vec!["content"; 50];
    let mut app = test_app(&lines, &lines, (40, 20));

    for _ in 0..100 {
        handle_key(&mut app, key('j'));
    }

    assert_eq!(app.viewport.scroll_y, app.viewport.scroll_y_max(50));
}

#[test]
fn dollar_uses_global_max_across_both_files() {
    let mut left: Vec<&str> = vec!["short"; 51];
    let long = &"a".repeat(200);
    left[50] = long;

    let mut app = test_app(&left, &["short"; 51], (40, 10));

    handle_key(&mut app, key('$'));

    // Global max = 201 (200 + leading space), viewport = 40 → scroll_x = 161
    assert_eq!(
        app.viewport.scroll_x, 161,
        "$ should use global max even if long line is off-screen"
    );
}

#[test]
fn dollar_adapts_when_scrolled_to_long_line() {
    let long = "x".repeat(100);
    let mut lines: Vec<String> = vec!["short".to_string(); 20];
    lines[15] = long;
    let line_refs: Vec<&str> = lines.iter().map(|s| s.as_str()).collect();

    let mut app = test_app(&line_refs, &line_refs, (40, 10));

    app.viewport.scroll_y = 10;
    handle_key(&mut app, key('$'));

    // max_x = 101 (100 + leading space), viewport_width = 40 → scroll_x = 61
    assert_eq!(
        app.viewport.scroll_x, 61,
        "$ should use the long line now visible"
    );
}

#[test]
fn gg_jumps_to_first_block() {
    let left = vec!["a", "b", "c", "d", "e", "f", "g", "h"];
    let right = vec!["a", "X", "c", "d", "e", "Y", "g", "h"];
    let mut app = test_app(&left, &right, (40, 10));
    app.current_block = 1;

    handle_key(&mut app, key('g'));
    handle_key(&mut app, key('g'));

    assert_eq!(app.current_block, 0);
}

#[test]
fn shift_g_jumps_to_last_block() {
    let left = vec!["a", "b", "c", "d", "e", "f", "g", "h"];
    let right = vec!["a", "X", "c", "d", "e", "Y", "g", "h"];
    let mut app = test_app(&left, &right, (40, 10));

    assert_eq!(app.current_block, 0);
    handle_key(&mut app, key('G'));
    assert_eq!(app.current_block, app.change_block_indices.len() - 1);
}

#[test]
fn l_and_dollar_agree_on_max_scroll() {
    let long = "x".repeat(100);
    let mut app = test_app(&[&long], &[&long], (40, 10));

    handle_key(&mut app, key('$'));
    let dollar_pos = app.viewport.scroll_x;

    app.viewport.scroll_x = 0;
    for _ in 0..200 {
        handle_key(&mut app, key('l'));
    }

    assert_eq!(
        app.viewport.scroll_x, dollar_pos,
        "l max should equal $ position"
    );
}

#[test]
fn g_then_non_g_does_not_jump() {
    let lines = vec!["line"; 50];
    let mut app = test_app(&lines, &lines, (40, 10));
    app.viewport.scroll_y = 30;

    handle_key(&mut app, key('g'));
    handle_key(&mut app, key('j'));

    assert_eq!(app.viewport.scroll_y, 31, "g then j should just move down");
}

#[test]
fn display_rows_include_padding_for_inserts() {
    let left = vec!["a", "b", "c"];
    let right = vec!["a", "x", "y", "b", "c"];
    let app = test_app(&left, &right, (40, 20));

    // Display rows should include padding for alignment
    assert!(app.display_rows.len() >= 5);
}

#[test]
fn shift_j_advances_to_next_block() {
    // Equal lines, then a change, then equal, then a change
    let left = vec!["a", "b", "c", "d", "e", "f", "g", "h"];
    let right = vec!["a", "X", "c", "d", "e", "Y", "g", "h"];
    let mut app = test_app(&left, &right, (40, 10));

    assert_eq!(app.current_block, 0);
    handle_key(&mut app, key('J'));
    assert_eq!(app.current_block, 1);
}

#[test]
fn shift_k_retreats_to_previous_block() {
    let left = vec!["a", "b", "c", "d", "e", "f", "g", "h"];
    let right = vec!["a", "X", "c", "d", "e", "Y", "g", "h"];
    let mut app = test_app(&left, &right, (40, 10));

    app.current_block = 1;
    handle_key(&mut app, key('K'));
    assert_eq!(app.current_block, 0);
}

#[test]
fn shift_j_clamps_at_last_block() {
    let left = vec!["a", "b"];
    let right = vec!["a", "X"];
    let mut app = test_app(&left, &right, (40, 10));

    // Only one change block — repeated Ctrl+j should stay at 0
    handle_key(&mut app, key('J'));
    handle_key(&mut app, key('J'));
    assert_eq!(app.current_block, 0);
}

#[test]
fn shift_k_clamps_at_first_block() {
    let left = vec!["a", "b"];
    let right = vec!["a", "X"];
    let mut app = test_app(&left, &right, (40, 10));

    handle_key(&mut app, key('K'));
    assert_eq!(app.current_block, 0);
}

#[test]
fn scroll_to_block_centers_vertically() {
    // 30 equal lines, then a change, then more equal lines
    let mut left: Vec<&str> = vec!["same"; 30];
    left.push("old");
    left.extend(vec!["same"; 20]);
    let mut right: Vec<&str> = vec!["same"; 30];
    right.push("new");
    right.extend(vec!["same"; 20]);

    let mut app = test_app(&left, &right, (40, 10));

    scroll_to_current_block(&mut app);

    // Block starts at display row 30. Center in viewport of height 10 → scroll_y = 30 - 5 = 25
    assert_eq!(app.viewport.scroll_y, 25);
}

#[test]
fn copy_left_to_right_replaces_content() {
    let left = vec!["a", "b", "c"];
    let right = vec!["a", "X", "c"];
    let mut app = test_app(&left, &right, (40, 10));

    handle_key(&mut app, key('L'));

    assert_eq!(app.right_content.lines(), &["a", "b", "c"]);
    assert!(app.right_dirty);
    assert!(!app.left_dirty);
}

#[test]
fn copy_right_to_left_replaces_content() {
    let left = vec!["a", "b", "c"];
    let right = vec!["a", "X", "c"];
    let mut app = test_app(&left, &right, (40, 10));

    handle_key(&mut app, key('H'));

    assert_eq!(app.left_content.lines(), &["a", "X", "c"]);
    assert!(app.left_dirty);
    assert!(!app.right_dirty);
}

#[test]
fn copy_removes_change_block() {
    let left = vec!["a", "b", "c"];
    let right = vec!["a", "X", "c"];
    let mut app = test_app(&left, &right, (40, 10));

    assert_eq!(app.change_count, 1);
    handle_key(&mut app, key('L'));
    assert_eq!(app.change_count, 0);
}

#[test]
fn copy_clamps_current_block() {
    // Two change blocks; navigate to the last, then copy it away.
    let left = vec!["a", "b", "c", "d", "e"];
    let right = vec!["a", "X", "c", "Y", "e"];
    let mut app = test_app(&left, &right, (40, 10));

    handle_key(&mut app, key('J')); // move to second block
    assert_eq!(app.current_block, 1);

    handle_key(&mut app, key('L')); // copy it away
    assert_eq!(app.change_count, 1);
    assert_eq!(app.current_block, 0); // clamped back
}

#[test]
fn copy_insert_block_left_to_right() {
    // Right has extra lines — copying left→right removes them.
    let left = vec!["a", "b"];
    let right = vec!["a", "X", "Y", "b"];
    let mut app = test_app(&left, &right, (40, 10));

    handle_key(&mut app, key('L'));

    assert_eq!(app.right_content.lines(), &["a", "b"]);
    assert_eq!(app.change_count, 0);
}

#[test]
fn copy_noop_when_no_changes() {
    let left = vec!["a", "b", "c"];
    let right = vec!["a", "b", "c"];
    let mut app = test_app(&left, &right, (40, 10));

    handle_key(&mut app, key('L'));

    assert!(!app.left_dirty);
    assert!(!app.right_dirty);
}

#[test]
fn q_stops_the_app_and_other_keys_scroll() {
    let lines = vec!["line"; 30];
    let mut app = test_app(&lines, &lines, (40, 10));
    handle_key(&mut app, Key::Down);
    handle_key(&mut app, Key::Down);
    assert_eq!(app.viewport.scroll_y, 2);
    handle_key(&mut app, Key::Up);
    assert_eq!(app.viewport.scroll_y, 1);
    handle_key(&mut app, Key::Other);
    assert_eq!(app.viewport.scroll_y, 1);
    assert!(app.running);
    handle_key(&mut app, key('q'));
    assert!(!app.running);
}

#[test]
fn horizontal_keys_move_two_columns() {
    let long = "x".repeat(100);
    let mut app = test_app(&[&long], &[&long], (40, 10));
    handle_key(&mut app, Key::Right);
    assert_eq!(app.viewport.scroll_x, 2);
    handle_key(&mut app, key('h'));
    assert_eq!(app.viewport.scroll_x, 0);
    handle_key(&mut app, Key::End);
    assert_eq!(app.viewport.scroll_x, 61);
    handle_key(&mut app, Key::Home);
    assert_eq!(app.viewport.scroll_x, 0);
}

#[test]
fn undo_and_redo_of_app_copy() {
    let left = vec!["a", "b", "c"];
    let right = vec!["a", "X", "c"];
    let mut app = test_app(&left, &right, (40, 10));
    app.copy_left_to_right();
    assert_eq!(app.right_content.lines(), &["a", "b", "c"]);
    app.undo();
    assert_eq!(app.right_content.lines(), &["a", "X", "c"]);
    assert!(!app.right_dirty);
    assert_eq!(app.change_count, 1);
    app.redo();
    assert_eq!(app.right_content.lines(), &["a", "b", "c"]);
    assert!(app.right_dirty);
    app.undo();
    app.undo(); // nothing left: no change
    assert_eq!(app.right_content.lines(), &["a", "X", "c"]);
}

#[test]
fn new_app_scrolls_initially_and_keeps_titles() {
    let app = App::new(
        FileContent::from_lines(&["a"]),
        FileContent::from_lines(&["b"]),
        "~/l".to_string(),
        "l.txt".to_string(),
        "~/r".to_string(),
        "r.txt".to_string(),
    );
    assert!(app.needs_initial_scroll);
    assert_eq!(app.left_filename, "l.txt");
    assert_eq!(app.right_dir, "~/r");
    assert_eq!(app.change_count, 1);
}

#[test]
fn scroll_to_current_block_moves_only_scroll_y() {
    let left: Vec<&str> = vec!["same"; 60];
    let mut right = left.clone();
    right[40] = "changed";
    let mut app = test_app(&left, &right, (30, 10));
    app.viewport.scroll_x = 3;
    let before_block = app.current_block;
    scroll_to_current_block(&mut app);
    assert_eq!(app.viewport.scroll_y, 35);
    assert_eq!(app.viewport.scroll_x, 3);
    assert_eq!(app.viewport.height, 10);
    assert_eq!(app.viewport.width, 30);
    assert_eq!(app.current_block, before_block);
}

#[test]
fn undo_keeps_titles_and_minimap() {
    let mut app = test_app(&["a", "b"], &["a", "c"], (30, 10));
    app.left_dir = "dir-l".to_string();
    app.right_filename = "r.txt".to_string();
    app.minimap_width = 0;
    app.copy_left_to_right();
    app.undo();
    assert_eq!(app.left_dir, "dir-l");
    assert_eq!(app.right_filename, "r.txt");
    assert_eq!(app.minimap_width, 0);
    assert_eq!(app.right_content.lines(), &["a", "c"]);
}
