use weld::text::expand_tabs;

#[test]
fn no_tabs() {
    assert_eq!(expand_tabs("hello", 4), "hello");
}

#[test]
fn tab_at_start() {
    assert_eq!(expand_tabs("\thello", 4), "    hello");
}

#[test]
fn tab_mid_word() {
    // "ab" is 2 chars, so tab at col 2 → 2 spaces to reach col 4
    assert_eq!(expand_tabs("ab\tc", 4), "ab  c");
}

#[test]
fn multiple_tabs() {
    assert_eq!(expand_tabs("\t\t", 4), "        ");
}

#[test]
fn empty_string() {
    assert_eq!(expand_tabs("", 4), "");
}

#[test]
fn honors_custom_tab_width() {
    assert_eq!(expand_tabs("\ta", 2), "  a");
    assert_eq!(expand_tabs("\ta", 8), "        a");
}

#[test]
fn tab_after_wide_run_reaches_next_stop() {
    assert_eq!(expand_tabs("abcd\tx", 4), "abcd    x");
    assert_eq!(expand_tabs("abcde\tx", 4), "abcde   x");
}

#[test]
fn view_expand_tabs_uses_four_columns() {
    assert_eq!(weld::view::expand_tabs("a\tb"), "a   b");
}

#[test]
fn ordinary_lines_are_short() {
    assert!(weld::text::is_line_short(""));
    assert!(weld::text::is_line_short("fn main() {\t}"));
    let content = weld::file_io::FileContent::from_lines(&["a", "b\tc", ""]);
    assert!(content.lines_are_short());
}

#[test]
fn expansion_appends_one_character_at_a_time() {
    let text = "a\tbc\t\td";
    let mut prefix = String::new();
    for c in text.chars() {
        let before = expand_tabs(&prefix, 4);
        let piece = if c == '\t' {
            " ".repeat(4 - before.chars().count() % 4)
        } else {
            c.to_string()
        };
        prefix.push(c);
        assert_eq!(expand_tabs(&prefix, 4), before + &piece);
    }
    assert!(!expand_tabs(text, 4).contains('\t'));
    assert_eq!(expand_tabs("no tabs here", 4), "no tabs here");
}
