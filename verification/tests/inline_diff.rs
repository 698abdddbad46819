use weld::inline_diff::{InlineDiff, InlineKind, InlineSegment};

fn joined(segs: &[InlineSegment]) -> String {
    segs.iter().map(|s| s.text.as_str()).collect()
}

#[test]
fn identical_lines_produce_single_equal_segment() {
    let result = InlineDiff::compute("hello world", "hello world");
    assert_eq!(result.left_segments.len(), 1);
    assert_eq!(result.left_segments[0].kind, InlineKind::Equal);
    assert_eq!(result.left_segments[0].text, "hello world");
}

#[test]
fn completely_different_lines() {
    let result = InlineDiff::compute("aaa", "bbb");
    assert!(result.left_segments.iter().any(|s| s.kind == InlineKind::Changed));
    assert!(result.right_segments.iter().any(|s| s.kind == InlineKind::Changed));
}

#[test]
fn partial_change_detected() {
    let result = InlineDiff::compute("Host: \"localhost\",", "Host: \"0.0.0.0\",");
    // Character-level: "Host: \"" is equal, the value differs, trailing "\"," is equal.
    assert!(result.left_segments.len() >= 2);
    assert!(result.left_segments.iter().any(|s| s.kind == InlineKind::Equal));
    assert!(result.left_segments.iter().any(|s| s.kind == InlineKind::Changed));
}

#[test]
fn empty_left_line() {
    let result = InlineDiff::compute("", "added text");
    assert!(result.left_segments.is_empty() || result.left_segments.iter().all(|s| s.text.is_empty()));
    assert!(result.right_segments.iter().any(|s| s.kind == InlineKind::Changed));
}

#[test]
fn empty_right_line() {
    let result = InlineDiff::compute("removed text", "");
    assert!(result.left_segments.iter().any(|s| s.kind == InlineKind::Changed));
    assert!(result.right_segments.is_empty() || result.right_segments.iter().all(|s| s.text.is_empty()));
}

#[test]
fn segments_spell_each_line_and_alternate() {
    let l = "foo bar baz qux";
    let r = "foo BAR baz quux";
    let result = InlineDiff::compute(l, r);
    assert_eq!(joined(&result.left_segments), l);
    assert_eq!(joined(&result.right_segments), r);
    for w in result.left_segments.windows(2) {
        assert_ne!(w[0].kind, w[1].kind);
    }
    for w in result.right_segments.windows(2) {
        assert_ne!(w[0].kind, w[1].kind);
    }
}

#[test]
fn word_change_is_merged_with_neighbours_of_its_kind() {
    let result = InlineDiff::compute("a b c", "a x c");
    let kinds: Vec<InlineKind> = result.left_segments.iter().map(|s| s.kind).collect();
    assert_eq!(kinds, vec![InlineKind::Equal, InlineKind::Changed, InlineKind::Equal]);
    assert_eq!(result.left_segments[0].text, "a ");
    assert_eq!(result.left_segments[1].text, "b");
    assert_eq!(result.right_segments[1].text, "x");
    assert_eq!(result.left_segments[2].text, " c");
}

#[test]
fn merge_segments_joins_runs() {
    let segs = vec![
        InlineSegment { kind: InlineKind::Equal, text: "a".to_string() },
        InlineSegment { kind: InlineKind::Equal, text: "b".to_string() },
        InlineSegment { kind: InlineKind::Changed, text: "c".to_string() },
        InlineSegment { kind: InlineKind::Changed, text: "d".to_string() },
        InlineSegment { kind: InlineKind::Equal, text: "e".to_string() },
    ];
    let merged = weld::inline_diff::merge_segments(segs);
    assert_eq!(merged.len(), 3);
    assert_eq!(merged[0].text, "ab");
    assert_eq!(merged[1].text, "cd");
    assert_eq!(merged[1].kind, InlineKind::Changed);
    assert_eq!(merged[2].text, "e");
}

fn equal_text(segments: &[weld::inline_diff::InlineSegment]) -> String {
    segments
        .iter()
        .filter(|s| s.kind == InlineKind::Equal)
        .map(|s| s.text.as_str())
        .collect()
}

#[test]
fn unchanged_text_is_shared_by_both_sides() {
    let pairs = [
        ("let x = 1;", "let y = 1;"),
        ("fn foo(a: u8)", "fn foo(a: u16, b: u8)"),
        ("same", "same"),
        ("", "new"),
    ];
    for (l, r) in pairs {
        let d = InlineDiff::compute(l, r);
        assert_eq!(equal_text(&d.left_segments), equal_text(&d.right_segments));
    }
    let d = InlineDiff::compute("let x = 1;", "let y = 1;");
    assert_eq!(equal_text(&d.left_segments), "let  = 1;");
}

#[test]
fn diff_is_character_level() {
    let d = InlineDiff::compute("ab", "ac");
    let left: Vec<(InlineKind, &str)> = d.left_segments.iter().map(|s| (s.kind, s.text.as_str())).collect();
    let right: Vec<(InlineKind, &str)> = d.right_segments.iter().map(|s| (s.kind, s.text.as_str())).collect();
    assert_eq!(left, vec![(InlineKind::Equal, "a"), (InlineKind::Changed, "b")]);
    assert_eq!(right, vec![(InlineKind::Equal, "a"), (InlineKind::Changed, "c")]);
}

#[test]
fn no_segment_is_empty() {
    for (l, r) in [("", "x"), ("abc", ""), ("fn a()", "fn b(c)"), ("same", "same"), ("", "")] {
        let d = InlineDiff::compute(l, r);
        assert!(d.left_segments.iter().all(|s| !s.text.is_empty()));
        assert!(d.right_segments.iter().all(|s| !s.text.is_empty()));
    }
    let d = InlineDiff::compute("same line", "same line");
    assert_eq!(d.right_segments.len(), 1);
    assert_eq!(d.right_segments[0].kind, InlineKind::Equal);
    assert_eq!(d.right_segments[0].text, "same line");
}
