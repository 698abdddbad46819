//! Character-level (inline) diff of two lines.
use vstd::prelude::*;

verus! {

/// Whether an inline segment is common to both lines or changed.
#[derive(Debug, Clone, Copy, PartialEq, Eq, Structural)]
pub enum InlineKind {
    Equal,
    Changed,
}

/// A segment of an inline (character-level) diff within a single line.
#[derive(Debug)]
pub struct InlineSegment {
    pub kind: InlineKind,
    pub text: String,
}

impl View for InlineSegment {
    type V = (InlineKind, Seq<char>);

    open spec fn view(&self) -> (InlineKind, Seq<char>) {
        (self.kind, self.text@)
    }
}

/// The views of a sequence of segments.
pub open spec fn segs_view(s: Seq<InlineSegment>) -> Seq<(InlineKind, Seq<char>)> {
    s.map_values(|x: InlineSegment| x@)
}

/// Character-level diff between two lines.
#[derive(Debug)]
pub struct InlineDiff {
    pub left_segments: Vec<InlineSegment>,
    pub right_segments: Vec<InlineSegment>,
}

/// The mathematical value of an inline diff: the segments of each side.
pub struct InlineDiffView {
    pub left: Seq<(InlineKind, Seq<char>)>,
    pub right: Seq<(InlineKind, Seq<char>)>,
}

impl View for InlineDiff {
    type V = InlineDiffView;

    open spec fn view(&self) -> InlineDiffView {
        InlineDiffView {
            left: segs_view(self.left_segments@),
            right: segs_view(self.right_segments@),
        }
    }
}

/// The tag of one character of a character diff: common to both sides, only in the
/// old line, or only in the new line.
#[derive(Debug, Clone, Copy, PartialEq, Eq, Structural)]
pub enum ChangeKind {
    Equal,
    Delete,
    Insert,
}

/// One character of a character diff with its tag.
#[derive(Debug)]
pub struct CharChange {
    pub tag: ChangeKind,
    pub value: String,
}

impl View for CharChange {
    type V = (ChangeKind, Seq<char>);

    open spec fn view(&self) -> (ChangeKind, Seq<char>) {
        (self.tag, self.value@)
    }
}

/// The views of a sequence of character changes.
pub open spec fn changes_view(s: Seq<CharChange>) -> Seq<(ChangeKind, Seq<char>)> {
    s.map_values(|x: CharChange| x@)
}

/// The changes that `similar`'s character diff reports between two lines.
pub uninterp spec fn char_diff(old: Seq<char>, new: Seq<char>) -> Seq<(ChangeKind, Seq<char>)>;

/// The text of the old side of a change list: the tokens not inserted.
pub open spec fn old_side_text(c: Seq<(ChangeKind, Seq<char>)>) -> Seq<char>
    decreases c.len(),
{
    if c.len() == 0 {
        Seq::empty()
    } else if c.last().0 == ChangeKind::Insert {
        old_side_text(c.drop_last())
    } else {
        old_side_text(c.drop_last()) + c.last().1
    }
}

/// The text of the new side of a change list: the tokens not deleted.
pub open spec fn new_side_text(c: Seq<(ChangeKind, Seq<char>)>) -> Seq<char>
    decreases c.len(),
{
    if c.len() == 0 {
        Seq::empty()
    } else if c.last().0 == ChangeKind::Delete {
        new_side_text(c.drop_last())
    } else {
        new_side_text(c.drop_last()) + c.last().1
    }
}

/// The character changes between two lines, from
/// `similar::TextDiff::from_chars` and `iter_all_changes`, each converted to a
/// `CharChange`.
///
/// Claimed of the crate: the result is the named `char_diff` of the two
/// texts; each change is one character (the tokenizer splits a string at
/// every character boundary); since the tokens cover the strings in order and
/// equal changes pair equal tokens, the tokens that are not inserted spell
/// the old line and the tokens that are not deleted spell the new line; and
/// for two equal lines every change is equal (the common prefix is the whole
/// line).
#[verifier::external_body]
fn char_changes(old: &str, new: &str) -> (r: Vec<CharChange>)
    ensures
        changes_view(r@) == char_diff(old@, new@),
        old_side_text(changes_view(r@)) == old@,
        new_side_text(changes_view(r@)) == new@,
        forall|i: int| 0 <= i < r@.len() ==> (#[trigger] r@[i]).value@.len() == 1,
        old@ == new@ ==> forall|i: int| 0 <= i < r@.len() ==> (#[trigger] r@[i]).tag == ChangeKind::Equal,
{
    let diff = similar::TextDiff::from_chars(old, new);
    diff.iter_all_changes().map(|c| CharChange {
        tag: match c.tag() {
            similar::ChangeTag::Equal => ChangeKind::Equal,
            similar::ChangeTag::Delete => ChangeKind::Delete,
            similar::ChangeTag::Insert => ChangeKind::Insert,
        },
        value: c.value().to_string(),
    }).collect()
}

/// The segment kind that a change of the given tag takes.
pub open spec fn kind_of(tag: ChangeKind) -> InlineKind {
    if tag == ChangeKind::Equal {
        InlineKind::Equal
    } else {
        InlineKind::Changed
    }
}

/// The raw (unmerged) segments of the old side: one per change that is not
/// an insertion.
pub open spec fn left_raw(c: Seq<(ChangeKind, Seq<char>)>) -> Seq<(InlineKind, Seq<char>)>
    decreases c.len(),
{
    if c.len() == 0 {
        Seq::empty()
    } else if c.last().0 == ChangeKind::Insert {
        left_raw(c.drop_last())
    } else {
        left_raw(c.drop_last()).push((kind_of(c.last().0), c.last().1))
    }
}

/// The raw (unmerged) segments of the new side: one per change that is not
/// a deletion.
pub open spec fn right_raw(c: Seq<(ChangeKind, Seq<char>)>) -> Seq<(InlineKind, Seq<char>)>
    decreases c.len(),
{
    if c.len() == 0 {
        Seq::empty()
    } else if c.last().0 == ChangeKind::Delete {
        right_raw(c.drop_last())
    } else {
        right_raw(c.drop_last()).push((kind_of(c.last().0), c.last().1))
    }
}

/// Segments after merging each run of neighbours of one kind into a single
/// segment whose text is their concatenation.
pub open spec fn merge_spec(s: Seq<(InlineKind, Seq<char>)>) -> Seq<(InlineKind, Seq<char>)>
    decreases s.len(),
{
    if s.len() == 0 {
        Seq::empty()
    } else {
        let m = merge_spec(s.drop_last());
        let x = s.last();
        if m.len() > 0 && m.last().0 == x.0 {
            m.drop_last().push((x.0, m.last().1 + x.1))
        } else {
            m.push(x)
        }
    }
}

/// The concatenated text of a sequence of segments.
pub open spec fn seg_text(s: Seq<(InlineKind, Seq<char>)>) -> Seq<char>
    decreases s.len(),
{
    if s.len() == 0 {
        Seq::empty()
    } else {
        seg_text(s.drop_last()) + s.last().1
    }
}

/// No two neighbouring segments have the same kind.
pub open spec fn alternating(s: Seq<(InlineKind, Seq<char>)>) -> bool {
    forall|i: int| 0 <= i < s.len() - 1 ==> #[trigger] s[i].0 != s[i + 1].0
}

/// The inline diff built from a list of character changes.
pub open spec fn inline_from_changes(c: Seq<(ChangeKind, Seq<char>)>) -> InlineDiffView {
    InlineDiffView { left: merge_spec(left_raw(c)), right: merge_spec(right_raw(c)) }
}

/// Merging keeps the concatenated text and leaves no two neighbours of one kind.
pub proof fn lemma_merge(s: Seq<(InlineKind, Seq<char>)>)
    ensures
        seg_text(merge_spec(s)) == seg_text(s),
        alternating(merge_spec(s)),
        merge_spec(s).len() <= s.len(),
        s.len() > 0 ==> merge_spec(s).len() > 0,
    decreases s.len(),
{
    if s.len() > 0 {
        let m = merge_spec(s.drop_last());
        lemma_merge(s.drop_last());
        let x = s.last();
        if m.len() > 0 && m.last().0 == x.0 {
            let r = m.drop_last().push((x.0, m.last().1 + x.1));
            assert(r.drop_last() =~= m.drop_last());
            assert(m.drop_last().push(m.last()) =~= m);
            assert(seg_text(m) == seg_text(m.drop_last()) + m.last().1);
            assert(seg_text(r) =~= seg_text(m.drop_last()) + (m.last().1 + x.1));
            assert(seg_text(r) =~= seg_text(m) + x.1);
            assert forall|i: int| 0 <= i < r.len() - 1 implies #[trigger] r[i].0 != r[i + 1].0 by {
                assert(r[i] == m[i]);
                if i + 1 < r.len() - 1 {
                    assert(r[i + 1] == m[i + 1]);
                } else {
                    assert(r[i + 1].0 == m[i + 1].0);
                }
            }
        } else {
            let r = m.push(x);
            assert(r.drop_last() =~= m);
            assert forall|i: int| 0 <= i < r.len() - 1 implies #[trigger] r[i].0 != r[i + 1].0 by {
                assert(r[i] == m[i]);
                if i + 1 < r.len() - 1 {
                    assert(r[i + 1] == m[i + 1]);
                }
            }
        }
    }
}

/// The raw segments of each side spell that side's text.
pub proof fn lemma_raw_text(c: Seq<(ChangeKind, Seq<char>)>)
    ensures
        seg_text(left_raw(c)) == old_side_text(c),
        seg_text(right_raw(c)) == new_side_text(c),
    decreases c.len(),
{
    if c.len() > 0 {
        lemma_raw_text(c.drop_last());
        let l = left_raw(c.drop_last());
        let r = right_raw(c.drop_last());
        assert(l.push((kind_of(c.last().0), c.last().1)).drop_last() =~= l);
        assert(r.push((kind_of(c.last().0), c.last().1)).drop_last() =~= r);
    }
}

/// The text of the unchanged segments, concatenated in order.
pub open spec fn equal_text(s: Seq<(InlineKind, Seq<char>)>) -> Seq<char>
    decreases s.len(),
{
    if s.len() == 0 {
        Seq::empty()
    } else if s.last().0 == InlineKind::Equal {
        equal_text(s.drop_last()) + s.last().1
    } else {
        equal_text(s.drop_last())
    }
}

/// The text of the equal changes, concatenated in order.
pub open spec fn common_text(c: Seq<(ChangeKind, Seq<char>)>) -> Seq<char>
    decreases c.len(),
{
    if c.len() == 0 {
        Seq::empty()
    } else if c.last().0 == ChangeKind::Equal {
        common_text(c.drop_last()) + c.last().1
    } else {
        common_text(c.drop_last())
    }
}

/// Merging keeps the unchanged text.
proof fn lemma_merge_equal_text(s: Seq<(InlineKind, Seq<char>)>)
    ensures
        equal_text(merge_spec(s)) == equal_text(s),
    decreases s.len(),
{
    if s.len() > 0 {
        let m = merge_spec(s.drop_last());
        lemma_merge_equal_text(s.drop_last());
        let x = s.last();
        if m.len() > 0 && m.last().0 == x.0 {
            let r = m.drop_last().push((x.0, m.last().1 + x.1));
            assert(r.drop_last() =~= m.drop_last());
            if x.0 == InlineKind::Equal {
                assert(equal_text(m) == equal_text(m.drop_last()) + m.last().1);
                assert(equal_text(r) =~= equal_text(m.drop_last()) + (m.last().1 + x.1));
            } else {
                assert(equal_text(m) == equal_text(m.drop_last()));
            }
        } else {
            let r = m.push(x);
            assert(r.drop_last() =~= m);
        }
    }
}

/// The unchanged segments of each raw side spell the equal changes.
proof fn lemma_raw_equal_text(c: Seq<(ChangeKind, Seq<char>)>)
    ensures
        equal_text(left_raw(c)) == common_text(c),
        equal_text(right_raw(c)) == common_text(c),
    decreases c.len(),
{
    if c.len() > 0 {
        lemma_raw_equal_text(c.drop_last());
        let l = left_raw(c.drop_last());
        let r = right_raw(c.drop_last());
        assert(l.push((kind_of(c.last().0), c.last().1)).drop_last() =~= l);
        assert(r.push((kind_of(c.last().0), c.last().1)).drop_last() =~= r);
    }
}

/// The unchanged text is shared: in the inline diff built from any list of
/// character changes, the unchanged segments of the old side and those of the new
/// side spell the same text.
pub proof fn law_inline_equal_text_shared(c: Seq<(ChangeKind, Seq<char>)>)
    ensures
        equal_text(inline_from_changes(c).left) == equal_text(inline_from_changes(c).right),
        equal_text(inline_from_changes(c).left) == common_text(c),
{
    lemma_raw_equal_text(c);
    lemma_merge_equal_text(left_raw(c));
    lemma_merge_equal_text(right_raw(c));
}

/// No segment is empty.
pub open spec fn segs_nonempty(s: Seq<(InlineKind, Seq<char>)>) -> bool {
    forall|i: int| 0 <= i < s.len() ==> (#[trigger] s[i]).1.len() > 0
}

proof fn lemma_raw_nonempty(c: Seq<(ChangeKind, Seq<char>)>)
    requires
        forall|i: int| 0 <= i < c.len() ==> (#[trigger] c[i]).1.len() > 0,
    ensures
        segs_nonempty(left_raw(c)),
        segs_nonempty(right_raw(c)),
    decreases c.len(),
{
    if c.len() > 0 {
        let p = c.drop_last();
        assert forall|i: int| 0 <= i < p.len() implies (#[trigger] p[i]).1.len() > 0 by {
            assert(p[i] == c[i]);
        }
        lemma_raw_nonempty(p);
        assert(c.last() == c[c.len() - 1]);
    }
}

proof fn lemma_merge_nonempty(s: Seq<(InlineKind, Seq<char>)>)
    requires
        segs_nonempty(s),
    ensures
        segs_nonempty(merge_spec(s)),
    decreases s.len(),
{
    if s.len() > 0 {
        let p = s.drop_last();
        assert forall|i: int| 0 <= i < p.len() implies (#[trigger] p[i]).1.len() > 0 by {
            assert(p[i] == s[i]);
        }
        lemma_merge_nonempty(p);
        let m = merge_spec(p);
        let x = s.last();
        assert(x == s[s.len() - 1]);
        if m.len() > 0 && m.last().0 == x.0 {
            let r = m.drop_last().push((x.0, m.last().1 + x.1));
            assert forall|i: int| 0 <= i < r.len() implies (#[trigger] r[i]).1.len() > 0 by {
                if i < r.len() - 1 {
                    assert(r[i] == m[i]);
                }
            }
        } else {
            let r = m.push(x);
            assert forall|i: int| 0 <= i < r.len() implies (#[trigger] r[i]).1.len() > 0 by {
                if i < r.len() - 1 {
                    assert(r[i] == m[i]);
                }
            }
        }
    }
}

proof fn lemma_raw_all_equal(c: Seq<(ChangeKind, Seq<char>)>)
    requires
        forall|i: int| 0 <= i < c.len() ==> (#[trigger] c[i]).0 == ChangeKind::Equal,
    ensures
        left_raw(c) == right_raw(c),
        left_raw(c).len() == c.len(),
        forall|k: int| 0 <= k < left_raw(c).len() ==> (#[trigger] left_raw(c)[k]).0 == InlineKind::Equal,
    decreases c.len(),
{
    if c.len() > 0 {
        let p = c.drop_last();
        assert forall|i: int| 0 <= i < p.len() implies (#[trigger] p[i]).0 == ChangeKind::Equal by {
            assert(p[i] == c[i]);
        }
        lemma_raw_all_equal(p);
        assert(c.last() == c[c.len() - 1]);
        let l = left_raw(p).push((kind_of(c.last().0), c.last().1));
        assert forall|k: int| 0 <= k < l.len() implies (#[trigger] l[k]).0 == InlineKind::Equal by {
            if k < l.len() - 1 {
                assert(l[k] == left_raw(p)[k]);
            }
        }
    }
}

proof fn lemma_merge_all_equal(s: Seq<(InlineKind, Seq<char>)>)
    requires
        s.len() > 0,
        forall|k: int| 0 <= k < s.len() ==> (#[trigger] s[k]).0 == InlineKind::Equal,
    ensures
        merge_spec(s) == seq![(InlineKind::Equal, seg_text(s))],
    decreases s.len(),
{
    let p = s.drop_last();
    let x = s.last();
    assert(x == s[s.len() - 1]);
    if p.len() == 0 {
        assert(merge_spec(p) == Seq::<(InlineKind, Seq<char>)>::empty());
        assert(seg_text(p) == Seq::<char>::empty());
        assert(seg_text(s) =~= x.1);
        assert(merge_spec(s) =~= seq![(InlineKind::Equal, seg_text(s))]);
    } else {
        assert forall|k: int| 0 <= k < p.len() implies (#[trigger] p[k]).0 == InlineKind::Equal by {
            assert(p[k] == s[k]);
        }
        lemma_merge_all_equal(p);
        let m = merge_spec(p);
        assert(m.last() == (InlineKind::Equal, seg_text(p)));
        assert(m.drop_last() =~= Seq::<(InlineKind, Seq<char>)>::empty());
        assert(merge_spec(s) =~= seq![(InlineKind::Equal, seg_text(p) + x.1)]);
    }
}

/// A copy of a segment: same kind, same text.
fn copy_segment(s: &InlineSegment) -> (r: InlineSegment)
    ensures
        r@ == s@,
{
    InlineSegment { kind: s.kind, text: s.text.clone() }
}

/// Merge neighbouring segments of the same kind into one.
pub fn merge_segments(segments: Vec<InlineSegment>) -> (merged: Vec<InlineSegment>)
    ensures
        segs_view(merged@) == merge_spec(segs_view(segments@)),
{
    let mut merged: Vec<InlineSegment> = Vec::new();
    let mut i: usize = 0;
    while i < segments.len()
        invariant
            i <= segments@.len(),
            segs_view(merged@) == merge_spec(segs_view(segments@.subrange(0, i as int))),
        decreases segments@.len() - i,
    {
        let seg = copy_segment(&segments[i]);
        let ghost prefix = segs_view(segments@.subrange(0, i as int + 1));
        assert(prefix.drop_last() =~= segs_view(segments@.subrange(0, i as int)));
        assert(prefix.last() == seg@);
        let n = merged.len();
        if n > 0 && merged[n - 1].kind == seg.kind {
            let mut last = merged.pop().unwrap();
            let ghost before = last.text@;
            last.text.append(seg.text.as_str());
            merged.push(last);
            assert(segs_view(merged@) =~= merge_spec(prefix));
        } else {
            merged.push(seg);
            assert(segs_view(merged@) =~= merge_spec(prefix));
        }
        i = i + 1;
    }
    assert(segments@.subrange(0, segments@.len() as int) =~= segments@);
    merged
}

impl InlineDiff {
    /// Build the inline diff of two lines from their character changes: the old
    /// side takes the equal and deleted tokens, the new side the equal and
    /// inserted tokens, and neighbouring tokens of one kind are merged.
    pub fn from_changes(changes: &Vec<CharChange>) -> (d: InlineDiff)
        ensures
            d@ == inline_from_changes(changes_view(changes@)),
    {
        let mut left_segments: Vec<InlineSegment> = Vec::new();
        let mut right_segments: Vec<InlineSegment> = Vec::new();
        let mut i: usize = 0;
        while i < changes.len()
            invariant
                i <= changes@.len(),
                segs_view(left_segments@) == left_raw(changes_view(changes@.subrange(0, i as int))),
                segs_view(right_segments@) == right_raw(changes_view(changes@.subrange(0, i as int))),
            decreases changes@.len() - i,
        {
            let ghost pre = changes_view(changes@.subrange(0, i as int + 1));
            assert(pre.drop_last() =~= changes_view(changes@.subrange(0, i as int)));
            let change = &changes[i];
            match change.tag {
                ChangeKind::Equal => {
                    left_segments.push(InlineSegment { kind: InlineKind::Equal, text: change.value.clone() });
                    right_segments.push(InlineSegment { kind: InlineKind::Equal, text: change.value.clone() });
                },
                ChangeKind::Delete => {
                    left_segments.push(InlineSegment { kind: InlineKind::Changed, text: change.value.clone() });
                },
                ChangeKind::Insert => {
                    right_segments.push(InlineSegment { kind: InlineKind::Changed, text: change.value.clone() });
                },
            }
            assert(segs_view(left_segments@) =~= left_raw(pre));
            assert(segs_view(right_segments@) =~= right_raw(pre));
            i = i + 1;
        }
        assert(changes@.subrange(0, changes@.len() as int) =~= changes@);
        InlineDiff {
            left_segments: merge_segments(left_segments),
            right_segments: merge_segments(right_segments),
        }
    }

    /// Compute the character-level diff between two lines.
    ///
    /// The segments of each side spell that side's line, no two
    /// neighbouring segments of a side have the same kind, no segment is
    /// empty, the unchanged segments of both sides spell the same text, and
    /// two equal non-empty lines give one unchanged segment on each side.
    pub fn compute(left_line: &str, right_line: &str) -> (d: InlineDiff)
        ensures
            d@ == inline_from_changes(char_diff(left_line@, right_line@)),
            seg_text(d@.left) == left_line@,
            seg_text(d@.right) == right_line@,
            alternating(d@.left),
            alternating(d@.right),
            equal_text(d@.left) == equal_text(d@.right),
            segs_nonempty(d@.left),
            segs_nonempty(d@.right),
            left_line@ == right_line@ && left_line@.len() > 0 ==> d@.left == seq![(InlineKind::Equal, left_line@)]
                && d@.right == d@.left,
    {
        let changes = char_changes(left_line, right_line);
        let d = InlineDiff::from_changes(&changes);
        proof {
            let c = changes_view(changes@);
            lemma_raw_text(c);
            lemma_merge(left_raw(c));
            lemma_merge(right_raw(c));
            law_inline_equal_text_shared(c);
            assert forall|i: int| 0 <= i < c.len() implies (#[trigger] c[i]).1.len() > 0 by {
                assert(c[i] == changes@[i]@);
            }
            lemma_raw_nonempty(c);
            lemma_merge_nonempty(left_raw(c));
            lemma_merge_nonempty(right_raw(c));
            if left_line@ == right_line@ && left_line@.len() > 0 {
                assert forall|i: int| 0 <= i < c.len() implies (#[trigger] c[i]).0 == ChangeKind::Equal by {
                    assert(c[i] == changes@[i]@);
                }
                lemma_raw_all_equal(c);
                if c.len() == 0 {
                    assert(old_side_text(c) == Seq::<char>::empty());
                }
                lemma_merge_all_equal(left_raw(c));
            }
        }
        d
    }
}

} // verus!
