//! The frontend-agnostic diff model: contents, derived diff state, block
//! navigation, dirty flags, and undo/redo of block copies.
use std::ops::Range;
use vstd::prelude::*;
use crate::diff::{
    BlockKind, DiffBlockView, DiffResult, diff_spec, ranges_tile, left_ranges, right_ranges,
    blocks_shaped, equal_blocks_match, inline_diffs_pair_lines, kinds, change_indices, lemma_change_indices, lemma_tile_bounds,
};
use crate::display::{DisplayRow, build_display_rows, rows_spec, equal_rows_agree, law_equal_rows_pair_equal_lines};
use crate::file_io::{FileContent, lines_view, splice_spec, clone_lines};
use crate::text::{shown_width, lines_fit, line_fits};
use crate::undo::{UndoStack, bounded_push};
use crate::view::{Side, expand_tabs};

verus! {

/// The widest shown line plus one (the leading space of a row), or 0 when
/// there is no line.
pub open spec fn max_width(lines: Seq<Seq<char>>) -> nat
    decreases lines.len(),
{
    if lines.len() == 0 {
        0
    } else {
        let m = max_width(lines.drop_last());
        let w = shown_width(lines.last()) + 1;
        if m >= w {
            m
        } else {
            w
        }
    }
}

/// The indices of the change blocks of a diff.
pub open spec fn change_index_seq(d: Seq<DiffBlockView>) -> Seq<usize> {
    change_indices(kinds(d)).map_values(|i: int| i as usize)
}

/// The derived fields agree with the contents: the diff is the diff of the
/// two line sequences (it tiles both, and its equal blocks pair equal lines),
/// the rows are its rows, the width is the widest shown line plus one, and
/// the change indices list the blocks that are not equal.
pub open spec fn derived_ok(
    diff: Seq<DiffBlockView>,
    rows: Seq<DisplayRow>,
    width: usize,
    indices: Seq<usize>,
    count: usize,
    left: Seq<Seq<char>>,
    right: Seq<Seq<char>>,
) -> bool {
    &&& diff == diff_spec(left, right)
    &&& ranges_tile(left_ranges(diff), left.len())
    &&& ranges_tile(right_ranges(diff), right.len())
    &&& blocks_shaped(diff)
    &&& equal_blocks_match(diff, left, right)
    &&& inline_diffs_pair_lines(diff, left, right)
    &&& rows == rows_spec(diff)
    &&& width == max_width(left + right)
    &&& indices == change_index_seq(diff)
    &&& count == indices.len()
}

/// State derived from the current file contents — recomputed after every mutation.
pub struct DerivedState {
    pub diff: DiffResult,
    pub display_rows: Vec<DisplayRow>,
    pub max_content_width: usize,
    pub change_block_indices: Vec<usize>,
    pub change_count: usize,
}

impl DerivedState {
    /// The derived state agrees with the two line sequences.
    pub open spec fn agrees(&self, left: Seq<Seq<char>>, right: Seq<Seq<char>>) -> bool {
        derived_ok(
            self.diff@,
            self.display_rows@,
            self.max_content_width,
            self.change_block_indices@,
            self.change_count,
            left,
            right,
        )
    }
}

proof fn lemma_max_width_concat(a: Seq<Seq<char>>, b: Seq<Seq<char>>)
    ensures
        max_width(a + b) == (if max_width(a) >= max_width(b) {
            max_width(a)
        } else {
            max_width(b)
        }),
    decreases b.len(),
{
    if b.len() == 0 {
        assert(a + b =~= a);
    } else {
        lemma_max_width_concat(a, b.drop_last());
        assert((a + b).drop_last() =~= a + b.drop_last());
        assert((a + b).last() == b.last());
    }
}

proof fn lemma_max_width_bound(lines: Seq<Seq<char>>)
    requires
        lines_fit(lines),
    ensures
        max_width(lines) <= usize::MAX,
    decreases lines.len(),
{
    if lines.len() > 0 {
        assert(line_fits(lines[lines.len() - 1]));
        assert(lines_fit(lines.drop_last())) by {
            assert forall|i: int| 0 <= i < lines.drop_last().len() implies line_fits(#[trigger] lines.drop_last()[i]) by {
                assert(line_fits(lines[i]));
            }
        }
        lemma_max_width_bound(lines.drop_last());
    }
}

proof fn lemma_max_width_props(s: Seq<Seq<char>>)
    ensures
        forall|i: int| 0 <= i < s.len() ==> max_width(s) >= shown_width(#[trigger] s[i]) + 1,
        s.len() == 0 ==> max_width(s) == 0,
        s.len() > 0 ==> exists|i: int| 0 <= i < s.len() && max_width(s) == shown_width(#[trigger] s[i]) + 1,
    decreases s.len(),
{
    if s.len() > 0 {
        let p = s.drop_last();
        lemma_max_width_props(p);
        assert forall|i: int| 0 <= i < s.len() implies max_width(s) >= shown_width(#[trigger] s[i]) + 1 by {
            if i < p.len() {
                assert(p[i] == s[i]);
            }
        }
        if max_width(p) >= shown_width(s.last()) + 1 && p.len() > 0 {
            let i = choose|i: int| 0 <= i < p.len() && max_width(p) == shown_width(#[trigger] p[i]) + 1;
            assert(p[i] == s[i]);
        } else {
            assert(s[s.len() - 1] == s.last());
        }
    }
}

/// A width is the widest shown line of two files plus one (the leading
/// space of a row): no shown line of either file is wider than `w - 1`,
/// some line of one of them is exactly that wide, and `w` is 0 when both
/// files are empty.
pub open spec fn widest_of(w: nat, left: Seq<Seq<char>>, right: Seq<Seq<char>>) -> bool {
    &&& forall|i: int| 0 <= i < left.len() ==> w >= shown_width(#[trigger] left[i]) + 1
    &&& forall|j: int| 0 <= j < right.len() ==> w >= shown_width(#[trigger] right[j]) + 1
    &&& left.len() + right.len() == 0 ==> w == 0
    &&& left.len() + right.len() > 0 ==> (exists|i: int| 0 <= i < left.len() && w == shown_width(#[trigger] left[i]) + 1)
        || (exists|j: int| 0 <= j < right.len() && w == shown_width(#[trigger] right[j]) + 1)
}

/// There is only one widest width.
pub proof fn lemma_widest_unique(w1: nat, w2: nat, left: Seq<Seq<char>>, right: Seq<Seq<char>>)
    requires
        widest_of(w1, left, right),
        widest_of(w2, left, right),
    ensures
        w1 == w2,
{
    if left.len() + right.len() > 0 {
        if exists|i: int| 0 <= i < left.len() && w1 == shown_width(#[trigger] left[i]) + 1 {
            let i = choose|i: int| 0 <= i < left.len() && w1 == shown_width(#[trigger] left[i]) + 1;
            assert(w2 >= shown_width(left[i]) + 1);
        } else {
            let j = choose|j: int| 0 <= j < right.len() && w1 == shown_width(#[trigger] right[j]) + 1;
            assert(w2 >= shown_width(right[j]) + 1);
        }
        if exists|i: int| 0 <= i < left.len() && w2 == shown_width(#[trigger] left[i]) + 1 {
            let i = choose|i: int| 0 <= i < left.len() && w2 == shown_width(#[trigger] left[i]) + 1;
            assert(w1 >= shown_width(left[i]) + 1);
        } else {
            let j = choose|j: int| 0 <= j < right.len() && w2 == shown_width(#[trigger] right[j]) + 1;
            assert(w1 >= shown_width(right[j]) + 1);
        }
    }
}

/// The widest line of the two files together, plus one, is the widest of
/// both files.
pub proof fn lemma_max_width_widest(left: Seq<Seq<char>>, right: Seq<Seq<char>>)
    ensures
        widest_of(max_width(left + right), left, right),
{
    let s = left + right;
    lemma_max_width_props(s);
    assert forall|i: int| 0 <= i < left.len() implies max_width(s) >= shown_width(#[trigger] left[i]) + 1 by {
        assert(s[i] == left[i]);
    }
    assert forall|j: int| 0 <= j < right.len() implies max_width(s) >= shown_width(#[trigger] right[j]) + 1 by {
        assert(s[left.len() + j] == right[j]);
    }
    if s.len() > 0 {
        let k = choose|k: int| 0 <= k < s.len() && max_width(s) == shown_width(#[trigger] s[k]) + 1;
        if k < left.len() {
            assert(s[k] == left[k]);
        } else {
            assert(s[k] == right[k - left.len()]);
        }
    }
}

/// The widest shown line of a slice of lines, plus one.
fn max_shown_width(lines: &[String]) -> (m: usize)
    requires
        lines_fit(lines_view(lines@)),
    ensures
        m == max_width(lines_view(lines@)),
{
    let mut m: usize = 0;
    let mut i: usize = 0;
    while i < lines.len()
        invariant
            i <= lines@.len(),
            lines_fit(lines_view(lines@)),
            m == max_width(lines_view(lines@).subrange(0, i as int)),
        decreases lines@.len() - i,
    {
        let ghost pre = lines_view(lines@).subrange(0, i as int + 1);
        assert(pre.drop_last() =~= lines_view(lines@).subrange(0, i as int));
        assert(pre.last() == lines@[i as int]@);
        assert(line_fits(lines_view(lines@)[i as int]));
        let shown = expand_tabs(lines[i].as_str());
        let w = shown.as_str().len() + 1;
        if w > m {
            m = w;
        }
        i = i + 1;
    }
    assert(lines_view(lines@).subrange(0, lines@.len() as int) =~= lines_view(lines@));
    m
}

/// The indices of the blocks that are not equal.
fn change_block_indices_of(diff: &DiffResult) -> (r: Vec<usize>)
    ensures
        r@ == change_index_seq(diff@),
{
    let mut r: Vec<usize> = Vec::new();
    let mut i: usize = 0;
    while i < diff.blocks.len()
        invariant
            i <= diff.blocks@.len(),
            r@ == change_index_seq(diff@.subrange(0, i as int)),
        decreases diff.blocks@.len() - i,
    {
        let ghost pre = diff@.subrange(0, i as int + 1);
        assert(kinds(pre).drop_last() =~= kinds(diff@.subrange(0, i as int)));
        assert(kinds(pre).last() == diff.blocks@[i as int].kind);
        if diff.blocks[i].kind != BlockKind::Equal {
            r.push(i);
        }
        i = i + 1;
        assert(r@ =~= change_index_seq(pre));
    }
    assert(diff@.subrange(0, diff.blocks@.len() as int) =~= diff@);
    r
}

/// Compute the diff, display rows, content width and change indices of two contents.
pub fn compute_derived(left: &FileContent, right: &FileContent) -> (d: DerivedState)
    requires
        lines_fit(left@),
        lines_fit(right@),
    ensures
        d.agrees(left@, right@),
{
    let diff = DiffResult::compute(left, right);
    let display_rows = build_display_rows(&diff);
    let lw = max_shown_width(left.lines());
    let rw = max_shown_width(right.lines());
    proof {
        lemma_max_width_concat(left@, right@);
    }
    let max_content_width = if lw >= rw {
        lw
    } else {
        rw
    };
    let change_block_indices = change_block_indices_of(&diff);
    let change_count = change_block_indices.len();
    DerivedState { diff, display_rows, max_content_width, change_block_indices, change_count }
}


/// The undo history keeps at most this many copies.
pub const DEFAULT_UNDO_CAPACITY: usize = 100;

/// A reversible edit: stores only the affected block's lines, not the full file.
/// Memory cost is O(block size) instead of O(file size).
pub struct UndoEntry {
    pub side: Side,
    /// Start position in the target file where the splice occurred.
    pub start: usize,
    /// Lines that were present before the edit (used to undo).
    pub original_lines: Vec<String>,
    /// Lines that replaced the originals (used to redo).
    pub replacement_lines: Vec<String>,
    /// Whether the modified side was already dirty before this edit.
    pub was_dirty: bool,
    /// Block navigation index before this edit.
    pub previous_block: usize,
}

/// The mathematical value of an undo entry.
pub struct EntryView {
    pub side: Side,
    pub start: usize,
    pub original: Seq<Seq<char>>,
    pub replacement: Seq<Seq<char>>,
    pub was_dirty: bool,
    pub previous_block: usize,
}

impl View for UndoEntry {
    type V = EntryView;

    open spec fn view(&self) -> EntryView {
        EntryView {
            side: self.side,
            start: self.start,
            original: lines_view(self.original_lines@),
            replacement: lines_view(self.replacement_lines@),
            was_dirty: self.was_dirty,
            previous_block: self.previous_block,
        }
    }
}

/// The views of a sequence of entries.
pub open spec fn entries_view(s: Seq<UndoEntry>) -> Seq<EntryView> {
    s.map_values(|e: UndoEntry| e@)
}

/// The mathematical value of a diff model: the two contents, the dirty
/// flags, the current block and the undo/redo history. Everything else the
/// model holds is derived from the contents.
pub struct ModelView {
    pub left: Seq<Seq<char>>,
    pub right: Seq<Seq<char>>,
    pub left_dirty: bool,
    pub right_dirty: bool,
    pub current_block: usize,
    pub undo: Seq<EntryView>,
    pub redo: Seq<EntryView>,
    pub capacity: nat,
}

/// The number of change blocks between two contents.
pub open spec fn change_count_of(left: Seq<Seq<char>>, right: Seq<Seq<char>>) -> nat {
    change_index_seq(diff_spec(left, right)).len()
}

/// A block index brought back into range after the change blocks changed:
/// 0 when there is none, the last one when it is past the end.
pub open spec fn clamp_block(cb: usize, count: nat) -> usize {
    if count == 0 {
        0
    } else if cb >= count {
        (count - 1) as usize
    } else {
        cb
    }
}

/// The current block is valid for a count of change blocks.
pub open spec fn block_valid(cb: usize, count: nat) -> bool {
    &&& count == 0 ==> cb == 0
    &&& count > 0 ==> cb < count
}

/// The lines of one side of a view.
pub open spec fn side_lines(v: ModelView, side: Side) -> Seq<Seq<char>> {
    match side {
        Side::Left => v.left,
        Side::Right => v.right,
    }
}

/// A view with the lines and the dirty flag of one side replaced, and the
/// current block brought back into range for the new contents.
pub open spec fn with_side(v: ModelView, side: Side, lines: Seq<Seq<char>>, dirty: bool, cb: usize) -> ModelView {
    let left = if side == Side::Left { lines } else { v.left };
    let right = if side == Side::Right { lines } else { v.right };
    ModelView {
        left,
        right,
        left_dirty: if side == Side::Left { dirty } else { v.left_dirty },
        right_dirty: if side == Side::Right { dirty } else { v.right_dirty },
        current_block: clamp_block(cb, change_count_of(left, right)),
        ..v
    }
}

/// Applying an entry forward: its replacement lines are spliced in over the
/// original lines, and its side becomes dirty.
pub open spec fn forward_spec(v: ModelView, e: EntryView) -> ModelView {
    let lines = splice_spec(side_lines(v, e.side), e.start as int, e.start + e.original.len(), e.replacement);
    with_side(v, e.side, lines, true, v.current_block)
}

/// Applying an entry backward: its original lines are spliced back in over
/// the replacement lines, the side's dirty flag and the current block are
/// restored.
pub open spec fn backward_spec(v: ModelView, e: EntryView) -> ModelView {
    let lines = splice_spec(side_lines(v, e.side), e.start as int, e.start + e.replacement.len(), e.original);
    with_side(v, e.side, lines, e.was_dirty, e.previous_block)
}

/// The other side.
pub open spec fn other(side: Side) -> Side {
    match side {
        Side::Left => Side::Right,
        Side::Right => Side::Left,
    }
}

/// The line range of a block on one side.
pub open spec fn block_range(b: DiffBlockView, side: Side) -> Range<usize> {
    match side {
        Side::Left => b.left_range,
        Side::Right => b.right_range,
    }
}

/// Change block number `cb` of the diff of two contents.
pub open spec fn change_block_of(left: Seq<Seq<char>>, right: Seq<Seq<char>>, cb: usize) -> DiffBlockView {
    let d = diff_spec(left, right);
    d[change_indices(kinds(d))[cb as int]]
}

/// The current change block of a view.
pub open spec fn current_block_view(v: ModelView) -> DiffBlockView {
    change_block_of(v.left, v.right, v.current_block)
}

/// Change block number `cb` lies within both contents when the diff tiles
/// them and `cb` is a valid change block number.
pub proof fn lemma_change_block_bounds(left: Seq<Seq<char>>, right: Seq<Seq<char>>, cb: usize)
    requires
        ranges_tile(left_ranges(diff_spec(left, right)), left.len()),
        ranges_tile(right_ranges(diff_spec(left, right)), right.len()),
        cb < change_count_of(left, right),
    ensures
        ({
            let b = change_block_of(left, right, cb);
            &&& b.left_range.start <= b.left_range.end <= left.len()
            &&& b.right_range.start <= b.right_range.end <= right.len()
        }),
{
    let d = diff_spec(left, right);
    lemma_change_indices(kinds(d));
    let k = change_indices(kinds(d))[cb as int];
    lemma_tile_bounds(left_ranges(d), left.len());
    lemma_tile_bounds(right_ranges(d), right.len());
    assert(left_ranges(d)[k] == d[k].left_range);
    assert(right_ranges(d)[k] == d[k].right_range);
}

/// The entry that copying the current block from `source` to the other side
/// records: the target's lines of the block, the source's lines of the
/// block, the target's dirty flag and the current block.
pub open spec fn copy_entry(v: ModelView, source: Side) -> EntryView {
    let b = current_block_view(v);
    let target = other(source);
    let tr = block_range(b, target);
    let sr = block_range(b, source);
    EntryView {
        side: target,
        start: tr.start,
        original: side_lines(v, target).subrange(tr.start as int, tr.end as int),
        replacement: side_lines(v, source).subrange(sr.start as int, sr.end as int),
        was_dirty: if target == Side::Left { v.left_dirty } else { v.right_dirty },
        previous_block: v.current_block,
    }
}

/// Copying the current block from `source` to the other side: nothing when
/// there is no change block; otherwise the copy is applied forward, recorded
/// on the undo side, and the redo side is cleared.
pub open spec fn copy_spec(v: ModelView, source: Side) -> ModelView {
    if change_count_of(v.left, v.right) == 0 {
        v
    } else {
        let e = copy_entry(v, source);
        ModelView {
            undo: bounded_push(v.undo, v.capacity, e),
            redo: Seq::empty(),
            ..forward_spec(v, e)
        }
    }
}

/// Undo: nothing when there is no entry; otherwise the newest entry is
/// applied backward and moves to the redo side.
pub open spec fn undo_spec(v: ModelView) -> ModelView {
    if v.undo.len() == 0 {
        v
    } else {
        let e = v.undo.last();
        ModelView { undo: v.undo.drop_last(), redo: v.redo.push(e), ..backward_spec(v, e) }
    }
}

/// Redo: nothing when there is no entry; otherwise the newest redo entry is
/// applied forward and moves back to the undo side.
pub open spec fn redo_spec(v: ModelView) -> ModelView {
    if v.redo.len() == 0 {
        v
    } else {
        let e = v.redo.last();
        ModelView {
            undo: bounded_push(v.undo, v.capacity, e),
            redo: v.redo.drop_last(),
            ..forward_spec(v, e)
        }
    }
}

/// The two contents as a pair of line sequences.
pub struct Texts {
    pub left: Seq<Seq<char>>,
    pub right: Seq<Seq<char>>,
}

/// The lines of one side of a pair of contents.
pub open spec fn texts_side(t: Texts, side: Side) -> Seq<Seq<char>> {
    match side {
        Side::Left => t.left,
        Side::Right => t.right,
    }
}

/// A pair of contents with one side replaced.
pub open spec fn texts_with(t: Texts, side: Side, lines: Seq<Seq<char>>) -> Texts {
    match side {
        Side::Left => Texts { left: lines, right: t.right },
        Side::Right => Texts { left: t.left, right: lines },
    }
}

/// An entry's lines fit.
pub open spec fn entry_fits(e: EntryView) -> bool {
    lines_fit(e.original) && lines_fit(e.replacement)
}

/// An entry can be applied forward: its original lines stand at its start.
pub open spec fn fwd_ok(t: Texts, e: EntryView) -> bool {
    let s = texts_side(t, e.side);
    &&& e.start + e.original.len() <= s.len()
    &&& s.subrange(e.start as int, e.start + e.original.len()) == e.original
    &&& entry_fits(e)
}

/// An entry can be applied backward: its replacement lines stand at its start.
pub open spec fn bwd_ok(t: Texts, e: EntryView) -> bool {
    let s = texts_side(t, e.side);
    &&& e.start + e.replacement.len() <= s.len()
    &&& s.subrange(e.start as int, e.start + e.replacement.len()) == e.replacement
    &&& entry_fits(e)
}

/// The contents after applying an entry forward.
pub open spec fn fwd_texts(t: Texts, e: EntryView) -> Texts {
    texts_with(t, e.side, splice_spec(texts_side(t, e.side), e.start as int, e.start + e.original.len(), e.replacement))
}

/// The contents after applying an entry backward.
pub open spec fn bwd_texts(t: Texts, e: EntryView) -> Texts {
    texts_with(t, e.side, splice_spec(texts_side(t, e.side), e.start as int, e.start + e.replacement.len(), e.original))
}

/// The undo entries, newest last, can be undone one after the other from `t`.
pub open spec fn undo_chain(t: Texts, es: Seq<EntryView>) -> bool
    decreases es.len(),
{
    es.len() == 0 || (bwd_ok(t, es.last()) && undo_chain(bwd_texts(t, es.last()), es.drop_last()))
}

/// The redo entries, newest last, can be redone one after the other from `t`.
pub open spec fn redo_chain(t: Texts, es: Seq<EntryView>) -> bool
    decreases es.len(),
{
    es.len() == 0 || (fwd_ok(t, es.last()) && redo_chain(fwd_texts(t, es.last()), es.drop_last()))
}

/// The contents of a view.
pub open spec fn texts_of(v: ModelView) -> Texts {
    Texts { left: v.left, right: v.right }
}

/// A view that a well-formed model can have: its diff tiles both contents,
/// its current block is valid, its lines fit, its history can be replayed,
/// and its undo side respects the capacity.
pub open spec fn view_ok(v: ModelView) -> bool {
    let d = diff_spec(v.left, v.right);
    &&& ranges_tile(left_ranges(d), v.left.len())
    &&& ranges_tile(right_ranges(d), v.right.len())
    &&& blocks_shaped(d)
    &&& block_valid(v.current_block, change_count_of(v.left, v.right))
    &&& lines_fit(v.left)
    &&& lines_fit(v.right)
    &&& undo_chain(texts_of(v), v.undo)
    &&& redo_chain(texts_of(v), v.redo)
    &&& v.capacity > 0
    &&& v.undo.len() <= v.capacity
}


/// Splicing `r` over `o` and then `o` back over `r` gives the lines back.
pub proof fn lemma_splice_roundtrip(x: Seq<Seq<char>>, s: int, o: Seq<Seq<char>>, r: Seq<Seq<char>>)
    requires
        0 <= s,
        s + o.len() <= x.len(),
        x.subrange(s, s + o.len()) == o,
    ensures
        ({
            let y = splice_spec(x, s, s + o.len(), r);
            &&& s + r.len() <= y.len()
            &&& y.subrange(s, s + r.len()) == r
            &&& splice_spec(y, s, s + r.len(), o) == x
        }),
{
    let y = splice_spec(x, s, s + o.len(), r);
    assert(y.subrange(s, s + r.len()) =~= r);
    assert(y.subrange(0, s) =~= x.subrange(0, s));
    assert(y.subrange(s + r.len(), y.len() as int) =~= x.subrange(s + o.len(), x.len() as int));
    assert(splice_spec(y, s, s + r.len(), o) =~= x);
}

/// Splicing fitting lines into fitting lines gives fitting lines.
pub proof fn lemma_fit_splice(x: Seq<Seq<char>>, s: int, e: int, r: Seq<Seq<char>>)
    requires
        lines_fit(x),
        lines_fit(r),
        0 <= s <= e <= x.len(),
    ensures
        lines_fit(splice_spec(x, s, e, r)),
{
    let y = splice_spec(x, s, e, r);
    assert forall|i: int| 0 <= i < y.len() implies line_fits(#[trigger] y[i]) by {
        if i < s {
            assert(y[i] == x[i]);
        } else if i < s + r.len() {
            assert(y[i] == r[i - s]);
        } else {
            assert(y[i] == x[i - s - r.len() + e]);
        }
    }
}

/// A part of fitting lines fits.
pub proof fn lemma_fit_subrange(x: Seq<Seq<char>>, s: int, e: int)
    requires
        lines_fit(x),
        0 <= s <= e <= x.len(),
    ensures
        lines_fit(x.subrange(s, e)),
{
    assert forall|i: int| 0 <= i < x.subrange(s, e).len() implies line_fits(#[trigger] x.subrange(s, e)[i]) by {
        assert(x.subrange(s, e)[i] == x[s + i]);
    }
}

/// An entry applied forward can be applied backward, which gives the
/// contents back.
pub proof fn lemma_fwd_then_bwd(t: Texts, e: EntryView)
    requires
        fwd_ok(t, e),
    ensures
        bwd_ok(fwd_texts(t, e), e),
        bwd_texts(fwd_texts(t, e), e) == t,
{
    lemma_splice_roundtrip(texts_side(t, e.side), e.start as int, e.original, e.replacement);
}

/// An entry applied backward can be applied forward, which gives the
/// contents back.
pub proof fn lemma_bwd_then_fwd(t: Texts, e: EntryView)
    requires
        bwd_ok(t, e),
    ensures
        fwd_ok(bwd_texts(t, e), e),
        fwd_texts(bwd_texts(t, e), e) == t,
{
    lemma_splice_roundtrip(texts_side(t, e.side), e.start as int, e.replacement, e.original);
}

/// Dropping the oldest undo entry keeps the rest replayable.
pub proof fn lemma_undo_chain_drop_first(t: Texts, es: Seq<EntryView>)
    requires
        undo_chain(t, es),
        es.len() > 0,
    ensures
        undo_chain(t, es.drop_first()),
    decreases es.len(),
{
    if es.len() > 1 {
        let e = es.last();
        assert(es.drop_first().last() == e);
        assert(es.drop_first().drop_last() =~= es.drop_last().drop_first());
        lemma_undo_chain_drop_first(bwd_texts(t, e), es.drop_last());
    } else {
        assert(es.drop_first().len() == 0);
    }
}

/// Recording an entry that was just applied forward keeps the undo side
/// replayable, also when the oldest entry is dropped for capacity.
pub proof fn lemma_undo_chain_push(t: Texts, es: Seq<EntryView>, e: EntryView, cap: nat)
    requires
        fwd_ok(t, e),
        undo_chain(t, es),
        es.len() <= cap,
        cap > 0,
    ensures
        undo_chain(fwd_texts(t, e), bounded_push(es, cap, e)),
        bounded_push(es, cap, e).len() <= cap,
{
    lemma_fwd_then_bwd(t, e);
    let b = bounded_push(es, cap, e);
    if es.len() == cap {
        lemma_undo_chain_drop_first(t, es);
        assert(b.drop_last() =~= es.drop_first());
    } else {
        assert(b.drop_last() =~= es);
    }
    assert(b.last() == e);
}

/// The views of entries after a bounded push.
pub proof fn lemma_entries_push(s: Seq<UndoEntry>, cap: nat, e: UndoEntry)
    requires
        cap > 0,
    ensures
        entries_view(bounded_push(s, cap, e)) == bounded_push(entries_view(s), cap, e@),
        entries_view(s.push(e)) == entries_view(s).push(e@),
        s.len() > 0 ==> entries_view(s.drop_last()) == entries_view(s).drop_last(),
{
    assert(entries_view(s.push(e)) =~= entries_view(s).push(e@));
    if s.len() > 0 {
        assert(entries_view(s.drop_first().push(e)) =~= entries_view(s).drop_first().push(e@));
        assert(entries_view(s.drop_last()) =~= entries_view(s).drop_last());
    }
}


/// The entry a copy records stands where it was taken from, fits, and
/// covers exactly the current block on the target side.
proof fn lemma_copy_entry(v: ModelView, source: Side)
    requires
        view_ok(v),
        change_count_of(v.left, v.right) > 0,
    ensures
        fwd_ok(texts_of(v), copy_entry(v, source)),
        copy_entry(v, source).start + copy_entry(v, source).original.len()
            == block_range(current_block_view(v), other(source)).end,
{
    let d = diff_spec(v.left, v.right);
    lemma_change_indices(kinds(d));
    let k = change_indices(kinds(d))[v.current_block as int];
    lemma_tile_bounds(left_ranges(d), v.left.len());
    lemma_tile_bounds(right_ranges(d), v.right.len());
    assert(left_ranges(d)[k] == d[k].left_range);
    assert(right_ranges(d)[k] == d[k].right_range);
    let e = copy_entry(v, source);
    let b = current_block_view(v);
    let tr = block_range(b, other(source));
    let sr = block_range(b, source);
    lemma_fit_subrange(side_lines(v, other(source)), tr.start as int, tr.end as int);
    lemma_fit_subrange(side_lines(v, source), sr.start as int, sr.end as int);
}

/// Undo after a copy restores the contents, the dirty flags and the current
/// block, and leaves the copy ready to be redone; when the undo side was not
/// full it is restored too.
pub proof fn law_undo_reverts_copy(v: ModelView, source: Side)
    requires
        view_ok(v),
        change_count_of(v.left, v.right) > 0,
    ensures
        ({
            let w = undo_spec(copy_spec(v, source));
            &&& w.left == v.left
            &&& w.right == v.right
            &&& w.left_dirty == v.left_dirty
            &&& w.right_dirty == v.right_dirty
            &&& w.current_block == v.current_block
            &&& w.redo == seq![copy_entry(v, source)]
            &&& v.undo.len() < v.capacity ==> w.undo == v.undo
        }),
{
    let e = copy_entry(v, source);
    let c = copy_spec(v, source);
    lemma_copy_entry(v, source);
    lemma_fwd_then_bwd(texts_of(v), e);
    let bp = bounded_push(v.undo, v.capacity, e);
    assert(c.undo == bp);
    assert(bp.last() == e);
    let w = undo_spec(c);
    assert(w.redo =~= seq![e]);
    if v.undo.len() < v.capacity {
        assert(bp.drop_last() =~= v.undo);
    }
    match e.side {
        Side::Left => {
            assert(w.left =~= v.left);
        },
        Side::Right => {
            assert(w.right =~= v.right);
        },
    }
}

/// Redo after undoing a copy gives back exactly the model the copy made.
pub proof fn law_redo_after_undo_of_copy(v: ModelView, source: Side)
    requires
        view_ok(v),
        change_count_of(v.left, v.right) > 0,
    ensures
        redo_spec(undo_spec(copy_spec(v, source))) == copy_spec(v, source),
{
    let e = copy_entry(v, source);
    let c = copy_spec(v, source);
    lemma_copy_entry(v, source);
    law_undo_reverts_copy(v, source);
    let u = undo_spec(c);
    let r = redo_spec(u);
    assert(u.redo.last() == e);
    assert(u.redo.drop_last() =~= Seq::<EntryView>::empty());
    let bp = bounded_push(v.undo, v.capacity, e);
    assert(u.undo == bp.drop_last());
    if v.undo.len() == v.capacity {
        assert(bp.drop_last() =~= v.undo.drop_first());
    } else {
        assert(bp.drop_last() =~= v.undo);
    }
    assert(r.undo =~= c.undo);
    assert(r.redo =~= c.redo);
    assert(r.left =~= c.left);
    assert(r.right =~= c.right);
}

/// Undo followed by redo gives back the contents, and redo followed by undo
/// gives back the contents.
pub proof fn law_undo_redo_inverse(w: ModelView)
    requires
        view_ok(w),
    ensures
        w.undo.len() > 0 ==> redo_spec(undo_spec(w)).left == w.left && redo_spec(undo_spec(w)).right == w.right,
        w.redo.len() > 0 ==> undo_spec(redo_spec(w)).left == w.left && undo_spec(redo_spec(w)).right == w.right,
{
    if w.undo.len() > 0 {
        let e = w.undo.last();
        lemma_bwd_then_fwd(texts_of(w), e);
        let u = undo_spec(w);
        assert(u.redo.last() == e);
        assert(texts_of(u) == bwd_texts(texts_of(w), e));
    }
    if w.redo.len() > 0 {
        let e = w.redo.last();
        lemma_fwd_then_bwd(texts_of(w), e);
        let r = redo_spec(w);
        assert(bounded_push(w.undo, w.capacity, e).last() == e);
        assert(texts_of(r) == fwd_texts(texts_of(w), e));
    }
}

/// Frontend-agnostic diff model: file contents, diff state, block navigation,
/// dirty flags, and undo/redo. Shared between TUI and future GUI frontends.
pub struct DiffModel {
    pub left_content: FileContent,
    pub right_content: FileContent,
    pub diff: DiffResult,
    pub display_rows: Vec<DisplayRow>,
    pub max_content_width: usize,
    pub change_count: usize,
    pub change_block_indices: Vec<usize>,
    pub current_block: usize,
    pub left_dirty: bool,
    pub right_dirty: bool,
    /// Undo/redo history of copy operations.
    pub undo_stack: UndoStack<UndoEntry>,
}

impl View for DiffModel {
    type V = ModelView;

    open spec fn view(&self) -> ModelView {
        ModelView {
            left: self.left_content@,
            right: self.right_content@,
            left_dirty: self.left_dirty,
            right_dirty: self.right_dirty,
            current_block: self.current_block,
            undo: entries_view(self.undo_stack.undo_seq()),
            redo: entries_view(self.undo_stack.redo_seq()),
            capacity: self.undo_stack.capacity(),
        }
    }
}

impl DiffModel {
    /// The derived fields agree with the contents.
    pub open spec fn derived_agrees(&self) -> bool {
        derived_ok(
            self.diff@,
            self.display_rows@,
            self.max_content_width,
            self.change_block_indices@,
            self.change_count,
            self.left_content@,
            self.right_content@,
        )
    }

    /// A well-formed model: its derived fields agree with its contents, its
    /// view is one a model can have, and its history is bounded.
    pub open spec fn wf(&self) -> bool {
        &&& self.derived_agrees()
        &&& view_ok(self@)
        &&& self.undo_stack.well_formed()
    }

    pub fn new(left_content: FileContent, right_content: FileContent) -> (m: Self)
        requires
            lines_fit(left_content@),
            lines_fit(right_content@),
        ensures
            m.wf(),
            m@ == (ModelView {
                left: left_content@,
                right: right_content@,
                left_dirty: false,
                right_dirty: false,
                current_block: 0,
                undo: Seq::empty(),
                redo: Seq::empty(),
                capacity: DEFAULT_UNDO_CAPACITY as nat,
            }),
            m.left_content.path == left_content.path,
            m.right_content.path == right_content.path,
    {
        let derived = compute_derived(&left_content, &right_content);
        let m = DiffModel {
            left_content,
            right_content,
            diff: derived.diff,
            display_rows: derived.display_rows,
            max_content_width: derived.max_content_width,
            change_count: derived.change_count,
            change_block_indices: derived.change_block_indices,
            current_block: 0,
            left_dirty: false,
            right_dirty: false,
            undo_stack: UndoStack::new(DEFAULT_UNDO_CAPACITY),
        };
        assert(entries_view(m.undo_stack.undo_seq()) =~= Seq::<EntryView>::empty());
        assert(entries_view(m.undo_stack.redo_seq()) =~= Seq::<EntryView>::empty());
        m
    }

    /// Build an undo entry for a copy operation, capturing the target's
    /// current lines before they are overwritten.
    fn build_entry(&self, side: Side, target_range: Range<usize>, source_lines: Vec<String>) -> (e: UndoEntry)
        requires
            target_range.start <= target_range.end <= side_lines(self@, side).len(),
        ensures
            e@ == (EntryView {
                side,
                start: target_range.start,
                original: side_lines(self@, side).subrange(target_range.start as int, target_range.end as int),
                replacement: lines_view(source_lines@),
                was_dirty: if side == Side::Left { self.left_dirty } else { self.right_dirty },
                previous_block: self.current_block,
            }),
    {
        let original_lines = match side {
            Side::Left => crate::file_io::copy_lines(self.left_content.lines(), &target_range),
            Side::Right => crate::file_io::copy_lines(self.right_content.lines(), &target_range),
        };
        let was_dirty = match side {
            Side::Left => self.left_dirty,
            Side::Right => self.right_dirty,
        };
        UndoEntry {
            side,
            start: target_range.start,
            original_lines,
            replacement_lines: source_lines,
            was_dirty,
            previous_block: self.current_block,
        }
    }

    /// Recompute diff, display rows, and navigation indices after a mutation.
    fn recompute_diff(&mut self)
        requires
            lines_fit(old(self).left_content@),
            lines_fit(old(self).right_content@),
        ensures
            final(self).derived_agrees(),
            final(self).left_content == old(self).left_content,
            final(self).right_content == old(self).right_content,
            final(self).left_dirty == old(self).left_dirty,
            final(self).right_dirty == old(self).right_dirty,
            final(self).undo_stack == old(self).undo_stack,
            final(self).current_block == clamp_block(old(self).current_block, final(self).change_count as nat),
    {
        let derived = compute_derived(&self.left_content, &self.right_content);
        self.diff = derived.diff;
        self.display_rows = derived.display_rows;
        self.max_content_width = derived.max_content_width;
        self.change_block_indices = derived.change_block_indices;
        self.change_count = derived.change_count;

        if self.change_block_indices.len() == 0 {
            self.current_block = 0;
        } else if self.current_block >= self.change_block_indices.len() {
            self.current_block = self.change_block_indices.len() - 1;
        }
    }

    /// The current change block lies within both contents, and the lines
    /// of the model fit.
    proof fn lemma_current_block(&self)
        requires
            self.wf(),
            self.change_block_indices@.len() > 0,
        ensures
            self.current_block < self.change_block_indices@.len(),
            self.change_block_indices@[self.current_block as int] < self.diff.blocks@.len(),
            ({
                let b = self.diff@[self.change_block_indices@[self.current_block as int] as int];
                &&& b == current_block_view(self@)
                &&& b.left_range.start <= b.left_range.end <= self.left_content@.len()
                &&& b.right_range.start <= b.right_range.end <= self.right_content@.len()
            }),
    {
        let d = self.diff@;
        assert(self.diff.blocks.len() == self.diff.blocks@.len());
        lemma_change_indices(kinds(d));
        let k = change_indices(kinds(d))[self.current_block as int];
        assert(self.change_block_indices@[self.current_block as int] == k as usize);
        lemma_tile_bounds(left_ranges(d), self.left_content@.len());
        lemma_tile_bounds(right_ranges(d), self.right_content@.len());
        assert(left_ranges(d)[k] == d[k].left_range);
        assert(right_ranges(d)[k] == d[k].right_range);
    }

    /// Copy the current block from `source` to the other side, recording
    /// the copy for undo.
    fn copy_block(&mut self, source: Side)
        requires
            old(self).wf(),
        ensures
            final(self).wf(),
            final(self)@ == copy_spec(old(self)@, source),
            final(self).left_content.path == old(self).left_content.path,
            final(self).right_content.path == old(self).right_content.path,
    {
        if self.change_block_indices.len() == 0 {
            return;
        }
        proof {
            self.lemma_current_block();
        }
        let block_index = self.change_block_indices[self.current_block];
        let left_range = self.diff.blocks[block_index].left_range.start..self.diff.blocks[block_index].left_range.end;
        let right_range = self.diff.blocks[block_index].right_range.start..self.diff.blocks[block_index].right_range.end;
        let target = match source {
            Side::Left => Side::Right,
            Side::Right => Side::Left,
        };
        let (source_range, target_range) = match source {
            Side::Left => (left_range, right_range),
            Side::Right => (right_range, left_range),
        };
        let source_lines = match source {
            Side::Left => crate::file_io::copy_lines(self.left_content.lines(), &source_range),
            Side::Right => crate::file_io::copy_lines(self.right_content.lines(), &source_range),
        };
        let entry = self.build_entry(target, target_range, source_lines);
        let ghost v = old(self)@;
        let ghost e = entry@;
        assert(e == copy_entry(v, source));
        proof {
            lemma_fit_subrange(side_lines(v, target), e.start as int, e.start + e.original.len());
            lemma_fit_subrange(side_lines(v, source), source_range.start as int, source_range.end as int);
            lemma_undo_chain_push(texts_of(v), v.undo, e, v.capacity);
            lemma_entries_push(self.undo_stack.undo_seq(), self.undo_stack.capacity(), entry);
        }
        self.apply_forward(&entry);
        self.undo_stack.push(entry);
        assert(entries_view(self.undo_stack.redo_seq()) =~= Seq::<EntryView>::empty());
    }

    /// Copy the active block's content from the left side to the right side.
    pub fn copy_left_to_right(&mut self)
        requires
            old(self).wf(),
        ensures
            final(self).wf(),
            final(self)@ == copy_spec(old(self)@, Side::Left),
            final(self).left_content.path == old(self).left_content.path,
            final(self).right_content.path == old(self).right_content.path,
    {
        self.copy_block(Side::Left);
    }

    /// Copy the active block's content from the right side to the left side.
    pub fn copy_right_to_left(&mut self)
        requires
            old(self).wf(),
        ensures
            final(self).wf(),
            final(self)@ == copy_spec(old(self)@, Side::Right),
            final(self).left_content.path == old(self).left_content.path,
            final(self).right_content.path == old(self).right_content.path,
    {
        self.copy_block(Side::Right);
    }

    /// Undo the most recent copy operation.
    #[verifier::rlimit(40)]
    pub fn undo(&mut self)
        requires
            old(self).wf(),
        ensures
            final(self).wf(),
            final(self)@ == undo_spec(old(self)@),
            final(self).left_content.path == old(self).left_content.path,
            final(self).right_content.path == old(self).right_content.path,
            old(self).undo_stack.undo_seq().len() == 0 ==> *final(self) == (DiffModel {
                undo_stack: final(self).undo_stack,
                ..*old(self)
            }),
    {
        let ghost v = old(self)@;
        if let Some(entry) = self.undo_stack.pop_undo() {
            proof {
                let t = texts_of(v);
                let e = entry@;
                assert(v.undo.last() == e);
                assert(entries_view(self.undo_stack.undo_seq()) =~= v.undo.drop_last());
                lemma_bwd_then_fwd(t, e);
                lemma_entries_push(self.undo_stack.redo_seq(), 1, entry);
                assert(v.redo.push(e).last() == e);
                assert(v.redo.push(e).drop_last() =~= v.redo);
            }
            self.apply_backward(&entry);
            self.undo_stack.push_redo(entry);
        }
    }

    /// Redo the most recently undone operation.
    pub fn redo(&mut self)
        requires
            old(self).wf(),
        ensures
            final(self).wf(),
            final(self)@ == redo_spec(old(self)@),
            final(self).left_content.path == old(self).left_content.path,
            final(self).right_content.path == old(self).right_content.path,
            old(self).undo_stack.redo_seq().len() == 0 ==> *final(self) == (DiffModel {
                undo_stack: final(self).undo_stack,
                ..*old(self)
            }),
    {
        let ghost v = old(self)@;
        if let Some(entry) = self.undo_stack.pop_redo() {
            proof {
                let t = texts_of(v);
                let e = entry@;
                assert(v.redo.last() == e);
                assert(entries_view(self.undo_stack.redo_seq()) =~= v.redo.drop_last());
                lemma_undo_chain_push(t, v.undo, e, v.capacity);
                lemma_entries_push(self.undo_stack.undo_seq(), self.undo_stack.capacity(), entry);
            }
            self.apply_forward(&entry);
            self.undo_stack.push_undo(entry);
        }
    }

    /// Whether there are entries available to undo.
    pub fn can_undo(&self) -> (b: bool)
        ensures
            b == (self@.undo.len() > 0),
    {
        self.undo_stack.can_undo()
    }

    /// Whether there are entries available to redo.
    pub fn can_redo(&self) -> (b: bool)
        ensures
            b == (self@.redo.len() > 0),
    {
        self.undo_stack.can_redo()
    }

    /// Apply an entry forward: splice replacement lines in.
    fn apply_forward(&mut self, entry: &UndoEntry)
        requires
            lines_fit(old(self)@.left),
            lines_fit(old(self)@.right),
            fwd_ok(texts_of(old(self)@), entry@),
        ensures
            final(self)@ == forward_spec(old(self)@, entry@),
            final(self).derived_agrees(),
            final(self).undo_stack == old(self).undo_stack,
            final(self).left_content.path == old(self).left_content.path,
            final(self).right_content.path == old(self).right_content.path,
            lines_fit(final(self)@.left),
            lines_fit(final(self)@.right),
    {
        assert(entry@.original.len() == entry.original_lines@.len());
        let n = match entry.side {
            Side::Left => self.left_content.lines.len(),
            Side::Right => self.right_content.lines.len(),
        };
        assert(n == side_lines(old(self)@, entry.side).len());
        let range = entry.start..(entry.start + entry.original_lines.len());
        let ghost v = old(self)@;
        let ghost e = entry@;
        proof {
            lemma_fit_splice(side_lines(v, e.side), e.start as int, e.start + e.original.len(), e.replacement);
        }
        match entry.side {
            Side::Left => {
                self.left_content.splice_lines(range, clone_lines(entry.replacement_lines.as_slice()));
                self.left_dirty = true;
            },
            Side::Right => {
                self.right_content.splice_lines(range, clone_lines(entry.replacement_lines.as_slice()));
                self.right_dirty = true;
            },
        }
        self.recompute_diff();
    }

    /// Apply an entry backward: splice original lines back in.
    fn apply_backward(&mut self, entry: &UndoEntry)
        requires
            lines_fit(old(self)@.left),
            lines_fit(old(self)@.right),
            bwd_ok(texts_of(old(self)@), entry@),
        ensures
            final(self)@ == backward_spec(old(self)@, entry@),
            final(self).derived_agrees(),
            final(self).undo_stack == old(self).undo_stack,
            final(self).left_content.path == old(self).left_content.path,
            final(self).right_content.path == old(self).right_content.path,
            lines_fit(final(self)@.left),
            lines_fit(final(self)@.right),
    {
        assert(entry@.replacement.len() == entry.replacement_lines@.len());
        let n = match entry.side {
            Side::Left => self.left_content.lines.len(),
            Side::Right => self.right_content.lines.len(),
        };
        assert(n == side_lines(old(self)@, entry.side).len());
        let range = entry.start..(entry.start + entry.replacement_lines.len());
        let ghost v = old(self)@;
        let ghost e = entry@;
        proof {
            lemma_fit_splice(side_lines(v, e.side), e.start as int, e.start + e.replacement.len(), e.original);
        }
        match entry.side {
            Side::Left => {
                self.left_content.splice_lines(range, clone_lines(entry.original_lines.as_slice()));
                self.left_dirty = entry.was_dirty;
            },
            Side::Right => {
                self.right_content.splice_lines(range, clone_lines(entry.original_lines.as_slice()));
                self.right_dirty = entry.was_dirty;
            },
        }
        self.current_block = entry.previous_block;
        self.recompute_diff();
    }
}

/// Equal regions stay aligned: in a well-formed model, every display row of
/// an equal block shows a line of each file, and the two lines have the same
/// text.
pub proof fn law_model_equal_rows_aligned(m: DiffModel)
    requires
        m.wf(),
    ensures
        equal_rows_agree(m.display_rows@, m.left_content@, m.right_content@),
{
    law_equal_rows_pair_equal_lines(m.diff@, m.left_content@, m.right_content@);
}

/// The derived state follows the contents after every operation: in a
/// well-formed model the diff is the diff of the two files, the rows are its
/// rows, the change indices list its change blocks, the change count is
/// their number, and the current block is 0 when there is no change and a
/// valid change index otherwise.
pub proof fn law_model_derived_state(m: DiffModel)
    requires
        m.wf(),
    ensures
        m.diff@ == diff_spec(m.left_content@, m.right_content@),
        m.display_rows@ == rows_spec(m.diff@),
        m.change_block_indices@ == change_index_seq(m.diff@),
        m.change_count == m.change_block_indices@.len(),
        m.change_count == 0 ==> m.current_block == 0,
        m.change_count > 0 ==> m.current_block < m.change_count,
{
}

/// The content width spans both files: in a well-formed model it is the
/// widest shown line of the left file and of the right file together, plus
/// one.
pub proof fn law_model_width_is_widest(m: DiffModel)
    requires
        m.wf(),
    ensures
        widest_of(m.max_content_width as nat, m.left_content@, m.right_content@),
{
    lemma_max_width_widest(m.left_content@, m.right_content@);
}

/// A copy takes the current change block: when there is a change block,
/// copying from `source` replaces, in the other file, the lines of change
/// block number `current_block` by that block's lines of the source file,
/// and leaves the rest of the other file and the whole source file as they
/// were; the copied lines then stand at the block's start in the other file.
pub proof fn law_model_copy_copies_current_block(v: ModelView, source: Side)
    requires
        view_ok(v),
        change_count_of(v.left, v.right) > 0,
    ensures
        ({
            let d = diff_spec(v.left, v.right);
            let b = d[change_indices(kinds(d))[v.current_block as int]];
            let (sr, tr) = if source == Side::Left {
                (b.left_range, b.right_range)
            } else {
                (b.right_range, b.left_range)
            };
            let (src, tgt) = if source == Side::Left {
                (v.left, v.right)
            } else {
                (v.right, v.left)
            };
            let w = copy_spec(v, source);
            let (new_src, new_tgt) = if source == Side::Left {
                (w.left, w.right)
            } else {
                (w.right, w.left)
            };
            &&& new_src == src
            &&& new_tgt == tgt.subrange(0, tr.start as int) + src.subrange(sr.start as int, sr.end as int)
                + tgt.subrange(tr.end as int, tgt.len() as int)
            &&& new_tgt.subrange(tr.start as int, tr.start + (sr.end - sr.start)) == src.subrange(
                sr.start as int,
                sr.end as int,
            )
        }),
{
    lemma_change_block_bounds(v.left, v.right, v.current_block);
    let d = diff_spec(v.left, v.right);
    let b = d[change_indices(kinds(d))[v.current_block as int]];
    let (sr, tr) = if source == Side::Left {
        (b.left_range, b.right_range)
    } else {
        (b.right_range, b.left_range)
    };
    let (src, tgt) = if source == Side::Left {
        (v.left, v.right)
    } else {
        (v.right, v.left)
    };
    let new_tgt = tgt.subrange(0, tr.start as int) + src.subrange(sr.start as int, sr.end as int)
        + tgt.subrange(tr.end as int, tgt.len() as int);
    assert(new_tgt.subrange(tr.start as int, tr.start + (sr.end - sr.start)) =~= src.subrange(
        sr.start as int,
        sr.end as int,
    ));
}

/// The inline diffs of a replacement pair its lines in order: in a
/// well-formed model, a replaced block with `ll` left and `rl` right lines has
/// `min(ll, rl)` inline diffs, and the `k`-th one spells the block's `k`-th
/// left line on its left side and the block's `k`-th right line on its right
/// side.
pub proof fn law_model_inline_diffs_pair_lines(m: DiffModel)
    requires
        m.wf(),
    ensures
        forall|j: int, k: int|
            #![trigger m.diff@[j].inline_diffs[k]]
            0 <= j < m.diff@.len() && m.diff@[j].kind == BlockKind::Replace && 0 <= k
                < m.diff@[j].inline_diffs.len() ==> crate::inline_diff::seg_text(m.diff@[j].inline_diffs[k].left)
                == m.left_content@[m.diff@[j].left_range.start + k] && crate::inline_diff::seg_text(
                m.diff@[j].inline_diffs[k].right,
            ) == m.right_content@[m.diff@[j].right_range.start + k],
        forall|j: int|
            0 <= j < m.diff@.len() && (#[trigger] m.diff@[j]).kind == BlockKind::Replace
                ==> m.diff@[j].inline_diffs.len() == crate::diff::min_int(
                m.diff@[j].left_range.end - m.diff@[j].left_range.start,
                m.diff@[j].right_range.end - m.diff@[j].right_range.start,
            ),
{
    assert forall|j: int, k: int|
        #![trigger m.diff@[j].inline_diffs[k]]
        0 <= j < m.diff@.len() && m.diff@[j].kind == BlockKind::Replace && 0 <= k
            < m.diff@[j].inline_diffs.len() implies crate::inline_diff::seg_text(m.diff@[j].inline_diffs[k].left)
            == m.left_content@[m.diff@[j].left_range.start + k] && crate::inline_diff::seg_text(
            m.diff@[j].inline_diffs[k].right,
        ) == m.right_content@[m.diff@[j].right_range.start + k] by {
        assert(crate::diff::block_inlines_pair(m.diff@[j], m.left_content@, m.right_content@));
        let x = m.diff@[j].inline_diffs[k];
    }
}

} // verus!
