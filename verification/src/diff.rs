//! Line-level diff of two files into blocks.
use std::ops::Range;
use vstd::prelude::*;
use crate::file_io::{FileContent, lines_view, copy_lines};
use crate::inline_diff::{InlineDiff, InlineDiffView, inline_from_changes, char_diff, seg_text};

verus! {

/// The kind of change a diff block represents.
#[derive(Debug, Clone, Copy, PartialEq, Eq, Structural)]
pub enum BlockKind {
    Equal,
    Insert,
    Delete,
    Replace,
}

/// One operation of a line diff: its kind and the line ranges it covers in
/// the old and the new file.
#[derive(Debug)]
pub struct LineOp {
    pub kind: BlockKind,
    pub old_range: Range<usize>,
    pub new_range: Range<usize>,
}

/// The operations that `similar`'s line diff reports between two files,
/// given as their lines.
pub uninterp spec fn line_diff(old: Seq<Seq<char>>, new: Seq<Seq<char>>) -> Seq<LineOp>;

/// A sequence of ranges tiles `0..n`: each range is ordered, the first
/// starts at 0, each starts where the previous one ends, and the last ends
/// at `n` (an empty sequence tiles only `0..0`).
pub open spec fn ranges_tile(r: Seq<Range<usize>>, n: nat) -> bool {
    &&& forall|i: int| 0 <= i < r.len() ==> #[trigger] r[i].start <= r[i].end
    &&& forall|i: int| 0 < i < r.len() ==> #[trigger] r[i].start == r[i - 1].end
    &&& r.len() == 0 ==> n == 0
    &&& r.len() > 0 ==> r[0].start == 0 && r.last().end == n
}

/// The old-side ranges of a list of operations.
pub open spec fn old_ranges(ops: Seq<LineOp>) -> Seq<Range<usize>> {
    ops.map_values(|op: LineOp| op.old_range)
}

/// The new-side ranges of a list of operations.
pub open spec fn new_ranges(ops: Seq<LineOp>) -> Seq<Range<usize>> {
    ops.map_values(|op: LineOp| op.new_range)
}

/// The shape that each kind of operation has: an equal run has one length
/// on both sides, a deletion is empty on the new side, an insertion on the
/// old side.
pub open spec fn op_shaped(op: LineOp) -> bool {
    &&& op.kind == BlockKind::Equal ==> op.old_range.end - op.old_range.start
        == op.new_range.end - op.new_range.start
    &&& op.kind == BlockKind::Delete ==> op.new_range.start == op.new_range.end
    &&& op.kind == BlockKind::Insert ==> op.old_range.start == op.old_range.end
}

/// An equal operation pairs equal lines: each line of its old range has the
/// text of the line at the same offset in its new range.
pub open spec fn op_pairs_equal(op: LineOp, old: Seq<Seq<char>>, new: Seq<Seq<char>>) -> bool {
    op.kind == BlockKind::Equal ==> forall|i: int|
        op.old_range.start <= i < op.old_range.end ==> #[trigger] old[i] == new[i - op.old_range.start
            + op.new_range.start]
}

/// An operation covers at least one line: an equal run and a deletion on
/// the old side, an insertion on the new side, a replacement on both.
pub open spec fn op_nonempty(op: LineOp) -> bool {
    &&& op.kind != BlockKind::Insert ==> op.old_range.start < op.old_range.end
    &&& op.kind != BlockKind::Delete ==> op.new_range.start < op.new_range.end
}

/// Of two neighbouring kinds exactly one is `Equal`.
pub open spec fn one_equal(k1: BlockKind, k2: BlockKind) -> bool {
    (k1 == BlockKind::Equal) != (k2 == BlockKind::Equal)
}

/// Equal and changed runs alternate in a sequence of kinds: two equal runs
/// are never neighbours, nor are two changes (so a deletion never stands
/// next to an insertion).
pub open spec fn kinds_alternate(k: Seq<BlockKind>) -> bool {
    forall|i: int, j: int| 0 <= i && j == i + 1 && j < k.len() ==> #[trigger] one_equal(k[i], k[j])
}

/// The kinds of a list of operations.
pub open spec fn op_kinds(ops: Seq<LineOp>) -> Seq<BlockKind> {
    ops.map_values(|op: LineOp| op.kind)
}

/// The line diff of two files, from `similar::TextDiff::from_slices` over
/// their lines and `TextDiff::ops`, each operation converted by
/// `DiffOp::as_tag_tuple` into its kind and its two ranges.
///
/// Claimed of the crate: the result is the named `line_diff` of the two line
/// sequences; the operations come in order and tile both sequences (the diff
/// hooks are called for consecutive runs that cover both inputs); and each
/// operation has the shape that `as_tag_tuple` gives its kind; an equal
/// operation pairs equal lines (the algorithms report an equal run only for
/// elements that compare equal, and the compaction pass shifts runs only
/// across a common prefix or suffix); every operation covers at least one
/// line (empty runs are never reported, and the compaction pass removes the
/// runs it empties); equal and changed operations alternate (the replace
/// hook joins neighbouring equal runs, and joins every run of deletions and
/// insertions between two equal runs into one operation); and two identical files give one equal
/// operation over all lines, or none when they are empty (the common prefix
/// is the whole file). Which lines are matched beyond that is not stated.
#[verifier::external_body]
fn line_diff_ops(old: &[String], new: &[String]) -> (ops: Vec<LineOp>)
    ensures
        ops@ == line_diff(lines_view(old@), lines_view(new@)),
        ranges_tile(old_ranges(ops@), old@.len()),
        ranges_tile(new_ranges(ops@), new@.len()),
        forall|i: int| 0 <= i < ops@.len() ==> op_shaped(#[trigger] ops@[i]),
        forall|i: int| 0 <= i < ops@.len() ==> op_pairs_equal(#[trigger] ops@[i], lines_view(old@), lines_view(new@)),
        forall|i: int| 0 <= i < ops@.len() ==> op_nonempty(#[trigger] ops@[i]),
        kinds_alternate(op_kinds(ops@)),
        lines_view(old@) == lines_view(new@) ==> (if old@.len() == 0 {
            ops@.len() == 0
        } else {
            ops@.len() == 1 && ops@[0].kind == BlockKind::Equal
        }),
{
    let o: Vec<&str> = old.iter().map(|s| s.as_str()).collect();
    let n: Vec<&str> = new.iter().map(|s| s.as_str()).collect();
    let diff = similar::TextDiff::from_slices(&o, &n);
    diff.ops().iter().map(|op| {
        let (tag, old_range, new_range) = op.as_tag_tuple();
        let kind = match tag {
            similar::DiffTag::Equal => BlockKind::Equal,
            similar::DiffTag::Delete => BlockKind::Delete,
            similar::DiffTag::Insert => BlockKind::Insert,
            similar::DiffTag::Replace => BlockKind::Replace,
        };
        LineOp { kind, old_range, new_range }
    }).collect()
}

/// A contiguous region of diff between two files.
#[derive(Debug)]
pub struct DiffBlock {
    pub kind: BlockKind,
    pub left_range: Range<usize>,
    pub right_range: Range<usize>,
    /// Character-level diffs for Replace blocks. One entry per paired line.
    pub inline_diffs: Vec<InlineDiff>,
}

/// The mathematical value of a diff block.
pub struct DiffBlockView {
    pub kind: BlockKind,
    pub left_range: Range<usize>,
    pub right_range: Range<usize>,
    pub inline_diffs: Seq<InlineDiffView>,
}

/// The views of a sequence of inline diffs.
pub open spec fn inline_diffs_view(s: Seq<InlineDiff>) -> Seq<InlineDiffView> {
    s.map_values(|d: InlineDiff| d@)
}

impl View for DiffBlock {
    type V = DiffBlockView;

    open spec fn view(&self) -> DiffBlockView {
        DiffBlockView {
            kind: self.kind,
            left_range: self.left_range,
            right_range: self.right_range,
            inline_diffs: inline_diffs_view(self.inline_diffs@),
        }
    }
}

/// The result of diffing two files.
#[derive(Debug)]
pub struct DiffResult {
    pub blocks: Vec<DiffBlock>,
}

/// The views of a sequence of blocks.
pub open spec fn blocks_view(s: Seq<DiffBlock>) -> Seq<DiffBlockView> {
    s.map_values(|b: DiffBlock| b@)
}

impl View for DiffResult {
    type V = Seq<DiffBlockView>;

    open spec fn view(&self) -> Seq<DiffBlockView> {
        blocks_view(self.blocks@)
    }
}

/// The smaller of two integers.
pub open spec fn min_int(a: int, b: int) -> int {
    if a <= b {
        a
    } else {
        b
    }
}

/// The inline diffs of the paired lines of a replaced region: line `i` of the
/// left side against line `i` of the right side, for as many lines as the
/// shorter side has.
pub open spec fn paired_inline_diffs(l: Seq<Seq<char>>, r: Seq<Seq<char>>) -> Seq<InlineDiffView> {
    Seq::new(min_int(l.len() as int, r.len() as int) as nat, |i: int| inline_from_changes(char_diff(l[i], r[i])))
}

/// The block that an operation becomes: same kind and ranges, and for a
/// replacement the inline diffs of its paired lines.
pub open spec fn block_of_op(op: LineOp, left: Seq<Seq<char>>, right: Seq<Seq<char>>) -> DiffBlockView {
    DiffBlockView {
        kind: op.kind,
        left_range: op.old_range,
        right_range: op.new_range,
        inline_diffs: if op.kind == BlockKind::Replace {
            paired_inline_diffs(
                left.subrange(op.old_range.start as int, op.old_range.end as int),
                right.subrange(op.new_range.start as int, op.new_range.end as int),
            )
        } else {
            Seq::empty()
        },
    }
}

/// The blocks built from a list of operations.
pub open spec fn blocks_of_ops(ops: Seq<LineOp>, left: Seq<Seq<char>>, right: Seq<Seq<char>>) -> Seq<DiffBlockView> {
    ops.map_values(|op: LineOp| block_of_op(op, left, right))
}

/// The diff of two files given as their lines.
pub open spec fn diff_spec(left: Seq<Seq<char>>, right: Seq<Seq<char>>) -> Seq<DiffBlockView> {
    blocks_of_ops(line_diff(left, right), left, right)
}

/// An operation can be turned into a block: its ranges do not overflow, and
/// the ranges of a replacement lie within the files.
pub open spec fn op_fits(op: LineOp, n_left: nat, n_right: nat) -> bool {
    op.kind == BlockKind::Replace ==> {
        &&& op.old_range.start <= op.old_range.end <= n_left
        &&& op.new_range.start <= op.new_range.end <= n_right
    }
}

/// A block has the shape of its kind: an equal block spans as many lines on
/// both sides, a deletion none on the right, an insertion none on the left.
pub open spec fn block_shaped(b: DiffBlockView) -> bool {
    &&& b.kind == BlockKind::Equal ==> b.left_range.end - b.left_range.start
        == b.right_range.end - b.right_range.start
    &&& b.kind == BlockKind::Delete ==> b.right_range.start == b.right_range.end
    &&& b.kind == BlockKind::Insert ==> b.left_range.start == b.left_range.end
}

/// An equal block pairs equal lines: each line of its left range has the
/// text of the line at the same offset in its right range.
pub open spec fn block_pairs_equal(b: DiffBlockView, left: Seq<Seq<char>>, right: Seq<Seq<char>>) -> bool {
    b.kind == BlockKind::Equal ==> forall|i: int|
        b.left_range.start <= i < b.left_range.end ==> #[trigger] left[i] == right[i - b.left_range.start
            + b.right_range.start]
}

/// Every equal block pairs equal lines.
pub open spec fn equal_blocks_match(b: Seq<DiffBlockView>, left: Seq<Seq<char>>, right: Seq<Seq<char>>) -> bool {
    forall|i: int| 0 <= i < b.len() ==> block_pairs_equal(#[trigger] b[i], left, right)
}

/// A block covers at least one line: an equal block and a deletion on the
/// left, an insertion on the right, a replacement on both.
pub open spec fn block_nonempty(b: DiffBlockView) -> bool {
    &&& b.kind != BlockKind::Insert ==> b.left_range.start < b.left_range.end
    &&& b.kind != BlockKind::Delete ==> b.right_range.start < b.right_range.end
}

/// The inline diffs of a replacement pair its lines in order: a block with
/// `ll` left lines and `rl` right lines has `min(ll, rl)` inline diffs, and
/// the `k`-th one spells left line `start + k` on its left side and right
/// line `start + k` on its right side.
pub open spec fn block_inlines_pair(b: DiffBlockView, left: Seq<Seq<char>>, right: Seq<Seq<char>>) -> bool {
    b.kind == BlockKind::Replace ==> {
        &&& b.inline_diffs.len() == min_int(
            b.left_range.end - b.left_range.start,
            b.right_range.end - b.right_range.start,
        )
        &&& forall|k: int| 0 <= k < b.inline_diffs.len() ==> seg_text((#[trigger] b.inline_diffs[k]).left)
            == left[b.left_range.start + k] && seg_text(b.inline_diffs[k].right) == right[b.right_range.start + k]
    }
}

/// The inline diffs of every replacement pair its lines in order.
pub open spec fn inline_diffs_pair_lines(b: Seq<DiffBlockView>, left: Seq<Seq<char>>, right: Seq<Seq<char>>) -> bool {
    forall|j: int| 0 <= j < b.len() ==> block_inlines_pair(#[trigger] b[j], left, right)
}

/// Every block has the shape of its kind.
pub open spec fn blocks_shaped(b: Seq<DiffBlockView>) -> bool {
    forall|i: int| 0 <= i < b.len() ==> block_shaped(#[trigger] b[i])
}

/// The left ranges of a sequence of block views.
pub open spec fn left_ranges(b: Seq<DiffBlockView>) -> Seq<Range<usize>> {
    b.map_values(|x: DiffBlockView| x.left_range)
}

/// The right ranges of a sequence of block views.
pub open spec fn right_ranges(b: Seq<DiffBlockView>) -> Seq<Range<usize>> {
    b.map_values(|x: DiffBlockView| x.right_range)
}

/// The kinds of a sequence of block views.
pub open spec fn kinds(b: Seq<DiffBlockView>) -> Seq<BlockKind> {
    b.map_values(|x: DiffBlockView| x.kind)
}

/// The indices of the blocks that are not equal, in increasing order.
pub open spec fn change_indices(k: Seq<BlockKind>) -> Seq<int>
    decreases k.len(),
{
    if k.len() == 0 {
        Seq::empty()
    } else if k.last() == BlockKind::Equal {
        change_indices(k.drop_last())
    } else {
        change_indices(k.drop_last()).push(k.len() - 1)
    }
}

/// Every range of a tiling of `0..n` ends within `n`.
pub proof fn lemma_tile_bounds(r: Seq<Range<usize>>, n: nat)
    requires
        ranges_tile(r, n),
    ensures
        forall|i: int| 0 <= i < r.len() ==> #[trigger] r[i].end <= n,
{
    assert forall|i: int| 0 <= i < r.len() implies #[trigger] r[i].end <= n by {
        lemma_tile_suffix(r, n, i);
    }
}

proof fn lemma_tile_suffix(r: Seq<Range<usize>>, n: nat, i: int)
    requires
        ranges_tile(r, n),
        0 <= i < r.len(),
    ensures
        r[i].end <= n,
    decreases r.len() - i,
{
    if i < r.len() - 1 {
        lemma_tile_suffix(r, n, i + 1);
        assert(r[i + 1].start == r[i].end);
        assert(r[i + 1].start <= r[i + 1].end);
    }
}

/// The elements of a change index list are increasing block indices of
/// blocks that are not equal, and every such block is listed.
pub proof fn lemma_change_indices(k: Seq<BlockKind>)
    ensures
        forall|j: int| 0 <= j < change_indices(k).len() ==> 0 <= #[trigger] change_indices(k)[j] < k.len()
            && k[change_indices(k)[j]] != BlockKind::Equal,
        forall|a: int, b: int| 0 <= a < b < change_indices(k).len() ==> change_indices(k)[a] < change_indices(k)[b],
        forall|i: int| 0 <= i < k.len() && k[i] != BlockKind::Equal ==> #[trigger] change_indices(k).contains(i),
        change_indices(k).len() <= k.len(),
    decreases k.len(),
{
    if k.len() > 0 {
        let p = k.drop_last();
        lemma_change_indices(p);
        let c = change_indices(k);
        let cp = change_indices(p);
        assert forall|i: int| 0 <= i < k.len() && k[i] != BlockKind::Equal implies #[trigger] c.contains(i) by {
            if i < k.len() - 1 {
                assert(p[i] == k[i]);
                assert(cp.contains(i));
                let j = choose|j: int| 0 <= j < cp.len() && cp[j] == i;
                if k.last() != BlockKind::Equal {
                    assert(c[j] == i);
                }
            } else {
                assert(c[c.len() - 1] == i);
            }
        }
    }
}

/// Compute inline diffs for paired lines in a Replace block.
fn compute_inline_diffs_str(left_lines: &[String], right_lines: &[String]) -> (r: Vec<InlineDiff>)
    ensures
        inline_diffs_view(r@) == paired_inline_diffs(lines_view(left_lines@), lines_view(right_lines@)),
        r@.len() == min_int(left_lines@.len() as int, right_lines@.len() as int),
        forall|k: int| 0 <= k < r@.len() ==> seg_text((#[trigger] r@[k])@.left) == left_lines@[k]@ && seg_text(
            r@[k]@.right,
        ) == right_lines@[k]@,
{
    let pair_count = if left_lines.len() <= right_lines.len() {
        left_lines.len()
    } else {
        right_lines.len()
    };
    let mut r: Vec<InlineDiff> = Vec::new();
    let mut i: usize = 0;
    while i < pair_count
        invariant
            i <= pair_count,
            pair_count <= left_lines@.len(),
            pair_count <= right_lines@.len(),
            pair_count == min_int(left_lines@.len() as int, right_lines@.len() as int),
            r@.len() == i,
            forall|k: int| 0 <= k < i ==> #[trigger] r@[k]@ == inline_from_changes(
                char_diff(left_lines@[k]@, right_lines@[k]@),
            ),
            forall|k: int| 0 <= k < i ==> seg_text((#[trigger] r@[k])@.left) == left_lines@[k]@ && seg_text(
                r@[k]@.right,
            ) == right_lines@[k]@,
        decreases pair_count - i,
    {
        r.push(InlineDiff::compute(left_lines[i].as_str(), right_lines[i].as_str()));
        i = i + 1;
    }
    assert(inline_diffs_view(r@) =~= paired_inline_diffs(lines_view(left_lines@), lines_view(right_lines@)));
    r
}

/// What the blocks of a list of operations inherit from the operations:
/// the ranges, the shapes, the pairing of equal lines, non-emptiness and the
/// neighbouring kinds.
proof fn lemma_block_facts(ops: Seq<LineOp>, left: Seq<Seq<char>>, right: Seq<Seq<char>>)
    requires
        forall|i: int| 0 <= i < ops.len() ==> op_shaped(#[trigger] ops[i]),
        forall|i: int| 0 <= i < ops.len() ==> op_pairs_equal(#[trigger] ops[i], left, right),
        forall|i: int| 0 <= i < ops.len() ==> op_nonempty(#[trigger] ops[i]),
        kinds_alternate(op_kinds(ops)),
    ensures
        left_ranges(blocks_of_ops(ops, left, right)) == old_ranges(ops),
        right_ranges(blocks_of_ops(ops, left, right)) == new_ranges(ops),
        blocks_shaped(blocks_of_ops(ops, left, right)),
        equal_blocks_match(blocks_of_ops(ops, left, right), left, right),
        forall|i: int| 0 <= i < ops.len() ==> block_nonempty(#[trigger] blocks_of_ops(ops, left, right)[i]),
        kinds(blocks_of_ops(ops, left, right)) == op_kinds(ops),
        blocks_of_ops(ops, left, right).len() == ops.len(),
        forall|i: int| 0 <= i < ops.len() ==> (#[trigger] blocks_of_ops(ops, left, right)[i]).kind == ops[i].kind,
{
    let b = blocks_of_ops(ops, left, right);
    assert(left_ranges(b) =~= old_ranges(ops));
    assert(right_ranges(b) =~= new_ranges(ops));
    assert forall|i: int| 0 <= i < b.len() implies block_shaped(#[trigger] b[i]) by {
        assert(op_shaped(ops[i]));
    }
    assert forall|i: int| 0 <= i < b.len() implies block_pairs_equal(#[trigger] b[i], left, right) by {
        assert(op_pairs_equal(ops[i], left, right));
    }
    assert forall|i: int| 0 <= i < ops.len() implies block_nonempty(#[trigger] b[i]) by {
        assert(op_nonempty(ops[i]));
    }
    assert(kinds(b) =~= op_kinds(ops));
}

impl DiffResult {
    /// Build the blocks of a diff from the line operations that describe it:
    /// each operation becomes a block of its kind and ranges, and a
    /// replacement also gets the inline diffs of its paired lines.
    pub fn from_ops(ops: &Vec<LineOp>, left: &[String], right: &[String]) -> (d: DiffResult)
        requires
            forall|i: int| 0 <= i < ops@.len() ==> op_fits(#[trigger] ops@[i], left@.len(), right@.len()),
        ensures
            d@ == blocks_of_ops(ops@, lines_view(left@), lines_view(right@)),
            inline_diffs_pair_lines(d@, lines_view(left@), lines_view(right@)),
    {
        let mut blocks: Vec<DiffBlock> = Vec::new();
        let mut i: usize = 0;
        while i < ops.len()
            invariant
                i <= ops@.len(),
                forall|j: int| 0 <= j < ops@.len() ==> op_fits(#[trigger] ops@[j], left@.len(), right@.len()),
                blocks@.len() == i,
                forall|k: int| 0 <= k < i ==> #[trigger] blocks@[k]@ == block_of_op(ops@[k], lines_view(left@), lines_view(right@)),
                forall|k: int| 0 <= k < i ==> block_inlines_pair(#[trigger] blocks@[k]@, lines_view(left@), lines_view(right@)),
            decreases ops@.len() - i,
        {
            let op = &ops[i];
            assert(op_fits(ops@[i as int], left@.len(), right@.len()));
            let kind = op.kind;
            let left_range = op.old_range.start..op.old_range.end;
            let right_range = op.new_range.start..op.new_range.end;
            let inline_diffs = if kind == BlockKind::Replace {
                let l = copy_lines(left, &left_range);
                let r = copy_lines(right, &right_range);
                compute_inline_diffs_str(l.as_slice(), r.as_slice())
            } else {
                Vec::new()
            };
            let block = DiffBlock { kind, left_range, right_range, inline_diffs };
            assert(block_inlines_pair(block@, lines_view(left@), lines_view(right@))) by {
                if kind == BlockKind::Replace {
                    assert(block@.inline_diffs == inline_diffs_view(block.inline_diffs@));
                    assert forall|k: int| 0 <= k < block@.inline_diffs.len() implies seg_text(
                        (#[trigger] block@.inline_diffs[k]).left,
                    ) == lines_view(left@)[block@.left_range.start + k] && seg_text(block@.inline_diffs[k].right)
                        == lines_view(right@)[block@.right_range.start + k] by {
                        assert(block@.inline_diffs[k] == block.inline_diffs@[k]@);
                    }
                }
            }
            assert(block@.inline_diffs =~= block_of_op(ops@[i as int], lines_view(left@), lines_view(right@)).inline_diffs);
            blocks.push(block);
            i = i + 1;
        }
        let d = DiffResult { blocks };
        assert(d@ =~= blocks_of_ops(ops@, lines_view(left@), lines_view(right@)));
        assert forall|j: int| 0 <= j < d@.len() implies block_inlines_pair(#[trigger] d@[j], lines_view(left@), lines_view(right@)) by {
            assert(d@[j] == blocks@[j]@);
        }
        d
    }

    /// Compute the diff between two file contents.
    ///
    /// The blocks tile both files: their left ranges cover the left lines and
    /// their right ranges the right lines, in order and without gaps.
    pub fn compute(left: &FileContent, right: &FileContent) -> (d: DiffResult)
        ensures
            d@ == diff_spec(left@, right@),
            ranges_tile(left_ranges(d@), left@.len()),
            ranges_tile(right_ranges(d@), right@.len()),
            blocks_shaped(d@),
            equal_blocks_match(d@, left@, right@),
            inline_diffs_pair_lines(d@, left@, right@),
            forall|i: int| 0 <= i < d@.len() ==> block_nonempty(#[trigger] d@[i]),
            kinds_alternate(kinds(d@)),
            left@ == right@ ==> (if left@.len() == 0 {
                d@.len() == 0
            } else {
                d@.len() == 1 && d@[0].kind == BlockKind::Equal
            }),
    {
        let ops = line_diff_ops(left.lines(), right.lines());
        proof {
            lemma_tile_bounds(old_ranges(ops@), left.lines@.len());
            lemma_tile_bounds(new_ranges(ops@), right.lines@.len());
            assert forall|i: int| 0 <= i < ops@.len() implies op_fits(#[trigger] ops@[i], left.lines@.len(), right.lines@.len()) by {
                assert(old_ranges(ops@)[i] == ops@[i].old_range);
                assert(new_ranges(ops@)[i] == ops@[i].new_range);
            }
        }
        let d = DiffResult::from_ops(&ops, left.lines(), right.lines());
        proof {
            lemma_block_facts(ops@, left@, right@);
        }
        d
    }

    /// Return only the blocks that represent changes (not Equal), with
    /// their indices.
    pub fn change_blocks(&self) -> (r: Vec<(usize, &DiffBlock)>)
        ensures
            r@.len() == change_indices(kinds(self@)).len(),
            forall|k: int| 0 <= k < r@.len() ==> (#[trigger] r@[k]).0 == change_indices(kinds(self@))[k]
                && *r@[k].1 == self.blocks@[r@[k].0 as int],
    {
        let mut r: Vec<(usize, &DiffBlock)> = Vec::new();
        let mut i: usize = 0;
        while i < self.blocks.len()
            invariant
                i <= self.blocks@.len(),
                r@.len() == change_indices(kinds(self@).subrange(0, i as int)).len(),
                forall|k: int| 0 <= k < r@.len() ==> (#[trigger] r@[k]).0 == change_indices(kinds(self@).subrange(0, i as int))[k]
                    && *r@[k].1 == self.blocks@[r@[k].0 as int],
            decreases self.blocks@.len() - i,
        {
            let ghost pre = kinds(self@).subrange(0, i as int + 1);
            assert(pre.drop_last() =~= kinds(self@).subrange(0, i as int));
            assert(pre.last() == self.blocks@[i as int].kind);
            if self.blocks[i].kind != BlockKind::Equal {
                r.push((i, &self.blocks[i]));
            }
            i = i + 1;
        }
        assert(kinds(self@).subrange(0, self.blocks@.len() as int) =~= kinds(self@));
        r
    }

    /// Returns true if there are no differences.
    pub fn is_identical(&self) -> (b: bool)
        ensures
            b == (forall|i: int| 0 <= i < self.blocks@.len() ==> #[trigger] self.blocks@[i].kind == BlockKind::Equal),
    {
        let mut i: usize = 0;
        while i < self.blocks.len()
            invariant
                i <= self.blocks@.len(),
                forall|j: int| 0 <= j < i ==> #[trigger] self.blocks@[j].kind == BlockKind::Equal,
            decreases self.blocks@.len() - i,
        {
            if self.blocks[i].kind != BlockKind::Equal {
                return false;
            }
            i = i + 1;
        }
        true
    }
}

} // verus!
