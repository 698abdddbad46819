//! Flattening diff blocks into aligned display rows.
use vstd::prelude::*;
use crate::diff::{
    BlockKind, DiffBlockView, DiffResult, ranges_tile, left_ranges, right_ranges, blocks_shaped, block_shaped,
    block_pairs_equal, equal_blocks_match, lemma_tile_bounds,
};

verus! {

/// What a single row in the display represents.
#[derive(Debug, Clone, Copy, PartialEq, Eq, Structural)]
pub struct DisplayRow {
    /// Line index in the left file, or None for a padding row.
    pub left_line: Option<usize>,
    /// Line index in the right file, or None for a padding row.
    pub right_line: Option<usize>,
    /// The kind of diff block this row belongs to.
    pub kind: BlockKind,
    /// Index of the originating DiffBlock in DiffResult.blocks.
    pub block_index: usize,
}

/// The number of indices in a range (0 when it is reversed).
pub open spec fn range_len(r: std::ops::Range<usize>) -> int {
    if r.start <= r.end {
        r.end - r.start
    } else {
        0
    }
}

/// The larger of two integers.
pub open spec fn max_int(a: int, b: int) -> int {
    if a >= b {
        a
    } else {
        b
    }
}

/// The smaller of two integers.
pub open spec fn min2(a: int, b: int) -> int {
    if a <= b {
        a
    } else {
        b
    }
}

/// The rows of one block: an equal block pairs its lines, a deletion pads the
/// right side, an insertion pads the left side, and a replacement pairs its
/// lines and then pads the shorter side.
pub open spec fn rows_of_block(b: DiffBlockView, idx: int) -> Seq<DisplayRow> {
    let ll = range_len(b.left_range);
    let rl = range_len(b.right_range);
    let ls = b.left_range.start as int;
    let rs = b.right_range.start as int;
    match b.kind {
        BlockKind::Equal => Seq::new(min2(ll, rl) as nat, |o: int| DisplayRow {
            left_line: Some((ls + o) as usize),
            right_line: Some((rs + o) as usize),
            kind: BlockKind::Equal,
            block_index: idx as usize,
        }),
        BlockKind::Delete => Seq::new(ll as nat, |o: int| DisplayRow {
            left_line: Some((ls + o) as usize),
            right_line: None,
            kind: BlockKind::Delete,
            block_index: idx as usize,
        }),
        BlockKind::Insert => Seq::new(rl as nat, |o: int| DisplayRow {
            left_line: None,
            right_line: Some((rs + o) as usize),
            kind: BlockKind::Insert,
            block_index: idx as usize,
        }),
        BlockKind::Replace => Seq::new(max_int(ll, rl) as nat, |o: int| DisplayRow {
            left_line: if o < ll { Some((ls + o) as usize) } else { None },
            right_line: if o < rl { Some((rs + o) as usize) } else { None },
            kind: BlockKind::Replace,
            block_index: idx as usize,
        }),
    }
}

/// The rows of a sequence of blocks, block after block.
pub open spec fn rows_spec(blocks: Seq<DiffBlockView>) -> Seq<DisplayRow>
    decreases blocks.len(),
{
    if blocks.len() == 0 {
        Seq::empty()
    } else {
        rows_spec(blocks.drop_last()) + rows_of_block(blocks.last(), blocks.len() - 1)
    }
}

/// Flatten diff blocks into a sequence of display rows with alignment padding.
pub fn build_display_rows(diff: &DiffResult) -> (rows: Vec<DisplayRow>)
    ensures
        rows@ == rows_spec(diff@),
{
    let mut rows: Vec<DisplayRow> = Vec::new();
    let mut block_index: usize = 0;
    while block_index < diff.blocks.len()
        invariant
            block_index <= diff.blocks@.len(),
            rows@ == rows_spec(diff@.subrange(0, block_index as int)),
        decreases diff.blocks@.len() - block_index,
    {
        let block = &diff.blocks[block_index];
        let ghost start = rows@;
        let ghost b = diff@[block_index as int];
        let ghost pre = diff@.subrange(0, block_index as int + 1);
        assert(pre.drop_last() =~= diff@.subrange(0, block_index as int));
        assert(pre.last() == b);
        let ls = block.left_range.start;
        let le = block.left_range.end;
        let rs = block.right_range.start;
        let re = block.right_range.end;
        let left_len: usize = if ls <= le { le - ls } else { 0 };
        let right_len: usize = if rs <= re { re - rs } else { 0 };
        let kind = block.kind;
        assert(kind == b.kind);
        let count: usize = match kind {
            BlockKind::Equal => if left_len <= right_len { left_len } else { right_len },
            BlockKind::Delete => left_len,
            BlockKind::Insert => right_len,
            BlockKind::Replace => if left_len >= right_len { left_len } else { right_len },
        };
        let mut offset: usize = 0;
        while offset < count
            invariant
                offset <= count,
                b == diff@[block_index as int],
                block_index < diff.blocks@.len(),
                ls == b.left_range.start,
                le == b.left_range.end,
                rs == b.right_range.start,
                re == b.right_range.end,
                left_len == range_len(b.left_range),
                right_len == range_len(b.right_range),
                count == rows_of_block(b, block_index as int).len(),
                kind == b.kind,
                rows@ == start + rows_of_block(b, block_index as int).subrange(0, offset as int),
            decreases count - offset,
        {
            let left_line = if offset < left_len && kind != BlockKind::Insert {
                Some(ls + offset)
            } else {
                None
            };
            let right_line = if offset < right_len && kind != BlockKind::Delete {
                Some(rs + offset)
            } else {
                None
            };
            let row = DisplayRow { left_line, right_line, kind, block_index };
            assert(rows_of_block(b, block_index as int)[offset as int] == row);
            rows.push(row);
            offset = offset + 1;
            assert(rows@ =~= start + rows_of_block(b, block_index as int).subrange(0, offset as int));
        }
        assert(rows_of_block(b, block_index as int).subrange(0, count as int) =~= rows_of_block(b, block_index as int));
        block_index = block_index + 1;
    }
    assert(diff@.subrange(0, diff.blocks@.len() as int) =~= diff@);
    rows
}

/// The left line numbers that a sequence of rows shows, in order.
pub open spec fn left_lines_of(rows: Seq<DisplayRow>) -> Seq<usize>
    decreases rows.len(),
{
    if rows.len() == 0 {
        Seq::empty()
    } else {
        match rows.last().left_line {
            Some(i) => left_lines_of(rows.drop_last()).push(i),
            None => left_lines_of(rows.drop_last()),
        }
    }
}

/// The right line numbers that a sequence of rows shows, in order.
pub open spec fn right_lines_of(rows: Seq<DisplayRow>) -> Seq<usize>
    decreases rows.len(),
{
    if rows.len() == 0 {
        Seq::empty()
    } else {
        match rows.last().right_line {
            Some(i) => right_lines_of(rows.drop_last()).push(i),
            None => right_lines_of(rows.drop_last()),
        }
    }
}

/// The indices `0..n` in order.
pub open spec fn all_lines(n: nat) -> Seq<usize> {
    Seq::new(n, |i: int| i as usize)
}

proof fn lemma_lines_of_concat(a: Seq<DisplayRow>, b: Seq<DisplayRow>)
    ensures
        left_lines_of(a + b) == left_lines_of(a) + left_lines_of(b),
        right_lines_of(a + b) == right_lines_of(a) + right_lines_of(b),
    decreases b.len(),
{
    if b.len() == 0 {
        assert(a + b =~= a);
        assert(left_lines_of(b) =~= Seq::<usize>::empty());
        assert(left_lines_of(a) + left_lines_of(b) =~= left_lines_of(a));
        assert(right_lines_of(a) + right_lines_of(b) =~= right_lines_of(a));
    } else {
        lemma_lines_of_concat(a, b.drop_last());
        assert((a + b).drop_last() =~= a + b.drop_last());
        assert((a + b).last() == b.last());
        assert(left_lines_of(a) + left_lines_of(b.drop_last()).push(b.last().left_line->0)
            =~= (left_lines_of(a) + left_lines_of(b.drop_last())).push(b.last().left_line->0));
        assert(right_lines_of(a) + right_lines_of(b.drop_last()).push(b.last().right_line->0)
            =~= (right_lines_of(a) + right_lines_of(b.drop_last())).push(b.last().right_line->0));
    }
}

proof fn lemma_lines_len(r: Seq<DisplayRow>)
    ensures
        left_lines_of(r).len() <= r.len(),
        right_lines_of(r).len() <= r.len(),
    decreases r.len(),
{
    if r.len() > 0 {
        lemma_lines_len(r.drop_last());
    }
}

proof fn lemma_left_run(r: Seq<DisplayRow>, ll: int, ls: int)
    requires
        0 <= ll <= r.len(),
        ls >= 0,
        ls + ll <= usize::MAX,
        forall|o: int| 0 <= o < r.len() ==> (#[trigger] r[o]).left_line == (if o < ll {
            Some((ls + o) as usize)
        } else {
            None
        }),
    ensures
        left_lines_of(r) == Seq::new(ll as nat, |o: int| (ls + o) as usize),
    decreases r.len(),
{
    if r.len() > 0 {
        let p = r.drop_last();
        if r.len() > ll {
            lemma_left_run(p, ll, ls);
        } else {
            lemma_left_run(p, ll - 1, ls);
            assert(Seq::new((ll - 1) as nat, |o: int| (ls + o) as usize).push((ls + ll - 1) as usize)
                =~= Seq::new(ll as nat, |o: int| (ls + o) as usize));
        }
    } else {
        assert(left_lines_of(r) =~= Seq::new(ll as nat, |o: int| (ls + o) as usize));
    }
}

proof fn lemma_right_run(r: Seq<DisplayRow>, rl: int, rs: int)
    requires
        0 <= rl <= r.len(),
        rs >= 0,
        rs + rl <= usize::MAX,
        forall|o: int| 0 <= o < r.len() ==> (#[trigger] r[o]).right_line == (if o < rl {
            Some((rs + o) as usize)
        } else {
            None
        }),
    ensures
        right_lines_of(r) == Seq::new(rl as nat, |o: int| (rs + o) as usize),
    decreases r.len(),
{
    if r.len() > 0 {
        let p = r.drop_last();
        if r.len() > rl {
            lemma_right_run(p, rl, rs);
        } else {
            lemma_right_run(p, rl - 1, rs);
            assert(Seq::new((rl - 1) as nat, |o: int| (rs + o) as usize).push((rs + rl - 1) as usize)
                =~= Seq::new(rl as nat, |o: int| (rs + o) as usize));
        }
    } else {
        assert(right_lines_of(r) =~= Seq::new(rl as nat, |o: int| (rs + o) as usize));
    }
}

proof fn lemma_block_lines(b: DiffBlockView, idx: int)
    requires
        block_shaped(b),
        b.left_range.start <= b.left_range.end,
        b.right_range.start <= b.right_range.end,
    ensures
        left_lines_of(rows_of_block(b, idx)) == Seq::new(
            (b.left_range.end - b.left_range.start) as nat,
            |o: int| (b.left_range.start + o) as usize,
        ),
        right_lines_of(rows_of_block(b, idx)) == Seq::new(
            (b.right_range.end - b.right_range.start) as nat,
            |o: int| (b.right_range.start + o) as usize,
        ),
{
    let r = rows_of_block(b, idx);
    let ll = b.left_range.end - b.left_range.start;
    let rl = b.right_range.end - b.right_range.start;
    lemma_left_run(r, ll, b.left_range.start as int);
    lemma_right_run(r, rl, b.right_range.start as int);
}

proof fn lemma_tile_prefix(r: Seq<std::ops::Range<usize>>, n: nat)
    requires
        ranges_tile(r, n),
        r.len() > 0,
    ensures
        ranges_tile(r.drop_last(), r.last().start as nat),
{
    let p = r.drop_last();
    assert forall|i: int| 0 < i < p.len() implies #[trigger] p[i].start == p[i - 1].end by {
        assert(r[i].start == r[i - 1].end);
    }
    if p.len() > 0 {
        assert(r[r.len() - 1].start == r[r.len() - 2].end);
    }
}

/// Alignment: when the blocks tile both files and each block has the shape of
/// its kind, the rows show every left line exactly once and in order, and
/// every right line exactly once and in order; so there are at least as many
/// rows as either file has lines.
pub proof fn law_rows_show_every_line_once(blocks: Seq<DiffBlockView>, n_left: nat, n_right: nat)
    requires
        ranges_tile(left_ranges(blocks), n_left),
        ranges_tile(right_ranges(blocks), n_right),
        blocks_shaped(blocks),
    ensures
        left_lines_of(rows_spec(blocks)) == all_lines(n_left),
        right_lines_of(rows_spec(blocks)) == all_lines(n_right),
        rows_spec(blocks).len() >= n_left,
        rows_spec(blocks).len() >= n_right,
    decreases blocks.len(),
{
    if blocks.len() == 0 {
        assert(left_lines_of(rows_spec(blocks)) =~= all_lines(n_left));
        assert(right_lines_of(rows_spec(blocks)) =~= all_lines(n_right));
    } else {
        let p = blocks.drop_last();
        let b = blocks.last();
        let lr = left_ranges(blocks);
        let rr = right_ranges(blocks);
        lemma_tile_prefix(lr, n_left);
        lemma_tile_prefix(rr, n_right);
        assert(left_ranges(p) =~= lr.drop_last());
        assert(right_ranges(p) =~= rr.drop_last());
        assert(lr.last() == b.left_range);
        assert(rr.last() == b.right_range);
        assert forall|i: int| 0 <= i < p.len() implies block_shaped(#[trigger] p[i]) by {
            assert(block_shaped(blocks[i]));
        }
        assert(block_shaped(blocks[blocks.len() - 1]));
        assert(lr[lr.len() - 1].start <= lr[lr.len() - 1].end);
        assert(rr[rr.len() - 1].start <= rr[rr.len() - 1].end);
        law_rows_show_every_line_once(p, b.left_range.start as nat, b.right_range.start as nat);
        lemma_block_lines(b, blocks.len() - 1);
        lemma_lines_of_concat(rows_spec(p), rows_of_block(b, blocks.len() - 1));
        assert(all_lines(b.left_range.start as nat) + Seq::new(
            (b.left_range.end - b.left_range.start) as nat,
            |o: int| (b.left_range.start + o) as usize,
        ) =~= all_lines(n_left));
        assert(all_lines(b.right_range.start as nat) + Seq::new(
            (b.right_range.end - b.right_range.start) as nat,
            |o: int| (b.right_range.start + o) as usize,
        ) =~= all_lines(n_right));
        lemma_lines_len(rows_spec(blocks));
    }
}

/// Each row of an equal block shows a line on both sides, both lines exist,
/// and they have the same text.
pub open spec fn equal_rows_agree(rows: Seq<DisplayRow>, left: Seq<Seq<char>>, right: Seq<Seq<char>>) -> bool {
    forall|i: int| 0 <= i < rows.len() && (#[trigger] rows[i]).kind == BlockKind::Equal ==> {
        &&& rows[i].left_line matches Some(l) && l < left.len()
        &&& rows[i].right_line matches Some(r) && r < right.len()
        &&& left[rows[i].left_line->0 as int] == right[rows[i].right_line->0 as int]
    }
}

proof fn lemma_equal_rows_agree(blocks: Seq<DiffBlockView>, left: Seq<Seq<char>>, right: Seq<Seq<char>>)
    requires
        equal_blocks_match(blocks, left, right),
        forall|j: int| 0 <= j < blocks.len() ==> (#[trigger] blocks[j]).left_range.start <= blocks[j].left_range.end
            <= left.len() && blocks[j].right_range.start <= blocks[j].right_range.end <= right.len(),
    ensures
        equal_rows_agree(rows_spec(blocks), left, right),
    decreases blocks.len(),
{
    if blocks.len() > 0 {
        let p = blocks.drop_last();
        let b = blocks.last();
        let idx = blocks.len() - 1;
        assert forall|j: int| 0 <= j < p.len() implies block_pairs_equal(#[trigger] p[j], left, right) by {
            assert(block_pairs_equal(blocks[j], left, right));
        }
        assert forall|j: int| 0 <= j < p.len() implies (#[trigger] p[j]).left_range.start <= p[j].left_range.end
            <= left.len() && p[j].right_range.start <= p[j].right_range.end <= right.len() by {
            assert(blocks[j] == p[j]);
        }
        lemma_equal_rows_agree(p, left, right);
        assert(blocks[idx] == b);
        assert(block_pairs_equal(b, left, right));
        let rp = rows_spec(p);
        let rb = rows_of_block(b, idx);
        let rows = rows_spec(blocks);
        assert(rows == rp + rb);
        assert forall|i: int| 0 <= i < rows.len() && (#[trigger] rows[i]).kind == BlockKind::Equal implies {
            &&& rows[i].left_line matches Some(l) && l < left.len()
            &&& rows[i].right_line matches Some(r) && r < right.len()
            &&& left[rows[i].left_line->0 as int] == right[rows[i].right_line->0 as int]
        } by {
            if i < rp.len() {
                assert(rows[i] == rp[i]);
            } else {
                let o = i - rp.len();
                assert(rows[i] == rb[o]);
                assert(b.kind == BlockKind::Equal);
                let l = b.left_range.start + o;
                assert(left[l] == right[l - b.left_range.start + b.right_range.start]);
            }
        }
    }
}

/// Equal regions stay aligned: when the blocks tile both files and every
/// equal block pairs equal lines, each row of an equal block shows a line of
/// each file, and the two lines have the same text.
pub proof fn law_equal_rows_pair_equal_lines(blocks: Seq<DiffBlockView>, left: Seq<Seq<char>>, right: Seq<Seq<char>>)
    requires
        ranges_tile(left_ranges(blocks), left.len()),
        ranges_tile(right_ranges(blocks), right.len()),
        equal_blocks_match(blocks, left, right),
    ensures
        equal_rows_agree(rows_spec(blocks), left, right),
{
    lemma_tile_bounds(left_ranges(blocks), left.len());
    lemma_tile_bounds(right_ranges(blocks), right.len());
    assert forall|j: int| 0 <= j < blocks.len() implies (#[trigger] blocks[j]).left_range.start <= blocks[j].left_range.end
        <= left.len() && blocks[j].right_range.start <= blocks[j].right_range.end <= right.len() by {
        assert(left_ranges(blocks)[j] == blocks[j].left_range);
        assert(right_ranges(blocks)[j] == blocks[j].right_range);
    }
    lemma_equal_rows_agree(blocks, left, right);
}

} // verus!
