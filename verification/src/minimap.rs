//! Geometry of the minimap: which display rows each minimap row stands for,
//! and where the viewport indicator is drawn.
use vstd::prelude::*;
use crate::diff::BlockKind;
use crate::display::DisplayRow;

verus! {

/// The first display row that minimap row `row` stands for.
pub open spec fn mm_start(row: u16, total: nat, height: u16) -> int {
    (row as int * total as int) / height as int
}

/// One past the last display row that minimap row `row` stands for: the
/// proportional end, at least one row past the start, at most the total.
pub open spec fn mm_end(row: u16, total: nat, height: u16) -> int {
    let start = mm_start(row, total, height);
    let end = ((row as int + 1) * total as int) / height as int;
    let end1 = if end >= start + 1 {
        end
    } else {
        start + 1
    };
    if end1 <= total {
        end1
    } else {
        total as int
    }
}

/// The minimap row can be computed without overflow or an inverted slice.
pub open spec fn mm_row_ok(row: u16, total: nat, height: u16) -> bool {
    total == 0 || height == 0 || ((row as int + 1) * total as int <= usize::MAX && mm_start(row, total, height) <= total
        && mm_start(row, total, height) < usize::MAX)
}

/// Some display row that minimap row `row` stands for is a change.
pub open spec fn diff_at_spec(rows: Seq<DisplayRow>, row: u16, height: u16) -> bool {
    rows.len() > 0 && height > 0 && exists|i: int|
        mm_start(row, rows.len(), height) <= i < mm_end(row, rows.len(), height) && #[trigger] rows[i].kind
            != BlockKind::Equal
}

/// Some display row that minimap row `row` stands for is a change row of the
/// active block.
pub open spec fn active_at_spec(rows: Seq<DisplayRow>, row: u16, height: u16, active: Option<usize>) -> bool {
    active is Some && rows.len() > 0 && height > 0 && exists|i: int|
        mm_start(row, rows.len(), height) <= i < mm_end(row, rows.len(), height) && #[trigger] rows[i].block_index
            == active->0 && rows[i].kind != BlockKind::Equal
}

/// For a given minimap row, determine whether it represents a diff region.
/// When multiple display rows map to one minimap row, returns true if ANY is a diff.
pub fn is_diff_at_minimap_row(display_rows: &[DisplayRow], minimap_row: u16, minimap_height: u16) -> (b: bool)
    requires
        mm_row_ok(minimap_row, display_rows@.len(), minimap_height),
    ensures
        b == diff_at_spec(display_rows@, minimap_row, minimap_height),
{
    let total = display_rows.len();
    if total == 0 || minimap_height == 0 {
        return false;
    }
    let (start, end) = row_span(minimap_row, total, minimap_height);
    let mut i = start;
    while i < end
        invariant
            start <= i <= end <= total == display_rows@.len(),
            start == mm_start(minimap_row, display_rows@.len(), minimap_height),
            end == mm_end(minimap_row, display_rows@.len(), minimap_height),
            total > 0,
            minimap_height > 0,
            forall|j: int| start <= j < i ==> #[trigger] display_rows@[j].kind == BlockKind::Equal,
        decreases end - i,
    {
        if display_rows[i].kind != BlockKind::Equal {
            assert(display_rows@[i as int].kind != BlockKind::Equal);
            return true;
        }
        i = i + 1;
    }
    false
}

/// The display rows that a minimap row stands for.
fn row_span(minimap_row: u16, total: usize, minimap_height: u16) -> (r: (usize, usize))
    requires
        total > 0,
        minimap_height > 0,
        mm_row_ok(minimap_row, total as nat, minimap_height),
    ensures
        r.0 == mm_start(minimap_row, total as nat, minimap_height),
        r.1 == mm_end(minimap_row, total as nat, minimap_height),
        r.0 <= r.1 <= total,
{
    assert(minimap_row as int * total as int <= (minimap_row as int + 1) * total as int) by (nonlinear_arith);
    let start = (minimap_row as usize) * total / (minimap_height as usize);
    let end = ((minimap_row as usize) + 1) * total / (minimap_height as usize);
    let end = if end >= start + 1 { end } else { start + 1 };
    let end = if end <= total { end } else { total };
    (start, end)
}

/// For a given minimap row, determine whether it contains the active diff block.
pub fn is_active_at_minimap_row(
    display_rows: &[DisplayRow],
    minimap_row: u16,
    minimap_height: u16,
    active_block_index: Option<usize>,
) -> (b: bool)
    requires
        mm_row_ok(minimap_row, display_rows@.len(), minimap_height),
    ensures
        b == active_at_spec(display_rows@, minimap_row, minimap_height, active_block_index),
{
    let active = match active_block_index {
        Some(idx) => idx,
        None => {
            return false;
        },
    };
    let total = display_rows.len();
    if total == 0 || minimap_height == 0 {
        return false;
    }
    let (start, end) = row_span(minimap_row, total, minimap_height);
    let mut i = start;
    while i < end
        invariant
            start <= i <= end <= total == display_rows@.len(),
            start == mm_start(minimap_row, display_rows@.len(), minimap_height),
            end == mm_end(minimap_row, display_rows@.len(), minimap_height),
            total > 0,
            minimap_height > 0,
            active_block_index == Some(active),
            forall|j: int| start <= j < i ==> !(#[trigger] display_rows@[j].block_index == active
                && display_rows@[j].kind != BlockKind::Equal),
        decreases end - i,
    {
        if display_rows[i].block_index == active && display_rows[i].kind != BlockKind::Equal {
            assert(display_rows@[i as int].block_index == active);
            return true;
        }
        i = i + 1;
    }
    false
}

/// The viewport indicator's top row and height within the minimap.
pub open spec fn indicator_spec(scroll_y: u16, viewport_height: u16, total: usize, minimap_height: u16) -> (u16, u16) {
    if total == 0 || minimap_height == 0 {
        (0, minimap_height)
    } else {
        let t = total as u32;
        let top = (scroll_y as int * minimap_height as int) / t as int;
        let height = (viewport_height as int * minimap_height as int) / t as int;
        let room = if minimap_height as int - top >= 1 {
            minimap_height as int - top
        } else {
            1
        };
        let h1 = if height >= 1 {
            height
        } else {
            1
        };
        let h = if h1 <= room {
            h1
        } else {
            room
        };
        (top as u16, h as u16)
    }
}

/// Compute the viewport indicator's top row and height within the minimap.
/// Returns (top, height) in minimap rows.
pub fn viewport_indicator(scroll_y: u16, viewport_height: u16, total_display_rows: usize, minimap_height: u16) -> (r: (
    u16,
    u16,
))
    requires
        total_display_rows == 0 || minimap_height == 0 || total_display_rows as u32 != 0,
    ensures
        r == indicator_spec(scroll_y, viewport_height, total_display_rows, minimap_height),
{
    if total_display_rows == 0 || minimap_height == 0 {
        return (0, minimap_height);
    }
    let total = total_display_rows as u32;
    let mh = minimap_height as u32;
    assert(scroll_y as int * mh as int <= 65535 * 65535) by (nonlinear_arith)
        requires
            scroll_y <= 65535,
            mh <= 65535,
    ;
    assert(viewport_height as int * mh as int <= 65535 * 65535) by (nonlinear_arith)
        requires
            viewport_height <= 65535,
            mh <= 65535,
    ;
    let top = (scroll_y as u32) * mh / total;
    let height = (viewport_height as u32) * mh / total;
    let room = mh.saturating_sub(top);
    let room = if room >= 1 { room } else { 1 };
    let height = if height >= 1 { height } else { 1 };
    let height = if height <= room { height } else { room };
    (top as u16, height as u16)
}

/// For a scroll position within the content, the indicator lies within the
/// minimap and is at least one row tall.
pub proof fn law_indicator_within_minimap(scroll_y: u16, viewport_height: u16, total: usize, minimap_height: u16)
    requires
        total > 0,
        minimap_height > 0,
        total as u32 != 0,
        (scroll_y as int) < total as u32,
    ensures
        ({
            let (top, h) = indicator_spec(scroll_y, viewport_height, total, minimap_height);
            &&& h >= 1
            &&& top + h <= minimap_height
        }),
{
    let t = total as u32;
    let top = (scroll_y as int * minimap_height as int) / t as int;
    assert(top < minimap_height) by (nonlinear_arith)
        requires
            top == (scroll_y as int * minimap_height as int) / t as int,
            0 <= scroll_y < t,
            minimap_height > 0,
    ;
    assert(top >= 0) by (nonlinear_arith)
        requires
            top == (scroll_y as int * minimap_height as int) / t as int,
            0 <= scroll_y,
            t > 0,
            minimap_height > 0,
    ;
    let height = (viewport_height as int * minimap_height as int) / t as int;
    assert(height >= 0) by (nonlinear_arith)
        requires
            height == (viewport_height as int * minimap_height as int) / t as int,
            t > 0,
    ;
}


/// A minimap row that shows a row of the active block also shows a change.
pub proof fn law_active_row_is_diff_row(rows: Seq<DisplayRow>, row: u16, height: u16, active: Option<usize>)
    requires
        active_at_spec(rows, row, height, active),
    ensures
        diff_at_spec(rows, row, height),
{
    let i = choose|i: int|
        mm_start(row, rows.len(), height) <= i < mm_end(row, rows.len(), height) && #[trigger] rows[i].block_index
            == active->0 && rows[i].kind != BlockKind::Equal;
    assert(rows[i].kind != BlockKind::Equal);
}

proof fn lemma_row_covered(n: nat, height: u16, i: int, r: u16)
    requires
        height > 0,
        0 <= i < n,
        r < height,
        mm_start(r, n, height) <= i,
    ensures
        exists|q: u16| r <= q < height && #[trigger] mm_start(q, n, height) <= i < mm_end(q, n, height),
    decreases height - r,
{
    if i < mm_end(r, n, height) {
        assert(mm_start(r, n, height) <= i < mm_end(r, n, height));
    } else {
        if r as int == height - 1 {
            assert((r as int + 1) * n as int / height as int == n) by (nonlinear_arith)
                requires
                    r as int + 1 == height as int,
                    height > 0,
            ;
            assert(false);
        }
        let next = (r + 1) as u16;
        assert(mm_start(next, n, height) == (r as int + 1) * n as int / height as int);
        lemma_row_covered(n, height, i, next);
    }
}

/// Every change shows on the minimap: for each change row `i` of the display
/// rows and any positive height, some minimap row stands for row `i` and is
/// a change row.
pub proof fn law_every_change_on_minimap(rows: Seq<DisplayRow>, height: u16, i: int)
    requires
        height > 0,
        0 <= i < rows.len(),
        rows[i].kind != BlockKind::Equal,
    ensures
        exists|r: u16| #![trigger diff_at_spec(rows, r, height)]
            r < height && mm_start(r, rows.len(), height) <= i < mm_end(r, rows.len(), height)
                && diff_at_spec(rows, r, height),
{
    assert(mm_start(0, rows.len(), height) == 0);
    lemma_row_covered(rows.len(), height, i, 0);
    let q = choose|q: u16| 0 <= q < height && #[trigger] mm_start(q, rows.len(), height) <= i < mm_end(q, rows.len(), height);
    assert(diff_at_spec(rows, q, height));
}

/// A minimap row shows every display row it stands for: when any of them
/// is a change, the row is a change row; when any of them is a change of
/// the active block, the row is active.
pub proof fn law_span_marks_row(rows: Seq<DisplayRow>, height: u16, r: u16, i: int, active: Option<usize>)
    requires
        height > 0,
        r < height,
        0 <= i < rows.len(),
        mm_start(r, rows.len(), height) <= i < mm_end(r, rows.len(), height),
        rows[i].kind != BlockKind::Equal,
    ensures
        diff_at_spec(rows, r, height),
        active == Some(rows[i].block_index) ==> active_at_spec(rows, r, height, active),
        active == Some(rows[i].block_index) ==> fill_spec(rows, r, height, active) == MinimapFill::Active,
{
    assert(rows[i].kind != BlockKind::Equal);
    assert(rows[i].block_index == rows[i].block_index);
}

/// The active block shows on the minimap: for each change row `i` of the
/// active block and any positive height, the minimap row that stands for
/// row `i` is filled as active.
pub proof fn law_active_block_on_minimap(rows: Seq<DisplayRow>, height: u16, i: int)
    requires
        height > 0,
        0 <= i < rows.len(),
        rows[i].kind != BlockKind::Equal,
    ensures
        exists|r: u16| #![trigger active_at_spec(rows, r, height, Some(rows[i].block_index))]
            r < height && mm_start(r, rows.len(), height) <= i < mm_end(r, rows.len(), height)
                && active_at_spec(rows, r, height, Some(rows[i].block_index))
                && fill_spec(rows, r, height, Some(rows[i].block_index)) == MinimapFill::Active,
{
    assert(mm_start(0, rows.len(), height) == 0);
    lemma_row_covered(rows.len(), height, i, 0);
    let q = choose|q: u16| 0 <= q < height && #[trigger] mm_start(q, rows.len(), height) <= i < mm_end(q, rows.len(), height);
    law_span_marks_row(rows, height, q, i, Some(rows[i].block_index));
}

/// How a minimap row is filled: plain background, a change, or the active
/// change block.
#[derive(Debug, Clone, Copy, PartialEq, Eq, Structural)]
pub enum MinimapFill {
    Background,
    Diff,
    Active,
}

/// One row of the minimap: its fill and whether the viewport indicator
/// covers it.
#[derive(Debug, Clone, Copy, PartialEq, Eq, Structural)]
pub struct MinimapRow {
    pub fill: MinimapFill,
    pub indicator: bool,
}

/// The fill of minimap row `row`: the active block wins over a change.
pub open spec fn fill_spec(rows: Seq<DisplayRow>, row: u16, height: u16, active: Option<usize>) -> MinimapFill {
    if active_at_spec(rows, row, height, active) {
        MinimapFill::Active
    } else if diff_at_spec(rows, row, height) {
        MinimapFill::Diff
    } else {
        MinimapFill::Background
    }
}

/// The minimap rows covered by the viewport indicator: from its top through
/// its last row.
pub open spec fn indicator_covers(top: u16, h: u16, row: u16) -> bool {
    top <= row <= top + h.saturating_sub(1)
}

/// The rows of a minimap `minimap_height` rows tall: the fill of each, and
/// whether the viewport indicator covers it.
pub fn minimap_rows(
    display_rows: &[DisplayRow],
    scroll_y: u16,
    viewport_height: u16,
    active_block_index: Option<usize>,
    minimap_height: u16,
) -> (r: Vec<MinimapRow>)
    requires
        forall|row: u16| row < minimap_height ==> #[trigger] mm_row_ok(row, display_rows@.len(), minimap_height),
        display_rows.len() == 0 || display_rows.len() as u32 != 0,
        indicator_spec(scroll_y, viewport_height, display_rows.len(), minimap_height).0 + indicator_spec(
            scroll_y,
            viewport_height,
            display_rows.len(),
            minimap_height,
        ).1.saturating_sub(1) <= u16::MAX,
    ensures
        r@.len() == minimap_height,
        forall|i: int| 0 <= i < r@.len() ==> (#[trigger] r@[i]).fill == fill_spec(display_rows@, i as u16, minimap_height, active_block_index)
            && r@[i].indicator == indicator_covers(
                indicator_spec(scroll_y, viewport_height, display_rows.len(), minimap_height).0,
                indicator_spec(scroll_y, viewport_height, display_rows.len(), minimap_height).1,
                i as u16,
            ),
{
    let (vp_top, vp_height) = viewport_indicator(scroll_y, viewport_height, display_rows.len(), minimap_height);
    let vp_bottom = vp_top + vp_height.saturating_sub(1);
    let mut out: Vec<MinimapRow> = Vec::new();
    let mut row: u16 = 0;
    while row < minimap_height
        invariant
            row <= minimap_height,
            out@.len() == row,
            forall|k: u16| k < minimap_height ==> #[trigger] mm_row_ok(k, display_rows@.len(), minimap_height),
            vp_top == indicator_spec(scroll_y, viewport_height, display_rows.len(), minimap_height).0,
            vp_height == indicator_spec(scroll_y, viewport_height, display_rows.len(), minimap_height).1,
            vp_bottom == vp_top + vp_height.saturating_sub(1),
            forall|i: int| 0 <= i < row ==> (#[trigger] out@[i]).fill == fill_spec(display_rows@, i as u16, minimap_height, active_block_index)
                && out@[i].indicator == indicator_covers(vp_top, vp_height, i as u16),
        decreases minimap_height - row,
    {
        assert(mm_row_ok(row, display_rows@.len(), minimap_height));
        let fill = if is_active_at_minimap_row(display_rows, row, minimap_height, active_block_index) {
            MinimapFill::Active
        } else if is_diff_at_minimap_row(display_rows, row, minimap_height) {
            MinimapFill::Diff
        } else {
            MinimapFill::Background
        };
        let indicator = vp_top <= row && row <= vp_bottom;
        let ghost before = out@;
        out.push(MinimapRow { fill, indicator });
        assert(out@[row as int] == MinimapRow { fill, indicator });
        assert(forall|i: int| 0 <= i < row ==> out@[i] == before[i]);
        row = row + 1;
    }
    out
}

} // verus!
