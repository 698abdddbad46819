//! Key handling of the file diff view: scrolling, block navigation and
//! block copies.
use vstd::prelude::*;
use crate::diff::diff_spec;
use crate::diff_model::{change_index_seq, max_width};
use crate::display::{DisplayRow, rows_spec};
use crate::state::{App, AppView, app_copy_spec};
use crate::view::Side;
use crate::viewport::{Viewport, y_max, x_max, min16};

verus! {

/// A key press, as far as the file diff view tells keys apart.
#[derive(Debug, Clone, Copy, PartialEq, Eq, Structural)]
pub enum Key {
    Char(char),
    Up,
    Down,
    Left,
    Right,
    Home,
    End,
    Other,
}

/// The part of an app that key handling reads and changes: the editing
/// state, the scroll position and size of the viewport, the pending `g`,
/// and whether the app runs.
pub struct UiState {
    pub model: AppView,
    pub scroll_y: u16,
    pub scroll_x: u16,
    pub height: u16,
    pub width: u16,
    pub pending_g: bool,
    pub running: bool,
}

impl App {
    /// The state that key handling works on.
    pub open spec fn ui(&self) -> UiState {
        UiState {
            model: self@,
            scroll_y: self.viewport.scroll_y,
            scroll_x: self.viewport.scroll_x,
            height: self.viewport.height,
            width: self.viewport.width,
            pending_g: self.input.pending_g,
            running: self.running,
        }
    }
}

/// The display rows of the model's contents.
pub open spec fn rows_of(m: AppView) -> Seq<DisplayRow> {
    rows_spec(diff_spec(m.left, m.right))
}

/// The change block indices of the model's contents.
pub open spec fn indices_of(m: AppView) -> Seq<usize> {
    change_index_seq(diff_spec(m.left, m.right))
}

/// The index of the first row that belongs to block `bi`, if any.
pub open spec fn block_position(rows: Seq<DisplayRow>, bi: usize) -> Option<int>
    decreases rows.len(),
{
    if rows.len() == 0 {
        None
    } else {
        match block_position(rows.drop_last(), bi) {
            Some(p) => Some(p),
            None => if rows.last().block_index == bi {
                Some(rows.len() - 1)
            } else {
                None
            },
        }
    }
}

/// Scroll so the current change block starts half a viewport below the top
/// (clamped to the largest offset); nothing when there is no change block or
/// the viewport has no height.
pub open spec fn scroll_current_spec(u: UiState) -> UiState {
    let idx = indices_of(u.model);
    if idx.len() == 0 || u.height == 0 {
        u
    } else {
        let rows = rows_of(u.model);
        let bi = idx[u.model.current_block as int];
        let start = (match block_position(rows, bi) {
            Some(p) => p,
            None => 0,
        }) as u16;
        let target = start.saturating_sub(u.height / 2);
        UiState { scroll_y: min16(target, y_max(rows.len() as usize, u.height)), ..u }
    }
}

/// The state with another current block.
pub open spec fn with_block(u: UiState, cb: usize) -> UiState {
    UiState { model: AppView { current_block: cb, ..u.model }, ..u }
}

/// Jump to the first change block.
pub open spec fn first_spec(u: UiState) -> UiState {
    if indices_of(u.model).len() == 0 {
        u
    } else {
        scroll_current_spec(with_block(u, 0))
    }
}

/// Jump to the last change block.
pub open spec fn last_spec(u: UiState) -> UiState {
    if indices_of(u.model).len() == 0 {
        u
    } else {
        scroll_current_spec(with_block(u, (indices_of(u.model).len() - 1) as usize))
    }
}

/// Advance to the next change block (clamped at last).
pub open spec fn next_spec(u: UiState) -> UiState {
    let n = indices_of(u.model).len();
    if n == 0 {
        u
    } else if u.model.current_block < n - 1 {
        scroll_current_spec(with_block(u, (u.model.current_block + 1) as usize))
    } else {
        scroll_current_spec(u)
    }
}

/// Retreat to the previous change block (clamped at first).
pub open spec fn prev_spec(u: UiState) -> UiState {
    if indices_of(u.model).len() == 0 {
        u
    } else {
        scroll_current_spec(with_block(u, u.model.current_block.saturating_sub(1)))
    }
}

/// The effect of a key on the state, once a pending `g` has been dealt with.
pub open spec fn plain_key_spec(u: UiState, key: Key) -> UiState {
    let total = rows_of(u.model).len() as usize;
    let max_x = (max_width(u.model.left + u.model.right) as usize) as u16;
    match key {
        Key::Char('q') => UiState { running: false, ..u },
        Key::Char('j') | Key::Down => UiState {
            scroll_y: min16(u.scroll_y.saturating_add(1), y_max(total, u.height)),
            ..u
        },
        Key::Char('k') | Key::Up => UiState { scroll_y: u.scroll_y.saturating_sub(1), ..u },
        Key::Char('J') => next_spec(u),
        Key::Char('K') => prev_spec(u),
        Key::Char('l') | Key::Right => UiState {
            scroll_x: min16(u.scroll_x.saturating_add(2), x_max(max_x, u.width)),
            ..u
        },
        Key::Char('h') | Key::Left => UiState { scroll_x: u.scroll_x.saturating_sub(2), ..u },
        Key::Char('0') | Key::Home => UiState { scroll_x: 0, ..u },
        Key::Char('$') | Key::End => UiState { scroll_x: x_max(max_x, u.width), ..u },
        Key::Char('g') => UiState { pending_g: true, ..u },
        Key::Char('G') => last_spec(u),
        Key::Char('L') => scroll_current_spec(UiState { model: app_copy_spec(u.model, Side::Left), ..u }),
        Key::Char('H') => scroll_current_spec(UiState { model: app_copy_spec(u.model, Side::Right), ..u }),
        _ => u,
    }
}

/// The effect of a key press: after a `g`, a second `g` jumps to the first
/// change block; otherwise the pending `g` is dropped and the key acts as
/// usual.
pub open spec fn key_spec(u: UiState, key: Key) -> UiState {
    if u.pending_g {
        let u0 = UiState { pending_g: false, ..u };
        if key == Key::Char('g') {
            first_spec(u0)
        } else {
            plain_key_spec(u0, key)
        }
    } else {
        plain_key_spec(u, key)
    }
}

/// The fields that key handling never changes are the same in two apps.
pub open spec fn same_frame(a: &App, b: &App) -> bool {
    &&& a.left_dir == b.left_dir
    &&& a.left_filename == b.left_filename
    &&& a.right_dir == b.right_dir
    &&& a.right_filename == b.right_filename
    &&& a.needs_initial_scroll == b.needs_initial_scroll
    &&& a.minimap_width == b.minimap_width
    &&& a.left_content.path == b.left_content.path
    &&& a.right_content.path == b.right_content.path
}

/// The first row of a block in a slice of rows, if any.
fn first_row_of_block(rows: &[DisplayRow], bi: usize) -> (r: Option<usize>)
    ensures
        match r {
            Some(p) => block_position(rows@, bi) == Some(p as int),
            None => block_position(rows@, bi) is None,
        },
{
    let mut i: usize = 0;
    while i < rows.len()
        invariant
            i <= rows@.len(),
            block_position(rows@.subrange(0, i as int), bi) is None,
        decreases rows@.len() - i,
    {
        let ghost pre = rows@.subrange(0, i as int + 1);
        assert(pre.drop_last() =~= rows@.subrange(0, i as int));
        if rows[i].block_index == bi {
            proof {
                lemma_position_extends(rows@, bi, i as int);
            }
            return Some(i);
        }
        i = i + 1;
    }
    assert(rows@.subrange(0, rows@.len() as int) =~= rows@);
    None
}

/// The first position of a block in a prefix is its first position in the
/// whole sequence.
proof fn lemma_position_extends(rows: Seq<DisplayRow>, bi: usize, i: int)
    requires
        0 <= i < rows.len(),
        block_position(rows.subrange(0, i), bi) is None,
        rows[i].block_index == bi,
    ensures
        block_position(rows, bi) == Some(i),
    decreases rows.len(),
{
    if rows.len() - 1 == i {
        assert(rows.drop_last() =~= rows.subrange(0, i));
    } else {
        assert(rows.drop_last().subrange(0, i) =~= rows.subrange(0, i));
        lemma_position_extends(rows.drop_last(), bi, i);
    }
}

/// Scroll so the current change block is vertically centered in the viewport.
pub fn scroll_to_current_block(app: &mut App)
    requires
        old(app).wf(),
    ensures
        final(app).wf(),
        final(app).ui() == scroll_current_spec(old(app).ui()),
        same_frame(final(app), old(app)),
        *final(app) == (App {
            viewport: Viewport { scroll_y: final(app).viewport.scroll_y, ..old(app).viewport },
            ..*old(app)
        }),
{
    if app.change_block_indices.len() == 0 || app.viewport.height == 0 {
        return;
    }
    proof {
        crate::diff::lemma_change_indices(crate::diff::kinds(app.diff@));
    }
    let block_index = app.change_block_indices[app.current_block];
    let block_start = match first_row_of_block(app.display_rows.as_slice(), block_index) {
        Some(p) => p,
        None => 0,
    } as u16;
    let half_vp = app.viewport.height / 2;
    let target = block_start.saturating_sub(half_vp);
    let max = app.viewport.scroll_y_max(app.display_rows.len());
    app.viewport.scroll_y = if target <= max { target } else { max };
}

/// Jump to the first change block.
fn first_block(app: &mut App)
    requires
        old(app).wf(),
    ensures
        final(app).wf(),
        final(app).ui() == first_spec(old(app).ui()),
        same_frame(final(app), old(app)),
{
    if app.change_block_indices.len() == 0 {
        return;
    }
    app.current_block = 0;
    scroll_to_current_block(app);
}

/// Jump to the last change block.
fn last_block(app: &mut App)
    requires
        old(app).wf(),
    ensures
        final(app).wf(),
        final(app).ui() == last_spec(old(app).ui()),
        same_frame(final(app), old(app)),
{
    if app.change_block_indices.len() == 0 {
        return;
    }
    app.current_block = app.change_block_indices.len() - 1;
    scroll_to_current_block(app);
}

/// Advance to the next change block (clamped at last).
fn next_block(app: &mut App)
    requires
        old(app).wf(),
    ensures
        final(app).wf(),
        final(app).ui() == next_spec(old(app).ui()),
        same_frame(final(app), old(app)),
{
    if app.change_block_indices.len() == 0 {
        return;
    }
    if app.current_block < app.change_block_indices.len() - 1 {
        app.current_block = app.current_block + 1;
    }
    scroll_to_current_block(app);
}

/// Retreat to the previous change block (clamped at first).
fn prev_block(app: &mut App)
    requires
        old(app).wf(),
    ensures
        final(app).wf(),
        final(app).ui() == prev_spec(old(app).ui()),
        same_frame(final(app), old(app)),
{
    if app.change_block_indices.len() == 0 {
        return;
    }
    app.current_block = app.current_block.saturating_sub(1);
    scroll_to_current_block(app);
}

/// Handle a key press, updating app state.
pub fn handle_key(app: &mut App, key: Key)
    requires
        old(app).wf(),
    ensures
        final(app).wf(),
        final(app).ui() == key_spec(old(app).ui(), key),
        same_frame(final(app), old(app)),
{
    let total_rows = app.display_rows.len();
    let max_x = app.max_content_width as u16;

    // Handle `gg` — two consecutive `g` presses jump to first change block
    if app.input.pending_g {
        app.input.pending_g = false;
        if key == Key::Char('g') {
            first_block(app);
            return;
        }
    }
    match key {
        Key::Char('q') => {
            app.running = false;
        },
        Key::Char('j') | Key::Down => {
            app.viewport.scroll_down(total_rows);
        },
        Key::Char('k') | Key::Up => {
            app.viewport.scroll_up();
        },
        Key::Char('J') => {
            next_block(app);
        },
        Key::Char('K') => {
            prev_block(app);
        },
        Key::Char('l') | Key::Right => {
            app.viewport.scroll_right(2, max_x);
        },
        Key::Char('h') | Key::Left => {
            app.viewport.scroll_left(2);
        },
        Key::Char('0') | Key::Home => {
            app.viewport.scroll_to_left();
        },
        Key::Char('$') | Key::End => {
            app.viewport.scroll_to_right(max_x);
        },
        Key::Char('g') => {
            app.input.pending_g = true;
        },
        Key::Char('G') => {
            last_block(app);
        },
        Key::Char('L') => {
            app.copy_left_to_right();
            scroll_to_current_block(app);
        },
        Key::Char('H') => {
            app.copy_right_to_left();
            scroll_to_current_block(app);
        },
        _ => {},
    }
}

/// Horizontal scrolling reaches the widest line of either file: with no `g`
/// pending, `$` and End scroll to the widest shown line of the two files
/// (plus one) less the view width, and `l` and Right move two columns
/// toward that same edge.
pub proof fn law_right_edge_is_widest_line(u: UiState, w: nat)
    requires
        crate::diff_model::widest_of(w, u.model.left, u.model.right),
        !u.pending_g,
    ensures
        key_spec(u, Key::Char('$')).scroll_x == ((w as usize) as u16).saturating_sub(u.width),
        key_spec(u, Key::End).scroll_x == ((w as usize) as u16).saturating_sub(u.width),
        key_spec(u, Key::Char('l')).scroll_x == min16(
            u.scroll_x.saturating_add(2),
            ((w as usize) as u16).saturating_sub(u.width),
        ),
        key_spec(u, Key::Right).scroll_x == key_spec(u, Key::Char('l')).scroll_x,
{
    crate::diff_model::lemma_max_width_widest(u.model.left, u.model.right);
    crate::diff_model::lemma_widest_unique(w, max_width(u.model.left + u.model.right), u.model.left, u.model.right);
}

proof fn lemma_no_position(rows: Seq<DisplayRow>, bi: usize)
    requires
        forall|q: int| 0 <= q < rows.len() ==> (#[trigger] rows[q]).block_index != bi,
    ensures
        block_position(rows, bi) is None,
    decreases rows.len(),
{
    if rows.len() > 0 {
        let p = rows.drop_last();
        assert forall|q: int| 0 <= q < p.len() implies (#[trigger] p[q]).block_index != bi by {
            assert(p[q] == rows[q]);
        }
        lemma_no_position(p, bi);
        assert(rows[rows.len() - 1] == rows.last());
    }
}

proof fn lemma_first_position(rows: Seq<DisplayRow>, bi: usize, p: int)
    requires
        0 <= p < rows.len(),
        rows[p].block_index == bi,
        forall|q: int| 0 <= q < p ==> (#[trigger] rows[q]).block_index != bi,
    ensures
        block_position(rows, bi) == Some(p),
    decreases rows.len(),
{
    let d = rows.drop_last();
    if p == rows.len() - 1 {
        assert forall|q: int| 0 <= q < d.len() implies (#[trigger] d[q]).block_index != bi by {
            assert(d[q] == rows[q]);
        }
        lemma_no_position(d, bi);
        assert(rows.last() == rows[p]);
    } else {
        assert(d[p] == rows[p]);
        assert forall|q: int| 0 <= q < p implies (#[trigger] d[q]).block_index != bi by {
            assert(d[q] == rows[q]);
        }
        lemma_first_position(d, bi, p);
    }
}

/// Scrolling to the current block brings its first row into view: when
/// there is a change block and the view has height, and `p` is the first
/// display row of the current change block, the new offset is `p` less half
/// the height, clamped to the largest offset, the row `p` is on screen, and
/// nothing but the offset changes.
pub proof fn law_scroll_shows_block_start(u: UiState, p: int)
    requires
        indices_of(u.model).len() > 0,
        u.model.current_block < indices_of(u.model).len(),
        u.height > 0,
        rows_of(u.model).len() <= usize::MAX,
        0 <= p < rows_of(u.model).len(),
        p <= u16::MAX,
        rows_of(u.model)[p].block_index == indices_of(u.model)[u.model.current_block as int],
        forall|q: int| 0 <= q < p ==> (#[trigger] rows_of(u.model)[q]).block_index
            != indices_of(u.model)[u.model.current_block as int],
    ensures
        scroll_current_spec(u).scroll_y == min16(
            (p as u16).saturating_sub(u.height / 2),
            y_max(rows_of(u.model).len() as usize, u.height),
        ),
        scroll_current_spec(u).scroll_y <= p < scroll_current_spec(u).scroll_y + u.height,
        scroll_current_spec(u) == (UiState { scroll_y: scroll_current_spec(u).scroll_y, ..u }),
{
    let rows = rows_of(u.model);
    let bi = indices_of(u.model)[u.model.current_block as int];
    lemma_first_position(rows, bi, p);
}

} // verus!
