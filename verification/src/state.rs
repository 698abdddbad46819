//! Top-level application state of the file diff view, with snapshot-based
//! undo/redo of block copies.
use vstd::prelude::*;
use crate::diff::{DiffResult, diff_spec, ranges_tile, left_ranges, right_ranges, blocks_shaped};
use crate::diff_model::{
    DEFAULT_UNDO_CAPACITY, compute_derived, derived_ok, change_count_of, clamp_block, block_valid,
    change_block_of, block_range, other, lemma_change_block_bounds, lemma_fit_splice, lemma_fit_subrange,
    change_index_seq,
};
use crate::display::{DisplayRow, equal_rows_agree, law_equal_rows_pair_equal_lines};
use crate::file_io::{FileContent, splice_spec, copy_lines, clone_lines};
use crate::text::lines_fit;
use crate::undo::{UndoStack, bounded_push};
use crate::view::Side;
use crate::viewport::Viewport;

verus! {

/// Snapshot of mutable state captured before a mutation for undo/redo.
pub struct Snapshot {
    pub left_content: FileContent,
    pub right_content: FileContent,
    pub left_dirty: bool,
    pub right_dirty: bool,
    pub current_block: usize,
}

/// The mathematical value of a snapshot.
pub struct SnapView {
    pub left: Seq<Seq<char>>,
    pub right: Seq<Seq<char>>,
    pub left_dirty: bool,
    pub right_dirty: bool,
    pub current_block: usize,
}

impl View for Snapshot {
    type V = SnapView;

    open spec fn view(&self) -> SnapView {
        SnapView {
            left: self.left_content@,
            right: self.right_content@,
            left_dirty: self.left_dirty,
            right_dirty: self.right_dirty,
            current_block: self.current_block,
        }
    }
}

/// The views of a sequence of snapshots.
pub open spec fn snaps_view(s: Seq<Snapshot>) -> Seq<SnapView> {
    s.map_values(|x: Snapshot| x@)
}

/// Tracks multi-key input sequences (e.g., `gg`, future counts/search).
pub struct InputState {
    /// Whether the previous keypress was `g` (waiting for `gg`).
    pub pending_g: bool,
}

impl Default for InputState {
    fn default() -> (s: InputState)
        ensures
            !s.pending_g,
    {
        InputState { pending_g: false }
    }
}

/// The mathematical value of the editing state of an app: contents, dirty
/// flags, current block and snapshot history.
pub struct AppView {
    pub left: Seq<Seq<char>>,
    pub right: Seq<Seq<char>>,
    pub left_dirty: bool,
    pub right_dirty: bool,
    pub current_block: usize,
    pub undo: Seq<SnapView>,
    pub redo: Seq<SnapView>,
    pub capacity: nat,
}

/// The snapshot of a view.
pub open spec fn snap_of(v: AppView) -> SnapView {
    SnapView {
        left: v.left,
        right: v.right,
        left_dirty: v.left_dirty,
        right_dirty: v.right_dirty,
        current_block: v.current_block,
    }
}

/// A snapshot that can be restored: its lines fit and its block number is
/// valid for its contents.
pub open spec fn snap_ok(s: SnapView) -> bool {
    &&& lines_fit(s.left)
    &&& lines_fit(s.right)
    &&& block_valid(s.current_block, change_count_of(s.left, s.right))
}

/// Every snapshot of a sequence can be restored.
pub open spec fn snaps_ok(s: Seq<SnapView>) -> bool {
    forall|i: int| 0 <= i < s.len() ==> snap_ok(#[trigger] s[i])
}

/// A view that a well-formed app can have.
pub open spec fn app_view_ok(v: AppView) -> bool {
    let d = diff_spec(v.left, v.right);
    &&& ranges_tile(left_ranges(d), v.left.len())
    &&& ranges_tile(right_ranges(d), v.right.len())
    &&& blocks_shaped(d)
    &&& snap_ok(snap_of(v))
    &&& snaps_ok(v.undo)
    &&& snaps_ok(v.redo)
    &&& v.capacity > 0
    &&& v.undo.len() <= v.capacity
}

/// Restoring a snapshot: its contents, dirty flags and block number come
/// back (the block number brought into range for the contents).
pub open spec fn restore_spec(v: AppView, s: SnapView) -> AppView {
    AppView {
        left: s.left,
        right: s.right,
        left_dirty: s.left_dirty,
        right_dirty: s.right_dirty,
        current_block: clamp_block(s.current_block, change_count_of(s.left, s.right)),
        ..v
    }
}

/// Copying the current block from `source` to the other side: nothing when
/// there is no change block; otherwise the state is saved for undo, the
/// redo side is cleared, the target's lines of the block are replaced by the
/// source's, the target becomes dirty and the block number is brought into
/// range for the new contents.
pub open spec fn app_copy_spec(v: AppView, source: Side) -> AppView {
    if change_count_of(v.left, v.right) == 0 {
        v
    } else {
        let b = change_block_of(v.left, v.right, v.current_block);
        let sr = block_range(b, source);
        let tr = block_range(b, other(source));
        let src = if source == Side::Left { v.left } else { v.right };
        let tgt = if source == Side::Left { v.right } else { v.left };
        let new_tgt = splice_spec(tgt, tr.start as int, tr.end as int, src.subrange(sr.start as int, sr.end as int));
        let left = if source == Side::Left { v.left } else { new_tgt };
        let right = if source == Side::Left { new_tgt } else { v.right };
        AppView {
            left,
            right,
            left_dirty: if source == Side::Right { true } else { v.left_dirty },
            right_dirty: if source == Side::Left { true } else { v.right_dirty },
            current_block: clamp_block(v.current_block, change_count_of(left, right)),
            undo: bounded_push(v.undo, v.capacity, snap_of(v)),
            redo: Seq::empty(),
            capacity: v.capacity,
        }
    }
}

/// Undo: nothing when there is no snapshot; otherwise the newest snapshot is
/// restored and the current state is saved for redo.
pub open spec fn app_undo_spec(v: AppView) -> AppView {
    if v.undo.len() == 0 {
        v
    } else {
        AppView { undo: v.undo.drop_last(), redo: v.redo.push(snap_of(v)), ..restore_spec(v, v.undo.last()) }
    }
}

/// Redo: nothing when there is no snapshot; otherwise the newest redo
/// snapshot is restored and the current state is saved for undo.
pub open spec fn app_redo_spec(v: AppView) -> AppView {
    if v.redo.len() == 0 {
        v
    } else {
        AppView {
            undo: bounded_push(v.undo, v.capacity, snap_of(v)),
            redo: v.redo.drop_last(),
            ..restore_spec(v, v.redo.last())
        }
    }
}

/// Undo after a copy restores the contents, the dirty flags and the current
/// block; when the undo side was not full it is restored too.
pub proof fn law_app_undo_reverts_copy(v: AppView, source: Side)
    requires
        app_view_ok(v),
        change_count_of(v.left, v.right) > 0,
    ensures
        ({
            let w = app_undo_spec(app_copy_spec(v, source));
            &&& w.left == v.left
            &&& w.right == v.right
            &&& w.left_dirty == v.left_dirty
            &&& w.right_dirty == v.right_dirty
            &&& w.current_block == v.current_block
            &&& w.redo == seq![snap_of(app_copy_spec(v, source))]
            &&& v.undo.len() < v.capacity ==> w.undo == v.undo
        }),
{
    let c = app_copy_spec(v, source);
    let bp = bounded_push(v.undo, v.capacity, snap_of(v));
    assert(c.undo == bp);
    assert(bp.last() == snap_of(v));
    let w = app_undo_spec(c);
    assert(w.redo =~= seq![snap_of(c)]);
    if v.undo.len() < v.capacity {
        assert(bp.drop_last() =~= v.undo);
    }
}

/// Undo followed by redo gives back the same state.
pub proof fn law_app_undo_then_redo(w: AppView)
    requires
        app_view_ok(w),
        w.undo.len() > 0,
    ensures
        app_redo_spec(app_undo_spec(w)) == w,
{
    let p = w.undo.last();
    assert(snap_ok(w.undo[w.undo.len() - 1]));
    let u = app_undo_spec(w);
    assert(u.redo.last() == snap_of(w));
    assert(u.redo.drop_last() =~= w.redo);
    assert(snap_of(u) == p);
    assert(w.undo.drop_last().push(p) =~= w.undo);
    let r = app_redo_spec(u);
    assert(r.undo =~= w.undo);
    assert(r.redo =~= w.redo);
}

/// Redo followed by undo gives back the same contents, dirty flags, current
/// block and redo side; the undo side comes back too unless it was full, in
/// which case its oldest snapshot is gone.
pub proof fn law_app_redo_then_undo(w: AppView)
    requires
        app_view_ok(w),
        w.redo.len() > 0,
    ensures
        ({
            let x = app_undo_spec(app_redo_spec(w));
            &&& x.left == w.left
            &&& x.right == w.right
            &&& x.left_dirty == w.left_dirty
            &&& x.right_dirty == w.right_dirty
            &&& x.current_block == w.current_block
            &&& x.redo == w.redo
            &&& w.undo.len() < w.capacity ==> x.undo == w.undo
            &&& w.undo.len() == w.capacity ==> x.undo == w.undo.drop_first()
        }),
{
    let n = w.redo.last();
    assert(snap_ok(w.redo[w.redo.len() - 1]));
    let r = app_redo_spec(w);
    let bp = bounded_push(w.undo, w.capacity, snap_of(w));
    assert(r.undo == bp);
    assert(bp.last() == snap_of(w));
    assert(snap_of(r) == n);
    assert(w.redo.drop_last().push(n) =~= w.redo);
    if w.undo.len() < w.capacity {
        assert(bp.drop_last() =~= w.undo);
    } else {
        assert(bp.drop_last() =~= w.undo.drop_first());
    }
}

/// Top-level application state.
pub struct App {
    pub running: bool,
    pub left_dir: String,
    pub left_filename: String,
    pub right_dir: String,
    pub right_filename: String,
    pub left_content: FileContent,
    pub right_content: FileContent,
    /// Computed diff between left and right files.
    pub diff: DiffResult,
    /// Display rows: flattened diff blocks with alignment padding.
    pub display_rows: Vec<DisplayRow>,
    /// Max tab-expanded content width across both files (for diff highlight padding).
    pub max_content_width: usize,
    /// Number of non-equal diff blocks (for status bar).
    pub change_count: usize,
    /// Indices of non-Equal blocks within `diff.blocks` (for block navigation).
    pub change_block_indices: Vec<usize>,
    /// Index into `change_block_indices` — which change block is "current".
    pub current_block: usize,
    /// True until the first render sets viewport dimensions and scrolls to the first block.
    pub needs_initial_scroll: bool,
    /// Scroll position and visible dimensions.
    pub viewport: Viewport,
    /// Multi-key input state machine.
    pub input: InputState,
    /// Width of the minimap bar in terminal columns (0 = hidden).
    pub minimap_width: u16,
    /// Whether the left file has been modified by a copy operation.
    pub left_dirty: bool,
    /// Whether the right file has been modified by a copy operation.
    pub right_dirty: bool,
    /// Undo/redo stack for copy operations.
    pub undo_stack: UndoStack<Snapshot>,
}

impl View for App {
    type V = AppView;

    open spec fn view(&self) -> AppView {
        AppView {
            left: self.left_content@,
            right: self.right_content@,
            left_dirty: self.left_dirty,
            right_dirty: self.right_dirty,
            current_block: self.current_block,
            undo: snaps_view(self.undo_stack.undo_seq()),
            redo: snaps_view(self.undo_stack.redo_seq()),
            capacity: self.undo_stack.capacity(),
        }
    }
}

/// The views of snapshots after a bounded push.
proof fn lemma_snaps_push(s: Seq<Snapshot>, cap: nat, x: Snapshot)
    requires
        cap > 0,
    ensures
        snaps_view(bounded_push(s, cap, x)) == bounded_push(snaps_view(s), cap, x@),
        snaps_view(s.push(x)) == snaps_view(s).push(x@),
        s.len() > 0 ==> snaps_view(s.drop_last()) == snaps_view(s).drop_last(),
{
    assert(snaps_view(s.push(x)) =~= snaps_view(s).push(x@));
    if s.len() > 0 {
        assert(snaps_view(s.drop_first().push(x)) =~= snaps_view(s).drop_first().push(x@));
        assert(snaps_view(s.drop_last()) =~= snaps_view(s).drop_last());
    }
}

/// Every snapshot of a bounded push can be restored when the pushed one and
/// the earlier ones can.
proof fn lemma_snaps_ok_push(s: Seq<SnapView>, cap: nat, x: SnapView)
    requires
        snaps_ok(s),
        snap_ok(x),
        cap > 0,
        s.len() <= cap,
    ensures
        snaps_ok(bounded_push(s, cap, x)),
        bounded_push(s, cap, x).len() <= cap,
{
    let b = bounded_push(s, cap, x);
    assert forall|i: int| 0 <= i < b.len() implies snap_ok(#[trigger] b[i]) by {
        if i < b.len() - 1 {
            if s.len() == cap {
                assert(b[i] == s[i + 1]);
            } else {
                assert(b[i] == s[i]);
            }
        }
    }
}

impl App {
    /// The derived fields agree with the contents.
    pub open spec fn derived_agrees(&self) -> bool {
        derived_ok(
            self.diff@,
            self.display_rows@,
            self.max_content_width,
            self.change_block_indices@,
            self.change_count,
            self.left_content@,
            self.right_content@,
        )
    }

    /// A well-formed app: derived fields agree with the contents, the view is
    /// one an app can have, and the history is bounded.
    pub open spec fn wf(&self) -> bool {
        &&& self.derived_agrees()
        &&& app_view_ok(self@)
        &&& self.undo_stack.well_formed()
    }

    /// The fields that editing leaves alone are the same in two apps.
    pub open spec fn same_ui(&self, other: &App) -> bool {
        &&& self.running == other.running
        &&& self.left_dir == other.left_dir
        &&& self.left_filename == other.left_filename
        &&& self.right_dir == other.right_dir
        &&& self.right_filename == other.right_filename
        &&& self.needs_initial_scroll == other.needs_initial_scroll
        &&& self.viewport == other.viewport
        &&& self.input == other.input
        &&& self.minimap_width == other.minimap_width
        &&& self.left_content.path == other.left_content.path
        &&& self.right_content.path == other.right_content.path
    }

    /// Build an app from file contents and the directory and file name shown
    /// for each side; the first render scrolls to the first change block.
    pub fn new(
        left_content: FileContent,
        right_content: FileContent,
        left_dir: String,
        left_filename: String,
        right_dir: String,
        right_filename: String,
    ) -> (app: Self)
        requires
            lines_fit(left_content@),
            lines_fit(right_content@),
        ensures
            app.wf(),
            app@ == (AppView {
                left: left_content@,
                right: right_content@,
                left_dirty: false,
                right_dirty: false,
                current_block: 0,
                undo: Seq::empty(),
                redo: Seq::empty(),
                capacity: DEFAULT_UNDO_CAPACITY as nat,
            }),
            app.running,
            app.left_dir == left_dir,
            app.left_filename == left_filename,
            app.right_dir == right_dir,
            app.right_filename == right_filename,
            app.needs_initial_scroll,
            app.viewport.scroll_y == 0 && app.viewport.scroll_x == 0,
            app.viewport.height == 0 && app.viewport.width == 0,
            !app.input.pending_g,
            app.minimap_width == 1,
            app.left_content.path == left_content.path,
            app.right_content.path == right_content.path,
    {
        let mut app = Self::from_contents(left_content, right_content);
        app.left_dir = left_dir;
        app.left_filename = left_filename;
        app.right_dir = right_dir;
        app.right_filename = right_filename;
        app.needs_initial_scroll = true;
        app
    }

    /// Construct an App from pre-loaded file contents (no filesystem access).
    pub fn from_contents(left_content: FileContent, right_content: FileContent) -> (app: Self)
        requires
            lines_fit(left_content@),
            lines_fit(right_content@),
        ensures
            app.wf(),
            app@ == (AppView {
                left: left_content@,
                right: right_content@,
                left_dirty: false,
                right_dirty: false,
                current_block: 0,
                undo: Seq::empty(),
                redo: Seq::empty(),
                capacity: DEFAULT_UNDO_CAPACITY as nat,
            }),
            app.running,
            app.left_dir@ == Seq::<char>::empty(),
            app.left_filename@ == Seq::<char>::empty(),
            app.right_dir@ == Seq::<char>::empty(),
            app.right_filename@ == Seq::<char>::empty(),
            !app.needs_initial_scroll,
            app.viewport.scroll_y == 0 && app.viewport.scroll_x == 0,
            app.viewport.height == 0 && app.viewport.width == 0,
            !app.input.pending_g,
            app.minimap_width == 1,
            app.left_content.path == left_content.path,
            app.right_content.path == right_content.path,
    {
        let derived = compute_derived(&left_content, &right_content);
        let app = App {
            running: true,
            left_dir: String::new(),
            left_filename: String::new(),
            right_dir: String::new(),
            right_filename: String::new(),
            left_content,
            right_content,
            diff: derived.diff,
            display_rows: derived.display_rows,
            max_content_width: derived.max_content_width,
            change_count: derived.change_count,
            change_block_indices: derived.change_block_indices,
            current_block: 0,
            needs_initial_scroll: false,
            viewport: Viewport::default(),
            input: InputState::default(),
            minimap_width: 1,
            left_dirty: false,
            right_dirty: false,
            undo_stack: UndoStack::new(DEFAULT_UNDO_CAPACITY),
        };
        assert(snaps_view(app.undo_stack.undo_seq()) =~= Seq::<SnapView>::empty());
        assert(snaps_view(app.undo_stack.redo_seq()) =~= Seq::<SnapView>::empty());
        app
    }

    /// Capture current mutable state as a snapshot.
    fn snapshot(&self) -> (s: Snapshot)
        ensures
            s@ == snap_of(self@),
    {
        Snapshot {
            left_content: self.left_content.duplicate(),
            right_content: self.right_content.duplicate(),
            left_dirty: self.left_dirty,
            right_dirty: self.right_dirty,
            current_block: self.current_block,
        }
    }

    /// Recompute diff, display rows, and navigation indices after a mutation.
    fn recompute_diff(&mut self)
        requires
            lines_fit(old(self).left_content@),
            lines_fit(old(self).right_content@),
        ensures
            final(self).derived_agrees(),
            final(self).left_content == old(self).left_content,
            final(self).right_content == old(self).right_content,
            final(self).left_dirty == old(self).left_dirty,
            final(self).right_dirty == old(self).right_dirty,
            final(self).undo_stack == old(self).undo_stack,
            final(self).current_block == clamp_block(old(self).current_block, final(self).change_count as nat),
            final(self).same_ui(old(self)),
    {
        let derived = compute_derived(&self.left_content, &self.right_content);
        self.diff = derived.diff;
        self.display_rows = derived.display_rows;
        self.max_content_width = derived.max_content_width;
        self.change_block_indices = derived.change_block_indices;
        self.change_count = derived.change_count;

        if self.change_block_indices.len() == 0 {
            self.current_block = 0;
        } else if self.current_block >= self.change_block_indices.len() {
            self.current_block = self.change_block_indices.len() - 1;
        }
    }

    /// Copy the current block from `source` to the other side, saving the
    /// state for undo first.
    fn copy_block(&mut self, source: Side)
        requires
            old(self).wf(),
        ensures
            final(self).wf(),
            final(self)@ == app_copy_spec(old(self)@, source),
            final(self).same_ui(old(self)),
    {
        if self.change_block_indices.len() == 0 {
            return;
        }
        let ghost v = old(self)@;
        proof {
            lemma_change_block_bounds(v.left, v.right, v.current_block);
            crate::diff::lemma_change_indices(crate::diff::kinds(self.diff@));
            assert(self.diff.blocks.len() == self.diff.blocks@.len());
        }
        let snap = self.snapshot();
        proof {
            lemma_snaps_push(self.undo_stack.undo_seq(), self.undo_stack.capacity(), snap);
            lemma_snaps_ok_push(v.undo, v.capacity, snap@);
        }
        self.undo_stack.push(snap);
        let block_index = self.change_block_indices[self.current_block];
        let left_range = self.diff.blocks[block_index].left_range.start..self.diff.blocks[block_index].left_range.end;
        let right_range = self.diff.blocks[block_index].right_range.start..self.diff.blocks[block_index].right_range.end;
        let ghost b = change_block_of(v.left, v.right, v.current_block);
        assert(left_range == b.left_range);
        assert(right_range == b.right_range);
        match source {
            Side::Left => {
                let src = copy_lines(self.left_content.lines(), &left_range);
                proof {
                    lemma_fit_subrange(v.left, left_range.start as int, left_range.end as int);
                    lemma_fit_splice(v.right, right_range.start as int, right_range.end as int,
                        v.left.subrange(left_range.start as int, left_range.end as int));
                }
                self.right_content.splice_lines(right_range, src);
                self.right_dirty = true;
            },
            Side::Right => {
                let src = copy_lines(self.right_content.lines(), &right_range);
                proof {
                    lemma_fit_subrange(v.right, right_range.start as int, right_range.end as int);
                    lemma_fit_splice(v.left, left_range.start as int, left_range.end as int,
                        v.right.subrange(right_range.start as int, right_range.end as int));
                }
                self.left_content.splice_lines(left_range, src);
                self.left_dirty = true;
            },
        }
        self.recompute_diff();
        assert(snaps_view(self.undo_stack.redo_seq()) =~= Seq::<SnapView>::empty());
    }

    /// Copy the active block's content from the left side to the right side.
    pub fn copy_left_to_right(&mut self)
        requires
            old(self).wf(),
        ensures
            final(self).wf(),
            final(self)@ == app_copy_spec(old(self)@, Side::Left),
            final(self).same_ui(old(self)),
    {
        self.copy_block(Side::Left);
    }

    /// Copy the active block's content from the right side to the left side.
    pub fn copy_right_to_left(&mut self)
        requires
            old(self).wf(),
        ensures
            final(self).wf(),
            final(self)@ == app_copy_spec(old(self)@, Side::Right),
            final(self).same_ui(old(self)),
    {
        self.copy_block(Side::Right);
    }

    /// Undo the most recent copy operation.
    pub fn undo(&mut self)
        requires
            old(self).wf(),
        ensures
            final(self).wf(),
            final(self)@ == app_undo_spec(old(self)@),
            final(self).same_ui(old(self)),
            old(self).undo_stack.undo_seq().len() == 0 ==> *final(self) == (App {
                undo_stack: final(self).undo_stack,
                ..*old(self)
            }),
    {
        let ghost v = old(self)@;
        if let Some(previous) = self.undo_stack.pop_undo() {
            let current = self.snapshot();
            proof {
                assert(v.undo.last() == previous@);
                assert(snap_ok(v.undo[v.undo.len() - 1]));
                assert(snaps_view(self.undo_stack.undo_seq()) =~= v.undo.drop_last());
                lemma_snaps_push(self.undo_stack.redo_seq(), 1, current);
                assert forall|i: int| 0 <= i < v.redo.push(current@).len() implies snap_ok(#[trigger] v.redo.push(current@)[i]) by {
                    if i < v.redo.len() {
                        assert(v.redo.push(current@)[i] == v.redo[i]);
                    }
                }
                assert forall|i: int| 0 <= i < v.undo.drop_last().len() implies snap_ok(#[trigger] v.undo.drop_last()[i]) by {
                    assert(v.undo.drop_last()[i] == v.undo[i]);
                }
            }
            self.restore(&previous);
            self.undo_stack.push_redo(current);
        }
    }

    /// Redo the most recently undone operation.
    pub fn redo(&mut self)
        requires
            old(self).wf(),
        ensures
            final(self).wf(),
            final(self)@ == app_redo_spec(old(self)@),
            final(self).same_ui(old(self)),
            old(self).undo_stack.redo_seq().len() == 0 ==> *final(self) == (App {
                undo_stack: final(self).undo_stack,
                ..*old(self)
            }),
    {
        let ghost v = old(self)@;
        if let Some(next) = self.undo_stack.pop_redo() {
            let current = self.snapshot();
            proof {
                assert(v.redo.last() == next@);
                assert(snap_ok(v.redo[v.redo.len() - 1]));
                assert(snaps_view(self.undo_stack.redo_seq()) =~= v.redo.drop_last());
                lemma_snaps_push(self.undo_stack.undo_seq(), self.undo_stack.capacity(), current);
                lemma_snaps_ok_push(v.undo, v.capacity, current@);
                assert forall|i: int| 0 <= i < v.redo.drop_last().len() implies snap_ok(#[trigger] v.redo.drop_last()[i]) by {
                    assert(v.redo.drop_last()[i] == v.redo[i]);
                }
            }
            self.restore(&next);
            self.undo_stack.push_undo(current);
        }
    }

    /// Restore mutable state from a snapshot and recompute derived state.
    fn restore(&mut self, snapshot: &Snapshot)
        requires
            snap_ok(snapshot@),
        ensures
            final(self)@ == restore_spec(old(self)@, snapshot@),
            final(self).derived_agrees(),
            final(self).undo_stack == old(self).undo_stack,
            final(self).running == old(self).running,
            final(self).left_dir == old(self).left_dir,
            final(self).left_filename == old(self).left_filename,
            final(self).right_dir == old(self).right_dir,
            final(self).right_filename == old(self).right_filename,
            final(self).needs_initial_scroll == old(self).needs_initial_scroll,
            final(self).viewport == old(self).viewport,
            final(self).input == old(self).input,
            final(self).minimap_width == old(self).minimap_width,
            final(self).left_content.path == old(self).left_content.path,
            final(self).right_content.path == old(self).right_content.path,
    {
        self.left_content.lines = clone_lines(snapshot.left_content.lines.as_slice());
        self.right_content.lines = clone_lines(snapshot.right_content.lines.as_slice());
        self.left_dirty = snapshot.left_dirty;
        self.right_dirty = snapshot.right_dirty;
        self.current_block = snapshot.current_block;
        self.recompute_diff();
    }
}

/// Equal regions stay aligned while scrolling: in a well-formed app, every
/// display row of an equal block shows a line of each file, and the two
/// lines have the same text.
pub proof fn law_app_equal_rows_aligned(app: App)
    requires
        app.wf(),
    ensures
        equal_rows_agree(app.display_rows@, app.left_content@, app.right_content@),
{
    law_equal_rows_pair_equal_lines(app.diff@, app.left_content@, app.right_content@);
}

/// The derived state follows the contents after every operation: in a
/// well-formed app the diff is the diff of the two files, the rows are its
/// rows, the change indices list its change blocks, the change count is
/// their number, and the current block is 0 when there is no change and a
/// valid change index otherwise.
pub proof fn law_app_derived_state(app: App)
    requires
        app.wf(),
    ensures
        app.diff@ == diff_spec(app.left_content@, app.right_content@),
        app.display_rows@ == crate::display::rows_spec(app.diff@),
        app.change_block_indices@ == change_index_seq(app.diff@),
        app.change_count == app.change_block_indices@.len(),
        app.change_count == 0 ==> app.current_block == 0,
        app.change_count > 0 ==> app.current_block < app.change_count,
{
}

/// The content width spans both files: in a well-formed app it is the
/// widest shown line of the left file and of the right file together, plus
/// one.
pub proof fn law_app_width_is_widest(app: App)
    requires
        app.wf(),
    ensures
        crate::diff_model::widest_of(app.max_content_width as nat, app.left_content@, app.right_content@),
{
    crate::diff_model::lemma_max_width_widest(app.left_content@, app.right_content@);
}

/// A copy takes the current change block: when there is a change block,
/// copying from `source` replaces, in the other file, the lines of change
/// block number `current_block` by that block's lines of the source file,
/// and leaves the rest of the other file and the whole source file as they
/// were; the copied lines then stand at the block's start in the other file.
pub proof fn law_app_copy_copies_current_block(v: AppView, source: Side)
    requires
        app_view_ok(v),
        change_count_of(v.left, v.right) > 0,
    ensures
        ({
            let d = crate::diff::diff_spec(v.left, v.right);
            let b = d[crate::diff::change_indices(crate::diff::kinds(d))[v.current_block as int]];
            let (sr, tr) = if source == Side::Left {
                (b.left_range, b.right_range)
            } else {
                (b.right_range, b.left_range)
            };
            let (src, tgt) = if source == Side::Left {
                (v.left, v.right)
            } else {
                (v.right, v.left)
            };
            let w = app_copy_spec(v, source);
            let (new_src, new_tgt) = if source == Side::Left {
                (w.left, w.right)
            } else {
                (w.right, w.left)
            };
            &&& new_src == src
            &&& new_tgt == tgt.subrange(0, tr.start as int) + src.subrange(sr.start as int, sr.end as int)
                + tgt.subrange(tr.end as int, tgt.len() as int)
            &&& new_tgt.subrange(tr.start as int, tr.start + (sr.end - sr.start)) == src.subrange(
                sr.start as int,
                sr.end as int,
            )
        }),
{
    lemma_change_block_bounds(v.left, v.right, v.current_block);
    let d = crate::diff::diff_spec(v.left, v.right);
    let b = d[crate::diff::change_indices(crate::diff::kinds(d))[v.current_block as int]];
    let (sr, tr) = if source == Side::Left {
        (b.left_range, b.right_range)
    } else {
        (b.right_range, b.left_range)
    };
    let (src, tgt) = if source == Side::Left {
        (v.left, v.right)
    } else {
        (v.right, v.left)
    };
    let new_tgt = tgt.subrange(0, tr.start as int) + src.subrange(sr.start as int, sr.end as int)
        + tgt.subrange(tr.end as int, tgt.len() as int);
    assert(new_tgt.subrange(tr.start as int, tr.start + (sr.end - sr.start)) =~= src.subrange(
        sr.start as int,
        sr.end as int,
    ));
}

/// The inline diffs of a replacement pair its lines in order: in a
/// well-formed app, a replaced block with `ll` left and `rl` right lines has
/// `min(ll, rl)` inline diffs, and the `k`-th one spells the block's `k`-th
/// left line on its left side and the block's `k`-th right line on its right
/// side.
pub proof fn law_app_inline_diffs_pair_lines(app: App)
    requires
        app.wf(),
    ensures
        forall|j: int, k: int|
            #![trigger app.diff@[j].inline_diffs[k]]
            0 <= j < app.diff@.len() && app.diff@[j].kind == crate::diff::BlockKind::Replace && 0 <= k
                < app.diff@[j].inline_diffs.len() ==> crate::inline_diff::seg_text(app.diff@[j].inline_diffs[k].left)
                == app.left_content@[app.diff@[j].left_range.start + k] && crate::inline_diff::seg_text(
                app.diff@[j].inline_diffs[k].right,
            ) == app.right_content@[app.diff@[j].right_range.start + k],
        forall|j: int|
            0 <= j < app.diff@.len() && (#[trigger] app.diff@[j]).kind == crate::diff::BlockKind::Replace
                ==> app.diff@[j].inline_diffs.len() == crate::diff::min_int(
                app.diff@[j].left_range.end - app.diff@[j].left_range.start,
                app.diff@[j].right_range.end - app.diff@[j].right_range.start,
            ),
{
    assert forall|j: int, k: int|
        #![trigger app.diff@[j].inline_diffs[k]]
        0 <= j < app.diff@.len() && app.diff@[j].kind == crate::diff::BlockKind::Replace && 0 <= k
            < app.diff@[j].inline_diffs.len() implies crate::inline_diff::seg_text(app.diff@[j].inline_diffs[k].left)
            == app.left_content@[app.diff@[j].left_range.start + k] && crate::inline_diff::seg_text(
            app.diff@[j].inline_diffs[k].right,
        ) == app.right_content@[app.diff@[j].right_range.start + k] by {
        assert(crate::diff::block_inlines_pair(app.diff@[j], app.left_content@, app.right_content@));
        let x = app.diff@[j].inline_diffs[k];
    }
}

} // verus!
