//! The pure parts of the file diff view.
use vstd::prelude::*;
use crate::diff::DiffResult;
use crate::display::DisplayRow;
use crate::inline_diff::{InlineDiff, InlineKind, InlineSegment, segs_view};
use crate::diff::BlockKind;
use crate::file_io::lines_view;
use crate::input::{UiState, scroll_current_spec, scroll_to_current_block, rows_of, block_position};
use crate::state::App;
use crate::viewport::{min16, y_max, x_max};
use crate::text::{TAB_WIDTH, shown, push_char, line_short, is_line_short, lemma_short_fits, lemma_shown_width};

verus! {

/// Expand tabs to spaces for display, respecting tab stops: the same as
/// `text::expand_tabs` with stops every `TAB_WIDTH` (4) columns.
pub fn expand_tabs(s: &str) -> (r: String)
    requires
        shown(s@).len() <= usize::MAX,
    ensures
        r@ == shown(s@),
        r@ == crate::text::expand_tabs_spec(s@, 4),
{
    crate::text::expand_tabs(s, TAB_WIDTH)
}

/// The character of a decimal digit.
pub open spec fn digit_char(d: nat) -> char {
    ((48 + d) as u8) as char
}

/// The decimal digits of a number, most significant first.
pub open spec fn decimal(n: nat) -> Seq<char>
    decreases n,
{
    if n < 10 {
        seq![digit_char(n)]
    } else {
        decimal(n / 10).push(digit_char(n % 10))
    }
}

/// `n` spaces.
pub open spec fn spaces(n: nat) -> Seq<char> {
    Seq::new(n, |i: int| ' ')
}

/// Append the decimal digits of `n`.
fn push_decimal(s: &mut String, n: usize)
    ensures
        final(s)@ == old(s)@ + decimal(n as nat),
    decreases n,
{
    if n >= 10 {
        push_decimal(s, n / 10);
    }
    let d = (n % 10) as u8;
    push_char(s, (48u8 + d) as char);
    assert(old(s)@ + decimal(n as nat) =~= if n < 10 {
        old(s)@.push(digit_char(n as nat))
    } else {
        (old(s)@ + decimal((n / 10) as nat)).push(digit_char((n % 10) as nat))
    });
}

/// Append `n` spaces.
fn push_spaces(s: &mut String, n: usize)
    ensures
        final(s)@ == old(s)@ + spaces(n as nat),
{
    let ghost start = s@;
    let mut k: usize = 0;
    while k < n
        invariant
            k <= n,
            s@ == start + spaces(k as nat),
        decreases n - k,
    {
        push_char(s, ' ');
        k = k + 1;
        assert(s@ =~= start + spaces(k as nat));
    }
}

/// The decimal representation of a number.
pub fn decimal_string(n: usize) -> (r: String)
    ensures
        r@ == decimal(n as nat),
{
    let mut s = String::new();
    push_decimal(&mut s, n);
    assert(s@ =~= decimal(n as nat));
    s
}

/// Ten to the power `k`.
pub open spec fn pow10(k: nat) -> nat
    decreases k,
{
    if k == 0 {
        1
    } else {
        10 * pow10((k - 1) as nat)
    }
}

/// A number below `10^k` (for `k >= 1`) has at most `k` decimal digits.
proof fn lemma_decimal_len(n: nat, k: nat)
    requires
        k >= 1,
        n < pow10(k),
    ensures
        decimal(n).len() <= k,
    decreases k,
{
    if n >= 10 {
        if k == 1 {
            assert(pow10(0) == 1);
        } else {
            let q = pow10((k - 1) as nat);
            assert(n / 10 < q) by (nonlinear_arith)
                requires
                    n < 10 * q,
            ;
            lemma_decimal_len(n / 10, (k - 1) as nat);
        }
    }
}

/// The number of decimal digits of a number, at least two: the width of the
/// line-number column for files of `max_lines` lines. A `usize` has at most
/// twenty digits.
pub fn digit_width(max_lines: usize) -> (w: usize)
    ensures
        w == (if decimal(max_lines as nat).len() >= 2 {
            decimal(max_lines as nat).len()
        } else {
            2
        }),
        w <= 20,
{
    proof {
        reveal_with_fuel(pow10, 21);
        assert(pow10(20) == 100000000000000000000nat);
        lemma_decimal_len(max_lines as nat, 20);
    }
    let d = decimal_string(max_lines);
    let n = d.as_str().unicode_len();
    if n >= 2 {
        n
    } else {
        2
    }
}

/// One side of the diff view.
#[derive(Debug, Clone, Copy, PartialEq, Eq, Structural)]
pub enum Side {
    Left,
    Right,
}

/// The offset of a row's line within its block on one side, when the row
/// shows a line there that does not come before the block's start.
pub open spec fn row_offset(row: DisplayRow, side: Side, diff: DiffResult) -> Option<int> {
    let block = diff.blocks@[row.block_index as int];
    let (line, start) = match side {
        Side::Left => (row.left_line, block.left_range.start),
        Side::Right => (row.right_line, block.right_range.start),
    };
    match line {
        Some(l) => if l >= start {
            Some(l - start)
        } else {
            None
        },
        None => None,
    }
}

/// Look up the InlineDiff for a Replace row, if one exists.
pub fn inline_diff_for_row<'a>(row: &DisplayRow, side: Side, diff: &'a DiffResult) -> (r: Option<&'a InlineDiff>)
    requires
        row.block_index < diff.blocks@.len(),
    ensures
        r is Some <==> (row_offset(*row, side, *diff) matches Some(o)
            && o < diff.blocks@[row.block_index as int].inline_diffs@.len()),
        r matches Some(d) ==> *d == diff.blocks@[row.block_index as int].inline_diffs@[
            row_offset(*row, side, *diff)->0],
{
    let block = &diff.blocks[row.block_index];
    let (line, start) = match side {
        Side::Left => (row.left_line, block.left_range.start),
        Side::Right => (row.right_line, block.right_range.start),
    };
    let offset = match line {
        Some(l) => if l >= start {
            l - start
        } else {
            return None;
        },
        None => {
            return None;
        },
    };
    if offset < block.inline_diffs.len() {
        Some(&block.inline_diffs[offset])
    } else {
        None
    }
}


/// How a span of code text is highlighted: the base colour of its row, or
/// the stronger colour of changed characters.
#[derive(Debug, Clone, Copy, PartialEq, Eq, Structural)]
pub enum SpanStyle {
    Base,
    Emphasis,
}

/// A span of code text with its highlight.
#[derive(Debug)]
pub struct CodeSpan {
    pub style: SpanStyle,
    pub text: String,
}

impl View for CodeSpan {
    type V = (SpanStyle, Seq<char>);

    open spec fn view(&self) -> (SpanStyle, Seq<char>) {
        (self.style, self.text@)
    }
}

/// The code part of a row: character-highlighted spans, or one plain text shown
/// in the row's colour.
#[derive(Debug)]
pub enum CodeLine {
    Spans(Vec<CodeSpan>),
    Plain(String),
}

/// The mathematical value of a code line.
pub enum CodeLineView {
    Spans(Seq<(SpanStyle, Seq<char>)>),
    Plain(Seq<char>),
}

impl View for CodeLine {
    type V = CodeLineView;

    open spec fn view(&self) -> CodeLineView {
        match self {
            CodeLine::Spans(v) => CodeLineView::Spans(v@.map_values(|x: CodeSpan| x@)),
            CodeLine::Plain(t) => CodeLineView::Plain(t@),
        }
    }
}

/// One row of one side of the view: its line-number gutter, its code, and
/// whether it belongs to a change block.
#[derive(Debug)]
pub struct SideRow {
    pub gutter: String,
    pub code: CodeLine,
    pub is_diff: bool,
}

/// The mathematical value of a side row.
pub struct SideRowView {
    pub gutter: Seq<char>,
    pub code: CodeLineView,
    pub is_diff: bool,
}

impl View for SideRow {
    type V = SideRowView;

    open spec fn view(&self) -> SideRowView {
        SideRowView { gutter: self.gutter@, code: self.code@, is_diff: self.is_diff }
    }
}

/// A text right-aligned in a field `w` wide (never cut).
pub open spec fn pad_left(t: Seq<char>, w: nat) -> Seq<char> {
    if t.len() < w {
        spaces((w - t.len()) as nat) + t
    } else {
        t
    }
}

/// A text left-aligned in a field `w` wide (never cut).
pub open spec fn pad_right(t: Seq<char>, w: nat) -> Seq<char> {
    if t.len() < w {
        t + spaces((w - t.len()) as nat)
    } else {
        t
    }
}

/// The gutter of a row: the 1-based line number right-aligned in
/// `digit_width` columns between two spaces, or blank for a padding row.
pub open spec fn gutter_spec(line: Option<usize>, digit_width: usize, gutter_width: u16) -> Seq<char> {
    match line {
        Some(i) => seq![' '] + pad_left(decimal((i + 1) as nat), digit_width as nat) + seq![' '],
        None => spaces(gutter_width as nat),
    }
}

/// The line of one side that a row shows.
pub open spec fn side_line(row: DisplayRow, side: Side) -> Option<usize> {
    match side {
        Side::Left => row.left_line,
        Side::Right => row.right_line,
    }
}

/// The plain code text of a row: a leading space and the shown line (or just
/// the space for a padding row), padded to the content width in change
/// blocks.
pub open spec fn plain_spec(line: Option<Seq<char>>, is_diff: bool, max_content_width: usize) -> Seq<char> {
    let text = match line {
        Some(l) => seq![' '] + shown(l),
        None => seq![' '],
    };
    if is_diff {
        pad_right(text, max_content_width as nat)
    } else {
        text
    }
}

/// The highlight of a segment.
pub open spec fn style_of(k: InlineKind) -> SpanStyle {
    match k {
        InlineKind::Equal => SpanStyle::Base,
        InlineKind::Changed => SpanStyle::Emphasis,
    }
}

/// The width in bytes of the shown segments.
pub open spec fn shown_bytes(segs: Seq<(InlineKind, Seq<char>)>) -> nat
    decreases segs.len(),
{
    if segs.len() == 0 {
        0
    } else {
        shown_bytes(segs.drop_last()) + vstd::utf8::encode_utf8(shown(segs.last().1)).len()
    }
}

/// The spans of a character-highlighted row: a leading space, each segment shown
/// in its highlight, then spaces up to the content width (measured in bytes).
pub open spec fn spans_spec(segs: Seq<(InlineKind, Seq<char>)>, max_content_width: usize) -> Seq<(SpanStyle, Seq<char>)> {
    let base = seq![(SpanStyle::Base, seq![' '])] + segs.map_values(|x: (InlineKind, Seq<char>)| (style_of(x.0), shown(x.1)));
    let width = 1 + shown_bytes(segs);
    if width < max_content_width {
        base.push((SpanStyle::Base, spaces((max_content_width - width) as nat)))
    } else {
        base
    }
}

/// The segments of one side of an inline diff.
pub open spec fn side_segments(d: InlineDiff, side: Side) -> Seq<InlineSegment> {
    match side {
        Side::Left => d.left_segments@,
        Side::Right => d.right_segments@,
    }
}

/// A row takes the character-highlighted form: it is a replacement row with an
/// inline diff for its line on this side.
pub open spec fn uses_spans(row: DisplayRow, side: Side, diff: DiffResult) -> bool {
    &&& row.kind == BlockKind::Replace
    &&& row_offset(row, side, diff) matches Some(o)
    &&& o < diff.blocks@[row.block_index as int].inline_diffs@.len()
}

/// The inline diff that a character-highlighted row uses.
pub open spec fn row_inline(row: DisplayRow, side: Side, diff: DiffResult) -> InlineDiff {
    diff.blocks@[row.block_index as int].inline_diffs@[row_offset(row, side, diff)->0]
}

/// The side row that a display row becomes.
pub open spec fn side_row_spec(
    row: DisplayRow,
    lines: Seq<Seq<char>>,
    side: Side,
    digit_width: usize,
    gutter_width: u16,
    max_content_width: usize,
    diff: DiffResult,
) -> SideRowView {
    let line = side_line(row, side);
    SideRowView {
        gutter: gutter_spec(line, digit_width, gutter_width),
        code: if uses_spans(row, side, diff) {
            CodeLineView::Spans(spans_spec(segs_view(side_segments(row_inline(row, side, diff), side)), max_content_width))
        } else {
            CodeLineView::Plain(plain_spec(
                match line {
                    Some(i) => Some(lines[i as int]),
                    None => None,
                },
                row.kind != BlockKind::Equal,
                max_content_width,
            ))
        },
        is_diff: row.kind != BlockKind::Equal,
    }
}

/// The segments of a character-highlighted row can be shown: each shown segment,
/// and the width of all of them plus the leading space, fit in a `usize`.
pub open spec fn segs_fit(segs: Seq<(InlineKind, Seq<char>)>) -> bool {
    &&& forall|i: int| 0 <= i < segs.len() ==> crate::text::line_fits(#[trigger] segs[i].1)
    &&& 1 + shown_bytes(segs) <= usize::MAX
}

/// A display row can be turned into a side row: a shown line number has a
/// successor; a row in the plain form shows an existing line that fits; a
/// replacement row names an existing block; the segments of a
/// character-highlighted row fit.
pub open spec fn side_row_ok(row: DisplayRow, lines: Seq<Seq<char>>, side: Side, diff: DiffResult) -> bool {
    &&& side_line(row, side) matches Some(i) ==> i < usize::MAX
    &&& row.kind == BlockKind::Replace ==> row.block_index < diff.blocks@.len()
    &&& if row.kind == BlockKind::Replace && uses_spans(row, side, diff) {
        segs_fit(segs_view(side_segments(row_inline(row, side, diff), side)))
    } else {
        side_line(row, side) matches Some(i) ==> i < lines.len() && crate::text::line_fits(lines[i as int])
    }
}

proof fn lemma_shown_bytes_prefix(segs: Seq<(InlineKind, Seq<char>)>, k: int)
    requires
        0 <= k <= segs.len(),
    ensures
        shown_bytes(segs.subrange(0, k)) <= shown_bytes(segs),
    decreases segs.len() - k,
{
    if k < segs.len() {
        lemma_shown_bytes_prefix(segs, k + 1);
        assert(segs.subrange(0, k + 1).drop_last() =~= segs.subrange(0, k));
    } else {
        assert(segs.subrange(0, k) =~= segs);
    }
}

/// The gutter text of a row.
pub fn gutter_text(line: Option<usize>, digit_width: usize, gutter_width: u16) -> (r: String)
    requires
        line matches Some(i) ==> i < usize::MAX,
    ensures
        r@ == gutter_spec(line, digit_width, gutter_width),
{
    let mut s = String::new();
    match line {
        Some(idx) => {
            push_char(&mut s, ' ');
            let d = decimal_string(idx + 1);
            let n = d.as_str().unicode_len();
            if n < digit_width {
                push_spaces(&mut s, digit_width - n);
            }
            s.append(d.as_str());
            push_char(&mut s, ' ');
            assert(s@ =~= gutter_spec(line, digit_width, gutter_width));
        },
        None => {
            push_spaces(&mut s, gutter_width as usize);
            assert(s@ =~= gutter_spec(line, digit_width, gutter_width));
        },
    }
    s
}

/// The plain code text of a row.
pub fn plain_code_text(line: Option<&str>, is_diff: bool, max_content_width: usize) -> (r: String)
    requires
        line matches Some(l) ==> crate::text::line_fits(l@),
    ensures
        r@ == plain_spec(
            match line {
                Some(l) => Some(l@),
                None => None,
            },
            is_diff,
            max_content_width,
        ),
{
    let mut text = String::new();
    push_char(&mut text, ' ');
    if let Some(l) = line {
        let shown_line = expand_tabs(l);
        text.append(shown_line.as_str());
    }
    if is_diff {
        let n = text.as_str().unicode_len();
        if n < max_content_width {
            push_spaces(&mut text, max_content_width - n);
        }
    }
    text
}

/// The character-highlighted spans of a row.
pub fn emphasis_spans(segments: &[InlineSegment], max_content_width: usize) -> (r: Vec<CodeSpan>)
    requires
        segs_fit(segs_view(segments@)),
    ensures
        r@.map_values(|x: CodeSpan| x@) == spans_spec(segs_view(segments@), max_content_width),
{
    let ghost sv = segs_view(segments@);
    let mut spans: Vec<CodeSpan> = Vec::new();
    let mut lead = String::new();
    push_char(&mut lead, ' ');
    spans.push(CodeSpan { style: SpanStyle::Base, text: lead });
    let mut width: usize = 1;
    let mut i: usize = 0;
    while i < segments.len()
        invariant
            i <= segments@.len(),
            sv == segs_view(segments@),
            segs_fit(sv),
            width == 1 + shown_bytes(sv.subrange(0, i as int)),
            spans@.map_values(|x: CodeSpan| x@) == seq![(SpanStyle::Base, seq![' '])] + sv.subrange(0, i as int).map_values(
                |x: (InlineKind, Seq<char>)| (style_of(x.0), shown(x.1)),
            ),
        decreases segments@.len() - i,
    {
        let ghost pre = sv.subrange(0, i as int + 1);
        assert(pre.drop_last() =~= sv.subrange(0, i as int));
        assert(pre.last() == sv[i as int]);
        assert(crate::text::line_fits(sv[i as int].1));
        let seg = &segments[i];
        let text = expand_tabs(seg.text.as_str());
        let style = match seg.kind {
            InlineKind::Equal => SpanStyle::Base,
            InlineKind::Changed => SpanStyle::Emphasis,
        };
        proof {
            lemma_shown_bytes_prefix(sv, i as int + 1);
        }
        width = width + text.as_str().len();
        let ghost before = spans@.map_values(|x: CodeSpan| x@);
        spans.push(CodeSpan { style, text });
        assert(spans@.map_values(|x: CodeSpan| x@) =~= before.push((style_of(sv[i as int].0), shown(sv[i as int].1))));
        assert(seq![(SpanStyle::Base, seq![' '])] + pre.map_values(|x: (InlineKind, Seq<char>)| (style_of(x.0), shown(x.1)))
            =~= (seq![(SpanStyle::Base, seq![' '])] + sv.subrange(0, i as int).map_values(
                |x: (InlineKind, Seq<char>)| (style_of(x.0), shown(x.1)),
            )).push((style_of(sv[i as int].0), shown(sv[i as int].1))));
        i = i + 1;
    }
    assert(sv.subrange(0, segments@.len() as int) =~= sv);
    if width < max_content_width {
        let mut pad = String::new();
        push_spaces(&mut pad, max_content_width - width);
        spans.push(CodeSpan { style: SpanStyle::Base, text: pad });
    }
    spans
}

/// Gutter and code rows for one side of the diff.
pub fn build_side_rows(
    display_rows: &[DisplayRow],
    lines: &[String],
    side: Side,
    digit_width: usize,
    gutter_width: u16,
    max_content_width: usize,
    diff: &DiffResult,
) -> (r: Vec<SideRow>)
    requires
        forall|i: int| 0 <= i < display_rows@.len() ==> side_row_ok(#[trigger] display_rows@[i], lines_view(lines@), side, *diff),
    ensures
        r@.len() == display_rows@.len(),
        forall|i: int| 0 <= i < r@.len() ==> (#[trigger] r@[i])@ == side_row_spec(
            display_rows@[i],
            lines_view(lines@),
            side,
            digit_width,
            gutter_width,
            max_content_width,
            *diff,
        ),
{
    let mut out: Vec<SideRow> = Vec::new();
    let mut k: usize = 0;
    while k < display_rows.len()
        invariant
            k <= display_rows@.len(),
            forall|i: int| 0 <= i < display_rows@.len() ==> side_row_ok(#[trigger] display_rows@[i], lines_view(lines@), side, *diff),
            out@.len() == k,
            forall|i: int| 0 <= i < k ==> (#[trigger] out@[i])@ == side_row_spec(
                display_rows@[i],
                lines_view(lines@),
                side,
                digit_width,
                gutter_width,
                max_content_width,
                *diff,
            ),
        decreases display_rows@.len() - k,
    {
        let row = &display_rows[k];
        assert(side_row_ok(display_rows@[k as int], lines_view(lines@), side, *diff));
        let line_idx = match side {
            Side::Left => row.left_line,
            Side::Right => row.right_line,
        };
        let is_diff = row.kind != BlockKind::Equal;
        let gutter = gutter_text(line_idx, digit_width, gutter_width);
        let mut code: Option<CodeLine> = None;
        if row.kind == BlockKind::Replace {
            if let Some(inline) = inline_diff_for_row(row, side, diff) {
                let segments = match side {
                    Side::Left => inline.left_segments.as_slice(),
                    Side::Right => inline.right_segments.as_slice(),
                };
                code = Some(CodeLine::Spans(emphasis_spans(segments, max_content_width)));
            }
        }
        let code = match code {
            Some(c) => c,
            None => {
                let text = match line_idx {
                    Some(idx) => plain_code_text(Some(lines[idx].as_str()), is_diff, max_content_width),
                    None => plain_code_text(None, is_diff, max_content_width),
                };
                CodeLine::Plain(text)
            },
        };
        let side_row = SideRow { gutter, code, is_diff };
        assert(side_row@ == side_row_spec(
            display_rows@[k as int],
            lines_view(lines@),
            side,
            digit_width,
            gutter_width,
            max_content_width,
            *diff,
        ));
        out.push(side_row);
        k = k + 1;
    }
    out
}


/// The number of characters in a sequence of segments.
pub open spec fn seg_chars(segs: Seq<(InlineKind, Seq<char>)>) -> nat
    decreases segs.len(),
{
    if segs.len() == 0 {
        0
    } else {
        seg_chars(segs.drop_last()) + segs.last().1.len()
    }
}

/// A display row whose text is short enough to be shown (see `line_short`):
/// a shown line number has a successor, a replacement row names an existing
/// block, the segments of a character-highlighted row are short together, and
/// otherwise the row's line exists and is short.
pub open spec fn row_short(row: DisplayRow, lines: Seq<Seq<char>>, side: Side, diff: DiffResult) -> bool {
    &&& side_line(row, side) matches Some(i) ==> i < usize::MAX
    &&& row.kind == BlockKind::Replace ==> row.block_index < diff.blocks@.len()
    &&& if row.kind == BlockKind::Replace && uses_spans(row, side, diff) {
        16 * seg_chars(segs_view(side_segments(row_inline(row, side, diff), side))) < usize::MAX
    } else {
        side_line(row, side) matches Some(i) ==> i < lines.len() && line_short(lines[i as int])
    }
}

proof fn lemma_seg_chars_prefix(segs: Seq<(InlineKind, Seq<char>)>, k: int)
    requires
        0 <= k <= segs.len(),
    ensures
        seg_chars(segs.subrange(0, k)) <= seg_chars(segs),
    decreases segs.len() - k,
{
    if k < segs.len() {
        lemma_seg_chars_prefix(segs, k + 1);
        assert(segs.subrange(0, k + 1).drop_last() =~= segs.subrange(0, k));
    } else {
        assert(segs.subrange(0, k) =~= segs);
    }
}

proof fn lemma_segs_short(segs: Seq<(InlineKind, Seq<char>)>)
    ensures
        shown_bytes(segs) <= 16 * seg_chars(segs),
        forall|i: int| 0 <= i < segs.len() ==> (#[trigger] segs[i]).1.len() <= seg_chars(segs),
    decreases segs.len(),
{
    if segs.len() > 0 {
        lemma_segs_short(segs.drop_last());
        lemma_shown_width(segs.last().1);
        assert forall|i: int| 0 <= i < segs.len() implies (#[trigger] segs[i]).1.len() <= seg_chars(segs) by {
            if i < segs.len() - 1 {
                assert(segs.drop_last()[i] == segs[i]);
            }
        }
    }
}

/// A short row can be turned into a side row.
pub proof fn lemma_row_short_ok(row: DisplayRow, lines: Seq<Seq<char>>, side: Side, diff: DiffResult)
    requires
        row_short(row, lines, side, diff),
    ensures
        side_row_ok(row, lines, side, diff),
{
    if row.kind == BlockKind::Replace && uses_spans(row, side, diff) {
        let segs = segs_view(side_segments(row_inline(row, side, diff), side));
        lemma_segs_short(segs);
        assert forall|i: int| 0 <= i < segs.len() implies crate::text::line_fits(#[trigger] segs[i].1) by {
            lemma_short_fits(segs[i].1);
        }
    } else {
        if let Some(i) = side_line(row, side) {
            lemma_short_fits(lines[i as int]);
        }
    }
}

/// Whether a display row is short.
fn row_is_short(row: &DisplayRow, lines: &[String], side: Side, diff: &DiffResult) -> (b: bool)
    ensures
        b == row_short(*row, lines_view(lines@), side, *diff),
{
    let line_idx = match side {
        Side::Left => row.left_line,
        Side::Right => row.right_line,
    };
    if let Some(i) = line_idx {
        if i == usize::MAX {
            return false;
        }
    }
    if row.kind == BlockKind::Replace {
        if row.block_index >= diff.blocks.len() {
            return false;
        }
        if let Some(inline) = inline_diff_for_row(row, side, diff) {
            let segments = match side {
                Side::Left => inline.left_segments.as_slice(),
                Side::Right => inline.right_segments.as_slice(),
            };
            let ghost sv = segs_view(segments@);
            assert(uses_spans(*row, side, *diff));
            assert(sv == segs_view(side_segments(row_inline(*row, side, *diff), side)));
            let limit = usize::MAX / 16;
            let mut total: usize = 0;
            let mut k: usize = 0;
            while k < segments.len()
                invariant
                    k <= segments@.len(),
                    sv == segs_view(segments@),
                    sv == segs_view(side_segments(row_inline(*row, side, *diff), side)),
                    row.kind == BlockKind::Replace,
                    uses_spans(*row, side, *diff),
                    limit == usize::MAX / 16,
                    total == seg_chars(sv.subrange(0, k as int)),
                    total <= limit,
                decreases segments@.len() - k,
            {
                let ghost pre = sv.subrange(0, k as int + 1);
                assert(pre.drop_last() =~= sv.subrange(0, k as int));
                let n = segments[k].text.as_str().unicode_len();
                assert(pre.last() == sv[k as int]);
                assert(seg_chars(pre) == total + n);
                if n > limit - total {
                    proof {
                        lemma_seg_chars_prefix(sv, k as int + 1);
                        assert(seg_chars(sv) > limit);
                        assert(16 * seg_chars(sv) >= usize::MAX) by (nonlinear_arith)
                            requires
                                seg_chars(sv) > limit,
                                limit == usize::MAX / 16,
                        ;
                    }
                    return false;
                }
                total = total + n;
                k = k + 1;
            }
            assert(sv.subrange(0, segments@.len() as int) =~= sv);
            assert(16 * seg_chars(sv) < usize::MAX) by (nonlinear_arith)
                requires
                    seg_chars(sv) <= limit,
                    limit == usize::MAX / 16,
                    usize::MAX > 16,
            ;
            return true;
        }
    }
    match line_idx {
        Some(i) => i < lines.len() && is_line_short(lines[i].as_str()),
        None => true,
    }
}

/// Gutter and code rows for one side of the diff, when every row is short;
/// `None` when some row is too long to be shown.
pub fn try_build_side_rows(
    display_rows: &[DisplayRow],
    lines: &[String],
    side: Side,
    digit_width: usize,
    gutter_width: u16,
    max_content_width: usize,
    diff: &DiffResult,
) -> (r: Option<Vec<SideRow>>)
    ensures
        r is Some <==> forall|i: int| 0 <= i < display_rows@.len() ==> row_short(#[trigger] display_rows@[i], lines_view(lines@), side, *diff),
        r matches Some(v) ==> v@.len() == display_rows@.len() && forall|i: int| 0 <= i < v@.len() ==> (#[trigger] v@[i])@ == side_row_spec(
            display_rows@[i],
            lines_view(lines@),
            side,
            digit_width,
            gutter_width,
            max_content_width,
            *diff,
        ),
{
    let mut k: usize = 0;
    while k < display_rows.len()
        invariant
            k <= display_rows@.len(),
            forall|i: int| 0 <= i < k ==> row_short(#[trigger] display_rows@[i], lines_view(lines@), side, *diff),
        decreases display_rows@.len() - k,
    {
        if !row_is_short(&display_rows[k], lines, side, diff) {
            return None;
        }
        k = k + 1;
    }
    proof {
        assert forall|i: int| 0 <= i < display_rows@.len() implies side_row_ok(#[trigger] display_rows@[i], lines_view(lines@), side, *diff) by {
            lemma_row_short_ok(display_rows@[i], lines_view(lines@), side, *diff);
        }
    }
    Some(build_side_rows(display_rows, lines, side, digit_width, gutter_width, max_content_width, diff))
}

/// The status bar text: that the files are identical, or the current change
/// block's 1-based number and the number of change blocks.
pub open spec fn status_spec(current_block: usize, change_count: usize) -> Seq<char> {
    if change_count == 0 {
        " Files are identical  [q → quit]"@
    } else {
        seq![' '] + decimal((current_block + 1) as nat) + seq!['/'] + decimal(change_count as nat) + "  [q → quit]"@
    }
}

/// The status bar text.
pub fn status_text(current_block: usize, change_count: usize) -> (r: String)
    requires
        change_count == 0 || current_block < usize::MAX,
    ensures
        r@ == status_spec(current_block, change_count),
{
    if change_count == 0 {
        return String::from_str(" Files are identical  [q → quit]");
    }
    let mut s = String::new();
    push_char(&mut s, ' ');
    push_decimal(&mut s, current_block + 1);
    push_char(&mut s, '/');
    push_decimal(&mut s, change_count);
    s.append("  [q → quit]");
    assert(s@ =~= status_spec(current_block, change_count));
    s
}

/// The index of the last row that belongs to block `bi`, if any.
pub open spec fn last_block_position(rows: Seq<DisplayRow>, bi: usize) -> Option<int>
    decreases rows.len(),
{
    if rows.len() == 0 {
        None
    } else if rows.last().block_index == bi {
        Some(rows.len() - 1)
    } else {
        last_block_position(rows.drop_last(), bi)
    }
}

/// The screen row, within a content area `inner_height` rows tall scrolled
/// to `scroll_y`, of the middle row of the current change block, when it is
/// on screen.
pub open spec fn dot_row_spec(
    rows: Seq<DisplayRow>,
    indices: Seq<usize>,
    current_block: usize,
    scroll_y: u16,
    inner_height: u16,
) -> Option<u16> {
    if indices.len() == 0 {
        None
    } else {
        let bi = indices[current_block as int];
        match (block_position(rows, bi), last_block_position(rows, bi)) {
            (Some(first), Some(last)) => {
                let center = (first + last) / 2;
                if scroll_y <= center < scroll_y + inner_height {
                    Some((center - scroll_y) as u16)
                } else {
                    None
                }
            },
            _ => None,
        }
    }
}

/// The first and the last row of a block, if it has rows.
fn block_row_span(rows: &[DisplayRow], bi: usize) -> (r: Option<(usize, usize)>)
    ensures
        match r {
            Some((f, l)) => block_position(rows@, bi) == Some(f as int) && last_block_position(rows@, bi) == Some(l as int),
            None => block_position(rows@, bi) is None && last_block_position(rows@, bi) is None,
        },
{
    let mut first: Option<usize> = None;
    let mut last: usize = 0;
    let mut i: usize = 0;
    while i < rows.len()
        invariant
            i <= rows@.len(),
            match first {
                Some(f) => block_position(rows@.subrange(0, i as int), bi) == Some(f as int)
                    && last_block_position(rows@.subrange(0, i as int), bi) == Some(last as int),
                None => block_position(rows@.subrange(0, i as int), bi) is None
                    && last_block_position(rows@.subrange(0, i as int), bi) is None,
            },
        decreases rows@.len() - i,
    {
        let ghost pre = rows@.subrange(0, i as int + 1);
        assert(pre.drop_last() =~= rows@.subrange(0, i as int));
        assert(pre.last() == rows@[i as int]);
        if rows[i].block_index == bi {
            if first.is_none() {
                first = Some(i);
            }
            last = i;
        }
        i = i + 1;
    }
    assert(rows@.subrange(0, rows@.len() as int) =~= rows@);
    match first {
        Some(f) => Some((f, last)),
        None => None,
    }
}

/// The screen row of the dot that marks the current change block, if it is
/// on screen.
pub fn active_dot_row(
    display_rows: &[DisplayRow],
    change_block_indices: &[usize],
    current_block: usize,
    scroll_y: u16,
    inner_height: u16,
) -> (r: Option<u16>)
    requires
        change_block_indices@.len() > 0 ==> current_block < change_block_indices@.len(),
        change_block_indices@.len() > 0 ==> match (
            block_position(display_rows@, change_block_indices@[current_block as int]),
            last_block_position(display_rows@, change_block_indices@[current_block as int]),
        ) {
            (Some(f), Some(l)) => f + l <= usize::MAX,
            _ => true,
        },
    ensures
        r == dot_row_spec(display_rows@, change_block_indices@, current_block, scroll_y, inner_height),
{
    if change_block_indices.len() == 0 {
        return None;
    }
    let block_index = change_block_indices[current_block];
    match block_row_span(display_rows, block_index) {
        Some((first, last)) => {
            let center_row = (first + last) / 2;
            let top = scroll_y as usize;
            if center_row >= top && center_row < top + inner_height as usize {
                Some((center_row - top) as u16)
            } else {
                None
            }
        },
        None => None,
    }
}

/// The scroll state after the content area is measured: the viewport takes
/// the size of the code area of a pane, the scroll offsets are clamped, and
/// on the first frame the current change block is scrolled into view.
pub open spec fn fit_spec(u: UiState, needs_initial_scroll: bool, max_content_width: usize, inner_height: u16, inner_width: u16) -> UiState {
    let total = rows_of(u.model).len() as usize;
    let u1 = UiState {
        height: inner_height,
        width: inner_width,
        scroll_y: min16(u.scroll_y, y_max(total, inner_height)),
        scroll_x: min16(u.scroll_x, x_max(max_content_width as u16, inner_width)),
        ..u
    };
    if needs_initial_scroll {
        scroll_current_spec(u1)
    } else {
        u1
    }
}

/// Size the viewport to a pane `pane_width` by `pane_height` cells (a
/// header of 3 rows, a border around the content and a gutter of
/// `digit_width + 2` columns), clamp the scroll offsets, and on the first
/// frame scroll to the current change block. Returns the height of the
/// content area.
pub fn fit_viewport(app: &mut App, pane_width: u16, pane_height: u16, digit_width: usize) -> (inner_height: u16)
    requires
        old(app).wf(),
        (digit_width as u16) + 2 <= u16::MAX,
    ensures
        final(app).wf(),
        inner_height == pane_height.saturating_sub(3).saturating_sub(2),
        final(app).ui() == fit_spec(
            old(app).ui(),
            old(app).needs_initial_scroll,
            old(app).max_content_width,
            inner_height,
            pane_width.saturating_sub(2).saturating_sub(((digit_width as u16) + 2) as u16),
        ),
        !final(app).needs_initial_scroll,
        final(app).left_dir == old(app).left_dir,
        final(app).right_dir == old(app).right_dir,
        final(app).left_filename == old(app).left_filename,
        final(app).right_filename == old(app).right_filename,
        final(app).minimap_width == old(app).minimap_width,
{
    let header_height: u16 = 3;
    let content_height = pane_height.saturating_sub(header_height);
    let inner_height = content_height.saturating_sub(2);
    let gutter_cols = (digit_width as u16) + 2;
    let inner_code_width = pane_width.saturating_sub(2).saturating_sub(gutter_cols);
    app.viewport.height = inner_height;
    app.viewport.width = inner_code_width;
    app.viewport.clamp(app.display_rows.len(), app.max_content_width as u16);
    if app.needs_initial_scroll {
        app.needs_initial_scroll = false;
        scroll_to_current_block(app);
    }
    inner_height
}

} // verus!
