//! Text helpers: tab expansion.
use vstd::prelude::*;

verus! {

broadcast use vstd::string::group_string_axioms;

/// The expansion of `s` when the first character of `s` stands at column `col`,
/// with tab stops every `w` columns: a tab becomes the spaces that reach the
/// next stop, every other character stays and takes one column.
pub open spec fn expand_from(s: Seq<char>, col: nat, w: nat) -> Seq<char>
    decreases s.len(),
{
    if s.len() == 0 {
        Seq::empty()
    } else if s[0] == '\t' {
        let n = (w - col % w) as nat;
        Seq::new(n, |i: int| ' ') + expand_from(s.drop_first(), col + n, w)
    } else {
        seq![s[0]] + expand_from(s.drop_first(), col + 1, w)
    }
}

/// The tab expansion of a whole string, starting at column 0.
pub open spec fn expand_tabs_spec(s: Seq<char>, w: nat) -> Seq<char> {
    expand_from(s, 0, w)
}

/// The columns per tab stop used when lines are shown.
pub const TAB_WIDTH: usize = 4;

/// A line as it is shown: its tabs expanded with stops every `TAB_WIDTH` columns.
pub open spec fn shown(line: Seq<char>) -> Seq<char> {
    expand_tabs_spec(line, TAB_WIDTH as nat)
}

/// The width of a shown line as `String::len` measures it: its length in
/// UTF-8 bytes.
pub open spec fn shown_width(line: Seq<char>) -> nat {
    vstd::utf8::encode_utf8(shown(line)).len()
}

/// A shown line, and its width plus one, fit in a `usize`.
pub open spec fn line_fits(line: Seq<char>) -> bool {
    &&& shown(line).len() <= usize::MAX
    &&& shown_width(line) < usize::MAX
}

/// Every line of a sequence fits.
pub open spec fn lines_fit(lines: Seq<Seq<char>>) -> bool {
    forall|i: int| 0 <= i < lines.len() ==> line_fits(#[trigger] lines[i])
}

/// A line short enough that any tab expansion of it, and the UTF-8 bytes of
/// that, fit in a `usize` with room to spare: sixteen times its length is
/// below `usize::MAX`.
pub open spec fn line_short(line: Seq<char>) -> bool {
    16 * line.len() < usize::MAX
}

/// Every line of a sequence is short.
pub open spec fn lines_short(lines: Seq<Seq<char>>) -> bool {
    forall|i: int| 0 <= i < lines.len() ==> line_short(#[trigger] lines[i])
}

/// A tab expansion with stops every `w <= 4` columns is at most four times
/// as long as the text.
pub proof fn lemma_expand_len(s: Seq<char>, col: nat, w: nat)
    requires
        0 < w <= 4,
    ensures
        expand_from(s, col, w).len() <= 4 * s.len(),
    decreases s.len(),
{
    if s.len() > 0 {
        lemma_expand_len(s.drop_first(), col + 1, w);
        if s[0] == '\t' {
            let n = (w - col % w) as nat;
            lemma_expand_len(s.drop_first(), col + n, w);
        }
    }
}

/// The UTF-8 encoding of a text takes at most four bytes per character.
pub proof fn lemma_utf8_len(s: Seq<char>)
    ensures
        vstd::utf8::encode_utf8(s).len() <= 4 * s.len(),
    decreases s.len(),
{
    if s.len() > 0 {
        lemma_utf8_len(s.drop_first());
    }
}

/// The shown width of a line is at most sixteen bytes per character.
pub proof fn lemma_shown_width(line: Seq<char>)
    ensures
        shown(line).len() <= 4 * line.len(),
        shown_width(line) <= 16 * line.len(),
{
    lemma_expand_len(line, 0, TAB_WIDTH as nat);
    lemma_utf8_len(shown(line));
}

/// A short line fits.
pub proof fn lemma_short_fits(line: Seq<char>)
    requires
        line_short(line),
    ensures
        line_fits(line),
{
    lemma_shown_width(line);
}

/// The lines of a sequence that are all short all fit.
pub proof fn lemma_lines_short_fit(lines: Seq<Seq<char>>)
    requires
        lines_short(lines),
    ensures
        lines_fit(lines),
{
    assert forall|i: int| 0 <= i < lines.len() implies line_fits(#[trigger] lines[i]) by {
        lemma_short_fits(lines[i]);
    }
}

/// Whether a line is short.
pub fn is_line_short(line: &str) -> (b: bool)
    ensures
        b == line_short(line@),
{
    let n = line.unicode_len();
    let m = usize::MAX / 16;
    assert((n <= m) == (16 * n < usize::MAX)) by (nonlinear_arith)
        requires
            m == usize::MAX / 16,
            usize::MAX > 16,
    ;
    n <= m
}

/// What one character becomes when it stands at column `col`: a tab becomes
/// the spaces up to the next stop, any other character stays.
pub open spec fn expand_char(c: char, col: nat, w: nat) -> Seq<char> {
    if c == '\t' {
        Seq::new((w - col % w) as nat, |i: int| ' ')
    } else {
        seq![c]
    }
}

proof fn lemma_expand_from_push(p: Seq<char>, c: char, col: nat, w: nat)
    ensures
        expand_from(p.push(c), col, w) == expand_from(p, col, w) + expand_char(
            c,
            col + expand_from(p, col, w).len(),
            w,
        ),
    decreases p.len(),
{
    if p.len() == 0 {
        let q = p.push(c);
        assert(q.drop_first() =~= Seq::<char>::empty());
        assert(q[0] == c);
        assert(expand_from(q.drop_first(), col + 1, w) == Seq::<char>::empty());
        assert(expand_from(q.drop_first(), col + (w - col % w) as nat, w) == Seq::<char>::empty());
        assert(expand_from(p, col, w) == Seq::<char>::empty());
        assert(expand_from(q, col, w) =~= expand_char(c, col, w));
    } else {
        assert(p.push(c).drop_first() =~= p.drop_first().push(c));
        assert(p.push(c)[0] == p[0]);
        if p[0] == '\t' {
            let n = (w - col % w) as nat;
            lemma_expand_from_push(p.drop_first(), c, col + n, w);
            assert(expand_from(p.push(c), col, w) =~= expand_from(p, col, w) + expand_char(
                c,
                col + expand_from(p, col, w).len(),
                w,
            ));
        } else {
            lemma_expand_from_push(p.drop_first(), c, col + 1, w);
            assert(expand_from(p.push(c), col, w) =~= expand_from(p, col, w) + expand_char(
                c,
                col + expand_from(p, col, w).len(),
                w,
            ));
        }
    }
}

proof fn lemma_expand_from_no_tab(s: Seq<char>, col: nat, w: nat)
    ensures
        !expand_from(s, col, w).contains('\t'),
        !s.contains('\t') ==> expand_from(s, col, w) == s,
    decreases s.len(),
{
    if s.len() > 0 {
        let n = (w - col % w) as nat;
        lemma_expand_from_no_tab(s.drop_first(), col + 1, w);
        lemma_expand_from_no_tab(s.drop_first(), col + n, w);
        let r = expand_from(s, col, w);
        if r.contains('\t') {
            let k = choose|k: int| 0 <= k < r.len() && r[k] == '\t';
            if s[0] == '\t' {
                let t = expand_from(s.drop_first(), col + n, w);
                if k >= n {
                    assert(t[k - n] == '\t');
                }
            } else {
                let t = expand_from(s.drop_first(), col + 1, w);
                if k >= 1 {
                    assert(t[k - 1] == '\t');
                }
            }
        }
        if !s.contains('\t') {
            assert(s[0] != '\t');
            assert forall|i: int| 0 <= i < s.drop_first().len() implies s.drop_first()[i] != '\t' by {
                assert(s.drop_first()[i] == s[i + 1]);
            }
            assert(r =~= s);
        }
    }
}

/// Tab expansion character by character: the empty text expands to nothing;
/// appending a character appends its expansion at the column the text
/// reached (a tab fills up to the next multiple of `w`). The result holds no
/// tab, and a text without tabs comes back unchanged.
pub proof fn law_expand_tabs_step(p: Seq<char>, c: char, w: nat)
    requires
        w >= 1,
    ensures
        expand_tabs_spec(Seq::empty(), w) == Seq::<char>::empty(),
        expand_tabs_spec(p.push(c), w) == expand_tabs_spec(p, w) + expand_char(c, expand_tabs_spec(p, w).len(), w),
        !expand_tabs_spec(p, w).contains('\t'),
        !p.contains('\t') ==> expand_tabs_spec(p, w) == p,
{
    lemma_expand_from_push(p, c, 0, w);
    lemma_expand_from_no_tab(p, 0, w);
}

/// `String::push` of std: appends one character.
#[verifier::external_body]
pub(crate) fn push_char(s: &mut String, c: char)
    ensures
        final(s)@ == old(s)@.push(c),
{
    s.push(c);
}

/// Expand tab characters to spaces, respecting tab stops at multiples of
/// `tab_width`.
pub fn expand_tabs(s: &str, tab_width: usize) -> (res: String)
    requires
        tab_width > 0 || !s@.contains('\t'),
        expand_tabs_spec(s@, tab_width as nat).len() <= usize::MAX,
    ensures
        res@ == expand_tabs_spec(s@, tab_width as nat),
{
    let mut result = String::new();
    let mut col: usize = 0;
    let ghost total = expand_tabs_spec(s@, tab_width as nat);
    let mut it = s.chars();
    let ghost rest0 = s@;
    let ghost mut rest = s@;
    assert(rest.len() == rest0.len());
    loop
        invariant
            total == expand_from(s@, 0, tab_width as nat),
            total.len() <= usize::MAX,
            tab_width > 0 || !rest.contains('\t'),
            col as int == result@.len(),
            result@ + expand_from(rest, col as nat, tab_width as nat) == total,
            vstd::std_specs::iter::IteratorSpec::remaining(&it) == rest,
            vstd::std_specs::iter::IteratorSpec::obeys_prophetic_iter_laws(&it),
        ensures
            result@ == total,
        decreases rest.len(),
    {
        let ghost before = rest;
        match it.next() {
            None => {
                assert(rest.len() == 0);
                assert(result@ == total);
                break;
            },
            Some(ch) => {
                proof {
                    rest = rest.drop_first();
                }
                assert(ch == before[0]);
                if ch == '\t' {
                    assert(before.contains('\t'));
                    let spaces = tab_width - (col % tab_width);
                    let ghost tail = expand_from(rest, (col + spaces) as nat, tab_width as nat);
                    assert(expand_from(before, col as nat, tab_width as nat) == Seq::new(spaces as nat, |i: int| ' ') + tail);
                    let mut k: usize = 0;
                    let ghost start = result@;
                    while k < spaces
                        invariant
                            k <= spaces,
                            result@ == start + Seq::new(k as nat, |i: int| ' '),
                            start.len() + spaces + tail.len() <= usize::MAX,
                        decreases spaces - k,
                    {
                        push_char(&mut result, ' ');
                        k = k + 1;
                        assert(result@ =~= start + Seq::new(k as nat, |i: int| ' '));
                    }
                    assert(result@ + tail =~= start + (Seq::new(spaces as nat, |i: int| ' ') + tail));
                    col = col + spaces;
                } else {
                    let ghost start = result@;
                    push_char(&mut result, ch);
                    assert(result@ + expand_from(rest, (col + 1) as nat, tab_width as nat) =~= start + (seq![ch] + expand_from(rest, (col + 1) as nat, tab_width as nat)));
                    col = col + 1;
                }
            },
        }
    }
    result
}

} // verus!
