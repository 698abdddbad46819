//! A file's content, split into lines.
use std::path::PathBuf;
use vstd::prelude::*;
use crate::text::{line_short, lines_short, is_line_short};

verus! {

#[verifier::external_type_specification]
#[verifier::external_body]
pub struct ExPathBuf(PathBuf);

/// `PathBuf::new` of std: an empty path. Nothing is stated of the path's
/// contents, which this library only carries along.
#[verifier::external_body]
fn empty_path() -> PathBuf {
    PathBuf::new()
}

/// `<PathBuf as Clone>::clone` of std. Nothing is stated of the copy, which
/// this library only carries along.
#[verifier::external_body]
fn clone_path(p: &PathBuf) -> PathBuf {
    p.clone()
}

/// The text of each line of a sequence of strings.
pub open spec fn lines_view(lines: Seq<String>) -> Seq<Seq<char>> {
    lines.map_values(|s: String| s@)
}

/// The lines after `start..end` is replaced by `replacement`.
pub open spec fn splice_spec(
    lines: Seq<Seq<char>>,
    start: int,
    end: int,
    replacement: Seq<Seq<char>>,
) -> Seq<Seq<char>> {
    lines.subrange(0, start) + replacement + lines.subrange(end, lines.len() as int)
}

/// A file's content, split into lines.
pub struct FileContent {
    pub path: PathBuf,
    pub lines: Vec<String>,
}

impl View for FileContent {
    type V = Seq<Seq<char>>;

    /// The text of each line; the path is not part of the view.
    open spec fn view(&self) -> Seq<Seq<char>> {
        lines_view(self.lines@)
    }
}

/// A copy of a vector of lines, line by line.
pub fn clone_lines(lines: &[String]) -> (res: Vec<String>)
    ensures
        lines_view(res@) == lines_view(lines@),
{
    let mut res: Vec<String> = Vec::new();
    let mut i: usize = 0;
    while i < lines.len()
        invariant
            i <= lines@.len(),
            res@.len() == i,
            forall|k: int| 0 <= k < i ==> #[trigger] res@[k]@ == lines@[k]@,
        decreases lines@.len() - i,
    {
        res.push(lines[i].clone());
        i = i + 1;
    }
    assert(lines_view(res@) =~= lines_view(lines@));
    res
}

/// The lines `range` of a slice of lines, copied.
pub fn copy_lines(lines: &[String], range: &std::ops::Range<usize>) -> (r: Vec<String>)
    requires
        range.start <= range.end <= lines@.len(),
    ensures
        lines_view(r@) == lines_view(lines@).subrange(range.start as int, range.end as int),
{
    let mut r: Vec<String> = Vec::new();
    let mut i: usize = range.start;
    while i < range.end
        invariant
            range.start <= i <= range.end <= lines@.len(),
            r@.len() == i - range.start,
            forall|k: int| 0 <= k < r@.len() ==> #[trigger] r@[k]@ == lines@[range.start + k]@,
        decreases range.end - i,
    {
        r.push(lines[i].clone());
        i = i + 1;
    }
    assert(lines_view(r@) =~= lines_view(lines@).subrange(range.start as int, range.end as int));
    r
}

impl FileContent {
    /// Build a content with an empty path from the given line texts.
    pub fn from_lines(lines: &[&str]) -> (c: FileContent)
        ensures
            c@ == lines@.map_values(|s: &str| s@),
    {
        let mut v: Vec<String> = Vec::new();
        let mut i: usize = 0;
        while i < lines.len()
            invariant
                i <= lines@.len(),
                v@.len() == i,
                forall|k: int| 0 <= k < i ==> #[trigger] v@[k]@ == lines@[k]@,
            decreases lines@.len() - i,
        {
            v.push(lines[i].to_owned());
            i = i + 1;
        }
        let c = FileContent { path: empty_path(), lines: v };
        assert(c@ =~= lines@.map_values(|s: &str| s@));
        c
    }

    /// The lines of the file.
    pub fn lines(&self) -> (r: &[String])
        ensures
            r@ == self.lines@,
    {
        self.lines.as_slice()
    }

    /// Whether every line is short enough to be shown (see `line_short`).
    pub fn lines_are_short(&self) -> (b: bool)
        ensures
            b == lines_short(self@),
    {
        let mut i: usize = 0;
        while i < self.lines.len()
            invariant
                i <= self.lines@.len(),
                forall|k: int| 0 <= k < i ==> line_short(#[trigger] self@[k]),
            decreases self.lines@.len() - i,
        {
            if !is_line_short(self.lines[i].as_str()) {
                assert(!line_short(self@[i as int]));
                return false;
            }
            i = i + 1;
        }
        true
    }

    /// A copy of this content: the same path and the same lines.
    pub fn duplicate(&self) -> (c: FileContent)
        ensures
            c@ == self@,
    {
        FileContent { path: clone_path(&self.path), lines: clone_lines(self.lines.as_slice()) }
    }

    /// Replace the lines in `start..end` by `replacement`.
    pub fn splice_lines(&mut self, range: std::ops::Range<usize>, replacement: Vec<String>)
        requires
            range.start <= range.end <= old(self)@.len(),
        ensures
            final(self).path == old(self).path,
            final(self)@ == splice_spec(
                old(self)@,
                range.start as int,
                range.end as int,
                lines_view(replacement@),
            ),
    {
        let mut tail = self.lines.split_off(range.end);
        self.lines.truncate(range.start);
        let mut rep = replacement;
        self.lines.append(&mut rep);
        self.lines.append(&mut tail);
        assert(self@ =~= splice_spec(
            old(self)@,
            range.start as int,
            range.end as int,
            lines_view(replacement@),
        ));
    }
}

} // verus!
