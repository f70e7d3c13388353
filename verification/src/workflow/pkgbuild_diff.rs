//! Line-level PKGBUILD diffs: a unified diff of local against upstream text,
//! and the inserted / removed lines between a baseline and an editor buffer.
//! The diffing itself is done by the `similar` crate.
use vstd::prelude::*;

use crate::text::{chars_of, string_of, trim};
use crate::workflow::ssh_setup::strings_view;

verus! {

/// What `similar::udiff::unified_diff` (Myers line diff) renders for `old`
/// against `new` with `radius` lines of context and headers `a` / `b`.
pub uninterp spec fn similar_unified_diff(
    old: Seq<char>,
    new: Seq<char>,
    radius: int,
    a: Seq<char>,
    b: Seq<char>,
) -> Seq<char>;

/// `similar::udiff::unified_diff` with the Myers algorithm: a unified line
/// diff of `old` against `new`, a function of its arguments alone. Its source
/// writes nothing when there is no hunk, and otherwise writes the header
/// lines `--- a` and `+++ b` before the first hunk: the text is empty or
/// starts with them.
#[verifier::external_body]
fn unified_diff_text(old: &str, new: &str, radius: usize, a: &str, b: &str) -> (r: String)
    ensures
        r@ == similar_unified_diff(old@, new@, radius as int, a@, b@),
        r@.len() == 0 || crate::text::starts_with(r@, "--- "@ + a@ + "\n+++ "@ + b@ + "\n"@),
{
    similar::udiff::unified_diff(similar::Algorithm::Myers, old, new, radius, Some((a, b)))
}

/// Kind of one line change.
#[derive(Debug, Clone, Copy, PartialEq, Eq, Structural)]
pub enum LineChangeKind {
    Equal,
    Delete,
    Insert,
}

/// One line of a line diff: its kind, its text (with its line ending) and its
/// index in the new text when it has one.
#[derive(Debug, Clone)]
pub struct LineChange {
    pub kind: LineChangeKind,
    pub value: String,
    pub new_index: Option<usize>,
}

/// Code of a change kind: 0 equal, 1 delete, 2 insert.
pub open spec fn kind_code(k: LineChangeKind) -> int {
    match k {
        LineChangeKind::Equal => 0,
        LineChangeKind::Delete => 1,
        LineChangeKind::Insert => 2,
    }
}

/// Plain view of a list of line changes.
pub open spec fn changes_view(cs: Seq<LineChange>) -> Seq<(int, Seq<char>, Option<int>)> {
    Seq::new(
        cs.len(),
        |i: int|
            (kind_code(cs[i].kind), cs[i].value@, match cs[i].new_index {
                Some(n) => Some(n as int),
                None => None,
            }),
    )
}

/// The changes that `similar`'s line diff (`TextDiff::from_lines`, then
/// `iter_all_changes`) yields for `old` against `new`: kind code, line text,
/// new index.
pub uninterp spec fn similar_line_changes(old: Seq<char>, new: Seq<char>) -> Seq<
    (int, Seq<char>, Option<int>),
>;

/// `similar::TextDiff::from_lines` followed by `iter_all_changes`, each change
/// taken as kind, text and new index; a function of the two texts alone.
#[verifier::external_body]
fn line_changes(old: &str, new: &str) -> (r: Vec<LineChange>)
    ensures
        changes_view(r@) == similar_line_changes(old@, new@),
{
    let diff = similar::TextDiff::from_lines(old, new);
    diff.iter_all_changes().map(
        |c| LineChange {
            kind: match c.tag() {
                similar::ChangeTag::Equal => LineChangeKind::Equal,
                similar::ChangeTag::Delete => LineChangeKind::Delete,
                similar::ChangeTag::Insert => LineChangeKind::Insert,
            },
            value: c.value().to_string(),
            new_index: c.new_index(),
        },
    ).collect()
}

/// Note shown when the rendered diff is blank.
pub open spec fn no_diff_note() -> Seq<char> {
    "(no line-level differences after normalization — files may differ only in line endings.)"@
}

/// The rendered diff, or a note when it is blank.
pub open spec fn diff_or_note_of(rendered: Seq<char>) -> Seq<char> {
    if trim(rendered).len() == 0 {
        no_diff_note()
    } else {
        rendered
    }
}

/// A rendered unified diff, or a note when it is blank.
pub fn diff_or_note(rendered: String) -> (r: String)
    ensures
        r@ == diff_or_note_of(rendered@),
{
    let t = crate::text::trim_vec(&chars_of(rendered.as_str()));
    if t.len() == 0 {
        string_of(
            &chars_of(
                "(no line-level differences after normalization — files may differ only in line endings.)",
            ),
        )
    } else {
        rendered
    }
}

/// Headers of the local-versus-upstream diff.
pub open spec fn local_header() -> Seq<char> {
    "PKGBUILD (local)"@
}

pub open spec fn upstream_header() -> Seq<char> {
    "PKGBUILD (upstream)"@
}

/// Unified diff of the local against the upstream PKGBUILD.
pub open spec fn local_upstream_diff(local: Seq<char>, upstream: Seq<char>) -> Seq<char> {
    diff_or_note_of(similar_unified_diff(local, upstream, 3, local_header(), upstream_header()))
}

/// Unified line diff between two PKGBUILD bodies (as `git diff` shows it):
/// three lines of context, headers `PKGBUILD (local)` / `PKGBUILD (upstream)`,
/// and a note instead of an empty diff.
pub fn unified_pkbuild_diff_local_vs_upstream(local: &str, upstream: &str) -> (r: String)
    ensures
        r@ == local_upstream_diff(local@, upstream@),
        r@ == no_diff_note() || crate::text::starts_with(r@, diff_headers()),
{
    let rendered = unified_diff_text(local, upstream, 3, "PKGBUILD (local)", "PKGBUILD (upstream)");
    proof {
        reveal_strlit("PKGBUILD (local)");
        reveal_strlit("PKGBUILD (upstream)");
        reveal_strlit("--- ");
        reveal_strlit("\n+++ ");
        reveal_strlit("\n");
        reveal_strlit("--- PKGBUILD (local)\n+++ PKGBUILD (upstream)\n");
        assert("--- "@ + "PKGBUILD (local)"@ + "\n+++ "@ + "PKGBUILD (upstream)"@ + "\n"@ =~= diff_headers());
        if trim(rendered@).len() > 0 {
            assert(rendered@.len() > 0) by {
                if rendered@.len() == 0 {
                    crate::text::lemma_trim_start_len_bounds(rendered@);
                }
            }
        }
    }
    diff_or_note(rendered)
}

/// The first two lines of a local-versus-upstream diff: the old (`-`) side
/// is the local PKGBUILD, the new (`+`) side the upstream one.
pub open spec fn diff_headers() -> Seq<char> {
    "--- PKGBUILD (local)\n+++ PKGBUILD (upstream)\n"@
}

/// The local-versus-upstream diff renders the local text as the old side
/// and the upstream text as the new side, with three lines of context, the
/// old side labelled `PKGBUILD (local)` and the new side `PKGBUILD
/// (upstream)`; it is that diff, or the note when the diff is blank.
pub proof fn law_diff_sides(local: Seq<char>, upstream: Seq<char>)
    ensures
        local_upstream_diff(local, upstream) == (if trim(
            similar_unified_diff(local, upstream, 3, "PKGBUILD (local)"@, "PKGBUILD (upstream)"@),
        ).len() == 0 {
            no_diff_note()
        } else {
            similar_unified_diff(local, upstream, 3, "PKGBUILD (local)"@, "PKGBUILD (upstream)"@)
        }),
{
}

/// Inserted line numbers and removed lines of a line diff.
#[derive(Debug, Clone, PartialEq, Eq)]
pub struct PkgbuildLineDiff {
    /// 0-based line numbers in the current text that are additions.
    pub inserted_lines: Vec<usize>,
    /// Deleted baseline lines in diff order, without their line ending.
    pub removed_lines: Vec<String>,
}

/// Drops trailing `'\n'` characters, then trailing `'\r'` characters.
pub open spec fn strip_line_ending(s: Seq<char>) -> Seq<char> {
    let a = rtrim_char(s, '\n');
    rtrim_char(a, '\r')
}

/// `s` without its trailing run of `c`.
pub open spec fn rtrim_char(s: Seq<char>, c: char) -> Seq<char>
    decreases s.len(),
{
    if s.len() > 0 && s.last() == c {
        rtrim_char(s.drop_last(), c)
    } else {
        s
    }
}

fn rtrim_char_exec(v: Vec<char>, c: char) -> (r: Vec<char>)
    ensures
        r@ == rtrim_char(v@, c),
{
    let ghost v0 = v@;
    let mut v = v;
    while v.len() > 0 && v[v.len() - 1] == c
        invariant
            rtrim_char(v@, c) == rtrim_char(v0, c),
        decreases v.len(),
    {
        let ghost before = v@;
        v.pop();
        assert(v@ =~= before.drop_last());
    }
    v
}

/// A diff line without its line ending.
pub fn trim_diff_line_ending(s: &str) -> (r: String)
    ensures
        r@ == strip_line_ending(s@),
{
    let a = rtrim_char_exec(chars_of(s), '\n');
    let b = rtrim_char_exec(a, '\r');
    string_of(&b)
}

/// New indices of the insertions, in order.
pub open spec fn inserted_of(cs: Seq<(int, Seq<char>, Option<int>)>) -> Seq<int>
    decreases cs.len(),
{
    if cs.len() == 0 {
        seq![]
    } else {
        let acc = inserted_of(cs.drop_last());
        let c = cs.last();
        if c.0 == 2 && c.2 is Some {
            acc.push(c.2->0)
        } else {
            acc
        }
    }
}

/// Removed lines without their line ending, in order.
pub open spec fn removed_of(cs: Seq<(int, Seq<char>, Option<int>)>) -> Seq<Seq<char>>
    decreases cs.len(),
{
    if cs.len() == 0 {
        seq![]
    } else {
        let acc = removed_of(cs.drop_last());
        let c = cs.last();
        if c.0 == 1 {
            acc.push(strip_line_ending(c.1))
        } else {
            acc
        }
    }
}

/// Indices as integers.
pub open spec fn ints_view(v: Seq<usize>) -> Seq<int> {
    Seq::new(v.len(), |i: int| v[i] as int)
}

/// Inserted line numbers and removed lines from a list of line changes.
pub fn line_diff_from_changes(changes: &Vec<LineChange>) -> (r: PkgbuildLineDiff)
    ensures
        ints_view(r.inserted_lines@) == inserted_of(changes_view(changes@)),
        strings_view(r.removed_lines@) == removed_of(changes_view(changes@)),
{
    let ghost cv = changes_view(changes@);
    let mut inserted: Vec<usize> = Vec::new();
    let mut removed: Vec<String> = Vec::new();
    let mut i: usize = 0;
    assert(cv.take(0) =~= Seq::<(int, Seq<char>, Option<int>)>::empty());
    assert(ints_view(inserted@) =~= Seq::<int>::empty());
    assert(strings_view(removed@) =~= Seq::<Seq<char>>::empty());
    while i < changes.len()
        invariant
            i <= changes.len(),
            cv == changes_view(changes@),
            ints_view(inserted@) == inserted_of(cv.take(i as int)),
            strings_view(removed@) == removed_of(cv.take(i as int)),
        decreases changes.len() - i,
    {
        assert(cv.take(i as int + 1).drop_last() =~= cv.take(i as int));
        assert(cv.take(i as int + 1).last() == cv[i as int]);
        let c = &changes[i];
        match c.kind {
            LineChangeKind::Insert => {
                match c.new_index {
                    Some(n) => {
                        let ghost iv = ints_view(inserted@);
                        inserted.push(n);
                        assert(ints_view(inserted@) =~= iv.push(n as int));
                    },
                    None => {},
                }
            },
            LineChangeKind::Delete => {
                let ghost rv = strings_view(removed@);
                let t = trim_diff_line_ending(c.value.as_str());
                removed.push(t);
                assert(strings_view(removed@) =~= rv.push(strip_line_ending(c.value@)));
            },
            LineChangeKind::Equal => {},
        }
        i += 1;
    }
    assert(cv.take(changes.len() as int) =~= cv);
    PkgbuildLineDiff { inserted_lines: inserted, removed_lines: removed }
}

/// Inserted line numbers in `current` and removed lines of `baseline`, from
/// `similar`'s line diff.
pub fn diff_pkgbuild_lines(baseline: &str, current: &str) -> (r: PkgbuildLineDiff)
    ensures
        ints_view(r.inserted_lines@) == inserted_of(similar_line_changes(baseline@, current@)),
        strings_view(r.removed_lines@) == removed_of(similar_line_changes(baseline@, current@)),
{
    let changes = line_changes(baseline, current);
    line_diff_from_changes(&changes)
}

} // verus!
