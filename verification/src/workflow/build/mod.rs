//! Build-side helpers: the log line type streamed from subprocesses, and the
//! comparison of PKGBUILD checksum arrays before and after `updpkgsums` (so a
//! rewrite that changed no checksum can be undone).
use vstd::prelude::*;

use crate::text::{
    chars_of, index_of, index_of_from, is_ascii_ws, lemma_deep_chars, lemma_index_of_none,
    lemma_index_of_unique, lines, lines_exec, slice_vec, starts_with, starts_with_exec,
    string_of, trim_start, trim_start_vec, eq_chars, utf8_text,
};

verus! {

/// One log line produced by a subprocess.
#[derive(Debug, Clone)]
pub enum LogLine {
    Stdout(String),
    Stderr(String),
    Info(String),
}

/// `s` without ASCII whitespace.
pub open spec fn strip_ascii_ws(s: Seq<char>) -> Seq<char>
    decreases s.len(),
{
    if s.len() == 0 {
        seq![]
    } else if is_ascii_ws(s.last()) {
        strip_ascii_ws(s.drop_last())
    } else {
        strip_ascii_ws(s.drop_last()).push(s.last())
    }
}

/// Drops all ASCII whitespace so `( 'a'  'b' )` and `('a' 'b')` compare equal.
pub fn normalize_checksum_text(s: &str) -> (r: String)
    ensures
        r@ == strip_ascii_ws(s@),
{
    let v = chars_of(s);
    let mut out: Vec<char> = Vec::new();
    let mut i: usize = 0;
    assert(v@.take(0) =~= Seq::<char>::empty());
    while i < v.len()
        invariant
            i <= v.len(),
            out@ == strip_ascii_ws(v@.take(i as int)),
        decreases v.len() - i,
    {
        assert(v@.take(i as int + 1).drop_last() =~= v@.take(i as int));
        let c = v[i];
        if !(c == ' ' || c == '\t' || c == '\n' || c == '\u{c}' || c == '\r') {
            out.push(c);
        }
        i += 1;
    }
    assert(v@.take(v.len() as int) =~= v@);
    string_of(&out)
}

/// Index of the `)` closing the group open at depth `depth` before `i`.
pub open spec fn balanced_close(s: Seq<char>, i: int, depth: nat) -> Option<int>
    decreases s.len() - i,
{
    if i < 0 || i >= s.len() {
        None
    } else if s[i] == '(' {
        balanced_close(s, i + 1, depth + 1)
    } else if s[i] == ')' {
        if depth == 0 {
            None
        } else if depth == 1 {
            Some(i)
        } else {
            balanced_close(s, i + 1, (depth - 1) as nat)
        }
    } else {
        balanced_close(s, i + 1, depth)
    }
}

/// The balanced `( … )` group starting at character `open`, if it closes.
pub open spec fn balanced_group(s: Seq<char>, open: int) -> Option<Seq<char>> {
    if open < 0 || open >= s.len() || s[open] != '(' {
        None
    } else {
        match balanced_close(s, open, 0) {
            Some(j) => if open <= j < s.len() {
                Some(s.subrange(open, j + 1))
            } else {
                None
            },
            None => None,
        }
    }
}

pub proof fn lemma_balanced_close(s: Seq<char>, i: int, depth: nat)
    requires
        0 <= i,
    ensures
        balanced_close(s, i, depth) matches Some(j) ==> i <= j < s.len(),
    decreases s.len() - i,
{
    if i < s.len() {
        if s[i] == '(' {
            lemma_balanced_close(s, i + 1, depth + 1);
        } else if s[i] == ')' {
            if depth > 1 {
                lemma_balanced_close(s, i + 1, (depth - 1) as nat);
            }
        } else {
            lemma_balanced_close(s, i + 1, depth);
        }
    }
}

fn balanced_group_exec(s: &[char], open: usize) -> (r: Option<Vec<char>>)
    ensures
        match r {
            Some(g) => balanced_group(s@, open as int) == Some(g@),
            None => balanced_group(s@, open as int) is None,
        },
{
    if open >= s.len() || s[open] != '(' {
        return None;
    }
    proof {
        lemma_balanced_close(s@, open as int, 0);
    }
    let mut depth: usize = 0;
    let mut i = open;
    while i < s.len()
        invariant
            open <= i <= s.len(),
            open < s.len(),
            s@[open as int] == '(',
            balanced_close(s@, open as int, 0) matches Some(j) ==> open <= j < s.len(),
            depth <= i - open,
            balanced_close(s@, i as int, depth as nat) == balanced_close(s@, open as int, 0),
        decreases s.len() - i,
    {
        if s[i] == '(' {
            depth += 1;
        } else if s[i] == ')' {
            if depth == 0 {
                return None;
            }
            depth -= 1;
            if depth == 0 {
                return Some(slice_vec(s, open, i + 1));
            }
        }
        i += 1;
    }
    None
}

/// The balanced `( … )` group starting at character index `open_idx` of `src`,
/// or `None` when it does not start with `(` or never closes.
pub fn slice_balanced_parens(src: &str, open_idx: usize) -> (r: Option<String>)
    ensures
        match r {
            Some(g) => balanced_group(src@, open_idx as int) == Some(g@),
            None => balanced_group(src@, open_idx as int) is None,
        },
{
    match balanced_group_exec(&chars_of(src), open_idx) {
        Some(g) => Some(string_of(&g)),
        None => None,
    }
}

/// The `key=( … )` array of one line, if the line assigns one.
pub open spec fn key_array_of_line(line: Seq<char>, key: Seq<char>) -> Option<Seq<char>> {
    let t = trim_start(line);
    if starts_with(t, seq!['#']) || !starts_with(t, key) {
        None
    } else {
        let r1 = trim_start(t.skip(key.len() as int));
        if !starts_with(r1, seq!['=']) {
            None
        } else {
            let r2 = trim_start(r1.skip(1));
            match index_of(r2, '(') {
                None => None,
                Some(o) => balanced_group(t, t.len() - r2.len() + o),
            }
        }
    }
}

fn starts_with_char(v: &[char], c: char) -> (r: bool)
    ensures
        r == starts_with(v@, seq![c]),
{
    let r = v.len() > 0 && v[0] == c;
    assert(r == starts_with(v@, seq![c])) by {
        if v@.len() > 0 {
            if v@[0] == c {
                assert(v@.take(1) =~= seq![c]);
            } else {
                assert(v@.take(1)[0] != seq![c][0]);
            }
        }
    }
    r
}

fn key_array_of_line_exec(line: &[char], key: &[char]) -> (r: Option<Vec<char>>)
    ensures
        match r {
            Some(g) => key_array_of_line(line@, key@) == Some(g@),
            None => key_array_of_line(line@, key@) is None,
        },
{
    let t = trim_start_vec(line);
    if starts_with_char(&t, '#') || !starts_with_exec(&t, key) {
        return None;
    }
    let after = slice_vec(&t, key.len(), t.len());
    assert(after@ == t@.skip(key@.len() as int));
    let r1 = trim_start_vec(&after);
    if !starts_with_char(&r1, '=') {
        return None;
    }
    let after_eq = slice_vec(&r1, 1, r1.len());
    assert(after_eq@ == r1@.skip(1));
    let r2 = trim_start_vec(&after_eq);
    proof {
        crate::text::lemma_trim_start_len_bounds(after_eq@);
        crate::text::lemma_trim_start_len_bounds(after@);
    }
    assert(r2@.len() <= t@.len());
    match index_of_from(&r2, '(', 0) {
        None => {
            proof {
                lemma_index_of_none(r2@, '(');
            }
            None
        },
        Some(o) => {
            proof {
                lemma_index_of_unique(r2@, '(', o as int);
            }
            balanced_group_exec(&t, t.len() - r2.len() + o)
        },
    }
}

/// The first `key=( … )` array of the text.
pub open spec fn checksum_array(ls: Seq<Seq<char>>, key: Seq<char>) -> Option<Seq<char>>
    decreases ls.len(),
{
    if ls.len() == 0 {
        None
    } else {
        match key_array_of_line(ls[0], key) {
            Some(g) => Some(g),
            None => checksum_array(ls.drop_first(), key),
        }
    }
}

/// The first `key=( … )` array in PKGBUILD text.
pub fn extract_checksum_array(src: &str, key: &str) -> (r: Option<String>)
    ensures
        match r {
            Some(g) => checksum_array(lines(src@), key@) == Some(g@),
            None => checksum_array(lines(src@), key@) is None,
        },
{
    let v = chars_of(src);
    let k = chars_of(key);
    let ls = lines_exec(&v);
    let ghost lv = ls.deep_view();
    let mut i: usize = 0;
    assert(lv.skip(0) =~= lv);
    while i < ls.len()
        invariant
            i <= ls.len(),
            lv == ls.deep_view(),
            lv == lines(src@),
            k@ == key@,
            checksum_array(lv.skip(i as int), k@) == checksum_array(lv, k@),
        decreases ls.len() - i,
    {
        proof {
            lemma_deep_chars(&ls[i as int]);
        }
        assert(lv.skip(i as int)[0] == ls@[i as int]@);
        assert(lv.skip(i as int).drop_first() =~= lv.skip(i as int + 1));
        match key_array_of_line_exec(&ls[i], &k) {
            Some(g) => {
                return Some(string_of(&g));
            },
            None => {},
        }
        i += 1;
    }
    assert(lv.skip(ls.len() as int) =~= Seq::<Seq<char>>::empty());
    None
}

/// Checksum array keys compared after `updpkgsums`.
pub open spec fn checksum_keys() -> Seq<Seq<char>> {
    seq!["sha256sums"@, "sha512sums"@, "md5sums"@, "b2sums"@]
}

/// A key is consistent: absent in both, or present in both with the same
/// whitespace-free text.
pub open spec fn key_consistent(before: Seq<char>, after: Seq<char>, key: Seq<char>) -> bool {
    match (checksum_array(lines(before), key), checksum_array(lines(after), key)) {
        (Some(b), Some(a)) => strip_ascii_ws(b) == strip_ascii_ws(a),
        (None, None) => true,
        _ => false,
    }
}

/// Every checksum key declared in both texts matches after whitespace
/// normalization, none is declared in only one, and at least one is declared.
pub open spec fn checksums_equivalent(before: Seq<char>, after: Seq<char>) -> bool {
    &&& forall|i: int| 0 <= i < 4 ==> key_consistent(before, after, #[trigger] checksum_keys()[i])
    &&& exists|i: int|
        0 <= i < 4 && checksum_array(lines(before), #[trigger] checksum_keys()[i]) is Some
}

fn checksum_key(i: usize) -> (r: &'static str)
    requires
        i < 4,
    ensures
        r@ == checksum_keys()[i as int],
{
    if i == 0 {
        "sha256sums"
    } else if i == 1 {
        "sha512sums"
    } else if i == 2 {
        "md5sums"
    } else {
        "b2sums"
    }
}

/// Whether `updpkgsums` changed no checksum: see [`checksums_equivalent`].
pub fn checksum_arrays_equivalent(before: &str, after: &str) -> (r: bool)
    ensures
        r == checksums_equivalent(before@, after@),
{
    let mut compared_any = false;
    let mut i: usize = 0;
    while i < 4
        invariant
            i <= 4,
            forall|j: int| 0 <= j < i ==> key_consistent(before@, after@, #[trigger] checksum_keys()[j]),
            compared_any == exists|j: int|
                0 <= j < i && checksum_array(lines(before@), #[trigger] checksum_keys()[j]) is Some,
        decreases 4 - i,
    {
        let key = checksum_key(i);
        let b = extract_checksum_array(before, key);
        let a = extract_checksum_array(after, key);
        match (b, a) {
            (Some(sb), Some(sa)) => {
                compared_any = true;
                let nb = normalize_checksum_text(sb.as_str());
                let na = normalize_checksum_text(sa.as_str());
                if !eq_chars(&chars_of(nb.as_str()), &chars_of(na.as_str())) {
                    assert(!key_consistent(before@, after@, checksum_keys()[i as int]));
                    return false;
                }
            },
            (None, None) => {},
            _ => {
                assert(!key_consistent(before@, after@, checksum_keys()[i as int]));
                return false;
            },
        }
        assert(key_consistent(before@, after@, checksum_keys()[i as int]));
        i += 1;
    }
    compared_any
}


/// A PKGBUILD is checksum-equivalent to itself exactly when it declares at
/// least one checksum array.
pub proof fn law_checksum_equivalence_reflexive(text: Seq<char>)
    ensures
        checksums_equivalent(text, text) == exists|i: int|
            0 <= i < 4 && checksum_array(lines(text), #[trigger] checksum_keys()[i]) is Some,
{
    assert forall|i: int| 0 <= i < 4 implies key_consistent(text, text, #[trigger] checksum_keys()[i]) by {}
}

/// What becomes of the PKGBUILD after a successful `updpkgsums`.
#[derive(Debug, Clone, Copy, PartialEq, Eq, Structural)]
pub enum UpdpkgsumsAction {
    /// The file did not change.
    Unchanged,
    /// It changed but is not UTF-8 text: keep it without comparing.
    KeepNonUtf8,
    /// Only checksum formatting changed: write back the file as it was before the run.
    RestoreOriginal,
    /// Checksums changed: keep the rewrite.
    KeepUpdated,
}

/// The action for the file's bytes before and after the run.
pub open spec fn updpkgsums_action_of(before: Seq<u8>, after: Seq<u8>) -> UpdpkgsumsAction {
    if before == after {
        UpdpkgsumsAction::Unchanged
    } else if !vstd::utf8::valid_utf8(before) || !vstd::utf8::valid_utf8(after) {
        UpdpkgsumsAction::KeepNonUtf8
    } else if checksums_equivalent(vstd::utf8::decode_utf8(before), vstd::utf8::decode_utf8(after)) {
        UpdpkgsumsAction::RestoreOriginal
    } else {
        UpdpkgsumsAction::KeepUpdated
    }
}

/// What to do with the PKGBUILD after a successful `updpkgsums` (see
/// [`updpkgsums_action_of`]).
pub fn updpkgsums_action(before: &Vec<u8>, after: &Vec<u8>) -> (r: UpdpkgsumsAction)
    ensures
        r == updpkgsums_action_of(before@, after@),
{
    let mut same = before.len() == after.len();
    let mut i: usize = 0;
    while same && i < before.len()
        invariant
            i <= before.len(),
            same ==> before.len() == after.len(),
            same ==> forall|j: int| 0 <= j < i ==> before@[j] == after@[j],
            !same ==> before@ != after@,
        decreases before.len() - i,
    {
        if before[i] != after[i] {
            same = false;
        }
        i += 1;
    }
    if same {
        assert(before@ =~= after@);
        return UpdpkgsumsAction::Unchanged;
    }
    match (utf8_text(before.as_slice()), utf8_text(after.as_slice())) {
        (Some(b), Some(a)) => {
            if checksum_arrays_equivalent(b.as_str(), a.as_str()) {
                UpdpkgsumsAction::RestoreOriginal
            } else {
                UpdpkgsumsAction::KeepUpdated
            }
        },
        _ => UpdpkgsumsAction::KeepNonUtf8,
    }
}

/// Result of an `updpkgsums` run: whether it exited successfully, its exit
/// status as text, and whether the PKGBUILD rewrite was kept (only after a
/// successful run whose checksums changed).
#[derive(Debug, Clone)]
pub struct UpdpkgsumsReport {
    pub success: bool,
    pub status: String,
    pub pkgbuild_changed: bool,
}

impl UpdpkgsumsAction {
    /// Whether the report counts the PKGBUILD as changed.
    pub fn pkgbuild_changed(self) -> (r: bool)
        ensures
            r == (self is KeepNonUtf8 || self is KeepUpdated),
    {
        match self {
            UpdpkgsumsAction::KeepNonUtf8 | UpdpkgsumsAction::KeepUpdated => true,
            _ => false,
        }
    }

    /// Log line for the action.
    pub fn log_message(self) -> (r: &'static str)
        ensures
            r@ == (match self {
                UpdpkgsumsAction::Unchanged => "PKGBUILD unchanged — checksum arrays already matched sources."@,
                UpdpkgsumsAction::KeepNonUtf8 => "PKGBUILD updated (non-UTF-8; skipped checksum-only restore)."@,
                UpdpkgsumsAction::RestoreOriginal => "Checksum values unchanged — restored PKGBUILD to skip a no-op rewrite."@,
                UpdpkgsumsAction::KeepUpdated => "PKGBUILD updated with new checksums."@,
            }),
    {
        match self {
            UpdpkgsumsAction::Unchanged => "PKGBUILD unchanged — checksum arrays already matched sources.",
            UpdpkgsumsAction::KeepNonUtf8 => "PKGBUILD updated (non-UTF-8; skipped checksum-only restore).",
            UpdpkgsumsAction::RestoreOriginal => "Checksum values unchanged — restored PKGBUILD to skip a no-op rewrite.",
            UpdpkgsumsAction::KeepUpdated => "PKGBUILD updated with new checksums.",
        }
    }
}

} // verus!
