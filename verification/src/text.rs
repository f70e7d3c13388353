//! Character-level text model shared by every parser in the crate.
//!
//! Strings are handled as `Seq<char>` in specifications and `Vec<char>` in
//! executable code; the helpers below convert at the API boundary.
use vstd::prelude::*;

verus! {

/// Unicode `White_Space` property (what `str::trim` removes).
pub open spec fn is_ws(c: char) -> bool {
    ||| ('\u{9}' <= c && c <= '\u{d}')
    ||| c == ' '
    ||| c == '\u{85}'
    ||| c == '\u{a0}'
    ||| c == '\u{1680}'
    ||| ('\u{2000}' <= c && c <= '\u{200a}')
    ||| c == '\u{2028}'
    ||| c == '\u{2029}'
    ||| c == '\u{202f}'
    ||| c == '\u{205f}'
    ||| c == '\u{3000}'
}

/// ASCII whitespace as in `u8::is_ascii_whitespace`.
pub open spec fn is_ascii_ws(c: char) -> bool {
    c == ' ' || c == '\t' || c == '\n' || c == '\u{c}' || c == '\r'
}

pub open spec fn is_ascii_digit(c: char) -> bool {
    '0' <= c && c <= '9'
}

pub open spec fn is_ascii_lower(c: char) -> bool {
    'a' <= c && c <= 'z'
}

pub open spec fn is_ascii_upper(c: char) -> bool {
    'A' <= c && c <= 'Z'
}

pub open spec fn is_ascii_alnum(c: char) -> bool {
    is_ascii_digit(c) || is_ascii_lower(c) || is_ascii_upper(c)
}

pub fn char_is_ws(c: char) -> (r: bool)
    ensures
        r == is_ws(c),
{
    ('\u{9}' <= c && c <= '\u{d}') || c == ' ' || c == '\u{85}' || c == '\u{a0}'
        || c == '\u{1680}' || ('\u{2000}' <= c && c <= '\u{200a}') || c == '\u{2028}'
        || c == '\u{2029}' || c == '\u{202f}' || c == '\u{205f}' || c == '\u{3000}'
}

pub fn char_is_ascii_ws(c: char) -> (r: bool)
    ensures
        r == is_ascii_ws(c),
{
    c == ' ' || c == '\t' || c == '\n' || c == '\u{c}' || c == '\r'
}

pub fn char_is_ascii_alnum(c: char) -> (r: bool)
    ensures
        r == is_ascii_alnum(c),
{
    ('0' <= c && c <= '9') || ('a' <= c && c <= 'z') || ('A' <= c && c <= 'Z')
}

/// Index of the first character that is not whitespace.
pub open spec fn trim_start_len(s: Seq<char>) -> int
    decreases s.len(),
{
    if s.len() > 0 && is_ws(s[0]) {
        1 + trim_start_len(s.drop_first())
    } else {
        0
    }
}

pub open spec fn trim_start(s: Seq<char>) -> Seq<char> {
    s.skip(trim_start_len(s))
}

/// Number of trailing whitespace characters.
pub open spec fn trim_end_len(s: Seq<char>) -> int
    decreases s.len(),
{
    if s.len() > 0 && is_ws(s.last()) {
        1 + trim_end_len(s.drop_last())
    } else {
        0
    }
}

pub open spec fn trim_end(s: Seq<char>) -> Seq<char> {
    s.take(s.len() - trim_end_len(s))
}

/// `str::trim`.
pub open spec fn trim(s: Seq<char>) -> Seq<char> {
    trim_end(trim_start(s))
}

pub open spec fn starts_with(s: Seq<char>, p: Seq<char>) -> bool {
    p.len() <= s.len() && s.take(p.len() as int) == p
}

pub open spec fn ends_with(s: Seq<char>, p: Seq<char>) -> bool {
    p.len() <= s.len() && s.skip(s.len() - p.len()) == p
}

/// `p` occurs in `s` at position `i`.
pub open spec fn occurs_at(s: Seq<char>, p: Seq<char>, i: int) -> bool {
    0 <= i && i + p.len() <= s.len() && s.subrange(i, i + p.len()) == p
}

pub open spec fn contains(s: Seq<char>, p: Seq<char>) -> bool {
    exists|i: int| occurs_at(s, p, i)
}

pub open spec fn all_chars(s: Seq<char>, f: spec_fn(char) -> bool) -> bool {
    forall|i: int| 0 <= i < s.len() ==> f(#[trigger] s[i])
}

pub proof fn lemma_trim_start_len_bounds(s: Seq<char>)
    ensures
        0 <= trim_start_len(s) <= s.len(),
        forall|i: int| 0 <= i < trim_start_len(s) ==> is_ws(#[trigger] s[i]),
        trim_start_len(s) < s.len() ==> !is_ws(s[trim_start_len(s)]),
    decreases s.len(),
{
    if s.len() > 0 && is_ws(s[0]) {
        lemma_trim_start_len_bounds(s.drop_first());
        assert forall|i: int| 0 <= i < trim_start_len(s) implies is_ws(#[trigger] s[i]) by {
            if i > 0 {
                assert(s[i] == s.drop_first()[i - 1]);
            }
        }
    }
}

pub proof fn lemma_trim_end_len_bounds(s: Seq<char>)
    ensures
        0 <= trim_end_len(s) <= s.len(),
        forall|i: int| s.len() - trim_end_len(s) <= i < s.len() ==> is_ws(#[trigger] s[i]),
        trim_end_len(s) < s.len() ==> !is_ws(s[s.len() - trim_end_len(s) - 1]),
    decreases s.len(),
{
    if s.len() > 0 && is_ws(s.last()) {
        lemma_trim_end_len_bounds(s.drop_last());
        assert forall|i: int| s.len() - trim_end_len(s) <= i < s.len() implies is_ws(
            #[trigger] s[i],
        ) by {
            if i < s.len() - 1 {
                assert(s[i] == s.drop_last()[i]);
            }
        }
    }
}

/// Characterises `trim_start_len` by its two defining properties.
pub proof fn lemma_trim_start_len_unique(s: Seq<char>, k: int)
    requires
        0 <= k <= s.len(),
        forall|i: int| 0 <= i < k ==> is_ws(#[trigger] s[i]),
        k < s.len() ==> !is_ws(s[k]),
    ensures
        trim_start_len(s) == k,
    decreases s.len(),
{
    if k > 0 {
        assert(is_ws(s[0]));
        assert forall|i: int| 0 <= i < k - 1 implies is_ws(#[trigger] s.drop_first()[i]) by {
            assert(s.drop_first()[i] == s[i + 1]);
        }
        if k < s.len() {
            assert(s.drop_first()[k - 1] == s[k]);
        }
        lemma_trim_start_len_unique(s.drop_first(), k - 1);
    }
}

pub proof fn lemma_trim_end_len_unique(s: Seq<char>, k: int)
    requires
        0 <= k <= s.len(),
        forall|i: int| s.len() - k <= i < s.len() ==> is_ws(#[trigger] s[i]),
        k < s.len() ==> !is_ws(s[s.len() - k - 1]),
    ensures
        trim_end_len(s) == k,
    decreases s.len(),
{
    if k > 0 {
        assert(is_ws(s[s.len() - 1]));
        assert forall|i: int| s.len() - 1 - (k - 1) <= i < s.len() - 1 implies is_ws(
            #[trigger] s.drop_last()[i],
        ) by {
            assert(s.drop_last()[i] == s[i]);
        }
        if k < s.len() {
            assert(s.drop_last()[s.len() - 1 - (k - 1) - 1] == s[s.len() - k - 1]);
        }
        lemma_trim_end_len_unique(s.drop_last(), k - 1);
    }
}

/// Trimming twice is trimming once.
pub proof fn lemma_trim_idempotent(s: Seq<char>)
    ensures
        trim(trim(s)) == trim(s),
{
    let a = trim_start(s);
    lemma_trim_start_len_bounds(s);
    lemma_trim_end_len_bounds(a);
    let t = trim(s);
    if t.len() > 0 {
        assert(t[0] == a[0]);
        assert(a[0] == s[trim_start_len(s)]);
        assert(t.last() == a[a.len() - trim_end_len(a) - 1]);
        assert(trim_start_len(t) == 0);
        assert(t.skip(0) =~= t);
        assert(trim_end_len(t) == 0);
        assert(t.take(t.len() as int) =~= t);
    } else {
        assert(trim_start(t) =~= t);
        assert(trim_end(t) =~= t);
    }
}

/// Converts a string slice into its characters.
pub fn chars_of(s: &str) -> (v: Vec<char>)
    ensures
        v@ == s@,
{
    let mut v: Vec<char> = Vec::new();
    for c in it: s.chars()
        invariant
            v@ == it.seq().take(it.index() as int),
    {
        v.push(c);
    }
    v
}

/// `String::push` (std): appends one character.
#[verifier::external_body]
fn string_push(s: &mut String, c: char)
    ensures
        final(s)@ == old(s)@.push(c),
{
    s.push(c);
}

/// Builds a `String` from characters.
pub fn string_of(v: &[char]) -> (s: String)
    ensures
        s@ == v@,
{
    let mut s = String::new();
    let mut i: usize = 0;
    while i < v.len()
        invariant
            i <= v.len(),
            s@ == v@.take(i as int),
        decreases v.len() - i,
    {
        string_push(&mut s, v[i]);
        assert(v@.take(i as int + 1) == v@.take(i as int).push(v@[i as int]));
        i += 1;
    }
    assert(v@.take(v@.len() as int) == v@);
    s
}

/// Returns `(start, end)` such that `v[start..end]` is `trim(v)`.
pub fn trim_bounds(v: &[char]) -> (r: (usize, usize))
    ensures
        r.0 <= r.1 <= v.len(),
        r.0 == trim_start_len(v@),
        v@.subrange(r.0 as int, r.1 as int) == trim(v@),
{
    let mut a: usize = 0;
    while a < v.len() && char_is_ws(v[a])
        invariant
            a <= v.len(),
            forall|i: int| 0 <= i < a ==> is_ws(#[trigger] v@[i]),
        decreases v.len() - a,
    {
        a += 1;
    }
    proof {
        lemma_trim_start_len_unique(v@, a as int);
    }
    let mut b: usize = v.len();
    while b > a && char_is_ws(v[b - 1])
        invariant
            a <= b <= v.len(),
            forall|i: int| b <= i < v.len() ==> is_ws(#[trigger] v@[i]),
        decreases b,
    {
        b -= 1;
    }
    proof {
        let t = trim_start(v@);
        assert(t == v@.subrange(a as int, v.len() as int));
        assert forall|i: int| t.len() - (v.len() - b) <= i < t.len() implies is_ws(
            #[trigger] t[i],
        ) by {
            assert(t[i] == v@[a + i]);
        }
        if v.len() - b < t.len() {
            assert(t[t.len() - (v.len() - b) - 1] == v@[b - 1]);
        }
        lemma_trim_end_len_unique(t, (v.len() - b) as int);
        assert(trim_end(t) == v@.subrange(a as int, b as int));
    }
    (a, b)
}

/// Length of the leading whitespace run.
pub fn trim_start_bound(v: &[char]) -> (a: usize)
    ensures
        a == trim_start_len(v@),
        a <= v.len(),
{
    let mut a: usize = 0;
    while a < v.len() && char_is_ws(v[a])
        invariant
            a <= v.len(),
            forall|i: int| 0 <= i < a ==> is_ws(#[trigger] v@[i]),
        decreases v.len() - a,
    {
        a += 1;
    }
    proof {
        lemma_trim_start_len_unique(v@, a as int);
    }
    a
}

/// End index of `trim_end(v)`.
pub fn trim_end_bound(v: &[char]) -> (b: usize)
    ensures
        b == v.len() - trim_end_len(v@),
        b <= v.len(),
{
    let mut b: usize = v.len();
    while b > 0 && char_is_ws(v[b - 1])
        invariant
            b <= v.len(),
            forall|i: int| b <= i < v.len() ==> is_ws(#[trigger] v@[i]),
        decreases b,
    {
        b -= 1;
    }
    proof {
        lemma_trim_end_len_unique(v@, (v.len() - b) as int);
    }
    b
}

/// Copies `v[a..b]`.
pub fn slice_vec(v: &[char], a: usize, b: usize) -> (r: Vec<char>)
    requires
        a <= b <= v.len(),
    ensures
        r@ == v@.subrange(a as int, b as int),
{
    let mut r: Vec<char> = Vec::new();
    let mut i = a;
    while i < b
        invariant
            a <= i <= b <= v.len(),
            r@ == v@.subrange(a as int, i as int),
        decreases b - i,
    {
        r.push(v[i]);
        i += 1;
    }
    r
}

/// `str::trim` on characters.
pub fn trim_vec(v: &[char]) -> (r: Vec<char>)
    ensures
        r@ == trim(v@),
{
    let (a, b) = trim_bounds(v);
    slice_vec(v, a, b)
}


/// Whether `p` occurs in `v` at position `i`.
pub fn occurs_at_exec(v: &[char], p: &[char], i: usize) -> (r: bool)
    ensures
        r == occurs_at(v@, p@, i as int),
{
    if i > v.len() || p.len() > v.len() - i {
        return false;
    }
    let mut k: usize = 0;
    while k < p.len()
        invariant
            k <= p.len(),
            i + p.len() <= v.len(),
            forall|j: int| 0 <= j < k ==> v@[i + j] == p@[j],
        decreases p.len() - k,
    {
        if v[i + k] != p[k] {
            assert(v@.subrange(i as int, i + p.len())[k as int] != p@[k as int]);
            return false;
        }
        k += 1;
    }
    assert(v@.subrange(i as int, i + p.len()) =~= p@);
    true
}

/// `str::starts_with`.
pub fn starts_with_exec(v: &[char], p: &[char]) -> (r: bool)
    ensures
        r == starts_with(v@, p@),
{
    let r = occurs_at_exec(v, p, 0);
    assert(v@.take(p@.len() as int) == v@.subrange(0, p@.len() as int));
    r
}

/// `str::ends_with`.
pub fn ends_with_exec(v: &[char], p: &[char]) -> (r: bool)
    ensures
        r == ends_with(v@, p@),
{
    if p.len() > v.len() {
        return false;
    }
    let r = occurs_at_exec(v, p, v.len() - p.len());
    assert(v@.skip(v@.len() - p@.len()) == v@.subrange(v@.len() - p@.len(), v@.len() as int));
    r
}

/// First position `>= from` where `p` occurs.
pub open spec fn find_from(s: Seq<char>, p: Seq<char>, from: int) -> Option<int>
    decreases s.len() - from,
{
    if from < 0 || from + p.len() > s.len() {
        None
    } else if occurs_at(s, p, from) {
        Some(from)
    } else if from >= s.len() {
        None
    } else {
        find_from(s, p, from + 1)
    }
}

pub proof fn lemma_find_from(s: Seq<char>, p: Seq<char>, from: int)
    requires
        0 <= from,
    ensures
        find_from(s, p, from) matches Some(i) ==> from <= i && occurs_at(s, p, i) && forall|
            j: int,
        | from <= j < i ==> !occurs_at(s, p, j),
        find_from(s, p, from) is None ==> forall|j: int| from <= j ==> !occurs_at(s, p, j),
    decreases s.len() - from,
{
    if from + p.len() <= s.len() && !occurs_at(s, p, from) {
        if from < s.len() {
            lemma_find_from(s, p, from + 1);
        } else {
            assert(s.subrange(from, from + p.len()) =~= p);
        }
    }
}

/// First occurrence of `p` in `v` at or after `from`.
pub fn find_from_exec(v: &[char], p: &[char], from: usize) -> (r: Option<usize>)
    ensures
        r matches Some(i) ==> find_from(v@, p@, from as int) == Some(i as int),
        r is None ==> find_from(v@, p@, from as int) is None,
{
    if from > v.len() || p.len() > v.len() - from {
        return None;
    }
    if p.len() == 0 {
        assert(v@.subrange(from as int, from as int) =~= p@);
        return Some(from);
    }
    let mut i = from;
    while i <= v.len() - p.len()
        invariant
            from <= i,
            1 <= p.len() <= v.len(),
            i <= v.len() - p.len() + 1,
            find_from(v@, p@, from as int) == find_from(v@, p@, i as int),
        decreases v.len() - i,
    {
        if occurs_at_exec(v, p, i) {
            return Some(i);
        }
        i += 1;
    }
    None
}

/// `str::contains` for a substring pattern.
pub fn contains_exec(v: &[char], p: &[char]) -> (r: bool)
    ensures
        r == contains(v@, p@),
{
    let r = find_from_exec(v, p, 0);
    proof {
        lemma_find_from(v@, p@, 0);
    }
    r.is_some()
}

/// Non-overlapping left-to-right replacement of every `f` by `t` (`str::replace`
/// for a non-empty pattern).
pub open spec fn replace_all(s: Seq<char>, f: Seq<char>, t: Seq<char>) -> Seq<char>
    decreases s.len(),
{
    if f.len() == 0 || s.len() == 0 {
        s
    } else if starts_with(s, f) {
        t + replace_all(s.skip(f.len() as int), f, t)
    } else {
        seq![s[0]] + replace_all(s.drop_first(), f, t)
    }
}

/// `str::replace` with a non-empty pattern.
pub fn replace_all_exec(v: &[char], f: &[char], t: &[char]) -> (r: Vec<char>)
    requires
        f.len() > 0,
    ensures
        r@ == replace_all(v@, f@, t@),
{
    let mut out: Vec<char> = Vec::new();
    let mut i: usize = 0;
    assert(v@.skip(0) == v@);
    assert(out@ + v@ =~= v@);
    while i < v.len()
        invariant
            i <= v.len(),
            f@.len() > 0,
            out@ + replace_all(v@.skip(i as int), f@, t@) == replace_all(v@, f@, t@),
        decreases v.len() - i,
    {
        let rest = Ghost(v@.skip(i as int));
        if occurs_at_exec(v, f, i) {
            assert(starts_with(rest@, f@)) by {
                assert(rest@.take(f@.len() as int) == v@.subrange(i as int, i + f@.len()));
            }
            assert(rest@.skip(f@.len() as int) == v@.skip(i + f@.len()));
            let mut k: usize = 0;
            let ghost out0 = out@;
            while k < t.len()
                invariant
                    k <= t.len(),
                    out@ == out0 + t@.take(k as int),
                decreases t.len() - k,
            {
                out.push(t[k]);
                assert(t@.take(k as int + 1) == t@.take(k as int).push(t@[k as int]));
                k += 1;
            }
            assert(t@.take(t@.len() as int) == t@);
            assert(out@ + replace_all(v@.skip(i + f@.len()), f@, t@) == out0 + (t@
                + replace_all(rest@.skip(f@.len() as int), f@, t@)));
            i = i + f.len();
        } else {
            assert(!starts_with(rest@, f@)) by {
                if starts_with(rest@, f@) {
                    assert(rest@.take(f@.len() as int) == v@.subrange(i as int, i + f@.len()));
                }
            }
            assert(rest@.drop_first() == v@.skip(i + 1));
            assert(rest@[0] == v@[i as int]);
            let ghost out0 = out@;
            out.push(v[i]);
            assert(out@ + replace_all(v@.skip(i + 1), f@, t@) == out0 + (seq![rest@[0]]
                + replace_all(rest@.drop_first(), f@, t@)));
            i = i + 1;
        }
    }
    assert(v@.skip(v@.len() as int) =~= Seq::<char>::empty());
    assert(out@ + Seq::<char>::empty() == out@);
    out
}

/// First index of character `c`.
pub open spec fn index_of(s: Seq<char>, c: char) -> Option<int>
    decreases s.len(),
{
    if s.len() == 0 {
        None
    } else if s[0] == c {
        Some(0)
    } else {
        match index_of(s.drop_first(), c) {
            Some(i) => Some(i + 1),
            None => None,
        }
    }
}

pub proof fn lemma_index_of(s: Seq<char>, c: char)
    ensures
        index_of(s, c) matches Some(i) ==> 0 <= i < s.len() && s[i] == c && forall|j: int|
            0 <= j < i ==> s[j] != c,
        index_of(s, c) is None ==> forall|j: int| 0 <= j < s.len() ==> s[j] != c,
    decreases s.len(),
{
    if s.len() > 0 && s[0] != c {
        lemma_index_of(s.drop_first(), c);
        if let Some(i) = index_of(s.drop_first(), c) {
            assert forall|j: int| 0 <= j < i + 1 implies s[j] != c by {
                if j > 0 {
                    assert(s[j] == s.drop_first()[j - 1]);
                }
            }
        } else {
            assert forall|j: int| 0 <= j < s.len() implies s[j] != c by {
                if j > 0 {
                    assert(s[j] == s.drop_first()[j - 1]);
                }
            }
        }
    }
}

pub proof fn lemma_index_of_unique(s: Seq<char>, c: char, i: int)
    requires
        0 <= i < s.len(),
        s[i] == c,
        forall|j: int| 0 <= j < i ==> s[j] != c,
    ensures
        index_of(s, c) == Some(i),
{
    lemma_index_of(s, c);
}

pub proof fn lemma_index_of_none(s: Seq<char>, c: char)
    requires
        forall|j: int| 0 <= j < s.len() ==> s[j] != c,
    ensures
        index_of(s, c) is None,
{
    lemma_index_of(s, c);
}

/// Position of the first `c` in `v[from..]`, relative to `v`.
pub fn index_of_from(v: &[char], c: char, from: usize) -> (r: Option<usize>)
    requires
        from <= v.len(),
    ensures
        r matches Some(i) ==> from <= i < v.len() && v@[i as int] == c && forall|j: int|
            from <= j < i ==> v@[j] != c,
        r is None ==> forall|j: int| from <= j < v.len() ==> v@[j] != c,
{
    let mut i = from;
    while i < v.len()
        invariant
            from <= i <= v.len(),
            forall|j: int| from <= j < i ==> v@[j] != c,
        decreases v.len() - i,
    {
        if v[i] == c {
            return Some(i);
        }
        i += 1;
    }
    None
}

/// Drops one trailing `'\r'`.
pub open spec fn strip_cr(s: Seq<char>) -> Seq<char> {
    if s.len() > 0 && s.last() == '\r' {
        s.drop_last()
    } else {
        s
    }
}

/// `str::lines`: split after each `'\n'` (dropping it and a `'\r'` before it);
/// a trailing empty line is not produced.
pub open spec fn lines(s: Seq<char>) -> Seq<Seq<char>>
    decreases s.len(),
{
    if s.len() == 0 {
        seq![]
    } else {
        match index_of(s, '\n') {
            None => seq![s],
            Some(i) => {
                if 0 <= i < s.len() {
                    seq![strip_cr(s.take(i))] + lines(s.skip(i + 1))
                } else {
                    seq![]
                }
            },
        }
    }
}

/// Lines of a text that is empty or ends in a newline, followed by more text.
pub proof fn lemma_lines_append(a: Seq<char>, b: Seq<char>)
    requires
        a.len() == 0 || a.last() == '\n',
    ensures
        lines(a + b) == lines(a) + lines(b),
    decreases a.len(),
{
    if a.len() == 0 {
        assert(a + b =~= b);
        assert(lines(a) =~= Seq::<Seq<char>>::empty());
        assert(lines(a) + lines(b) =~= lines(b));
    } else {
        lemma_index_of(a, '\n');
        let i = index_of(a, '\n')->0;
        let s = a + b;
        assert forall|j: int| 0 <= j < i implies s[j] != '\n' by {
            assert(s[j] == a[j]);
        }
        assert(s[i] == '\n');
        lemma_index_of_unique(s, '\n', i);
        assert(s.take(i) =~= a.take(i));
        assert(s.skip(i + 1) =~= a.skip(i + 1) + b);
        let rest = a.skip(i + 1);
        if rest.len() > 0 {
            assert(rest.last() == a.last());
        }
        lemma_lines_append(rest, b);
        assert(lines(s) == seq![strip_cr(a.take(i))] + lines(rest + b));
        assert(lines(a) == seq![strip_cr(a.take(i))] + lines(rest));
        assert(lines(s) =~= lines(a) + lines(b));
    }
}

/// No line of a text holds a newline.
pub proof fn lemma_lines_no_newline(s: Seq<char>)
    ensures
        forall|k: int| 0 <= k < lines(s).len() ==> no_newline(#[trigger] lines(s)[k]),
    decreases s.len(),
{
    if s.len() > 0 {
        lemma_index_of(s, '\n');
        match index_of(s, '\n') {
            None => {},
            Some(i) => {
                lemma_lines_no_newline(s.skip(i + 1));
                let l0 = strip_cr(s.take(i));
                assert(no_newline(l0));
                assert forall|k: int| 0 <= k < lines(s).len() implies no_newline(#[trigger] lines(s)[k]) by {
                    if k > 0 {
                        assert(lines(s)[k] == lines(s.skip(i + 1))[k - 1]);
                    }
                }
            },
        }
    }
}

/// Lines joined with newlines read back with a trailing carriage return
/// dropped from each.
pub proof fn lemma_lines_of_concat_cr(ls: Seq<Seq<char>>)
    requires
        forall|k: int| 0 <= k < ls.len() ==> no_newline(#[trigger] ls[k]),
    ensures
        lines(concat_lines(ls)) == Seq::new(ls.len(), |k: int| strip_cr(ls[k])),
    decreases ls.len(),
{
    if ls.len() == 0 {
        assert(concat_lines(ls) =~= Seq::<char>::empty());
        assert(lines(concat_lines(ls)) =~= Seq::new(ls.len(), |k: int| strip_cr(ls[k])));
    } else {
        let a = ls.drop_last();
        let x = ls.last();
        lemma_lines_of_concat_cr(a);
        lemma_concat_push(a, x);
        assert(a.push(x) =~= ls);
        let ca = concat_lines(a);
        if a.len() > 0 {
            lemma_concat_push(a.drop_last(), a.last());
            assert(a.drop_last().push(a.last()) =~= a);
        } else {
            assert(ca =~= Seq::<char>::empty());
        }
        lemma_lines_append(ca, x + nl());
        lemma_lines_cons(x, Seq::<char>::empty());
        assert(x + nl() + Seq::<char>::empty() =~= x + nl());
        assert(lines(Seq::<char>::empty()) =~= Seq::<Seq<char>>::empty());
        assert(ca + x + nl() =~= ca + (x + nl()));
        assert(lines(concat_lines(ls)) =~= Seq::new(ls.len(), |k: int| strip_cr(ls[k])));
    }
}

/// A newline as a one-character text.
pub open spec fn nl() -> Seq<char> {
    seq!['\n']
}

/// Every line followed by `'\n'`.
pub open spec fn concat_lines(ls: Seq<Seq<char>>) -> Seq<char>
    decreases ls.len(),
{
    if ls.len() == 0 {
        seq![]
    } else {
        concat_lines(ls.drop_last()) + ls.last() + nl()
    }
}

/// No newline in the text.
pub open spec fn no_newline(l: Seq<char>) -> bool {
    forall|j: int| 0 <= j < l.len() ==> l[j] != '\n'
}

/// A line that reads back unchanged: no newline, no trailing carriage return.
pub open spec fn plain_line(l: Seq<char>) -> bool {
    no_newline(l) && !(l.len() > 0 && l.last() == '\r')
}

/// Every line is plain.
pub open spec fn plain_lines(ls: Seq<Seq<char>>) -> bool {
    forall|i: int| 0 <= i < ls.len() ==> plain_line(#[trigger] ls[i])
}

/// Splitting a text that starts with a whole line.
pub proof fn lemma_lines_cons(l: Seq<char>, rest: Seq<char>)
    requires
        no_newline(l),
    ensures
        lines(l + nl() + rest) == seq![strip_cr(l)] + lines(rest),
{
    let s = l + nl() + rest;
    assert(s[l.len() as int] == '\n');
    assert forall|j: int| 0 <= j < l.len() implies s[j] != '\n' by {
        assert(s[j] == l[j]);
    }
    lemma_index_of_unique(s, '\n', l.len() as int);
    assert(s.take(l.len() as int) =~= l);
    assert(s.skip(l.len() as int + 1) =~= rest);
}

/// `concat_lines` seen from the front.
pub proof fn lemma_concat_front(ls: Seq<Seq<char>>)
    requires
        ls.len() > 0,
    ensures
        concat_lines(ls) == ls[0] + nl() + concat_lines(ls.skip(1)),
    decreases ls.len(),
{
    if ls.len() == 1 {
        assert(ls.skip(1) =~= Seq::<Seq<char>>::empty());
        assert(ls.drop_last() =~= Seq::<Seq<char>>::empty());
        assert(concat_lines(ls) =~= ls[0] + nl() + concat_lines(ls.skip(1)));
    } else {
        lemma_concat_front(ls.drop_last());
        assert(ls.drop_last().skip(1) =~= ls.skip(1).drop_last());
        assert(ls.skip(1).last() == ls.last());
        assert(concat_lines(ls) =~= ls[0] + nl() + concat_lines(ls.skip(1)));
    }
}

/// Plain lines joined with newlines split back into themselves.
pub proof fn lemma_lines_of_concat(ls: Seq<Seq<char>>)
    requires
        plain_lines(ls),
    ensures
        lines(concat_lines(ls)) == ls,
    decreases ls.len(),
{
    if ls.len() == 0 {
        assert(concat_lines(ls) =~= Seq::<char>::empty());
    } else {
        lemma_concat_front(ls);
        assert(plain_line(ls[0]));
        lemma_lines_cons(ls[0], concat_lines(ls.skip(1)));
        assert forall|i: int| 0 <= i < ls.skip(1).len() implies plain_line(#[trigger] ls.skip(1)[i]) by {
            assert(ls.skip(1)[i] == ls[i + 1]);
        }
        lemma_lines_of_concat(ls.skip(1));
        assert(strip_cr(ls[0]) == ls[0]);
        assert(ls =~= seq![ls[0]] + ls.skip(1));
    }
}

/// `concat_lines` of one line in front of others.
pub proof fn lemma_concat_cons(x: Seq<char>, rest: Seq<Seq<char>>)
    ensures
        concat_lines(seq![x] + rest) == x + nl() + concat_lines(rest),
{
    let ls = seq![x] + rest;
    lemma_concat_front(ls);
    assert(ls.skip(1) =~= rest);
}

/// `concat_lines` after appending a line.
pub proof fn lemma_concat_push(ls: Seq<Seq<char>>, x: Seq<char>)
    ensures
        concat_lines(ls.push(x)) == concat_lines(ls) + x + nl(),
{
    assert(ls.push(x).drop_last() =~= ls);
}

/// `concat_lines` of two runs of lines.
pub proof fn lemma_concat_append(a: Seq<Seq<char>>, b: Seq<Seq<char>>)
    ensures
        concat_lines(a + b) == concat_lines(a) + concat_lines(b),
    decreases b.len(),
{
    if b.len() == 0 {
        assert(a + b =~= a);
        assert(concat_lines(a) + Seq::<char>::empty() =~= concat_lines(a));
    } else {
        lemma_concat_append(a, b.drop_last());
        assert((a + b).drop_last() =~= a + b.drop_last());
        assert((a + b).last() == b.last());
        assert(concat_lines(a) + concat_lines(b.drop_last()) + b.last() + nl() =~= concat_lines(a) + (
        concat_lines(b.drop_last()) + b.last() + nl()));
    }
}


pub proof fn lemma_deep_chars(x: &Vec<char>)
    ensures
        x.deep_view() == x@,
{
    assert(x.deep_view() =~= x@);
}

/// `str::lines` on characters.
pub fn lines_exec(v: &[char]) -> (r: Vec<Vec<char>>)
    ensures
        r.deep_view() == lines(v@),
{
    let mut out: Vec<Vec<char>> = Vec::new();
    let mut start: usize = 0;
    assert(v@.skip(0) == v@);
    assert(out.deep_view() =~= Seq::<Seq<char>>::empty());
    assert(out.deep_view() + lines(v@) =~= lines(v@));
    while start < v.len()
        invariant
            start <= v.len(),
            out.deep_view() + lines(v@.skip(start as int)) == lines(v@),
        decreases v.len() - start,
    {
        let ghost rest = v@.skip(start as int);
        match index_of_from(v, '\n', start) {
            Some(i) => {
                proof {
                    lemma_index_of_unique(rest, '\n', i - start);
                    assert(rest.take(i - start) == v@.subrange(start as int, i as int));
                    assert(rest.skip(i - start + 1) == v@.skip(i + 1));
                }
                let end = if i > start && v[i - 1] == '\r' {
                    i - 1
                } else {
                    i
                };
                let line = slice_vec(v, start, end);
                assert(line@ == strip_cr(v@.subrange(start as int, i as int)));
                let ghost out0 = out.deep_view();
                let ghost lv = line@;
                proof {
                    lemma_deep_chars(&line);
                }
                out.push(line);
                assert(out.deep_view() =~= out0.push(lv)) by {
                    assert forall|k: int| 0 <= k < out0.len() implies out.deep_view()[k]
                        == out0[k] by {}
                }
                assert(out.deep_view() + lines(v@.skip(i + 1)) == out0 + lines(rest));
                start = i + 1;
            },
            None => {
                proof {
                    lemma_index_of_none(rest, '\n');
                }
                let line = slice_vec(v, start, v.len());
                let ghost out0 = out.deep_view();
                let ghost lv = line@;
                proof {
                    lemma_deep_chars(&line);
                }
                out.push(line);
                assert(out.deep_view() =~= out0.push(lv)) by {
                    assert forall|k: int| 0 <= k < out0.len() implies out.deep_view()[k]
                        == out0[k] by {}
                }
                assert(v@.skip(v.len() as int) =~= Seq::<char>::empty());
                assert(out.deep_view() + lines(v@.skip(v.len() as int)) == out0 + lines(rest));
                start = v.len();
            },
        }
    }
    assert(v@.skip(v.len() as int) =~= Seq::<char>::empty());
    assert(out.deep_view() + Seq::<Seq<char>>::empty() == out.deep_view());
    out
}


/// First index `>= i` whose character does not satisfy `f` (or `s.len()`).
pub open spec fn skip_while(s: Seq<char>, i: int, f: spec_fn(char) -> bool) -> int
    decreases s.len() - i,
{
    if i < 0 || i >= s.len() {
        i
    } else if f(s[i]) {
        skip_while(s, i + 1, f)
    } else {
        i
    }
}

pub proof fn lemma_skip_while(s: Seq<char>, i: int, f: spec_fn(char) -> bool)
    requires
        0 <= i <= s.len(),
    ensures
        i <= skip_while(s, i, f) <= s.len(),
        forall|j: int| i <= j < skip_while(s, i, f) ==> f(#[trigger] s[j]),
        skip_while(s, i, f) < s.len() ==> !f(s[skip_while(s, i, f)]),
    decreases s.len() - i,
{
    if i < s.len() && f(s[i]) {
        lemma_skip_while(s, i + 1, f);
    }
}

pub proof fn lemma_skip_while_unique(s: Seq<char>, i: int, k: int, f: spec_fn(char) -> bool)
    requires
        0 <= i <= k <= s.len(),
        forall|j: int| i <= j < k ==> f(#[trigger] s[j]),
        k < s.len() ==> !f(s[k]),
    ensures
        skip_while(s, i, f) == k,
    decreases s.len() - i,
{
    if i < k {
        lemma_skip_while_unique(s, i + 1, k, f);
    }
}

pub open spec fn ws_pred() -> spec_fn(char) -> bool {
    |c: char| is_ws(c)
}

pub open spec fn non_ws_pred() -> spec_fn(char) -> bool {
    |c: char| !is_ws(c)
}

/// `str::split_whitespace` starting at index `i`.
pub open spec fn split_ws_from(s: Seq<char>, i: int) -> Seq<Seq<char>>
    decreases s.len() - i,
{
    if i < 0 || i > s.len() {
        seq![]
    } else {
        let a = skip_while(s, i, ws_pred());
        if a >= s.len() || a < i {
            seq![]
        } else {
            let b = skip_while(s, a, non_ws_pred());
            if b <= i || b > s.len() {
                seq![]
            } else {
                seq![s.subrange(a, b)] + split_ws_from(s, b)
            }
        }
    }
}

/// `str::split_whitespace`.
pub open spec fn split_ws(s: Seq<char>) -> Seq<Seq<char>> {
    split_ws_from(s, 0)
}

/// Words joined by `sep` (`[&str]::join`).
pub open spec fn join(parts: Seq<Seq<char>>, sep: Seq<char>) -> Seq<char>
    decreases parts.len(),
{
    if parts.len() == 0 {
        seq![]
    } else if parts.len() == 1 {
        parts[0]
    } else {
        join(parts.drop_last(), sep) + sep + parts.last()
    }
}

/// `join` seen from the front.
pub proof fn lemma_join_front(x: Seq<char>, rest: Seq<Seq<char>>, sep: Seq<char>)
    ensures
        join(seq![x] + rest, sep) == (if rest.len() == 0 {
            x
        } else {
            x + sep + join(rest, sep)
        }),
    decreases rest.len(),
{
    let l = seq![x] + rest;
    if rest.len() == 0 {
        assert(l =~= seq![x]);
        assert(join(l, sep) == l[0]);
    } else if rest.len() == 1 {
        assert(l.drop_last() =~= seq![x]);
        assert(join(l.drop_last(), sep) == x);
        assert(l.last() == rest[0]);
        assert(join(l, sep) == join(l.drop_last(), sep) + sep + l.last());
        assert(join(rest, sep) == rest[0]);
    } else {
        lemma_join_front(x, rest.drop_last(), sep);
        assert(l.drop_last() =~= seq![x] + rest.drop_last());
        assert(l.last() == rest.last());
        assert(join(l, sep) == join(l.drop_last(), sep) + sep + l.last());
        assert(join(rest, sep) == join(rest.drop_last(), sep) + sep + rest.last());
        assert(x + sep + join(rest.drop_last(), sep) + sep + rest.last() =~= x + sep + (join(
            rest.drop_last(),
            sep,
        ) + sep + rest.last()));
    }
}

/// `skip_while` from `a` in `s` is `skip_while` in `s.skip(i)`, shifted.
pub proof fn lemma_skip_while_shift(s: Seq<char>, i: int, a: int, f: spec_fn(char) -> bool)
    requires
        0 <= i <= a <= s.len(),
    ensures
        skip_while(s, a, f) == i + skip_while(s.skip(i), a - i, f),
    decreases s.len() - a,
{
    if a < s.len() {
        assert(s.skip(i)[a - i] == s[a]);
        if f(s[a]) {
            lemma_skip_while_shift(s, i, a + 1, f);
        }
    }
}

/// `split_ws_from` in `s` is `split_ws_from` in `s.skip(i)`, shifted.
pub proof fn lemma_split_ws_shift(s: Seq<char>, i: int, a: int)
    requires
        0 <= i <= a <= s.len(),
    ensures
        split_ws_from(s, a) == split_ws_from(s.skip(i), a - i),
    decreases s.len() - a,
{
    let t = s.skip(i);
    let a1 = skip_while(s, a, ws_pred());
    lemma_skip_while_shift(s, i, a, ws_pred());
    lemma_skip_while(s, a, ws_pred());
    if a1 < s.len() {
        let b = skip_while(s, a1, non_ws_pred());
        lemma_skip_while_shift(s, i, a1, non_ws_pred());
        lemma_skip_while(s, a1, non_ws_pred());
        assert(t.subrange(a1 - i, b - i) =~= s.subrange(a1, b));
        if a < b && b <= s.len() {
            lemma_split_ws_shift(s, i, b);
        }
    }
}

/// A whitespace character where the split starts is passed over.
pub proof fn lemma_split_ws_from_ws(s: Seq<char>, i: int)
    requires
        0 <= i < s.len(),
        is_ws(s[i]),
    ensures
        split_ws_from(s, i) == split_ws_from(s, i + 1),
{
    lemma_skip_while(s, i + 1, ws_pred());
    let a = skip_while(s, i + 1, ws_pred());
    assert(skip_while(s, i, ws_pred()) == a);
    if a < s.len() {
        assert(!is_ws(s[a]));
        lemma_skip_while(s, a + 1, non_ws_pred());
        assert(skip_while(s, a, non_ws_pred()) == skip_while(s, a + 1, non_ws_pred()));
    }
}

/// Words without whitespace, joined by single spaces, split back into themselves.
pub proof fn lemma_split_join(ts: Seq<Seq<char>>)
    requires
        forall|k: int|
            0 <= k < ts.len() ==> (#[trigger] ts[k]).len() > 0 && forall|j: int|
                0 <= j < ts[k].len() ==> !is_ws(#[trigger] ts[k][j]),
    ensures
        split_ws(join(ts, seq![' '])) == ts,
    decreases ts.len(),
{
    if ts.len() == 0 {
        assert(split_ws(Seq::<char>::empty()) =~= Seq::<Seq<char>>::empty());
    } else {
        let x = ts[0];
        let rest = ts.skip(1);
        assert(ts =~= seq![x] + rest);
        lemma_join_front(x, rest, seq![' ']);
        let s = join(ts, seq![' ']);
        assert(x.len() > 0);
        assert forall|j: int| 0 <= j < x.len() implies (non_ws_pred())(#[trigger] s[j]) by {
            assert(!is_ws(ts[0][j]));
            if rest.len() > 0 {
                assert(s[j] == x[j]);
            }
        }
        assert(s[0] == x[0]);
        lemma_skip_while_unique(s, 0, 0, ws_pred());
        if rest.len() == 0 {
            lemma_skip_while_unique(s, 0, x.len() as int, non_ws_pred());
            assert(s.subrange(0, x.len() as int) =~= x);
            assert(split_ws_from(s, x.len() as int) =~= Seq::<Seq<char>>::empty());
        } else {
            assert(s[x.len() as int] == ' ');
            lemma_skip_while_unique(s, 0, x.len() as int, non_ws_pred());
            assert(s.subrange(0, x.len() as int) =~= x);
            lemma_split_ws_from_ws(s, x.len() as int);
            lemma_split_ws_shift(s, x.len() as int + 1, x.len() as int + 1);
            assert(s.skip(x.len() as int + 1) =~= join(rest, seq![' ']));
            assert forall|k: int| 0 <= k < rest.len() implies (#[trigger] rest[k]).len() > 0 && forall|
                j: int,
            | 0 <= j < rest[k].len() ==> !is_ws(#[trigger] rest[k][j]) by {
                assert(rest[k] == ts[k + 1]);
            }
            lemma_split_join(rest);
        }
    }
}

/// Appends `src` to `dst`.
pub fn append_chars(dst: &mut Vec<char>, src: &[char])
    ensures
        final(dst)@ == old(dst)@ + src@,
{
    let mut i: usize = 0;
    let ghost d0 = dst@;
    while i < src.len()
        invariant
            i <= src.len(),
            dst@ == d0 + src@.take(i as int),
        decreases src.len() - i,
    {
        dst.push(src[i]);
        assert(src@.take(i as int + 1) == src@.take(i as int).push(src@[i as int]));
        i += 1;
    }
    assert(src@.take(src@.len() as int) == src@);
}

/// Equality of two character sequences.
pub fn eq_chars(a: &[char], b: &[char]) -> (r: bool)
    ensures
        r == (a@ == b@),
{
    if a.len() != b.len() {
        return false;
    }
    let r = occurs_at_exec(a, b, 0);
    assert(a@.subrange(0, b@.len() as int) == a@);
    r
}

/// End of the maximal run of characters satisfying `is_ws` (or not) from `i`.
pub fn skip_ws_exec(v: &[char], i: usize, want_ws: bool) -> (r: usize)
    requires
        i <= v.len(),
    ensures
        want_ws ==> r == skip_while(v@, i as int, ws_pred()),
        !want_ws ==> r == skip_while(v@, i as int, non_ws_pred()),
        i <= r <= v.len(),
{
    let mut j = i;
    while j < v.len() && char_is_ws(v[j]) == want_ws
        invariant
            i <= j <= v.len(),
            forall|k: int| i <= k < j ==> is_ws(#[trigger] v@[k]) == want_ws,
        decreases v.len() - j,
    {
        j += 1;
    }
    proof {
        if want_ws {
            lemma_skip_while_unique(v@, i as int, j as int, ws_pred());
        } else {
            lemma_skip_while_unique(v@, i as int, j as int, non_ws_pred());
        }
    }
    j
}

/// `str::split_whitespace` on characters.
pub fn split_ws_exec(v: &[char]) -> (r: Vec<Vec<char>>)
    ensures
        r.deep_view() == split_ws(v@),
{
    let mut out: Vec<Vec<char>> = Vec::new();
    let mut i: usize = 0;
    assert(out.deep_view() + split_ws_from(v@, 0) =~= split_ws(v@));
    loop
        invariant
            i <= v.len(),
            out.deep_view() + split_ws_from(v@, i as int) == split_ws(v@),
        decreases v.len() - i,
    {
        let a = skip_ws_exec(v, i, true);
        if a >= v.len() {
            assert(split_ws_from(v@, i as int) =~= Seq::<Seq<char>>::empty());
            assert(out.deep_view() + Seq::<Seq<char>>::empty() =~= out.deep_view());
            return out;
        }
        let b = skip_ws_exec(v, a, false);
        proof {
            lemma_skip_while(v@, a as int, non_ws_pred());
            lemma_skip_while(v@, i as int, ws_pred());
        }
        assert(b > a);
        let w = slice_vec(v, a, b);
        let ghost wv = w@;
        let ghost out0 = out.deep_view();
        proof {
            lemma_deep_chars(&w);
        }
        out.push(w);
        assert(out.deep_view() =~= out0.push(wv)) by {
            assert forall|k: int| 0 <= k < out0.len() implies out.deep_view()[k] == out0[k] by {}
        }
        assert(out.deep_view() + split_ws_from(v@, b as int) =~= out0 + split_ws_from(
            v@,
            i as int,
        ));
        i = b;
    }
}

/// `[&str]::join` on character vectors.
pub fn join_exec(parts: &Vec<Vec<char>>, sep: &[char]) -> (r: Vec<char>)
    ensures
        r@ == join(parts.deep_view(), sep@),
{
    let mut out: Vec<char> = Vec::new();
    let mut i: usize = 0;
    while i < parts.len()
        invariant
            i <= parts.len(),
            out@ == join(parts.deep_view().take(i as int), sep@),
        decreases parts.len() - i,
    {
        let ghost pv = parts.deep_view();
        proof {
            lemma_deep_chars(&parts[i as int]);
        }
        assert(pv.take(i as int + 1).drop_last() == pv.take(i as int));
        assert(pv.take(i as int + 1).last() == parts@[i as int]@);
        if i > 0 {
            append_chars(&mut out, sep);
        } else {
            assert(pv.take(1) =~= seq![parts@[0]@]);
        }
        append_chars(&mut out, &parts[i]);
        i += 1;
    }
    assert(parts.deep_view().take(parts.len() as int) == parts.deep_view());
    out
}


/// `str::trim_start` on characters.
pub fn trim_start_vec(v: &[char]) -> (r: Vec<char>)
    ensures
        r@ == trim_start(v@),
{
    let a = trim_start_bound(v);
    slice_vec(v, a, v.len())
}

/// Total number of characters of a list of lines.
pub open spec fn sum_lens(ls: Seq<Seq<char>>) -> int
    decreases ls.len(),
{
    if ls.len() == 0 {
        0
    } else {
        ls[0].len() + sum_lens(ls.skip(1))
    }
}

pub proof fn lemma_sum_lens_skip(ls: Seq<Seq<char>>, j: int)
    requires
        0 <= j <= ls.len(),
    ensures
        0 <= sum_lens(ls.skip(j)) <= sum_lens(ls),
        j < ls.len() ==> sum_lens(ls.skip(j)) == ls[j].len() + sum_lens(ls.skip(j + 1)),
    decreases j,
{
    if j < ls.len() {
        assert(ls.skip(j).skip(1) =~= ls.skip(j + 1));
    }
    if j == 0 {
        assert(ls.skip(0) =~= ls);
        lemma_sum_lens_nonneg(ls);
    } else {
        lemma_sum_lens_skip(ls, j - 1);
        assert(ls.skip(j - 1).skip(1) =~= ls.skip(j));
        lemma_sum_lens_nonneg(ls.skip(j));
    }
}

pub proof fn lemma_sum_lens_nonneg(ls: Seq<Seq<char>>)
    ensures
        sum_lens(ls) >= 0,
    decreases ls.len(),
{
    if ls.len() > 0 {
        lemma_sum_lens_nonneg(ls.skip(1));
    }
}

/// The lines of `s` hold no more characters than `s`.
pub proof fn lemma_lines_sum_lens(s: Seq<char>)
    ensures
        sum_lens(lines(s)) <= s.len(),
    decreases s.len(),
{
    if s.len() > 0 {
        lemma_index_of(s, '\n');
        match index_of(s, '\n') {
            None => {
                assert(lines(s) == seq![s]);
                assert(seq![s].skip(1) =~= Seq::<Seq<char>>::empty());
                assert(sum_lens(seq![s]) == s.len() + sum_lens(Seq::<Seq<char>>::empty()));
            },
            Some(i) => {
                lemma_lines_sum_lens(s.skip(i + 1));
                let l0 = strip_cr(s.take(i));
                let rest = lines(s.skip(i + 1));
                let all = seq![l0] + rest;
                assert(lines(s) == all);
                assert(all.skip(1) =~= rest);
                assert(all[0] == l0);
                assert(l0.len() <= i);
                assert(sum_lens(all) == l0.len() + sum_lens(rest));
            },
        }
    }
}


/// What `str::to_lowercase` returns for `s` (full Unicode case mapping).
pub uninterp spec fn lowercase(s: Seq<char>) -> Seq<char>;

/// `str::to_lowercase` (std): Unicode lowercase mapping of `s`, a function of `s`
/// alone; the mapping tables are not restated here, only that on ASCII text
/// it lowers `A`..`Z` and keeps every other character (the Unicode lowercase
/// mapping of ASCII characters).
#[verifier::external_body]
pub(crate) fn to_lowercase(s: &str) -> (r: String)
    ensures
        r@ == lowercase(s@),
        is_ascii_text(s@) ==> r@ == s@.map_values(|c: char| ascii_lower_char(c)),
{
    s.to_lowercase()
}

/// `std::str::from_utf8` (std): the text of `bytes` when they are valid UTF-8,
/// `None` otherwise.
#[verifier::external_body]
pub(crate) fn utf8_text(bytes: &[u8]) -> (r: Option<String>)
    ensures
        r is Some <==> vstd::utf8::valid_utf8(bytes@),
        r matches Some(t) ==> t@ == vstd::utf8::decode_utf8(bytes@),
{
    std::str::from_utf8(bytes).ok().map(|t| t.to_string())
}

/// Text before the first `c` (`str::split(c).next()`).
pub open spec fn before_char(s: Seq<char>, c: char) -> Seq<char> {
    match index_of(s, c) {
        Some(i) => s.take(i),
        None => s,
    }
}

pub fn before_char_exec(v: &[char], c: char) -> (r: Vec<char>)
    ensures
        r@ == before_char(v@, c),
{
    match index_of_from(v, c, 0) {
        Some(i) => {
            proof {
                lemma_index_of_unique(v@, c, i as int);
            }
            slice_vec(v, 0, i)
        },
        None => {
            proof {
                lemma_index_of_none(v@, c);
            }
            slice_vec(v, 0, v.len())
        },
    }
}

/// Numeric value of a run of ASCII digits.
pub open spec fn digits_value(d: Seq<char>) -> int
    decreases d.len(),
{
    if d.len() == 0 {
        0
    } else {
        digits_value(d.drop_last()) * 10 + (d.last() as int - '0' as int)
    }
}

/// `u32::from_str`: optional `+`, then at least one ASCII digit, value in range.
pub open spec fn parse_u32(s: Seq<char>) -> Option<u32> {
    let d = if s.len() > 0 && s[0] == '+' {
        s.skip(1)
    } else {
        s
    };
    if d.len() == 0 || !all_chars(d, |c: char| is_ascii_digit(c)) || digits_value(d) > u32::MAX {
        None
    } else {
        Some(digits_value(d) as u32)
    }
}

pub proof fn lemma_digits_value_mono(d: Seq<char>, k: int)
    requires
        0 <= k <= d.len(),
        all_chars(d, |c: char| is_ascii_digit(c)),
    ensures
        0 <= digits_value(d.take(k)) <= digits_value(d),
    decreases d.len() - k,
{
    if k < d.len() {
        lemma_digits_value_mono(d, k + 1);
        assert(d.take(k + 1).drop_last() =~= d.take(k));
        assert(is_ascii_digit(d[k]));
    } else {
        assert(d.take(k) =~= d);
        lemma_digits_value_nonneg(d);
    }
}

pub proof fn lemma_digits_value_nonneg(d: Seq<char>)
    requires
        all_chars(d, |c: char| is_ascii_digit(c)),
    ensures
        digits_value(d) >= 0,
    decreases d.len(),
{
    if d.len() > 0 {
        assert(is_ascii_digit(d.last()));
        lemma_digits_value_nonneg(d.drop_last());
    }
}

/// `u32::from_str` on characters.
pub fn parse_u32_exec(v: &[char]) -> (r: Option<u32>)
    ensures
        r == parse_u32(v@),
{
    let start: usize = if v.len() > 0 && v[0] == '+' {
        1
    } else {
        0
    };
    let ghost d = if v@.len() > 0 && v@[0] == '+' {
        v@.skip(1)
    } else {
        v@
    };
    assert(d == v@.skip(start as int));
    if v.len() == start {
        return None;
    }
    let mut k: usize = start;
    while k < v.len()
        invariant
            start <= k <= v.len(),
            d == v@.skip(start as int),
            d == (if v@.len() > 0 && v@[0] == '+' {
                v@.skip(1)
            } else {
                v@
            }),
            forall|j: int| start <= j < k ==> is_ascii_digit(#[trigger] v@[j]),
        decreases v.len() - k,
    {
        if !('0' <= v[k] && v[k] <= '9') {
            assert(d[k - start] == v@[k as int]);
            assert(!is_ascii_digit(d[k - start]));
            assert(!all_chars(d, |c: char| is_ascii_digit(c)));
            return None;
        }
        k += 1;
    }
    assert(all_chars(d, |c: char| is_ascii_digit(c))) by {
        assert forall|j: int| 0 <= j < d.len() implies is_ascii_digit(#[trigger] d[j]) by {
            assert(d[j] == v@[start + j]);
        }
    }
    let mut acc: u64 = 0;
    let mut i: usize = start;
    assert(d.take(0) =~= Seq::<char>::empty());
    while i < v.len()
        invariant
            start <= i <= v.len(),
            d == v@.skip(start as int),
            d == (if v@.len() > 0 && v@[0] == '+' {
                v@.skip(1)
            } else {
                v@
            }),
            all_chars(d, |c: char| is_ascii_digit(c)),
            acc == digits_value(d.take(i - start)),
            acc <= u32::MAX,
        decreases v.len() - i,
    {
        assert(d.take(i - start + 1).drop_last() =~= d.take(i - start));
        assert(d.take(i - start + 1).last() == v@[i as int]);
        assert(is_ascii_digit(d[i - start]));
        let digit = (v[i] as u32 - '0' as u32) as u64;
        acc = acc * 10 + digit;
        assert(acc == digits_value(d.take(i - start + 1)));
        if acc > 0xffff_ffff {
            proof {
                lemma_digits_value_mono(d, i - start + 1);
            }
            return None;
        }
        i += 1;
    }
    assert(d.take(v.len() - start) =~= d);
    Some(acc as u32)
}


/// `str::split(c)`: the pieces between occurrences of `c`.
pub open spec fn split_char(s: Seq<char>, c: char) -> Seq<Seq<char>>
    decreases s.len(),
{
    match index_of(s, c) {
        None => seq![s],
        Some(i) => if 0 <= i < s.len() {
            seq![s.take(i)] + split_char(s.skip(i + 1), c)
        } else {
            seq![]
        },
    }
}

/// `str::split(c)` on characters.
pub fn split_char_exec(v: &[char], c: char) -> (r: Vec<Vec<char>>)
    ensures
        r.deep_view() == split_char(v@, c),
{
    let mut out: Vec<Vec<char>> = Vec::new();
    let mut start: usize = 0;
    assert(v@.skip(0) =~= v@);
    assert(out.deep_view() + split_char(v@, c) =~= split_char(v@, c));
    loop
        invariant
            start <= v.len(),
            out.deep_view() + split_char(v@.skip(start as int), c) == split_char(v@, c),
        decreases v.len() - start,
    {
        let ghost rest = v@.skip(start as int);
        let ghost out0 = out.deep_view();
        match index_of_from(v, c, start) {
            Some(i) => {
                proof {
                    lemma_index_of_unique(rest, c, i - start);
                    assert(rest.take(i - start) == v@.subrange(start as int, i as int));
                    assert(rest.skip(i - start + 1) == v@.skip(i + 1));
                }
                let piece = slice_vec(v, start, i);
                let ghost pv = piece@;
                proof {
                    lemma_deep_chars(&piece);
                }
                out.push(piece);
                assert(out.deep_view() =~= out0.push(pv)) by {
                    assert forall|k: int| 0 <= k < out0.len() implies out.deep_view()[k]
                        == out0[k] by {}
                }
                assert(out.deep_view() + split_char(v@.skip(i + 1), c) =~= out0 + split_char(
                    rest,
                    c,
                ));
                start = i + 1;
            },
            None => {
                proof {
                    lemma_index_of_none(rest, c);
                }
                let piece = slice_vec(v, start, v.len());
                let ghost pv = piece@;
                proof {
                    lemma_deep_chars(&piece);
                }
                out.push(piece);
                assert(out.deep_view() =~= out0.push(pv)) by {
                    assert forall|k: int| 0 <= k < out0.len() implies out.deep_view()[k]
                        == out0[k] by {}
                }
                assert(out.deep_view() =~= out0 + split_char(rest, c));
                return out;
            },
        }
    }
}


/// Characters of an optional string.
pub open spec fn opt_str(o: Option<String>) -> Option<Seq<char>> {
    match o {
        Some(x) => Some(x@),
        None => None,
    }
}


/// ASCII digit of a value below ten.
pub open spec fn digit_char(d: nat) -> char {
    if d == 0 {
        '0'
    } else if d == 1 {
        '1'
    } else if d == 2 {
        '2'
    } else if d == 3 {
        '3'
    } else if d == 4 {
        '4'
    } else if d == 5 {
        '5'
    } else if d == 6 {
        '6'
    } else if d == 7 {
        '7'
    } else if d == 8 {
        '8'
    } else {
        '9'
    }
}

/// Decimal representation of `n` (as `Display` prints an unsigned integer).
pub open spec fn decimal(n: nat) -> Seq<char>
    decreases n,
{
    if n < 10 {
        seq![digit_char(n)]
    } else {
        decimal(n / 10).push(digit_char(n % 10))
    }
}

fn digit_char_exec(d: u64) -> (c: char)
    requires
        d < 10,
    ensures
        c == digit_char(d as nat),
{
    if d == 0 {
        '0'
    } else if d == 1 {
        '1'
    } else if d == 2 {
        '2'
    } else if d == 3 {
        '3'
    } else if d == 4 {
        '4'
    } else if d == 5 {
        '5'
    } else if d == 6 {
        '6'
    } else if d == 7 {
        '7'
    } else if d == 8 {
        '8'
    } else {
        '9'
    }
}

/// Decimal digits of `n`.
pub fn decimal_exec(n: u64) -> (r: Vec<char>)
    ensures
        r@ == decimal(n as nat),
    decreases n,
{
    if n < 10 {
        let r = vec![digit_char_exec(n)];
        assert(r@ =~= seq![digit_char(n as nat)]);
        r
    } else {
        let mut v = decimal_exec(n / 10);
        v.push(digit_char_exec(n % 10));
        v
    }
}


/// What `str::to_uppercase` returns for `s` (full Unicode case mapping).
pub uninterp spec fn uppercase(s: Seq<char>) -> Seq<char>;

/// `str::to_uppercase` (std): Unicode uppercase mapping of `s`, a function of
/// `s` alone; the mapping tables are not restated here, only that on ASCII
/// text it raises `a`..`z` and keeps every other character (the Unicode
/// uppercase mapping of ASCII characters).
#[verifier::external_body]
pub(crate) fn to_uppercase(s: &str) -> (r: String)
    ensures
        r@ == uppercase(s@),
        is_ascii_text(s@) ==> r@ == s@.map_values(|c: char| ascii_upper_char(c)),
{
    s.to_uppercase()
}

/// Whether `char::is_alphanumeric` holds (Unicode `Alphabetic` or `Numeric`).
pub uninterp spec fn unicode_alphanumeric(c: char) -> bool;

/// `char::is_alphanumeric` (std): Unicode alphabetic or numeric; the property
/// tables are not restated here, only that among ASCII characters exactly the
/// letters and digits qualify.
#[verifier::external_body]
pub(crate) fn char_is_alphanumeric(c: char) -> (r: bool)
    ensures
        r == unicode_alphanumeric(c),
        is_ascii_alnum(c) ==> r,
        (c as u32) < 128 && !is_ascii_alnum(c) ==> !r,
{
    c.is_alphanumeric()
}

/// ASCII lowercase of one character (`char::to_ascii_lowercase`).
pub open spec fn ascii_lower_char(c: char) -> char {
    if is_ascii_upper(c) {
        ((c as u32) + 32) as char
    } else {
        c
    }
}

/// ASCII uppercase of one character (`char::to_ascii_uppercase`).
pub open spec fn ascii_upper_char(c: char) -> char {
    if is_ascii_lower(c) {
        ((c as u32) - 32) as char
    } else {
        c
    }
}

/// Every character is ASCII.
pub open spec fn is_ascii_text(s: Seq<char>) -> bool {
    forall|i: int| 0 <= i < s.len() ==> (#[trigger] s[i] as u32) < 128
}

/// Number of UTF-8 bytes of a character.
pub open spec fn utf8_width(c: char) -> nat {
    if (c as u32) < 0x80 {
        1
    } else if (c as u32) < 0x800 {
        2
    } else if (c as u32) < 0x10000 {
        3
    } else {
        4
    }
}

/// Length of `s` in UTF-8 bytes (`str::len`).
pub open spec fn utf8_len(s: Seq<char>) -> nat
    decreases s.len(),
{
    if s.len() == 0 {
        0
    } else {
        utf8_len(s.drop_last()) + utf8_width(s.last())
    }
}

/// UTF-8 byte length of `v`, or `None` once it exceeds `cap`.
pub fn utf8_len_capped(v: &[char], cap: usize) -> (r: Option<usize>)
    ensures
        match r {
            Some(n) => n == utf8_len(v@) && n <= cap,
            None => utf8_len(v@) > cap,
        },
{
    let mut n: usize = 0;
    let mut i: usize = 0;
    assert(v@.take(0) =~= Seq::<char>::empty());
    while i < v.len()
        invariant
            i <= v.len(),
            n == utf8_len(v@.take(i as int)),
            n <= cap,
        decreases v.len() - i,
    {
        assert(v@.take(i as int + 1).drop_last() =~= v@.take(i as int));
        let c = v[i] as u32;
        let w: usize = if c < 0x80 {
            1
        } else if c < 0x800 {
            2
        } else if c < 0x10000 {
            3
        } else {
            4
        };
        if w > cap - n {
            proof {
                lemma_utf8_len_prefix(v@, i as int + 1);
            }
            return None;
        }
        n = n + w;
        i += 1;
    }
    assert(v@.take(v.len() as int) =~= v@);
    Some(n)
}

pub proof fn lemma_utf8_len_prefix(s: Seq<char>, k: int)
    requires
        0 <= k <= s.len(),
    ensures
        utf8_len(s.take(k)) <= utf8_len(s),
    decreases s.len() - k,
{
    if k < s.len() {
        lemma_utf8_len_prefix(s, k + 1);
        assert(s.take(k + 1).drop_last() =~= s.take(k));
    } else {
        assert(s.take(k) =~= s);
    }
}

} // verus!
