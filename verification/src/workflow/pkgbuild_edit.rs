//! Field-level reading and merging of `PKGBUILD` text.
//!
//! The quick editor reads and rewrites the `# Maintainer:` comment and a fixed
//! set of `key=value` assignments (bash arrays may span several lines; saving
//! collapses them to one line). Everything here is pure text manipulation.
use vstd::prelude::*;

use crate::text::{
    opt_str,
    all_chars, append_chars, char_is_ascii_alnum, char_is_ascii_ws, char_is_ws, chars_of,
    contains, ends_with, eq_chars, index_of, index_of_from, is_ascii_alnum, is_ascii_ws, is_ws,
    join, join_exec, lemma_deep_chars, lemma_index_of, lemma_index_of_none, lemma_index_of_unique,
    lemma_skip_while, lemma_skip_while_unique, lemma_trim_end_len_bounds,
    lemma_trim_start_len_bounds, lines, lines_exec, replace_all, replace_all_exec, skip_while,
    skip_ws_exec, slice_vec, split_ws, split_ws_exec, starts_with, starts_with_exec, string_of,
    trim, trim_start_vec, sum_lens, lemma_sum_lens_skip, lemma_lines_sum_lens,
    trim_bounds, trim_end, trim_end_bound, trim_end_len, trim_start, trim_start_bound,
    trim_start_len, trim_vec, ws_pred, concat_lines, nl,
};

verus! {

/// A field of the quick editor: `Some` when present / to be written.
pub type FieldsModel = Seq<Option<Seq<char>>>;

/// Number of quick-editor fields.
pub const FIELD_COUNT: usize = 14;

/// Characters allowed in an assignment key.
pub open spec fn is_key_char(c: char) -> bool {
    is_ascii_alnum(c) || c == '_'
}

/// Assignment key written for field `n` (`n >= 1`; field 0 is the maintainer comment).
pub open spec fn field_key(n: int) -> Seq<char> {
    if n == 1 {
        "pkgname"@
    } else if n == 2 {
        "pkgver"@
    } else if n == 3 {
        "pkgrel"@
    } else if n == 4 {
        "pkgdesc"@
    } else if n == 5 {
        "arch"@
    } else if n == 6 {
        "url"@
    } else if n == 7 {
        "license"@
    } else if n == 8 {
        "depends"@
    } else if n == 9 {
        "makedepends"@
    } else if n == 10 {
        "optdepends"@
    } else if n == 11 {
        "conflicts"@
    } else if n == 12 {
        "provides"@
    } else {
        "source"@
    }
}

/// Field index of an assignment key, if the quick editor knows it.
pub open spec fn field_of_key(key: Seq<char>) -> Option<int> {
    if key == "pkgname"@ {
        Some(1)
    } else if key == "pkgver"@ {
        Some(2)
    } else if key == "pkgrel"@ {
        Some(3)
    } else if key == "pkgdesc"@ {
        Some(4)
    } else if key == "arch"@ {
        Some(5)
    } else if key == "url"@ {
        Some(6)
    } else if key == "license"@ {
        Some(7)
    } else if key == "depends"@ {
        Some(8)
    } else if key == "makedepends"@ {
        Some(9)
    } else if key == "optdepends"@ {
        Some(10)
    } else if key == "conflicts"@ {
        Some(11)
    } else if key == "provides"@ {
        Some(12)
    } else if key == "source"@ {
        Some(13)
    } else {
        None
    }
}

/// Each quick field is read from and written to its own PKGBUILD variable:
/// the field of the `makedepends` tokens is the one a `makedepends=` line
/// sets and the one the merge writes as a `makedepends=` line, and likewise
/// `pkgname`, `pkgver`, `pkgrel`, `pkgdesc`, `arch`, `url`, `license`,
/// `depends`, `optdepends`, `conflicts`, `provides` and `source`; the
/// maintainer comment (field 0) is the only field without a variable.
pub proof fn law_field_variables(f: PkgbuildQuickFields)
    ensures
        f@.len() == FIELD_COUNT,
        f@[0] == opt_str(f.maintainer_comment),
        field_key(1) == "pkgname"@ && field_of_key("pkgname"@) == Some(1int) && f@[1] == opt_str(f.pkgname),
        field_key(2) == "pkgver"@ && field_of_key("pkgver"@) == Some(2int) && f@[2] == opt_str(f.pkgver),
        field_key(3) == "pkgrel"@ && field_of_key("pkgrel"@) == Some(3int) && f@[3] == opt_str(f.pkgrel),
        field_key(4) == "pkgdesc"@ && field_of_key("pkgdesc"@) == Some(4int) && f@[4] == opt_str(f.pkgdesc),
        field_key(5) == "arch"@ && field_of_key("arch"@) == Some(5int) && f@[5] == opt_str(f.arch_tokens),
        field_key(6) == "url"@ && field_of_key("url"@) == Some(6int) && f@[6] == opt_str(f.url),
        field_key(7) == "license"@ && field_of_key("license"@) == Some(7int) && f@[7] == opt_str(f.license_tokens),
        field_key(8) == "depends"@ && field_of_key("depends"@) == Some(8int) && f@[8] == opt_str(f.depends_tokens),
        field_key(9) == "makedepends"@ && field_of_key("makedepends"@) == Some(9int) && f@[9] == opt_str(f.makedepends_tokens),
        field_key(10) == "optdepends"@ && field_of_key("optdepends"@) == Some(10int) && f@[10] == opt_str(f.optdepends_tokens),
        field_key(11) == "conflicts"@ && field_of_key("conflicts"@) == Some(11int) && f@[11] == opt_str(f.conflicts_tokens),
        field_key(12) == "provides"@ && field_of_key("provides"@) == Some(12int) && f@[12] == opt_str(f.provides_tokens),
        field_key(13) == "source"@ && field_of_key("source"@) == Some(13int) && f@[13] == opt_str(f.source_tokens),
        forall|k: Seq<char>| #[trigger] field_of_key(k) matches Some(n) ==> 1 <= n < FIELD_COUNT && field_key(n) == k,
{
    reveal_strlit("pkgname");
    reveal_strlit("pkgver");
    reveal_strlit("pkgrel");
    reveal_strlit("pkgdesc");
    reveal_strlit("arch");
    reveal_strlit("url");
    reveal_strlit("license");
    reveal_strlit("depends");
    reveal_strlit("makedepends");
    reveal_strlit("optdepends");
    reveal_strlit("conflicts");
    reveal_strlit("provides");
    reveal_strlit("source");
    assert(field_of_key("pkgname"@) == Some(1int));
    assert("pkgver"@ != "pkgname"@) by { assert("pkgver"@.len() != "pkgname"@.len()); }
    assert(field_of_key("pkgver"@) == Some(2int));
    assert("pkgrel"@ != "pkgname"@) by { assert("pkgrel"@.len() != "pkgname"@.len()); }
    assert("pkgrel"@ != "pkgver"@) by { assert("pkgrel"@[3] != "pkgver"@[3]); }
    assert(field_of_key("pkgrel"@) == Some(3int));
    assert("pkgdesc"@ != "pkgname"@) by { assert("pkgdesc"@[3] != "pkgname"@[3]); }
    assert("pkgdesc"@ != "pkgver"@) by { assert("pkgdesc"@.len() != "pkgver"@.len()); }
    assert("pkgdesc"@ != "pkgrel"@) by { assert("pkgdesc"@.len() != "pkgrel"@.len()); }
    assert(field_of_key("pkgdesc"@) == Some(4int));
    assert("arch"@ != "pkgname"@) by { assert("arch"@.len() != "pkgname"@.len()); }
    assert("arch"@ != "pkgver"@) by { assert("arch"@.len() != "pkgver"@.len()); }
    assert("arch"@ != "pkgrel"@) by { assert("arch"@.len() != "pkgrel"@.len()); }
    assert("arch"@ != "pkgdesc"@) by { assert("arch"@.len() != "pkgdesc"@.len()); }
    assert(field_of_key("arch"@) == Some(5int));
    assert("url"@ != "pkgname"@) by { assert("url"@.len() != "pkgname"@.len()); }
    assert("url"@ != "pkgver"@) by { assert("url"@.len() != "pkgver"@.len()); }
    assert("url"@ != "pkgrel"@) by { assert("url"@.len() != "pkgrel"@.len()); }
    assert("url"@ != "pkgdesc"@) by { assert("url"@.len() != "pkgdesc"@.len()); }
    assert("url"@ != "arch"@) by { assert("url"@.len() != "arch"@.len()); }
    assert(field_of_key("url"@) == Some(6int));
    assert("license"@ != "pkgname"@) by { assert("license"@[0] != "pkgname"@[0]); }
    assert("license"@ != "pkgver"@) by { assert("license"@.len() != "pkgver"@.len()); }
    assert("license"@ != "pkgrel"@) by { assert("license"@.len() != "pkgrel"@.len()); }
    assert("license"@ != "pkgdesc"@) by { assert("license"@[0] != "pkgdesc"@[0]); }
    assert("license"@ != "arch"@) by { assert("license"@.len() != "arch"@.len()); }
    assert("license"@ != "url"@) by { assert("license"@.len() != "url"@.len()); }
    assert(field_of_key("license"@) == Some(7int));
    assert("depends"@ != "pkgname"@) by { assert("depends"@[0] != "pkgname"@[0]); }
    assert("depends"@ != "pkgver"@) by { assert("depends"@.len() != "pkgver"@.len()); }
    assert("depends"@ != "pkgrel"@) by { assert("depends"@.len() != "pkgrel"@.len()); }
    assert("depends"@ != "pkgdesc"@) by { assert("depends"@[0] != "pkgdesc"@[0]); }
    assert("depends"@ != "arch"@) by { assert("depends"@.len() != "arch"@.len()); }
    assert("depends"@ != "url"@) by { assert("depends"@.len() != "url"@.len()); }
    assert("depends"@ != "license"@) by { assert("depends"@[0] != "license"@[0]); }
    assert(field_of_key("depends"@) == Some(8int));
    assert("makedepends"@ != "pkgname"@) by { assert("makedepends"@.len() != "pkgname"@.len()); }
    assert("makedepends"@ != "pkgver"@) by { assert("makedepends"@.len() != "pkgver"@.len()); }
    assert("makedepends"@ != "pkgrel"@) by { assert("makedepends"@.len() != "pkgrel"@.len()); }
    assert("makedepends"@ != "pkgdesc"@) by { assert("makedepends"@.len() != "pkgdesc"@.len()); }
    assert("makedepends"@ != "arch"@) by { assert("makedepends"@.len() != "arch"@.len()); }
    assert("makedepends"@ != "url"@) by { assert("makedepends"@.len() != "url"@.len()); }
    assert("makedepends"@ != "license"@) by { assert("makedepends"@.len() != "license"@.len()); }
    assert("makedepends"@ != "depends"@) by { assert("makedepends"@.len() != "depends"@.len()); }
    assert(field_of_key("makedepends"@) == Some(9int));
    assert("optdepends"@ != "pkgname"@) by { assert("optdepends"@.len() != "pkgname"@.len()); }
    assert("optdepends"@ != "pkgver"@) by { assert("optdepends"@.len() != "pkgver"@.len()); }
    assert("optdepends"@ != "pkgrel"@) by { assert("optdepends"@.len() != "pkgrel"@.len()); }
    assert("optdepends"@ != "pkgdesc"@) by { assert("optdepends"@.len() != "pkgdesc"@.len()); }
    assert("optdepends"@ != "arch"@) by { assert("optdepends"@.len() != "arch"@.len()); }
    assert("optdepends"@ != "url"@) by { assert("optdepends"@.len() != "url"@.len()); }
    assert("optdepends"@ != "license"@) by { assert("optdepends"@.len() != "license"@.len()); }
    assert("optdepends"@ != "depends"@) by { assert("optdepends"@.len() != "depends"@.len()); }
    assert("optdepends"@ != "makedepends"@) by { assert("optdepends"@.len() != "makedepends"@.len()); }
    assert(field_of_key("optdepends"@) == Some(10int));
    assert("conflicts"@ != "pkgname"@) by { assert("conflicts"@.len() != "pkgname"@.len()); }
    assert("conflicts"@ != "pkgver"@) by { assert("conflicts"@.len() != "pkgver"@.len()); }
    assert("conflicts"@ != "pkgrel"@) by { assert("conflicts"@.len() != "pkgrel"@.len()); }
    assert("conflicts"@ != "pkgdesc"@) by { assert("conflicts"@.len() != "pkgdesc"@.len()); }
    assert("conflicts"@ != "arch"@) by { assert("conflicts"@.len() != "arch"@.len()); }
    assert("conflicts"@ != "url"@) by { assert("conflicts"@.len() != "url"@.len()); }
    assert("conflicts"@ != "license"@) by { assert("conflicts"@.len() != "license"@.len()); }
    assert("conflicts"@ != "depends"@) by { assert("conflicts"@.len() != "depends"@.len()); }
    assert("conflicts"@ != "makedepends"@) by { assert("conflicts"@.len() != "makedepends"@.len()); }
    assert("conflicts"@ != "optdepends"@) by { assert("conflicts"@.len() != "optdepends"@.len()); }
    assert(field_of_key("conflicts"@) == Some(11int));
    assert("provides"@ != "pkgname"@) by { assert("provides"@.len() != "pkgname"@.len()); }
    assert("provides"@ != "pkgver"@) by { assert("provides"@.len() != "pkgver"@.len()); }
    assert("provides"@ != "pkgrel"@) by { assert("provides"@.len() != "pkgrel"@.len()); }
    assert("provides"@ != "pkgdesc"@) by { assert("provides"@.len() != "pkgdesc"@.len()); }
    assert("provides"@ != "arch"@) by { assert("provides"@.len() != "arch"@.len()); }
    assert("provides"@ != "url"@) by { assert("provides"@.len() != "url"@.len()); }
    assert("provides"@ != "license"@) by { assert("provides"@.len() != "license"@.len()); }
    assert("provides"@ != "depends"@) by { assert("provides"@.len() != "depends"@.len()); }
    assert("provides"@ != "makedepends"@) by { assert("provides"@.len() != "makedepends"@.len()); }
    assert("provides"@ != "optdepends"@) by { assert("provides"@.len() != "optdepends"@.len()); }
    assert("provides"@ != "conflicts"@) by { assert("provides"@.len() != "conflicts"@.len()); }
    assert(field_of_key("provides"@) == Some(12int));
    assert("source"@ != "pkgname"@) by { assert("source"@.len() != "pkgname"@.len()); }
    assert("source"@ != "pkgver"@) by { assert("source"@[0] != "pkgver"@[0]); }
    assert("source"@ != "pkgrel"@) by { assert("source"@[0] != "pkgrel"@[0]); }
    assert("source"@ != "pkgdesc"@) by { assert("source"@.len() != "pkgdesc"@.len()); }
    assert("source"@ != "arch"@) by { assert("source"@.len() != "arch"@.len()); }
    assert("source"@ != "url"@) by { assert("source"@.len() != "url"@.len()); }
    assert("source"@ != "license"@) by { assert("source"@.len() != "license"@.len()); }
    assert("source"@ != "depends"@) by { assert("source"@.len() != "depends"@.len()); }
    assert("source"@ != "makedepends"@) by { assert("source"@.len() != "makedepends"@.len()); }
    assert("source"@ != "optdepends"@) by { assert("source"@.len() != "optdepends"@.len()); }
    assert("source"@ != "conflicts"@) by { assert("source"@.len() != "conflicts"@.len()); }
    assert("source"@ != "provides"@) by { assert("source"@.len() != "provides"@.len()); }
    assert(field_of_key("source"@) == Some(13int));
}

/// Fields stored as bash arrays.
pub open spec fn is_array_field(n: int) -> bool {
    n == 5 || (7 <= n <= 13)
}

/// Keys whose value is a bash array that may span several lines.
pub open spec fn is_quick_array_key(key: Seq<char>) -> bool {
    match field_of_key(key) {
        Some(n) => is_array_field(n),
        None => false,
    }
}

/// `"…"` / `'…'` stripping; `None` on a lone quote (a one-character quoted value).
pub open spec fn strip_outer_quotes(s: Seq<char>) -> Option<Seq<char>> {
    if s.len() > 0 && ((s[0] == '"' && s.last() == '"') || (s[0] == '\'' && s.last() == '\'')) {
        if s.len() == 1 {
            None
        } else {
            Some(trim(s.subrange(1, s.len() - 1)))
        }
    } else {
        Some(s)
    }
}

/// `key=value` split of a (left-trimmed) line; the value is left-trimmed.
pub open spec fn parse_simple_assignment(line: Seq<char>) -> Option<(Seq<char>, Seq<char>)> {
    if line.len() > 0 && line[0] == '#' {
        None
    } else {
        match index_of(line, '=') {
            None => None,
            Some(idx) => {
                let key = trim_end(line.take(idx));
                if all_chars(key, |c: char| is_key_char(c)) {
                    Some((key, trim_start(line.skip(idx + 1))))
                } else {
                    None
                }
            },
        }
    }
}

/// Net `(` minus `)` count from position `i` in quote state `q`
/// (0: unquoted, 1: single quotes, 2: double quotes with `\` escapes).
pub open spec fn paren_walk(s: Seq<char>, i: int, q: int) -> int
    decreases s.len() - i,
{
    if i < 0 || i >= s.len() {
        0
    } else {
        let c = s[i];
        if q == 1 {
            if c == '\'' {
                paren_walk(s, i + 1, 0)
            } else {
                paren_walk(s, i + 1, 1)
            }
        } else if q == 2 {
            if c == '\\' {
                if s.len() - i <= 2 {
                    0
                } else {
                    paren_walk(s, i + 2, 2)
                }
            } else if c == '"' {
                paren_walk(s, i + 1, 0)
            } else {
                paren_walk(s, i + 1, 2)
            }
        } else if c == '\'' {
            paren_walk(s, i + 1, 1)
        } else if c == '"' {
            paren_walk(s, i + 1, 2)
        } else if c == '(' {
            1 + paren_walk(s, i + 1, 0)
        } else if c == ')' {
            -1 + paren_walk(s, i + 1, 0)
        } else {
            paren_walk(s, i + 1, 0)
        }
    }
}

/// Net unquoted parenthesis depth change of a line.
pub open spec fn paren_delta(s: Seq<char>) -> int {
    paren_walk(s, 0, 0)
}

pub proof fn lemma_paren_walk_bound(s: Seq<char>, i: int, q: int)
    requires
        0 <= i,
    ensures
        -(s.len() - i) <= paren_walk(s, i, q) <= s.len() - i || i >= s.len(),
        i >= s.len() ==> paren_walk(s, i, q) == 0,
    decreases s.len() - i,
{
    if i < s.len() {
        let c = s[i];
        if q == 2 && c == '\\' {
            if i + 2 < s.len() {
                lemma_paren_walk_bound(s, i + 2, 2);
            }
        } else {
            lemma_paren_walk_bound(s, i + 1, 0);
            lemma_paren_walk_bound(s, i + 1, 1);
            lemma_paren_walk_bound(s, i + 1, 2);
        }
    }
}

/// End of a double-quoted token whose body starts at `i`.
pub open spec fn dq_end(s: Seq<char>, i: int) -> int
    decreases s.len() - i,
{
    if i < 0 || i >= s.len() {
        if i < 0 {
            0
        } else {
            s.len() as int
        }
    } else if s[i] == '\\' {
        if i + 2 >= s.len() {
            s.len() as int
        } else {
            dq_end(s, i + 2)
        }
    } else if s[i] == '"' {
        i + 1
    } else {
        dq_end(s, i + 1)
    }
}

pub open spec fn ascii_ws_pred() -> spec_fn(char) -> bool {
    |c: char| is_ascii_ws(c)
}

pub open spec fn non_ascii_ws_pred() -> spec_fn(char) -> bool {
    |c: char| !is_ascii_ws(c)
}

pub open spec fn not_squote_pred() -> spec_fn(char) -> bool {
    |c: char| c != '\''
}

/// End of the bash array token starting at `a`.
pub open spec fn token_end(s: Seq<char>, a: int) -> int {
    if s[a] == '\'' {
        let j = skip_while(s, a + 1, not_squote_pred());
        if j < s.len() {
            j + 1
        } else {
            j
        }
    } else if s[a] == '"' {
        dq_end(s, a + 1)
    } else {
        skip_while(s, a, non_ascii_ws_pred())
    }
}

pub proof fn lemma_dq_end(s: Seq<char>, i: int)
    requires
        0 <= i,
    ensures
        i <= s.len() ==> i <= dq_end(s, i) <= s.len(),
        i > s.len() ==> dq_end(s, i) == s.len(),
    decreases s.len() - i,
{
    if i < s.len() {
        if s[i] == '\\' {
            if i + 2 < s.len() {
                lemma_dq_end(s, i + 2);
            }
        } else if s[i] != '"' {
            lemma_dq_end(s, i + 1);
        }
    }
}

pub proof fn lemma_token_end(s: Seq<char>, a: int)
    requires
        0 <= a < s.len(),
        !is_ascii_ws(s[a]),
    ensures
        a < token_end(s, a) <= s.len(),
{
    if s[a] == '\'' {
        lemma_skip_while(s, a + 1, not_squote_pred());
    } else if s[a] == '"' {
        lemma_dq_end(s, a + 1);
    } else {
        lemma_skip_while(s, a, non_ascii_ws_pred());
    }
}

/// Bash array body split on ASCII whitespace outside quotes, from position `i`.
pub open spec fn tokens_from(s: Seq<char>, i: int) -> Seq<Seq<char>>
    decreases s.len() - i,
{
    if i < 0 || i > s.len() {
        seq![]
    } else {
        let a = skip_while(s, i, ascii_ws_pred());
        if a >= s.len() || a < i {
            seq![]
        } else {
            let b = token_end(s, a);
            if b <= i || b > s.len() {
                seq![]
            } else {
                seq![s.subrange(a, b)] + tokens_from(s, b)
            }
        }
    }
}

/// Last index of `c`.
pub open spec fn last_index_of(s: Seq<char>, c: char) -> Option<int>
    decreases s.len(),
{
    if s.len() == 0 {
        None
    } else if s.last() == c {
        Some(s.len() - 1)
    } else {
        last_index_of(s.drop_last(), c)
    }
}

pub open spec fn paren_pred() -> spec_fn(char) -> bool {
    |c: char| c == '(' || c == ')'
}

/// Start index after trimming `f`-characters from the back, counted down from `j`.
pub open spec fn rskip_while(s: Seq<char>, j: int, f: spec_fn(char) -> bool) -> int
    decreases j,
{
    if j <= 0 || j > s.len() {
        if j <= 0 {
            0
        } else {
            s.len() as int
        }
    } else if f(s[j - 1]) {
        rskip_while(s, j - 1, f)
    } else {
        j
    }
}

/// `str::trim_matches` with a character predicate.
pub open spec fn trim_matches(s: Seq<char>, f: spec_fn(char) -> bool) -> Seq<char> {
    let a = skip_while(s, 0, f);
    let b = rskip_while(s, s.len() as int, f);
    if a < b {
        s.subrange(a, b)
    } else {
        seq![]
    }
}

/// Tokens with quotes stripped and empties dropped; `None` on a lone-quote token.
pub open spec fn clean_tokens(toks: Seq<Seq<char>>) -> Option<Seq<Seq<char>>>
    decreases toks.len(),
{
    if toks.len() == 0 {
        Some(seq![])
    } else {
        match clean_tokens(toks.drop_last()) {
            None => None,
            Some(acc) => match strip_outer_quotes(trim(toks.last())) {
                None => None,
                Some(x) => if x.len() == 0 {
                    Some(acc)
                } else {
                    Some(acc.push(x))
                },
            },
        }
    }
}

/// Space-separated display form of a bash array value.
pub open spec fn array_inner_tokens(inner: Seq<char>) -> Option<Seq<char>> {
    match clean_tokens(tokens_from(trim_matches(inner, paren_pred()), 0)) {
        None => None,
        Some(ts) => Some(join(ts, seq![' '])),
    }
}

pub open spec fn is_scalar_safe(c: char) -> bool {
    is_ascii_alnum(c) || c == '.' || c == '_' || c == '+' || c == '-' || c == ':' || c == '@'
        || c == '/' || c == '~'
}

/// Scalar right-hand side written by the quick editor.
pub open spec fn bash_quote_scalar(s: Seq<char>) -> Seq<char> {
    let t = trim(s);
    if t.len() == 0 {
        seq!['"', '"']
    } else if t[0] == '\'' || t[0] == '"' || t[0] == '(' || all_chars(t, |c: char| is_scalar_safe(c)) {
        t
    } else {
        seq!['"'] + replace_all(replace_all(t, seq!['\\'], seq!['\\', '\\']), seq!['"'], seq!['\\', '"'])
            + seq!['"']
    }
}

/// One array element as written by the quick editor.
pub open spec fn quote_array_part(p: Seq<char>) -> Option<Seq<char>> {
    match strip_outer_quotes(p) {
        None => None,
        Some(inner) => if inner.len() > 0 && (inner[0] == '\'' || inner[0] == '"' || inner[0] == '(') {
            Some(inner)
        } else {
            Some(seq!['\''] + replace_all(inner, seq!['\''], seq!['\'', '\\', '\'', '\'']) + seq!['\''])
        },
    }
}

pub open spec fn quote_array_parts(ps: Seq<Seq<char>>) -> Option<Seq<Seq<char>>>
    decreases ps.len(),
{
    if ps.len() == 0 {
        Some(seq![])
    } else {
        match quote_array_parts(ps.drop_last()) {
            None => None,
            Some(acc) => match quote_array_part(ps.last()) {
                None => None,
                Some(x) => Some(acc.push(x)),
            },
        }
    }
}

/// Array right-hand side `( 'a' 'b' )` written by the quick editor.
pub open spec fn bash_array_from_tokens(s: Seq<char>) -> Option<Seq<char>> {
    match quote_array_parts(split_ws(s)) {
        None => None,
        Some(parts) => if parts.len() == 0 {
            Some(seq!['(', ')'])
        } else {
            Some(seq!['('] + join(parts, seq![' ']) + seq![')'])
        },
    }
}


/// `name() {` (after trimming): an identifier, `()`, anything, then `{`.
pub open spec fn is_bash_function_start(line: Seq<char>) -> bool {
    let t = trim(line);
    match index_of(t, '{') {
        None => false,
        Some(b) => {
            let head = trim_end(t.take(b));
            match last_index_of(head, '(') {
                None => false,
                Some(o) => {
                    let ident = trim_end(head.take(o));
                    &&& ident.len() > 0
                    &&& all_chars(ident, |c: char| is_key_char(c))
                    &&& starts_with(head.skip(o), seq!['(', ')'])
                },
            }
        },
    }
}

/// Leading whitespace of `orig` followed by `body`.
pub open spec fn preserve_indent(orig: Seq<char>, body: Seq<char>) -> Seq<char> {
    orig.take(skip_while(orig, 0, ws_pred())) + body
}

/// Line pass of the maintainer merge: output and whether a maintainer line was seen.
pub open spec fn maintainer_fold(ls: Seq<Seq<char>>, new_line: Seq<char>) -> (Seq<char>, bool)
    decreases ls.len(),
{
    if ls.len() == 0 {
        (seq![], false)
    } else {
        let (o, r) = maintainer_fold(ls.drop_last(), new_line);
        let line = ls.last();
        if starts_with(trim_start(line), "# Maintainer:"@) {
            if !r {
                (o + preserve_indent(line, new_line) + nl(), true)
            } else {
                (o, r)
            }
        } else {
            (o + line + nl(), r)
        }
    }
}

/// Replaces the first `# Maintainer:` line (dropping later ones), or inserts one
/// at the top (after a `#!` line when present).
pub open spec fn merge_maintainer_line(content: Seq<char>, body: Seq<char>) -> Seq<char> {
    let new_line = "# Maintainer: "@ + body;
    let ls = lines(content);
    let (o, r) = maintainer_fold(ls, new_line);
    if r {
        o
    } else if starts_with(content, "#!"@) && ls.len() > 0 {
        ls[0] + nl() + new_line + nl() + concat_lines(ls.skip(1))
    } else {
        new_line + nl() + content
    }
}

/// Index after the continuation lines of a multi-line array opened with `depth > 0`.
pub open spec fn skip_array_block(ls: Seq<Seq<char>>, i: int, depth: int) -> int
    decreases ls.len() - i,
{
    if depth > 0 && 0 <= i < ls.len() {
        skip_array_block(ls, i + 1, depth + paren_delta(ls[i]))
    } else {
        i
    }
}

pub proof fn lemma_skip_array_block(ls: Seq<Seq<char>>, i: int, depth: int)
    requires
        0 <= i <= ls.len(),
    ensures
        i <= skip_array_block(ls, i, depth) <= ls.len(),
    decreases ls.len() - i,
{
    if depth > 0 && i < ls.len() {
        lemma_skip_array_block(ls, i + 1, depth + paren_delta(ls[i]));
    }
}

/// Whether a parsed assignment opens a multi-line array for `key`.
pub open spec fn opens_array(key: Seq<char>, val: Seq<char>) -> bool {
    is_quick_array_key(key) && starts_with(trim_start(val), seq!['('])
}

/// Line pass of the assignment merge from line `i`.
pub open spec fn assign_walk(
    ls: Seq<Seq<char>>,
    i: int,
    key: Seq<char>,
    new_body: Seq<char>,
    out: Seq<char>,
    replaced: bool,
) -> (Seq<char>, bool)
    decreases ls.len() - i,
{
    if i < 0 || i >= ls.len() {
        (out, replaced)
    } else {
        let line = ls[i];
        match parse_simple_assignment(trim_start(line)) {
            Some((k, val)) if k == key => {
                let out2 = if !replaced {
                    out + preserve_indent(line, new_body) + nl()
                } else {
                    out
                };
                let j = if opens_array(key, val) {
                    skip_array_block(ls, i + 1, paren_delta(val))
                } else {
                    i + 1
                };
                if j <= i || j > ls.len() {
                    (out2, true)
                } else {
                    assign_walk(ls, j, key, new_body, out2, true)
                }
            },
            _ => assign_walk(ls, i + 1, key, new_body, out + line + nl(), replaced),
        }
    }
}

/// Line pass inserting `new_line` before the first bash function.
pub open spec fn insert_fold(ls: Seq<Seq<char>>, new_line: Seq<char>) -> (Seq<char>, bool)
    decreases ls.len(),
{
    if ls.len() == 0 {
        (seq![], false)
    } else {
        let (o, ins) = insert_fold(ls.drop_last(), new_line);
        let line = ls.last();
        if !ins && is_bash_function_start(line) {
            (o + new_line + line + nl(), true)
        } else {
            (o + line + nl(), ins)
        }
    }
}

/// Inserts `new_line` before the first function definition, or appends it.
pub open spec fn insert_before_first_function(content: Seq<char>, new_line: Seq<char>) -> Seq<char> {
    let (o, ins) = insert_fold(lines(content), new_line);
    if ins {
        o
    } else {
        o + new_line
    }
}

/// Replaces the first `key=` assignment (and drops later ones, including the
/// continuation lines of multi-line arrays), or inserts one.
pub open spec fn merge_assignment_line(content: Seq<char>, key: Seq<char>, rhs: Seq<char>) -> Seq<char> {
    let new_body = key + seq!['='] + rhs;
    let (o, r) = assign_walk(lines(content), 0, key, new_body, seq![], false);
    if r {
        o
    } else {
        insert_before_first_function(content, new_body + nl())
    }
}

/// Applies field `n` of `fields` to `text`.
pub open spec fn merge_field(text: Seq<char>, fields: FieldsModel, n: int) -> Option<Seq<char>> {
    match fields[n] {
        None => Some(text),
        Some(v) => if n == 0 {
            Some(merge_maintainer_line(text, v))
        } else if is_array_field(n) {
            match bash_array_from_tokens(v) {
                None => None,
                Some(rhs) => Some(merge_assignment_line(text, field_key(n), rhs)),
            }
        } else {
            Some(merge_assignment_line(text, field_key(n), bash_quote_scalar(v)))
        },
    }
}

/// Applies fields `0..n` in order.
pub open spec fn merge_fields_upto(text: Seq<char>, fields: FieldsModel, n: int) -> Option<Seq<char>>
    decreases n,
{
    if n <= 0 {
        Some(text)
    } else {
        match merge_fields_upto(text, fields, n - 1) {
            None => None,
            Some(t) => merge_field(t, fields, n - 1),
        }
    }
}

/// Result of merging every set field into `text`; `None` where an array field's tokens hold a lone quote.
pub open spec fn merge_quick_fields_spec(text: Seq<char>, fields: FieldsModel) -> Option<Seq<char>> {
    merge_fields_upto(text, fields, FIELD_COUNT as int)
}

/// Joins continuation lines of a multi-line array onto `acc`.
pub open spec fn collect_array(ls: Seq<Seq<char>>, j: int, depth: int, acc: Seq<char>) -> (
    Seq<char>,
    int,
)
    decreases ls.len() - j,
{
    if depth > 0 && 0 <= j < ls.len() {
        collect_array(ls, j + 1, depth + paren_delta(ls[j]), acc + nl() + ls[j])
    } else {
        (acc, j)
    }
}

/// Records an assignment; `None` where quote stripping panics.
pub open spec fn apply_assignment(acc: FieldsModel, key: Seq<char>, rhs: Seq<char>) -> Option<
    FieldsModel,
> {
    match strip_outer_quotes(trim(rhs)) {
        None => None,
        Some(inner) => match field_of_key(key) {
            None => Some(acc),
            Some(n) => if is_array_field(n) {
                match array_inner_tokens(inner) {
                    None => None,
                    Some(v) => Some(acc.update(n, Some(v))),
                }
            } else {
                Some(acc.update(n, Some(inner)))
            },
        },
    }
}

/// Parse pass from line `i`.
pub open spec fn parse_walk(ls: Seq<Seq<char>>, i: int, acc: FieldsModel) -> Option<FieldsModel>
    decreases ls.len() - i,
{
    if i < 0 || i >= ls.len() {
        Some(acc)
    } else {
        let t = trim_start(ls[i]);
        if starts_with(t, "# Maintainer:"@) {
            parse_walk(ls, i + 1, acc.update(0, Some(trim(t.skip("# Maintainer:"@.len() as int)))))
        } else {
            match parse_simple_assignment(t) {
                None => parse_walk(ls, i + 1, acc),
                Some((key, val)) => {
                    let (rhs, j) = if opens_array(key, val) {
                        collect_array(ls, i + 1, paren_delta(val), val)
                    } else {
                        (val, i + 1)
                    };
                    match apply_assignment(acc, key, rhs) {
                        None => None,
                        Some(acc2) => if j <= i || j > ls.len() {
                            Some(acc2)
                        } else {
                            parse_walk(ls, j, acc2)
                        },
                    }
                },
            }
        }
    }
}

pub open spec fn empty_fields() -> FieldsModel {
    Seq::new(FIELD_COUNT as nat, |i: int| None)
}

/// Quick fields read from `text`; `None` where a value is a lone quote.
pub open spec fn parse_quick_fields_spec(text: Seq<char>) -> Option<FieldsModel> {
    parse_walk(lines(text), 0, empty_fields())
}


pub open spec fn opt_view(o: Option<Vec<char>>) -> Option<Seq<char>> {
    match o {
        Some(x) => Some(x@),
        None => None,
    }
}

fn strip_outer_quotes_exec(s: &[char]) -> (r: Option<Vec<char>>)
    ensures
        opt_view(r) == strip_outer_quotes(s@),
{
    let n = s.len();
    if n > 0 && ((s[0] == '"' && s[n - 1] == '"') || (s[0] == '\'' && s[n - 1] == '\'')) {
        if n == 1 {
            None
        } else {
            let inner = slice_vec(s, 1, n - 1);
            Some(trim_vec(&inner))
        }
    } else {
        Some(slice_vec(s, 0, n))
    }
}

fn is_key_char_exec(c: char) -> (r: bool)
    ensures
        r == is_key_char(c),
{
    char_is_ascii_alnum(c) || c == '_'
}

/// Whether every character of `s` may appear in an assignment key.
fn all_key_chars(s: &[char]) -> (r: bool)
    ensures
        r == all_chars(s@, |c: char| is_key_char(c)),
{
    let mut i: usize = 0;
    while i < s.len()
        invariant
            i <= s.len(),
            forall|j: int| 0 <= j < i ==> is_key_char(#[trigger] s@[j]),
        decreases s.len() - i,
    {
        if !is_key_char_exec(s[i]) {
            return false;
        }
        i += 1;
    }
    true
}

fn parse_simple_assignment_exec(line: &[char]) -> (r: Option<(Vec<char>, Vec<char>)>)
    ensures
        match r {
            Some((k, v)) => parse_simple_assignment(line@) == Some((k@, v@)),
            None => parse_simple_assignment(line@) is None,
        },
{
    if line.len() > 0 && line[0] == '#' {
        return None;
    }
    match index_of_from(line, '=', 0) {
        None => {
            proof {
                lemma_index_of_none(line@, '=');
            }
            None
        },
        Some(idx) => {
            proof {
                lemma_index_of_unique(line@, '=', idx as int);
            }
            let head = slice_vec(line, 0, idx);
            assert(head@ == line@.take(idx as int));
            let kb = trim_end_bound(&head);
            let key = slice_vec(&head, 0, kb);
            if !all_key_chars(&key) {
                return None;
            }
            let rest = slice_vec(line, idx + 1, line.len());
            assert(rest@ == line@.skip(idx + 1));
            let va = trim_start_bound(&rest);
            let val = slice_vec(&rest, va, rest.len());
            Some((key, val))
        },
    }
}


/// Net unquoted `(` minus `)` count of `s`.
fn paren_delta_exec(s: &[char]) -> (r: i128)
    ensures
        r == paren_delta(s@),
        -(s.len() as int) <= r <= s.len(),
{
    let mut depth: i128 = 0;
    let mut q: u8 = 0;
    let mut i: usize = 0;
    proof {
        lemma_paren_walk_bound(s@, 0, 0);
    }
    while i < s.len()
        invariant
            i <= s.len(),
            q <= 2,
            -(i as int) <= depth <= i,
            depth + paren_walk(s@, i as int, q as int) == paren_walk(s@, 0, 0),
        decreases s.len() - i,
    {
        let c = s[i];
        if q == 1 {
            if c == '\'' {
                q = 0;
            }
            i += 1;
        } else if q == 2 {
            if c == '\\' {
                if s.len() - i <= 2 {
                    proof {
                        lemma_paren_walk_bound(s@, s.len() as int, 0);
                    }
                    i = s.len();
                    q = 0;
                } else {
                    i += 2;
                }
            } else {
                if c == '"' {
                    q = 0;
                }
                i += 1;
            }
        } else {
            if c == '\'' {
                q = 1;
            } else if c == '"' {
                q = 2;
            } else if c == '(' {
                depth += 1;
            } else if c == ')' {
                depth -= 1;
            }
            i += 1;
        }
    }
    depth
}

/// End of a double-quoted token whose body starts at `i`.
fn dq_end_exec(s: &[char], i: usize) -> (r: usize)
    requires
        i <= s.len(),
    ensures
        r == dq_end(s@, i as int),
        i <= r <= s.len(),
{
    let mut b = i;
    proof {
        lemma_dq_end(s@, i as int);
    }
    while b < s.len()
        invariant
            i <= b <= s.len(),
            dq_end(s@, b as int) == dq_end(s@, i as int),
        decreases s.len() - b,
    {
        if s[b] == '\\' {
            if s.len() - b <= 2 {
                return s.len();
            }
            b += 2;
        } else if s[b] == '"' {
            return b + 1;
        } else {
            b += 1;
        }
    }
    b
}

/// Bash array body split on unquoted ASCII whitespace.
fn tokenize_bash_array_body(s: &[char]) -> (r: Vec<Vec<char>>)
    ensures
        r.deep_view() == tokens_from(s@, 0),
{
    let mut out: Vec<Vec<char>> = Vec::new();
    let mut i: usize = 0;
    assert(out.deep_view() + tokens_from(s@, 0) =~= tokens_from(s@, 0));
    loop
        invariant
            i <= s.len(),
            out.deep_view() + tokens_from(s@, i as int) == tokens_from(s@, 0),
        decreases s.len() - i,
    {
        let mut a = i;
        while a < s.len() && char_is_ascii_ws(s[a])
            invariant
                i <= a <= s.len(),
                forall|k: int| i <= k < a ==> is_ascii_ws(#[trigger] s@[k]),
            decreases s.len() - a,
        {
            a += 1;
        }
        proof {
            lemma_skip_while_unique(s@, i as int, a as int, ascii_ws_pred());
        }
        if a >= s.len() {
            assert(tokens_from(s@, i as int) =~= Seq::<Seq<char>>::empty());
            assert(out.deep_view() + Seq::<Seq<char>>::empty() =~= out.deep_view());
            return out;
        }
        let mut b = a;
        if s[a] == '\'' {
            b = a + 1;
            while b < s.len() && s[b] != '\''
                invariant
                    a + 1 <= b <= s.len(),
                    forall|k: int| a + 1 <= k < b ==> #[trigger] s@[k] != '\'',
                decreases s.len() - b,
            {
                b += 1;
            }
            proof {
                lemma_skip_while_unique(s@, a + 1, b as int, not_squote_pred());
            }
            if b < s.len() {
                b += 1;
            }
        } else if s[a] == '"' {
            b = dq_end_exec(s, a + 1);
        } else {
            while b < s.len() && !char_is_ascii_ws(s[b])
                invariant
                    a <= b <= s.len(),
                    forall|k: int| a <= k < b ==> !is_ascii_ws(#[trigger] s@[k]),
                decreases s.len() - b,
            {
                b += 1;
            }
            proof {
                lemma_skip_while_unique(s@, a as int, b as int, non_ascii_ws_pred());
            }
        }
        assert(b == token_end(s@, a as int));
        proof {
            lemma_token_end(s@, a as int);
        }
        let tok = slice_vec(s, a, b);
        let ghost tv = tok@;
        let ghost out0 = out.deep_view();
        proof {
            lemma_deep_chars(&tok);
        }
        out.push(tok);
        assert(out.deep_view() =~= out0.push(tv)) by {
            assert forall|k: int| 0 <= k < out0.len() implies out.deep_view()[k] == out0[k] by {}
        }
        assert(out.deep_view() + tokens_from(s@, b as int) =~= out0 + tokens_from(s@, i as int));
        i = b;
    }
}


pub proof fn lemma_rskip_while_unique(s: Seq<char>, j: int, m: int, f: spec_fn(char) -> bool)
    requires
        0 <= m <= j <= s.len(),
        forall|k: int| m <= k < j ==> f(#[trigger] s[k]),
        m > 0 ==> !f(s[m - 1]),
    ensures
        rskip_while(s, j, f) == m,
    decreases j,
{
    if m < j {
        lemma_rskip_while_unique(s, j - 1, m, f);
    }
}

fn is_paren(c: char) -> (r: bool)
    ensures
        r == (paren_pred())(c),
{
    c == '(' || c == ')'
}

/// `trim_matches` of parentheses.
fn trim_parens(s: &[char]) -> (r: Vec<char>)
    ensures
        r@ == trim_matches(s@, paren_pred()),
{
    let mut a: usize = 0;
    while a < s.len() && is_paren(s[a])
        invariant
            a <= s.len(),
            forall|k: int| 0 <= k < a ==> (paren_pred())(#[trigger] s@[k]),
        decreases s.len() - a,
    {
        a += 1;
    }
    proof {
        lemma_skip_while_unique(s@, 0, a as int, paren_pred());
    }
    let mut b: usize = s.len();
    while b > 0 && is_paren(s[b - 1])
        invariant
            b <= s.len(),
            forall|k: int| b <= k < s.len() ==> (paren_pred())(#[trigger] s@[k]),
        decreases b,
    {
        b -= 1;
    }
    proof {
        lemma_rskip_while_unique(s@, s.len() as int, b as int, paren_pred());
    }
    if a < b {
        slice_vec(s, a, b)
    } else {
        Vec::new()
    }
}

/// Quote-stripped, non-empty tokens.
fn clean_tokens_exec(toks: &Vec<Vec<char>>) -> (r: Option<Vec<Vec<char>>>)
    ensures
        match r {
            Some(v) => clean_tokens(toks.deep_view()) == Some(v.deep_view()),
            None => clean_tokens(toks.deep_view()) is None,
        },
{
    let mut out: Vec<Vec<char>> = Vec::new();
    let mut i: usize = 0;
    let ghost tv = toks.deep_view();
    assert(tv.take(0) =~= Seq::<Seq<char>>::empty());
    assert(out.deep_view() =~= Seq::<Seq<char>>::empty());
    while i < toks.len()
        invariant
            i <= toks.len(),
            tv == toks.deep_view(),
            clean_tokens(tv.take(i as int)) == Some(out.deep_view()),
        decreases toks.len() - i,
    {
        proof {
            lemma_deep_chars(&toks[i as int]);
        }
        assert(tv.take(i as int + 1).drop_last() =~= tv.take(i as int));
        assert(tv.take(i as int + 1).last() == toks@[i as int]@);
        let t = trim_vec(&toks[i]);
        match strip_outer_quotes_exec(&t) {
            None => {
                assert(clean_tokens(tv.take(i as int + 1)) is None);
                assert(tv.take(toks.len() as int) =~= tv);
                proof {
                    lemma_clean_tokens_none_prefix(tv, i as int + 1);
                }
                return None;
            },
            Some(x) => {
                if x.len() > 0 {
                    let ghost out0 = out.deep_view();
                    let ghost xv = x@;
                    proof {
                        lemma_deep_chars(&x);
                    }
                    out.push(x);
                    assert(out.deep_view() =~= out0.push(xv)) by {
                        assert forall|k: int| 0 <= k < out0.len() implies out.deep_view()[k]
                            == out0[k] by {}
                    }
                }
            },
        }
        i += 1;
    }
    assert(tv.take(toks.len() as int) =~= tv);
    Some(out)
}

pub proof fn lemma_clean_tokens_none_prefix(tv: Seq<Seq<char>>, n: int)
    requires
        0 <= n <= tv.len(),
        clean_tokens(tv.take(n)) is None,
    ensures
        clean_tokens(tv) is None,
    decreases tv.len() - n,
{
    if n < tv.len() {
        assert(tv.take(n + 1).drop_last() =~= tv.take(n));
        lemma_clean_tokens_none_prefix(tv, n + 1);
    } else {
        assert(tv.take(n) =~= tv);
    }
}

/// Display form of a bash array value (`None` where quote stripping panics).
fn array_inner_tokens_exec(inner: &[char]) -> (r: Option<Vec<char>>)
    ensures
        opt_view(r) == array_inner_tokens(inner@),
{
    let body = trim_parens(inner);
    let toks = tokenize_bash_array_body(&body);
    match clean_tokens_exec(&toks) {
        None => None,
        Some(ts) => {
            let sep = vec![' '];
            assert(sep@ =~= seq![' ']);
            Some(join_exec(&ts, &sep))
        },
    }
}

fn is_scalar_safe_exec(c: char) -> (r: bool)
    ensures
        r == is_scalar_safe(c),
{
    char_is_ascii_alnum(c) || c == '.' || c == '_' || c == '+' || c == '-' || c == ':' || c == '@'
        || c == '/' || c == '~'
}

fn all_scalar_safe(s: &[char]) -> (r: bool)
    ensures
        r == all_chars(s@, |c: char| is_scalar_safe(c)),
{
    let mut i: usize = 0;
    while i < s.len()
        invariant
            i <= s.len(),
            forall|j: int| 0 <= j < i ==> is_scalar_safe(#[trigger] s@[j]),
        decreases s.len() - i,
    {
        if !is_scalar_safe_exec(s[i]) {
            return false;
        }
        i += 1;
    }
    true
}

/// Scalar right-hand side as the quick editor writes it.
fn bash_quote_scalar_exec(s: &[char]) -> (r: Vec<char>)
    ensures
        r@ == bash_quote_scalar(s@),
{
    let t = trim_vec(s);
    if t.len() == 0 {
        let r = vec!['"', '"'];
        assert(r@ =~= seq!['"', '"']);
        return r;
    }
    if t[0] == '\'' || t[0] == '"' || t[0] == '(' || all_scalar_safe(&t) {
        return t;
    }
    let bs = vec!['\\'];
    let bs2 = vec!['\\', '\\'];
    let dq = vec!['"'];
    let edq = vec!['\\', '"'];
    assert(bs@ =~= seq!['\\']);
    assert(bs2@ =~= seq!['\\', '\\']);
    assert(dq@ =~= seq!['"']);
    assert(edq@ =~= seq!['\\', '"']);
    let a = replace_all_exec(&t, &bs, &bs2);
    let b = replace_all_exec(&a, &dq, &edq);
    let mut out = vec!['"'];
    append_chars(&mut out, &b);
    out.push('"');
    assert(out@ =~= seq!['"'] + b@ + seq!['"']);
    out
}

/// One array element as the quick editor writes it.
fn quote_array_part_exec(p: &[char]) -> (r: Option<Vec<char>>)
    ensures
        opt_view(r) == quote_array_part(p@),
{
    match strip_outer_quotes_exec(p) {
        None => None,
        Some(inner) => {
            if inner.len() > 0 && (inner[0] == '\'' || inner[0] == '"' || inner[0] == '(') {
                Some(inner)
            } else {
                let sq = vec!['\''];
                let esc = vec!['\'', '\\', '\'', '\''];
                assert(sq@ =~= seq!['\'']);
                assert(esc@ =~= seq!['\'', '\\', '\'', '\'']);
                let body = replace_all_exec(&inner, &sq, &esc);
                let mut out = vec!['\''];
                append_chars(&mut out, &body);
                out.push('\'');
                assert(out@ =~= seq!['\''] + body@ + seq!['\'']);
                Some(out)
            }
        },
    }
}

/// Array right-hand side as the quick editor writes it.
fn bash_array_from_tokens_exec(s: &[char]) -> (r: Option<Vec<char>>)
    ensures
        opt_view(r) == bash_array_from_tokens(s@),
{
    let words = split_ws_exec(s);
    let ghost wv = words.deep_view();
    let mut parts: Vec<Vec<char>> = Vec::new();
    let mut i: usize = 0;
    assert(wv.take(0) =~= Seq::<Seq<char>>::empty());
    assert(parts.deep_view() =~= Seq::<Seq<char>>::empty());
    while i < words.len()
        invariant
            i <= words.len(),
            wv == words.deep_view(),
            wv == split_ws(s@),
            quote_array_parts(wv.take(i as int)) == Some(parts.deep_view()),
        decreases words.len() - i,
    {
        proof {
            lemma_deep_chars(&words[i as int]);
        }
        assert(wv.take(i as int + 1).drop_last() =~= wv.take(i as int));
        assert(wv.take(i as int + 1).last() == words@[i as int]@);
        match quote_array_part_exec(&words[i]) {
            None => {
                assert(quote_array_parts(wv.take(i as int + 1)) is None);
                proof {
                    lemma_quote_parts_none_prefix(wv, i as int + 1);
                }
                return None;
            },
            Some(x) => {
                let ghost out0 = parts.deep_view();
                let ghost xv = x@;
                proof {
                    lemma_deep_chars(&x);
                }
                parts.push(x);
                assert(parts.deep_view() =~= out0.push(xv)) by {
                    assert forall|k: int| 0 <= k < out0.len() implies parts.deep_view()[k]
                        == out0[k] by {}
                }
            },
        }
        i += 1;
    }
    assert(wv.take(words.len() as int) =~= wv);
    if parts.len() == 0 {
        let r = vec!['(', ')'];
        assert(r@ =~= seq!['(', ')']);
        Some(r)
    } else {
        let sep = vec![' '];
        assert(sep@ =~= seq![' ']);
        let body = join_exec(&parts, &sep);
        let mut out = vec!['('];
        append_chars(&mut out, &body);
        out.push(')');
        assert(out@ =~= seq!['('] + body@ + seq![')']);
        Some(out)
    }
}

pub proof fn lemma_quote_parts_none_prefix(ws: Seq<Seq<char>>, n: int)
    requires
        0 <= n <= ws.len(),
        quote_array_parts(ws.take(n)) is None,
    ensures
        quote_array_parts(ws) is None,
    decreases ws.len() - n,
{
    if n < ws.len() {
        assert(ws.take(n + 1).drop_last() =~= ws.take(n));
        lemma_quote_parts_none_prefix(ws, n + 1);
    } else {
        assert(ws.take(n) =~= ws);
    }
}


pub proof fn lemma_last_index_of(s: Seq<char>, c: char, k: int)
    requires
        -1 <= k < s.len(),
        k >= 0 ==> s[k] == c,
        forall|j: int| k < j < s.len() ==> s[j] != c,
    ensures
        k >= 0 ==> last_index_of(s, c) == Some(k),
        k < 0 ==> last_index_of(s, c) is None,
    decreases s.len(),
{
    if s.len() > 0 && k < s.len() - 1 {
        lemma_last_index_of(s.drop_last(), c, k);
    }
}

/// Last position of `c` in `s`.
fn last_index_of_exec(s: &[char], c: char) -> (r: Option<usize>)
    ensures
        match r {
            Some(k) => last_index_of(s@, c) == Some(k as int) && k < s.len(),
            None => last_index_of(s@, c) is None,
        },
{
    let mut j: usize = s.len();
    while j > 0
        invariant
            j <= s.len(),
            forall|m: int| j <= m < s.len() ==> s@[m] != c,
        decreases j,
    {
        if s[j - 1] == c {
            proof {
                lemma_last_index_of(s@, c, j - 1);
            }
            return Some(j - 1);
        }
        j -= 1;
    }
    proof {
        lemma_last_index_of(s@, c, -1);
    }
    None
}

/// Whether the (trimmed) line opens a bash function: `name() … {`.
fn is_bash_function_start_exec(line: &[char]) -> (r: bool)
    ensures
        r == is_bash_function_start(line@),
{
    let t = trim_vec(line);
    match index_of_from(&t, '{', 0) {
        None => {
            proof {
                lemma_index_of_none(t@, '{');
            }
            false
        },
        Some(b) => {
            proof {
                lemma_index_of_unique(t@, '{', b as int);
            }
            let pre = slice_vec(&t, 0, b);
            assert(pre@ == t@.take(b as int));
            let hb = trim_end_bound(&pre);
            let head = slice_vec(&pre, 0, hb);
            match last_index_of_exec(&head, '(') {
                None => false,
                Some(o) => {
                    let ip = slice_vec(&head, 0, o);
                    assert(ip@ == head@.take(o as int));
                    let ib = trim_end_bound(&ip);
                    let ident = slice_vec(&ip, 0, ib);
                    let tail = slice_vec(&head, o, head.len());
                    assert(tail@ == head@.skip(o as int));
                    let pp = vec!['(', ')'];
                    assert(pp@ =~= seq!['(', ')']);
                    ident.len() > 0 && all_key_chars(&ident) && starts_with_exec(&tail, &pp)
                },
            }
        },
    }
}

/// Leading whitespace of `orig` followed by `body`.
fn preserve_indent_exec(orig: &[char], body: &[char]) -> (r: Vec<char>)
    ensures
        r@ == preserve_indent(orig@, body@),
{
    let k = skip_ws_exec(orig, 0, true);
    let mut out = slice_vec(orig, 0, k);
    append_chars(&mut out, body);
    out
}

/// `"# Maintainer:"` as characters.
fn maintainer_prefix() -> (r: Vec<char>)
    ensures
        r@ == "# Maintainer:"@,
{
    proof {
        reveal_strlit("# Maintainer:");
    }
    let r = vec!['#', ' ', 'M', 'a', 'i', 'n', 't', 'a', 'i', 'n', 'e', 'r', ':'];
    assert(r@ =~= "# Maintainer:"@);
    r
}

/// Replaces the first `# Maintainer:` line (dropping later ones) or inserts one.
fn merge_maintainer_line_exec(content: &[char], body: &[char]) -> (r: Vec<char>)
    ensures
        r@ == merge_maintainer_line(content@, body@),
{
    let pfx = maintainer_prefix();
    let mut new_line = maintainer_prefix();
    proof {
        reveal_strlit("# Maintainer: ");
        reveal_strlit("# Maintainer:");
    }
    new_line.push(' ');
    append_chars(&mut new_line, body);
    assert(new_line@ =~= "# Maintainer: "@ + body@);
    let ls = lines_exec(content);
    let ghost lv = ls.deep_view();
    let mut out: Vec<char> = Vec::new();
    let mut replaced = false;
    let mut i: usize = 0;
    assert(lv.take(0) =~= Seq::<Seq<char>>::empty());
    while i < ls.len()
        invariant
            i <= ls.len(),
            lv == ls.deep_view(),
            pfx@ == "# Maintainer:"@,
            maintainer_fold(lv.take(i as int), new_line@) == (out@, replaced),
        decreases ls.len() - i,
    {
        proof {
            lemma_deep_chars(&ls[i as int]);
        }
        let line = &ls[i];
        assert(lv.take(i as int + 1).drop_last() =~= lv.take(i as int));
        assert(lv.take(i as int + 1).last() == line@);
        let t = trim_start_vec(line);
        if starts_with_exec(&t, &pfx) {
            if !replaced {
                let pl = preserve_indent_exec(line, &new_line);
                append_chars(&mut out, &pl);
                out.push('\n');
                replaced = true;
            }
        } else {
            append_chars(&mut out, line);
            out.push('\n');
        }
        i += 1;
    }
    assert(lv.take(ls.len() as int) =~= lv);
    if replaced {
        return out;
    }
    let sb = vec!['#', '!'];
    proof {
        reveal_strlit("#!");
    }
    assert(sb@ =~= "#!"@);
    if starts_with_exec(content, &sb) && ls.len() > 0 {
        proof {
            lemma_deep_chars(&ls[0]);
        }
        let mut o2 = slice_vec(&ls[0], 0, ls[0].len());
        assert(o2@ =~= lv[0]);
        o2.push('\n');
        append_chars(&mut o2, &new_line);
        o2.push('\n');
        let mut k: usize = 1;
        assert(lv.skip(1).take(0) =~= Seq::<Seq<char>>::empty());
        while k < ls.len()
            invariant
                1 <= k <= ls.len(),
                lv == ls.deep_view(),
                o2@ == lv[0] + nl() + new_line@ + nl() + concat_lines(lv.skip(1).take(k - 1)),
            decreases ls.len() - k,
        {
            proof {
                lemma_deep_chars(&ls[k as int]);
            }
            assert(lv.skip(1).take(k as int).drop_last() =~= lv.skip(1).take(k - 1));
            assert(lv.skip(1).take(k as int).last() == ls@[k as int]@);
            append_chars(&mut o2, &ls[k]);
            o2.push('\n');
            k += 1;
        }
        assert(lv.skip(1).take(ls.len() - 1) =~= lv.skip(1));
        return o2;
    }
    let mut o3: Vec<char> = Vec::new();
    append_chars(&mut o3, &new_line);
    o3.push('\n');
    append_chars(&mut o3, content);
    o3
}

/// Inserts `new_line` before the first function definition, or appends it.
fn insert_before_first_function_exec(content: &[char], new_line: &[char]) -> (r: Vec<char>)
    ensures
        r@ == insert_before_first_function(content@, new_line@),
{
    let ls = lines_exec(content);
    let ghost lv = ls.deep_view();
    let mut out: Vec<char> = Vec::new();
    let mut inserted = false;
    let mut i: usize = 0;
    assert(lv.take(0) =~= Seq::<Seq<char>>::empty());
    while i < ls.len()
        invariant
            i <= ls.len(),
            lv == ls.deep_view(),
            insert_fold(lv.take(i as int), new_line@) == (out@, inserted),
        decreases ls.len() - i,
    {
        proof {
            lemma_deep_chars(&ls[i as int]);
        }
        let line = &ls[i];
        assert(lv.take(i as int + 1).drop_last() =~= lv.take(i as int));
        assert(lv.take(i as int + 1).last() == line@);
        if !inserted && is_bash_function_start_exec(line) {
            append_chars(&mut out, new_line);
            inserted = true;
        }
        append_chars(&mut out, line);
        out.push('\n');
        i += 1;
    }
    assert(lv.take(ls.len() as int) =~= lv);
    if !inserted {
        append_chars(&mut out, new_line);
    }
    out
}

/// Assignment key of field `n` as characters.
fn field_key_exec(n: usize) -> (r: Vec<char>)
    requires
        1 <= n < FIELD_COUNT,
    ensures
        r@ == field_key(n as int),
{
    if n == 1 {
        proof {
            reveal_strlit("pkgname");
        }
        let r = vec!['p', 'k', 'g', 'n', 'a', 'm', 'e'];
        assert(r@ =~= "pkgname"@);
        r
    } else if n == 2 {
        proof {
            reveal_strlit("pkgver");
        }
        let r = vec!['p', 'k', 'g', 'v', 'e', 'r'];
        assert(r@ =~= "pkgver"@);
        r
    } else if n == 3 {
        proof {
            reveal_strlit("pkgrel");
        }
        let r = vec!['p', 'k', 'g', 'r', 'e', 'l'];
        assert(r@ =~= "pkgrel"@);
        r
    } else if n == 4 {
        proof {
            reveal_strlit("pkgdesc");
        }
        let r = vec!['p', 'k', 'g', 'd', 'e', 's', 'c'];
        assert(r@ =~= "pkgdesc"@);
        r
    } else if n == 5 {
        proof {
            reveal_strlit("arch");
        }
        let r = vec!['a', 'r', 'c', 'h'];
        assert(r@ =~= "arch"@);
        r
    } else if n == 6 {
        proof {
            reveal_strlit("url");
        }
        let r = vec!['u', 'r', 'l'];
        assert(r@ =~= "url"@);
        r
    } else if n == 7 {
        proof {
            reveal_strlit("license");
        }
        let r = vec!['l', 'i', 'c', 'e', 'n', 's', 'e'];
        assert(r@ =~= "license"@);
        r
    } else if n == 8 {
        proof {
            reveal_strlit("depends");
        }
        let r = vec!['d', 'e', 'p', 'e', 'n', 'd', 's'];
        assert(r@ =~= "depends"@);
        r
    } else if n == 9 {
        proof {
            reveal_strlit("makedepends");
        }
        let r = vec!['m', 'a', 'k', 'e', 'd', 'e', 'p', 'e', 'n', 'd', 's'];
        assert(r@ =~= "makedepends"@);
        r
    } else if n == 10 {
        proof {
            reveal_strlit("optdepends");
        }
        let r = vec!['o', 'p', 't', 'd', 'e', 'p', 'e', 'n', 'd', 's'];
        assert(r@ =~= "optdepends"@);
        r
    } else if n == 11 {
        proof {
            reveal_strlit("conflicts");
        }
        let r = vec!['c', 'o', 'n', 'f', 'l', 'i', 'c', 't', 's'];
        assert(r@ =~= "conflicts"@);
        r
    } else if n == 12 {
        proof {
            reveal_strlit("provides");
        }
        let r = vec!['p', 'r', 'o', 'v', 'i', 'd', 'e', 's'];
        assert(r@ =~= "provides"@);
        r
    } else {
        proof {
            reveal_strlit("source");
        }
        let r = vec!['s', 'o', 'u', 'r', 'c', 'e'];
        assert(r@ =~= "source"@);
        r
    }
}

/// Field index of an assignment key.
fn field_of_key_exec(key: &[char]) -> (r: Option<usize>)
    ensures
        match r {
            Some(n) => field_of_key(key@) == Some(n as int) && 1 <= n < FIELD_COUNT,
            None => field_of_key(key@) is None,
        },
{
    if eq_chars(key, &field_key_exec(1)) {
        return Some(1);
    }
    if eq_chars(key, &field_key_exec(2)) {
        return Some(2);
    }
    if eq_chars(key, &field_key_exec(3)) {
        return Some(3);
    }
    if eq_chars(key, &field_key_exec(4)) {
        return Some(4);
    }
    if eq_chars(key, &field_key_exec(5)) {
        return Some(5);
    }
    if eq_chars(key, &field_key_exec(6)) {
        return Some(6);
    }
    if eq_chars(key, &field_key_exec(7)) {
        return Some(7);
    }
    if eq_chars(key, &field_key_exec(8)) {
        return Some(8);
    }
    if eq_chars(key, &field_key_exec(9)) {
        return Some(9);
    }
    if eq_chars(key, &field_key_exec(10)) {
        return Some(10);
    }
    if eq_chars(key, &field_key_exec(11)) {
        return Some(11);
    }
    if eq_chars(key, &field_key_exec(12)) {
        return Some(12);
    }
    if eq_chars(key, &field_key_exec(13)) {
        return Some(13);
    }
    None
}

fn is_array_field_exec(n: usize) -> (r: bool)
    ensures
        r == is_array_field(n as int),
{
    n == 5 || (7 <= n && n <= 13)
}

fn is_quick_array_key_exec(key: &[char]) -> (r: bool)
    ensures
        r == is_quick_array_key(key@),
{
    match field_of_key_exec(key) {
        Some(n) => is_array_field_exec(n),
        None => false,
    }
}

fn opens_array_exec(key: &[char], val: &[char]) -> (r: bool)
    ensures
        r == opens_array(key@, val@),
{
    if !is_quick_array_key_exec(key) {
        return false;
    }
    let t = trim_start_vec(val);
    let op = vec!['('];
    assert(op@ =~= seq!['(']);
    starts_with_exec(&t, &op)
}

/// Index after the continuation lines of an array opened with depth `depth`.
fn skip_array_block_exec(ls: &Vec<Vec<char>>, i: usize, depth: i128) -> (r: usize)
    requires
        i <= ls.len(),
        sum_lens(ls.deep_view()) <= usize::MAX,
        -(usize::MAX as int) <= depth <= usize::MAX,
    ensures
        r == skip_array_block(ls.deep_view(), i as int, depth as int),
        i <= r <= ls.len(),
{
    let ghost lv = ls.deep_view();
    let mut j = i;
    let mut d = depth;
    proof {
        lemma_sum_lens_skip(lv, i as int);
        lemma_skip_array_block(lv, i as int, depth as int);
    }
    while d > 0 && j < ls.len()
        invariant
            i <= j <= ls.len(),
            lv == ls.deep_view(),
            sum_lens(lv) <= usize::MAX,
            0 <= sum_lens(lv.skip(j as int)) <= sum_lens(lv.skip(i as int)) <= sum_lens(lv),
            -(usize::MAX as int) - (sum_lens(lv.skip(i as int)) - sum_lens(lv.skip(j as int)))
                <= d <= usize::MAX + (sum_lens(lv.skip(i as int)) - sum_lens(lv.skip(j as int))),
            skip_array_block(lv, j as int, d as int) == skip_array_block(lv, i as int, depth as int),
        decreases ls.len() - j,
    {
        proof {
            lemma_deep_chars(&ls[j as int]);
            lemma_sum_lens_skip(lv, j as int);
            lemma_sum_lens_skip(lv, j as int + 1);
        }
        let delta = paren_delta_exec(&ls[j]);
        d = d + delta;
        j += 1;
    }
    proof {
        lemma_skip_array_block(lv, j as int, d as int);
    }
    j
}

/// Replaces the first `key=` assignment (dropping later ones with their array
/// continuation lines) or inserts one.
fn merge_assignment_line_exec(content: &[char], key: &[char], rhs: &[char]) -> (r: Vec<char>)
    ensures
        r@ == merge_assignment_line(content@, key@, rhs@),
{
    let mut nb: Vec<char> = Vec::new();
    append_chars(&mut nb, key);
    nb.push('=');
    append_chars(&mut nb, rhs);
    assert(nb@ =~= key@ + seq!['='] + rhs@);
    let ls = lines_exec(content);
    let ghost lv = ls.deep_view();
    let n = content.len();
    proof {
        lemma_lines_sum_lens(content@);
        assert(content@.len() == n);
    }
    let mut out: Vec<char> = Vec::new();
    let mut replaced = false;
    let mut i: usize = 0;
    while i < ls.len()
        invariant
            i <= ls.len(),
            lv == ls.deep_view(),
            sum_lens(lv) <= usize::MAX,
            assign_walk(lv, i as int, key@, nb@, out@, replaced) == assign_walk(
                lv,
                0,
                key@,
                nb@,
                seq![],
                false,
            ),
        decreases ls.len() - i,
    {
        proof {
            lemma_deep_chars(&ls[i as int]);
        }
        let line = &ls[i];
        let t = trim_start_vec(line);
        let pa = parse_simple_assignment_exec(&t);
        let ghost out0 = out@;
        let ghost rep0 = replaced;
        let ghost i0 = i as int;
        assert(lv[i0] == line@);
        let mut matched = false;
        match pa {
            Some((k, val)) => {
                if eq_chars(&k, key) {
                    assert(parse_simple_assignment(trim_start(lv[i0])) == Some((key@, val@)));
                    matched = true;
                    if !replaced {
                        let pl = preserve_indent_exec(line, &nb);
                        append_chars(&mut out, &pl);
                        out.push('\n');
                        assert(out@ =~= out0 + preserve_indent(lv[i0], nb@) + nl());
                    }
                    replaced = true;
                    if opens_array_exec(key, &val) {
                        let d = paren_delta_exec(&val);
                        let j = skip_array_block_exec(&ls, i + 1, d);
                        i = j;
                    } else {
                        i = i + 1;
                    }
                    assert(assign_walk(lv, i0, key@, nb@, out0, rep0) == assign_walk(
                        lv,
                        i as int,
                        key@,
                        nb@,
                        out@,
                        true,
                    ));
                }
            },
            None => {},
        }
        if !matched {
            append_chars(&mut out, line);
            out.push('\n');
            assert(out@ =~= out0 + lv[i0] + nl());
            i = i + 1;
        }
    }
    if replaced {
        out
    } else {
        let mut nl_line: Vec<char> = Vec::new();
        append_chars(&mut nl_line, &nb);
        nl_line.push('\n');
        assert(nl_line@ =~= nb@ + nl());
        insert_before_first_function_exec(content, &nl_line)
    }
}


/// Joins continuation lines of a multi-line array onto `acc`.
fn collect_array_exec(ls: &Vec<Vec<char>>, i: usize, depth: i128, acc: Vec<char>) -> (r: (
    Vec<char>,
    usize,
))
    requires
        i <= ls.len(),
        sum_lens(ls.deep_view()) <= usize::MAX,
        -(usize::MAX as int) <= depth <= usize::MAX,
    ensures
        (r.0@, r.1 as int) == collect_array(ls.deep_view(), i as int, depth as int, acc@),
        i <= r.1 <= ls.len(),
{
    let ghost lv = ls.deep_view();
    let mut j = i;
    let mut d = depth;
    let mut acc = acc;
    let ghost acc0 = acc@;
    proof {
        lemma_sum_lens_skip(lv, i as int);
    }
    while d > 0 && j < ls.len()
        invariant
            i <= j <= ls.len(),
            lv == ls.deep_view(),
            sum_lens(lv) <= usize::MAX,
            0 <= sum_lens(lv.skip(j as int)) <= sum_lens(lv.skip(i as int)) <= sum_lens(lv),
            -(usize::MAX as int) - (sum_lens(lv.skip(i as int)) - sum_lens(lv.skip(j as int)))
                <= d <= usize::MAX + (sum_lens(lv.skip(i as int)) - sum_lens(lv.skip(j as int))),
            collect_array(lv, j as int, d as int, acc@) == collect_array(
                lv,
                i as int,
                depth as int,
                acc0,
            ),
        decreases ls.len() - j,
    {
        proof {
            lemma_deep_chars(&ls[j as int]);
            lemma_sum_lens_skip(lv, j as int);
            lemma_sum_lens_skip(lv, j as int + 1);
        }
        let ghost a0 = acc@;
        acc.push('\n');
        append_chars(&mut acc, &ls[j]);
        assert(acc@ =~= a0 + nl() + lv[j as int]);
        let delta = paren_delta_exec(&ls[j]);
        d = d + delta;
        j += 1;
    }
    (acc, j)
}

/// Sets field `n` of the accumulator.
fn set_field(acc: &mut Vec<Option<Vec<char>>>, n: usize, v: Vec<char>)
    requires
        n < old(acc).len(),
    ensures
        final(acc).len() == old(acc).len(),
        final(acc).deep_view() == old(acc).deep_view().update(n as int, Some(v@)),
{
    let ghost d0 = acc.deep_view();
    let ghost vv = v@;
    proof {
        lemma_deep_chars(&v);
    }
    acc.set(n, Some(v));
    assert(acc.deep_view() =~= d0.update(n as int, Some(vv))) by {
        assert forall|k: int| 0 <= k < d0.len() implies acc.deep_view()[k] == d0.update(
            n as int,
            Some(vv),
        )[k] by {}
    }
}

/// Records an assignment; `false` where quote stripping fails.
fn apply_assignment_exec(acc: &mut Vec<Option<Vec<char>>>, key: &[char], rhs: &[char]) -> (ok: bool)
    requires
        old(acc).len() == FIELD_COUNT,
    ensures
        final(acc).len() == FIELD_COUNT,
        ok ==> apply_assignment(old(acc).deep_view(), key@, rhs@) == Some(final(acc).deep_view()),
        !ok ==> apply_assignment(old(acc).deep_view(), key@, rhs@) is None,
{
    let t = trim_vec(rhs);
    match strip_outer_quotes_exec(&t) {
        None => false,
        Some(inner) => match field_of_key_exec(key) {
            None => true,
            Some(n) => {
                if is_array_field_exec(n) {
                    match array_inner_tokens_exec(&inner) {
                        None => false,
                        Some(v) => {
                            set_field(acc, n, v);
                            true
                        },
                    }
                } else {
                    set_field(acc, n, inner);
                    true
                }
            },
        },
    }
}

pub proof fn lemma_prefix_len()
    ensures
        "# Maintainer:"@.len() == 13,
{
    reveal_strlit("# Maintainer:");
}

/// Parse pass over all lines.
fn parse_walk_exec(ls: &Vec<Vec<char>>) -> (r: Option<Vec<Option<Vec<char>>>>)
    requires
        sum_lens(ls.deep_view()) <= usize::MAX,
    ensures
        match r {
            Some(v) => parse_walk(ls.deep_view(), 0, empty_fields()) == Some(v.deep_view())
                && v.len() == FIELD_COUNT,
            None => parse_walk(ls.deep_view(), 0, empty_fields()) is None,
        },
{
    let ghost lv = ls.deep_view();
    let mut acc: Vec<Option<Vec<char>>> = Vec::new();
    let mut k: usize = 0;
    while k < FIELD_COUNT
        invariant
            k <= FIELD_COUNT,
            acc.len() == k,
            forall|m: int| 0 <= m < k ==> acc@[m] is None,
        decreases FIELD_COUNT - k,
    {
        acc.push(None);
        k += 1;
    }
    assert(acc.deep_view() =~= empty_fields()) by {
        assert forall|m: int| 0 <= m < FIELD_COUNT implies acc.deep_view()[m] is None by {
            assert(acc@[m] is None);
        }
    }
    let pfx = maintainer_prefix();
    proof {
        lemma_prefix_len();
    }
    let mut i: usize = 0;
    while i < ls.len()
        invariant
            i <= ls.len(),
            lv == ls.deep_view(),
            sum_lens(lv) <= usize::MAX,
            acc.len() == FIELD_COUNT,
            pfx@ == "# Maintainer:"@,
            "# Maintainer:"@.len() == 13,
            parse_walk(lv, i as int, acc.deep_view()) == parse_walk(lv, 0, empty_fields()),
        decreases ls.len() - i,
    {
        proof {
            lemma_deep_chars(&ls[i as int]);
        }
        let ghost i0 = i as int;
        let ghost a0 = acc.deep_view();
        let t = trim_start_vec(&ls[i]);
        if starts_with_exec(&t, &pfx) {
            let rest = slice_vec(&t, 13, t.len());
            assert(rest@ == t@.skip(13));
            let v = trim_vec(&rest);
            set_field(&mut acc, 0, v);
            i += 1;
        } else {
            match parse_simple_assignment_exec(&t) {
                None => {
                    i += 1;
                },
                Some((key, val)) => {
                    let (rhs, j) = if opens_array_exec(&key, &val) {
                        let d = paren_delta_exec(&val);
                        collect_array_exec(ls, i + 1, d, val)
                    } else {
                        (val, i + 1)
                    };
                    if !apply_assignment_exec(&mut acc, &key, &rhs) {
                        assert(parse_walk(lv, i0, a0) is None);
                        return None;
                    }
                    assert(j > i);
                    i = j;
                },
            }
        }
    }
    Some(acc)
}


/// Applies field `n` to `text`.
fn merge_field_exec(text: &[char], fv: &Vec<Option<Vec<char>>>, n: usize) -> (r: Option<Vec<char>>)
    requires
        n < fv.len(),
        fv.len() == FIELD_COUNT,
    ensures
        opt_view(r) == merge_field(text@, fv.deep_view(), n as int),
{
    match &fv[n] {
        None => Some(slice_vec(text, 0, text.len())),
        Some(v) => {
            proof {
                lemma_deep_chars(v);
            }
            if n == 0 {
                Some(merge_maintainer_line_exec(text, v))
            } else if is_array_field_exec(n) {
                match bash_array_from_tokens_exec(v) {
                    None => None,
                    Some(rhs) => {
                        let k = field_key_exec(n);
                        Some(merge_assignment_line_exec(text, &k, &rhs))
                    },
                }
            } else {
                let k = field_key_exec(n);
                let rhs = bash_quote_scalar_exec(v);
                Some(merge_assignment_line_exec(text, &k, &rhs))
            }
        },
    }
}

pub proof fn lemma_merge_none_prefix(text: Seq<char>, fields: FieldsModel, n: int, m: int)
    requires
        0 <= n <= m,
        merge_fields_upto(text, fields, n) is None,
    ensures
        merge_fields_upto(text, fields, m) is None,
    decreases m - n,
{
    if n < m {
        lemma_merge_none_prefix(text, fields, n, m - 1);
    }
}

/// Applies every set field in order.
fn merge_all_exec(text: &[char], fv: &Vec<Option<Vec<char>>>) -> (r: Option<Vec<char>>)
    requires
        fv.len() == FIELD_COUNT,
    ensures
        opt_view(r) == merge_quick_fields_spec(text@, fv.deep_view()),
{
    let mut cur = slice_vec(text, 0, text.len());
    let mut n: usize = 0;
    while n < FIELD_COUNT
        invariant
            n <= FIELD_COUNT,
            fv.len() == FIELD_COUNT,
            merge_fields_upto(text@, fv.deep_view(), n as int) == Some(cur@),
        decreases FIELD_COUNT - n,
    {
        match merge_field_exec(&cur, fv, n) {
            None => {
                proof {
                    lemma_merge_none_prefix(text@, fv.deep_view(), n as int + 1, FIELD_COUNT as int);
                }
                return None;
            },
            Some(next) => {
                cur = next;
            },
        }
        n += 1;
    }
    Some(cur)
}

/// Scalar / array fields the quick editor can round-trip on `key=…` forms
/// (arrays may span lines).
#[derive(Debug, Clone, Default, PartialEq, Eq)]
pub struct PkgbuildQuickFields {
    pub maintainer_comment: Option<String>,
    pub pkgname: Option<String>,
    pub pkgver: Option<String>,
    pub pkgrel: Option<String>,
    pub pkgdesc: Option<String>,
    pub arch_tokens: Option<String>,
    pub url: Option<String>,
    pub license_tokens: Option<String>,
    pub depends_tokens: Option<String>,
    pub makedepends_tokens: Option<String>,
    pub optdepends_tokens: Option<String>,
    pub conflicts_tokens: Option<String>,
    pub provides_tokens: Option<String>,
    pub source_tokens: Option<String>,
}


impl View for PkgbuildQuickFields {
    type V = FieldsModel;

    /// The fields in editor order (maintainer comment first).
    open spec fn view(&self) -> FieldsModel {
        seq![
            opt_str(self.maintainer_comment),
            opt_str(self.pkgname),
            opt_str(self.pkgver),
            opt_str(self.pkgrel),
            opt_str(self.pkgdesc),
            opt_str(self.arch_tokens),
            opt_str(self.url),
            opt_str(self.license_tokens),
            opt_str(self.depends_tokens),
            opt_str(self.makedepends_tokens),
            opt_str(self.optdepends_tokens),
            opt_str(self.conflicts_tokens),
            opt_str(self.provides_tokens),
            opt_str(self.source_tokens),
        ]
    }
}

fn opt_chars(o: &Option<String>) -> (r: Option<Vec<char>>)
    ensures
        r.deep_view() == opt_str(*o),
{
    match o {
        Some(x) => {
            let v = chars_of(x.as_str());
            proof {
                lemma_deep_chars(&v);
            }
            Some(v)
        },
        None => None,
    }
}

fn opt_string(o: &Option<Vec<char>>) -> (r: Option<String>)
    ensures
        opt_str(r) == o.deep_view(),
{
    match o {
        Some(x) => {
            proof {
                lemma_deep_chars(x);
            }
            Some(string_of(x))
        },
        None => None,
    }
}

fn fields_to_vec(f: &PkgbuildQuickFields) -> (r: Vec<Option<Vec<char>>>)
    ensures
        r.len() == FIELD_COUNT,
        r.deep_view() == f@,
{
    let mut r: Vec<Option<Vec<char>>> = Vec::new();
    r.push(opt_chars(&f.maintainer_comment));
    r.push(opt_chars(&f.pkgname));
    r.push(opt_chars(&f.pkgver));
    r.push(opt_chars(&f.pkgrel));
    r.push(opt_chars(&f.pkgdesc));
    r.push(opt_chars(&f.arch_tokens));
    r.push(opt_chars(&f.url));
    r.push(opt_chars(&f.license_tokens));
    r.push(opt_chars(&f.depends_tokens));
    r.push(opt_chars(&f.makedepends_tokens));
    r.push(opt_chars(&f.optdepends_tokens));
    r.push(opt_chars(&f.conflicts_tokens));
    r.push(opt_chars(&f.provides_tokens));
    r.push(opt_chars(&f.source_tokens));
    assert(r.deep_view() =~= f@);
    r
}

fn fields_from_vec(v: &Vec<Option<Vec<char>>>) -> (r: PkgbuildQuickFields)
    requires
        v.len() == FIELD_COUNT,
    ensures
        r@ == v.deep_view(),
{
    let r = PkgbuildQuickFields {
        maintainer_comment: opt_string(&v[0]),
        pkgname: opt_string(&v[1]),
        pkgver: opt_string(&v[2]),
        pkgrel: opt_string(&v[3]),
        pkgdesc: opt_string(&v[4]),
        arch_tokens: opt_string(&v[5]),
        url: opt_string(&v[6]),
        license_tokens: opt_string(&v[7]),
        depends_tokens: opt_string(&v[8]),
        makedepends_tokens: opt_string(&v[9]),
        optdepends_tokens: opt_string(&v[10]),
        conflicts_tokens: opt_string(&v[11]),
        provides_tokens: opt_string(&v[12]),
        source_tokens: opt_string(&v[13]),
    };
    assert(r@ =~= v.deep_view());
    r
}

/// Reads the quick fields from PKGBUILD text; `None` on a value that is a lone
/// quote character (which the quick editor cannot slice).
pub fn parse_quick_fields_checked(text: &str) -> (r: Option<PkgbuildQuickFields>)
    ensures
        match r {
            Some(f) => parse_quick_fields_spec(text@) == Some(f@),
            None => parse_quick_fields_spec(text@) is None,
        },
{
    let v = chars_of(text);
    let ls = lines_exec(&v);
    proof {
        lemma_lines_sum_lens(v@);
        assert(v@.len() == v.len());
    }
    match parse_walk_exec(&ls) {
        None => None,
        Some(acc) => Some(fields_from_vec(&acc)),
    }
}

/// Parse quick fields from PKGBUILD text (best-effort).
pub fn parse_quick_fields(text: &str) -> (r: PkgbuildQuickFields)
    requires
        parse_quick_fields_spec(text@) is Some,
    ensures
        parse_quick_fields_spec(text@) == Some(r@),
{
    match parse_quick_fields_checked(text) {
        Some(f) => f,
        None => PkgbuildQuickFields {
            maintainer_comment: None,
            pkgname: None,
            pkgver: None,
            pkgrel: None,
            pkgdesc: None,
            arch_tokens: None,
            url: None,
            license_tokens: None,
            depends_tokens: None,
            makedepends_tokens: None,
            optdepends_tokens: None,
            conflicts_tokens: None,
            provides_tokens: None,
            source_tokens: None,
        },
    }
}

/// Applies the set fields of `fields` onto `text`; `None` when an array entry
/// is a lone quote character.
pub fn merge_quick_fields_checked(text: &str, fields: &PkgbuildQuickFields) -> (r: Option<String>)
    ensures
        match r {
            Some(t) => merge_quick_fields_spec(text@, fields@) == Some(t@),
            None => merge_quick_fields_spec(text@, fields@) is None,
        },
{
    let v = chars_of(text);
    let fv = fields_to_vec(fields);
    match merge_all_exec(&v, &fv) {
        None => None,
        Some(out) => Some(string_of(&out)),
    }
}

/// Apply [`PkgbuildQuickFields`] onto `text`. `None` fields are skipped.
pub fn merge_quick_fields(text: &str, fields: &PkgbuildQuickFields) -> (r: String)
    requires
        merge_quick_fields_spec(text@, fields@) is Some,
    ensures
        merge_quick_fields_spec(text@, fields@) == Some(r@),
{
    match merge_quick_fields_checked(text, fields) {
        Some(t) => t,
        None => String::new(),
    }
}

/// Text before the package name in the starter PKGBUILD.
pub open spec fn starter_head() -> Seq<char> {
    "# Maintainer: TODO: Your Name <your.email@example.com>\npkgname="@
}

/// Text after the package name in the starter PKGBUILD.
pub open spec fn starter_tail() -> Seq<char> {
    "\npkgver=0\npkgrel=1\npkgdesc=\"TODO: short description for the AUR (edit this starter PKGBUILD)\"\narch=('any')\nlicense=('MIT')\n\npackage() {\n  true\n}\n"@
}

/// Minimal PKGBUILD text for greenfield AUR registration (the user replaces
/// the TODOs). It has no `source` array, so `makepkg --verifysource` has
/// nothing to fetch.
pub fn starter_pkgbuild_for_register(pkgbase: &str) -> (r: String)
    ensures
        r@ == starter_head() + pkgbase@ + starter_tail(),
{
    let mut v = chars_of("# Maintainer: TODO: Your Name <your.email@example.com>\npkgname=");
    let p = chars_of(pkgbase);
    append_chars(&mut v, &p);
    let t = chars_of(
        "\npkgver=0\npkgrel=1\npkgdesc=\"TODO: short description for the AUR (edit this starter PKGBUILD)\"\narch=('any')\nlicense=('MIT')\n\npackage() {\n  true\n}\n",
    );
    append_chars(&mut v, &t);
    string_of(&v)
}

/// What went wrong loading or saving a PKGBUILD.
#[derive(Debug)]
pub enum PkgbuildEditError {
    /// No `PKGBUILD` at the given path.
    NotFound(String),
    /// An I/O failure, by its message.
    Io(String),
    /// Any other failure.
    Msg(String),
}

/// User-facing text of a PKGBUILD load/save error.
pub open spec fn edit_error_message(e: PkgbuildEditError) -> Seq<char> {
    match e {
        PkgbuildEditError::NotFound(p) => "PKGBUILD not found at "@ + p@,
        PkgbuildEditError::Io(m) => "I/O error: "@ + m@,
        PkgbuildEditError::Msg(m) => m@,
    }
}

impl PkgbuildEditError {
    /// User-facing text of the error.
    pub fn message(&self) -> (r: String)
        ensures
            r@ == edit_error_message(*self),
    {
        let v = match self {
            PkgbuildEditError::NotFound(p) => {
                let mut v = chars_of("PKGBUILD not found at ");
                append_chars(&mut v, &chars_of(p.as_str()));
                v
            },
            PkgbuildEditError::Io(m) => {
                let mut v = chars_of("I/O error: ");
                append_chars(&mut v, &chars_of(m.as_str()));
                v
            },
            PkgbuildEditError::Msg(m) => chars_of(m.as_str()),
        };
        string_of(&v)
    }
}

/// What happened when ensuring a starter PKGBUILD on disk.
#[derive(Debug, Clone, Copy, PartialEq, Eq)]
pub enum StarterPkgbuildOutcome {
    /// Wrote a new `PKGBUILD` because none was present.
    Created,
    /// Left the existing file untouched.
    SkippedExisting,
}


pub proof fn lemma_merge_upto_no_fields(text: Seq<char>, n: int)
    requires
        0 <= n <= FIELD_COUNT,
    ensures
        merge_fields_upto(text, empty_fields(), n) == Some(text),
    decreases n,
{
    if n > 0 {
        lemma_merge_upto_no_fields(text, n - 1);
        assert(empty_fields()[n - 1] is None);
    }
}

/// Merging fields that are all unset leaves the text unchanged (unset fields
/// are skipped).
pub proof fn law_merge_without_fields_is_identity(text: Seq<char>)
    ensures
        merge_quick_fields_spec(text, empty_fields()) == Some(text),
{
    lemma_merge_upto_no_fields(text, FIELD_COUNT as int);
}

} // verus!
