//! What the quick editor reads back of what it writes: after fields are merged
//! into a PKGBUILD, parsing the result gives every written field as written
//! and leaves every other field as it was.
//!
//! The proof reads a PKGBUILD as a sequence of independent reads of logical
//! lines (`steps`; a bash array continued across lines is one logical line,
//! see `pkgbuild_units`), describes each merge as a rewrite of that sequence
//! (`assign_out`, `insert_at`, `maintainer_lines`), shows that the line the
//! editor writes reads back as its value (`writes_back`), and compares the
//! two reads. A PKGBUILD whose lines end in carriage returns is compared with
//! the same PKGBUILD without them (`cr_related`): the merges keep the two
//! related, and related texts read alike.
use vstd::prelude::*;

use crate::config::lemma_replace_absent;
use crate::text::{
    all_chars, concat_lines, contains, is_ws, join, lemma_concat_cons, lemma_concat_push, lemma_lines_cons,
    split_ws,
    lemma_index_of_unique, lemma_lines_of_concat, lemma_trim_start_len_unique, lines, nl,
    no_newline, occurs_at, plain_line, starts_with, trim, trim_end, trim_end_len, trim_start,
    trim_start_len,
};
use crate::workflow::pkgbuild_edit::{
    array_inner_tokens, assign_walk, bash_quote_scalar, collect_array, empty_fields,
    field_key, field_of_key, insert_before_first_function, insert_fold, is_array_field,
    is_bash_function_start, is_key_char, is_quick_array_key, merge_assignment_line,
    merge_field, merge_fields_upto, merge_quick_fields_spec, opens_array, paren_delta, paren_walk, dq_end,
    token_end, tokens_from, not_squote_pred, non_ascii_ws_pred, ascii_ws_pred, clean_tokens,
    paren_pred, rskip_while, trim_matches,
    parse_quick_fields_spec, parse_simple_assignment, parse_walk, preserve_indent,
    strip_outer_quotes, maintainer_fold, merge_maintainer_line, FieldsModel, FIELD_COUNT,
};
use crate::workflow::pkgbuild_units::{
    first_function_unit, flatten, insert_unit, lemma_assign_units, lemma_assign_units_ok,
    lemma_assign_walk_units, lemma_concat_renders, lemma_first_function_units,
    lemma_flatten_one, lemma_flatten_split, lemma_flatten_units, lemma_insert_renders,
    lemma_insert_units,
    lemma_insert_units_ok, lemma_maintainer_units, lemma_maintainer_units_ok,
    lemma_maintainer_units_render, lemma_parse_units, lemma_render_like_first, lemma_resegment,
    maintainer_units, render, renders, shaped, unit_end, units_from, units_ok, wf_unit,
    assign_units,
};

verus! {

/// The line does not open an array continued on later lines.
pub open spec fn single_line(line: Seq<char>) -> bool {
    match parse_simple_assignment(trim_start(line)) {
        Some((k, v)) => !(opens_array(k, v) && paren_delta(v) > 0),
        None => true,
    }
}

/// What reading one line writes: `None` where reading fails, else the field
/// it sets and the value, if any.
pub open spec fn line_write(line: Seq<char>) -> Option<Option<(int, Seq<char>)>> {
    let t = trim_start(line);
    if starts_with(t, "# Maintainer:"@) {
        Some(Some((0, trim(t.skip("# Maintainer:"@.len() as int)))))
    } else {
        match parse_simple_assignment(t) {
            None => Some(None),
            Some((key, val)) => match strip_outer_quotes(trim(val)) {
                None => None,
                Some(inner) => match field_of_key(key) {
                    None => Some(None),
                    Some(n) => if is_array_field(n) {
                        match array_inner_tokens(inner) {
                            None => None,
                            Some(v) => Some(Some((n, v))),
                        }
                    } else {
                        Some(Some((n, inner)))
                    },
                },
            },
        }
    }
}

/// Fields after applying a write.
pub open spec fn apply_write(acc: FieldsModel, w: Option<(int, Seq<char>)>) -> FieldsModel {
    match w {
        None => acc,
        Some((m, v)) => acc.update(m, Some(v)),
    }
}

/// Reading line by line, each line on its own.
pub open spec fn steps(ls: Seq<Seq<char>>, acc: FieldsModel) -> Option<FieldsModel>
    decreases ls.len(),
{
    if ls.len() == 0 {
        Some(acc)
    } else {
        match line_write(ls[0]) {
            None => None,
            Some(w) => steps(ls.skip(1), apply_write(acc, w)),
        }
    }
}

/// Reading a concatenation reads one part, then the other.
pub proof fn lemma_steps_concat(a: Seq<Seq<char>>, b: Seq<Seq<char>>, acc: FieldsModel)
    ensures
        steps(a + b, acc) == (match steps(a, acc) {
            None => None,
            Some(x) => steps(b, x),
        }),
    decreases a.len(),
{
    if a.len() == 0 {
        assert(a + b =~= b);
    } else {
        assert((a + b)[0] == a[0]);
        assert((a + b).skip(1) =~= a.skip(1) + b);
        if line_write(a[0]) is Some {
            lemma_steps_concat(a.skip(1), b, apply_write(acc, line_write(a[0]).unwrap()));
        }
    }
}

/// A successful read reads every line.
pub proof fn lemma_steps_some(ls: Seq<Seq<char>>, acc: FieldsModel)
    requires
        steps(ls, acc) is Some,
    ensures
        forall|j: int| 0 <= j < ls.len() ==> line_write(#[trigger] ls[j]) is Some,
    decreases ls.len(),
{
    if ls.len() > 0 {
        lemma_steps_some(ls.skip(1), apply_write(acc, line_write(ls[0]).unwrap()));
        assert forall|j: int| 0 <= j < ls.len() implies line_write(#[trigger] ls[j]) is Some by {
            if j > 0 {
                assert(ls[j] == ls.skip(1)[j - 1]);
            }
        }
    }
}

/// Two field lists that agree everywhere but at `n`.
pub open spec fn agree_except(a: FieldsModel, b: FieldsModel, n: int) -> bool {
    a.len() == b.len() && forall|m: int| 0 <= m < a.len() && m != n ==> a[m] == b[m]
}

/// The line writes field `n`.
pub open spec fn writes_field(line: Seq<char>, n: int) -> bool {
    line_write(line) matches Some(Some((m, _))) && m == n
}

/// A line writes a field of the quick editor, if any.
pub proof fn lemma_line_write_range(line: Seq<char>)
    ensures
        line_write(line) matches Some(Some((m, _))) ==> 0 <= m < FIELD_COUNT,
{
}

/// Reading lines that do not write field `n`, from two lists that agree but
/// at `n`, keeps them so, and leaves field `n` alone.
pub proof fn lemma_steps_agree(ls: Seq<Seq<char>>, a: FieldsModel, b: FieldsModel, n: int)
    requires
        a.len() == FIELD_COUNT,
        0 <= n < FIELD_COUNT,
        agree_except(a, b, n),
        forall|j: int| 0 <= j < ls.len() ==> line_write(#[trigger] ls[j]) is Some,
        forall|j: int| 0 <= j < ls.len() ==> !writes_field(#[trigger] ls[j], n),
    ensures
        steps(ls, a) matches Some(ra) && steps(ls, b) matches Some(rb) && agree_except(ra, rb, n)
            && ra.len() == FIELD_COUNT && ra[n] == a[n] && rb[n] == b[n],
    decreases ls.len(),
{
    if ls.len() > 0 {
        assert(line_write(ls[0]) is Some);
        assert(!writes_field(ls[0], n));
        lemma_line_write_range(ls[0]);
        let w = line_write(ls[0]).unwrap();
        assert forall|j: int| 0 <= j < ls.skip(1).len() implies line_write(#[trigger] ls.skip(1)[j]) is Some by {
            assert(ls.skip(1)[j] == ls[j + 1]);
        }
        assert forall|j: int| 0 <= j < ls.skip(1).len() implies !writes_field(#[trigger] ls.skip(1)[j], n) by {
            assert(ls.skip(1)[j] == ls[j + 1]);
        }
        lemma_steps_agree(ls.skip(1), apply_write(a, w), apply_write(b, w), n);
    }
}

/// Fields the quick editor writes as a plain `key=value` line.
pub open spec fn is_scalar_field(n: int) -> bool {
    n == 1 || n == 2 || n == 3 || n == 4 || n == 6
}

/// A scalar the quick editor writes and reads back as it was: no newline, no
/// surrounding whitespace, and either written as it stands (it opens with a
/// quote that it does not close with, or with a parenthesis, or it holds only
/// characters that need no quoting) or, where it gets double quotes, holding
/// neither a double quote nor a backslash.
pub open spec fn simple_value(v: Seq<char>) -> bool {
    &&& no_newline(v)
    &&& v.len() > 0 ==> !is_ws(v[0]) && !is_ws(v.last())
    &&& if v.len() > 0 && (v[0] == '\'' || v[0] == '"') {
        v.last() != v[0]
    } else if v.len() > 0 && (v[0] == '(' || all_chars(
        v,
        |c: char| crate::workflow::pkgbuild_edit::is_scalar_safe(c),
    )) {
        true
    } else {
        forall|j: int| 0 <= j < v.len() ==> v[j] != '"' && v[j] != '\\'
    }
}

/// The line body the quick editor writes for scalar field `n`.
pub open spec fn scalar_body(n: int, v: Seq<char>) -> Seq<char> {
    field_key(n) + seq!['='] + bash_quote_scalar(v)
}

/// Text whose ends are not whitespace is its own trim.
proof fn lemma_trim_id(s: Seq<char>)
    requires
        s.len() > 0 ==> !is_ws(s[0]) && !is_ws(s.last()),
    ensures
        trim_start(s) == s,
        trim_end(s) == s,
        trim(s) == s,
{
    assert(trim_start_len(s) == 0);
    assert(s.skip(0) =~= s);
    assert(trim_end_len(s) == 0);
    assert(s.take(s.len() as int) =~= s);
}

/// A character that does not occur is not a pattern found in the text.
proof fn lemma_char_absent(s: Seq<char>, c: char)
    requires
        forall|j: int| 0 <= j < s.len() ==> s[j] != c,
    ensures
        !contains(s, seq![c]),
{
    if contains(s, seq![c]) {
        let i = choose|i: int| occurs_at(s, seq![c], i);
        assert(s.subrange(i, i + 1)[0] == s[i]);
    }
}

/// How a simple value is quoted, and that reading strips the quoting again.
proof fn lemma_quote_simple(v: Seq<char>)
    requires
        simple_value(v),
    ensures
        bash_quote_scalar(v).len() > 0,
        !is_ws(bash_quote_scalar(v)[0]),
        !is_ws(bash_quote_scalar(v).last()),
        no_newline(bash_quote_scalar(v)),
        trim(bash_quote_scalar(v)) == bash_quote_scalar(v),
        strip_outer_quotes(bash_quote_scalar(v)) == Some(v),
{
    lemma_trim_id(v);
    let q = bash_quote_scalar(v);
    if v.len() == 0 {
        assert(q =~= seq!['"', '"']);
        assert(q.subrange(1, 1) =~= v);
    } else if v[0] == '\'' || v[0] == '"' || v[0] == '(' || all_chars(
        v,
        |c: char| crate::workflow::pkgbuild_edit::is_scalar_safe(c),
    ) {
        assert(q == v);
    } else {
        lemma_char_absent(v, '\\');
        lemma_replace_absent(v, seq!['\\'], seq!['\\', '\\']);
        lemma_char_absent(v, '"');
        lemma_replace_absent(v, seq!['"'], seq!['\\', '"']);
        assert(q == seq!['"'] + v + seq!['"']);
        assert(q.subrange(1, q.len() - 1) =~= v);
    }
    lemma_trim_id(q);
}

/// Every key of the quick editor names its field back.
pub proof fn lemma_field_key(n: int)
    requires
        1 <= n < FIELD_COUNT,
    ensures
        field_of_key(field_key(n)) == Some(n),
{
    reveal_strlit("pkgname");
    reveal_strlit("pkgver");
    reveal_strlit("pkgrel");
    reveal_strlit("pkgdesc");
    reveal_strlit("arch");
    reveal_strlit("url");
    reveal_strlit("license");
    reveal_strlit("depends");
    reveal_strlit("makedepends");
    reveal_strlit("optdepends");
    reveal_strlit("conflicts");
    reveal_strlit("provides");
    reveal_strlit("source");
    let keys = seq![
        "pkgname"@,
        "pkgver"@,
        "pkgrel"@,
        "pkgdesc"@,
        "arch"@,
        "url"@,
        "license"@,
        "depends"@,
        "makedepends"@,
        "optdepends"@,
        "conflicts"@,
        "provides"@,
        "source"@,
    ];
    assert(forall|a: int, b: int|
        0 <= a < b < 13 ==> keys[a].len() != keys[b].len() || keys[a][0] != keys[b][0]
            || keys[a][3] != keys[b][3]);
    assert(forall|a: int, b: int| 0 <= a < b < 13 ==> #[trigger] keys[a] != #[trigger] keys[b]) by {
        assert forall|a: int, b: int| 0 <= a < b < 13 implies #[trigger] keys[a] != #[trigger] keys[b] by {
            if keys[a].len() == keys[b].len() && keys[a][0] == keys[b][0] {
                assert(keys[a][3] != keys[b][3]);
            }
        }
    }
    assert(field_key(n) == keys[n - 1]);
    assert forall|k: int| 1 <= k < n implies field_key(n) != #[trigger] field_key(k) by {
        assert(field_key(k) == keys[k - 1]);
    }
}

/// The key of a scalar field names that field back.
proof fn lemma_scalar_key(n: int)
    requires
        is_scalar_field(n),
    ensures
        field_of_key(field_key(n)) == Some(n),
        field_key(n).len() > 0,
        !is_ws(field_key(n)[0]),
        !is_ws(field_key(n).last()),
        all_chars(field_key(n), |c: char| is_key_char(c)),
        forall|j: int|
            0 <= j < field_key(n).len() ==> field_key(n)[j] != '=' && field_key(n)[j] != '\n'
                && field_key(n)[j] != '#',
{
    reveal_strlit("pkgname");
    reveal_strlit("pkgver");
    reveal_strlit("pkgrel");
    reveal_strlit("pkgdesc");
    reveal_strlit("url");
    reveal_strlit("arch");
    assert("arch"@.len() == 4);
    assert("pkgname"@.len() == 7);
    assert("pkgver"@.len() == 6);
    assert("pkgrel"@.len() == 6);
    assert("pkgdesc"@.len() == 7);
    assert("url"@.len() == 3);
    if n == 3 {
        assert("pkgrel"@[3] != "pkgver"@[3]);
        assert("pkgrel"@ != "pkgver"@);
    } else if n == 4 {
        assert("pkgdesc"@[3] != "pkgname"@[3]);
        assert("pkgdesc"@ != "pkgname"@);
    }
}

/// The key line of a scalar field, after any run of indentation, is plain,
/// stands alone, and reads back as field `n` set to `v`.
pub proof fn lemma_scalar_line(p: Seq<char>, n: int, v: Seq<char>)
    requires
        is_scalar_field(n),
        simple_value(v),
        forall|j: int| 0 <= j < p.len() ==> is_ws(#[trigger] p[j]) && p[j] != '\n',
    ensures
        plain_line(p + scalar_body(n, v)),
        single_line(p + scalar_body(n, v)),
        line_write(p + scalar_body(n, v)) == Some(Some((n, v))),
{
    reveal_strlit("pkgname");
    reveal_strlit("pkgver");
    reveal_strlit("pkgrel");
    reveal_strlit("pkgdesc");
    reveal_strlit("arch");
    reveal_strlit("url");
    reveal_strlit("# Maintainer:");
    lemma_quote_simple(v);
    let key = field_key(n);
    let q = bash_quote_scalar(v);
    let nb = scalar_body(n, v);
    let s = p + nb;
    lemma_scalar_key(n);
    assert(nb[0] == key[0]);
    assert(s[p.len() as int] == nb[0]);
    lemma_trim_start_len_unique(s, p.len() as int);
    assert(trim_start(s) =~= nb);
    assert(!starts_with(nb, "# Maintainer:"@)) by {
        if starts_with(nb, "# Maintainer:"@) {
            assert(nb.take(13)[0] == nb[0]);
        }
    }
    lemma_index_of_unique(nb, '=', key.len() as int);
    assert(nb.take(key.len() as int) =~= key);
    lemma_trim_id(key);
    assert(nb.skip(key.len() as int + 1) =~= q);
    assert(parse_simple_assignment(nb) == Some((key, q)));
    assert(!is_quick_array_key(key));
    assert(no_newline(s)) by {
        assert forall|j: int| 0 <= j < s.len() implies s[j] != '\n' by {
            if j < p.len() {
                assert(s[j] == p[j]);
            } else if j < p.len() + key.len() {
                assert(s[j] == key[j - p.len()]);
            } else if j > p.len() + key.len() {
                assert(s[j] == q[j - p.len() - key.len() - 1]);
            }
        }
    }
    assert(s.last() == q.last());
}

/// The line assigns `key`.
pub open spec fn key_line(line: Seq<char>, key: Seq<char>) -> bool {
    parse_simple_assignment(trim_start(line)) matches Some((k, _)) && k == key
}

/// Some line assigns `key`.
pub open spec fn has_key_line(ls: Seq<Seq<char>>, key: Seq<char>) -> bool {
    exists|j: int| 0 <= j < ls.len() && key_line(#[trigger] ls[j], key)
}

/// Lines the assignment merge writes for a key that opens no array: the first
/// line assigning `key` is replaced (unless one already was), later ones are
/// dropped, the others kept.
pub open spec fn assign_out(ls: Seq<Seq<char>>, key: Seq<char>, body: Seq<char>, replaced: bool) -> Seq<
    Seq<char>,
>
    decreases ls.len(),
{
    if ls.len() == 0 {
        seq![]
    } else if key_line(ls[0], key) {
        if replaced {
            assign_out(ls.skip(1), key, body, true)
        } else {
            seq![preserve_indent(ls[0], body)] + assign_out(ls.skip(1), key, body, true)
        }
    } else {
        seq![ls[0]] + assign_out(ls.skip(1), key, body, replaced)
    }
}

pub proof fn lemma_has_key_line_front(ls: Seq<Seq<char>>, key: Seq<char>)
    requires
        ls.len() > 0,
    ensures
        has_key_line(ls, key) == (key_line(ls[0], key) || has_key_line(ls.skip(1), key)),
{
    if has_key_line(ls.skip(1), key) {
        let j = choose|j: int| 0 <= j < ls.skip(1).len() && key_line(#[trigger] ls.skip(1)[j], key);
        assert(ls[j + 1] == ls.skip(1)[j]);
    }
    if has_key_line(ls, key) && !key_line(ls[0], key) {
        let j = choose|j: int| 0 <= j < ls.len() && key_line(#[trigger] ls[j], key);
        assert(ls.skip(1)[j - 1] == ls[j]);
    }
    if key_line(ls[0], key) {
        assert(key_line(ls[0], key));
    }
}

/// Among lines that read, those assigning the key of field `n` are exactly
/// those writing field `n`.
proof fn lemma_key_line_writes(line: Seq<char>, n: int)
    requires
        1 <= n < FIELD_COUNT,
        line_write(line) is Some,
    ensures
        key_line(line, field_key(n)) == writes_field(line, n),
{
    reveal_strlit("# Maintainer:");
    let t = trim_start(line);
    if starts_with(t, "# Maintainer:"@) {
        assert(t[0] == "# Maintainer:"@[0]);
        assert(parse_simple_assignment(t) is None);
    }
    lemma_field_key(n);
}

/// Steps over a line in front of others.
proof fn lemma_steps_cons(x: Seq<char>, rest: Seq<Seq<char>>, acc: FieldsModel)
    ensures
        steps(seq![x] + rest, acc) == (match line_write(x) {
            None => None,
            Some(w) => steps(rest, apply_write(acc, w)),
        }),
{
    let ls = seq![x] + rest;
    assert(ls[0] == x);
    assert(ls.skip(1) =~= rest);
}

/// Indentation: whitespace without a newline.
pub open spec fn indentation(p: Seq<char>) -> bool {
    forall|j: int| 0 <= j < p.len() ==> is_ws(#[trigger] p[j]) && p[j] != '\n'
}

/// After any indentation, `body` is a good line that reads back as field `n`
/// set to `v`.
pub open spec fn writes_back(body: Seq<char>, n: int, v: Seq<char>) -> bool {
    forall|p: Seq<char>|
        indentation(p) ==> good_line(#[trigger] (p + body)) && line_write(p + body) == Some(
            Some((n, v)),
        )
}

/// The indentation `preserve_indent` keeps.
pub proof fn lemma_kept_indentation(line: Seq<char>)
    requires
        no_newline(line),
    ensures
        indentation(line.take(crate::text::skip_while(line, 0, crate::text::ws_pred()))),
{
    let k = crate::text::skip_while(line, 0, crate::text::ws_pred());
    crate::text::lemma_skip_while(line, 0, crate::text::ws_pred());
    let p = line.take(k);
    assert forall|j: int| 0 <= j < p.len() implies is_ws(#[trigger] p[j]) && p[j] != '\n' by {
        assert(p[j] == line[j]);
        assert((crate::text::ws_pred())(line[j]));
    }
}

/// The indentation `preserve_indent` keeps from `l` is whitespace without a newline.
pub open spec fn keeps_indentation(l: Seq<char>) -> bool {
    indentation(l.take(crate::text::skip_while(l, 0, crate::text::ws_pred())))
}

/// Reading what the assignment merge wrote for field `n`, against reading the
/// lines it started from: the fields agree but at `n`, and field `n` holds the
/// written value once a line was replaced.
pub proof fn lemma_steps_assign(
    ls: Seq<Seq<char>>,
    n: int,
    body: Seq<char>,
    v: Seq<char>,
    a: FieldsModel,
    b: FieldsModel,
    replaced: bool,
)
    requires
        1 <= n < FIELD_COUNT,
        writes_back(body, n, v),
        a.len() == FIELD_COUNT,
        agree_except(a, b, n),
        forall|j: int| 0 <= j < ls.len() ==> line_write(#[trigger] ls[j]) is Some,
        forall|j: int| 0 <= j < ls.len() ==> keeps_indentation(#[trigger] ls[j]),
    ensures
        steps(ls, a) matches Some(ra) && steps(assign_out(ls, field_key(n), body, replaced), b) matches Some(
            rb,
        ) && agree_except(ra, rb, n) && ra.len() == FIELD_COUNT && rb[n] == (if !replaced
            && has_key_line(ls, field_key(n)) {
            Some(v)
        } else {
            b[n]
        }),
    decreases ls.len(),
{
    let key = field_key(n);
    if ls.len() > 0 {
        let l = ls[0];
        let ls1 = ls.skip(1);
        assert forall|j: int| 0 <= j < ls1.len() implies line_write(#[trigger] ls1[j]) is Some
            && keeps_indentation(ls1[j]) by {
            assert(ls1[j] == ls[j + 1]);
        }
        assert(line_write(l) is Some);
        assert(keeps_indentation(l));
        lemma_line_write_range(l);
        lemma_key_line_writes(l, n);
        lemma_has_key_line_front(ls, key);
        let w = line_write(l).unwrap();
        let a1 = apply_write(a, w);
        if key_line(l, key) {
            if replaced {
                lemma_steps_assign(ls1, n, body, v, a1, b, true);
            } else {
                let pi = preserve_indent(l, body);
                assert(good_line(pi) && line_write(pi) == Some(Some((n, v))));
                let b1 = b.update(n, Some(v));
                lemma_steps_cons(pi, assign_out(ls1, key, body, true), b);
                lemma_steps_assign(ls1, n, body, v, a1, b1, true);
            }
        } else {
            let b1 = apply_write(b, w);
            lemma_steps_cons(l, assign_out(ls1, key, body, replaced), b);
            lemma_steps_assign(ls1, n, body, v, a1, b1, replaced);
        }
    }
}

/// Index of the first line that starts a bash function, or the number of lines.
pub open spec fn first_function(ls: Seq<Seq<char>>) -> int
    decreases ls.len(),
{
    if ls.len() == 0 {
        0
    } else {
        let k = first_function(ls.drop_last());
        if k < ls.len() - 1 {
            k
        } else if is_bash_function_start(ls.last()) {
            ls.len() - 1
        } else {
            ls.len() as int
        }
    }
}

/// The line inserted in front of line `k`.
pub open spec fn insert_at(ls: Seq<Seq<char>>, k: int, line: Seq<char>) -> Seq<Seq<char>> {
    ls.take(k) + seq![line] + ls.skip(k)
}

/// The insertion pass writes the lines with `body` in front of the first
/// function, and says whether there was one.
pub proof fn lemma_insert_fold(ls: Seq<Seq<char>>, body: Seq<char>)
    ensures
        0 <= first_function(ls) <= ls.len(),
        insert_fold(ls, body + nl()) == (if first_function(ls) < ls.len() {
            concat_lines(insert_at(ls, first_function(ls), body))
        } else {
            concat_lines(ls)
        }, first_function(ls) < ls.len()),
    decreases ls.len(),
{
    if ls.len() > 0 {
        let ls1 = ls.drop_last();
        let x = ls.last();
        lemma_insert_fold(ls1, body);
        let k = first_function(ls1);
        assert(ls1.push(x) =~= ls);
        if k < ls1.len() {
            assert(insert_at(ls, k, body) =~= insert_at(ls1, k, body).push(x));
            lemma_concat_push(insert_at(ls1, k, body), x);
            assert(concat_lines(insert_at(ls1, k, body)) + x + nl() =~= concat_lines(
                insert_at(ls1, k, body),
            ) + x + nl());
        } else if is_bash_function_start(x) {
            assert(insert_at(ls, k, body) =~= ls1.push(body).push(x));
            lemma_concat_push(ls1.push(body), x);
            lemma_concat_push(ls1, body);
            assert(concat_lines(ls1) + (body + nl()) + x + nl() =~= concat_lines(ls1) + body + nl() + x
                + nl());
        } else {
            lemma_concat_push(ls1, x);
        }
    }
}

/// Inserting a line in front of the first function, or at the end.
pub proof fn lemma_insert_before_first_function(text: Seq<char>, body: Seq<char>)
    ensures
        0 <= first_function(lines(text)) <= lines(text).len(),
        insert_before_first_function(text, body + nl()) == concat_lines(
            insert_at(lines(text), first_function(lines(text)), body),
        ),
{
    let ls = lines(text);
    lemma_insert_fold(ls, body);
    if first_function(ls) == ls.len() {
        assert(insert_at(ls, ls.len() as int, body) =~= ls.push(body));
        lemma_concat_push(ls, body);
        assert(concat_lines(ls) + (body + nl()) =~= concat_lines(ls) + body + nl());
    }
}

/// A line that reads back unchanged and stands alone.
pub open spec fn good_line(l: Seq<char>) -> bool {
    plain_line(l) && single_line(l)
}


/// The line is a `# Maintainer:` comment.
pub open spec fn is_maintainer_line(line: Seq<char>) -> bool {
    starts_with(trim_start(line), "# Maintainer:"@)
}

/// The maintainer pass on lines: the first maintainer comment is replaced by
/// `new_line` (keeping its indentation), later ones are dropped.
pub open spec fn maintainer_lines(ls: Seq<Seq<char>>, new_line: Seq<char>) -> (Seq<Seq<char>>, bool)
    decreases ls.len(),
{
    if ls.len() == 0 {
        (seq![], false)
    } else {
        let (o, r) = maintainer_lines(ls.drop_last(), new_line);
        let line = ls.last();
        if is_maintainer_line(line) {
            if !r {
                (o.push(preserve_indent(line, new_line)), true)
            } else {
                (o, r)
            }
        } else {
            (o.push(line), r)
        }
    }
}

/// The text pass is the line pass joined back into text; without a
/// maintainer comment the lines stay as they are.
pub proof fn lemma_maintainer_fold_lines(ls: Seq<Seq<char>>, new_line: Seq<char>)
    ensures
        maintainer_fold(ls, new_line) == (
            concat_lines(maintainer_lines(ls, new_line).0),
            maintainer_lines(ls, new_line).1,
        ),
        !maintainer_lines(ls, new_line).1 ==> maintainer_lines(ls, new_line).0 == ls && forall|k: int|
            0 <= k < ls.len() ==> !is_maintainer_line(#[trigger] ls[k]),
    decreases ls.len(),
{
    if ls.len() > 0 {
        lemma_maintainer_fold_lines(ls.drop_last(), new_line);
        let o = maintainer_lines(ls.drop_last(), new_line).0;
        lemma_concat_push(o, preserve_indent(ls.last(), new_line));
        lemma_concat_push(o, ls.last());
        assert(ls.drop_last().push(ls.last()) =~= ls);
        assert forall|k: int| 0 <= k < ls.len() - 1 implies ls[k] == ls.drop_last()[k] by {}
    }
}

/// Maintainer body read back as written: no surrounding whitespace, no newline.
pub open spec fn simple_comment(body: Seq<char>) -> bool {
    &&& body.len() > 0 ==> !is_ws(body[0]) && !is_ws(body.last())
    &&& no_newline(body)
}

/// A maintainer body read back as written is a plain line and its own trim.
proof fn lemma_simple_comment(body: Seq<char>)
    requires
        simple_comment(body),
    ensures
        plain_line(body),
        trim(body) == body,
{
    lemma_trim_id(body);
}

/// Lines that are not maintainer comments do not write the maintainer field.
proof fn lemma_non_maintainer_writes(line: Seq<char>)
    requires
        !is_maintainer_line(line),
    ensures
        !writes_field(line, 0),
{
}

/// The maintainer comment the quick editor writes, after any indentation,
/// is plain, stands alone, and reads back as `body` without surrounding
/// whitespace.
pub proof fn lemma_maintainer_line(p: Seq<char>, body: Seq<char>)
    requires
        plain_line(body),
        forall|j: int| 0 <= j < p.len() ==> is_ws(#[trigger] p[j]) && p[j] != '\n',
    ensures
        good_line(p + ("# Maintainer: "@ + body)),
        is_maintainer_line(p + ("# Maintainer: "@ + body)),
        line_write(p + ("# Maintainer: "@ + body)) == Some(Some((0int, trim(body)))),
{
    reveal_strlit("# Maintainer: ");
    reveal_strlit("# Maintainer:");
    let nl_ = "# Maintainer: "@ + body;
    let s = p + nl_;
    assert(s[p.len() as int] == '#');
    lemma_trim_start_len_unique(s, p.len() as int);
    assert(trim_start(s) =~= nl_);
    assert(nl_.take(13) =~= "# Maintainer:"@);
    let rest = nl_.skip(13);
    assert(rest =~= seq![' '] + body);
    crate::text::lemma_trim_start_len_bounds(body);
    let k = trim_start_len(body);
    assert forall|i: int| 0 <= i < 1 + k implies is_ws(#[trigger] rest[i]) by {
        if i > 0 {
            assert(rest[i] == body[i - 1]);
        }
    }
    if 1 + k < rest.len() {
        assert(rest[1 + k] == body[k]);
    }
    lemma_trim_start_len_unique(rest, 1 + k);
    assert(trim_start(rest) =~= trim_start(body));
    assert(trim(rest) == trim(body));
    assert(parse_simple_assignment(nl_) is None);
    assert(no_newline(s)) by {
        assert forall|j: int| 0 <= j < s.len() implies s[j] != '\n' by {
            if j < p.len() {
                assert(s[j] == p[j]);
            } else if j >= p.len() + 14 {
                assert(s[j] == body[j - p.len() - 14]);
            }
        }
    }
    if body.len() > 0 {
        assert(s.last() == body.last());
    } else {
        assert(s.last() == ' ');
    }
}

/// Reading the lines of the maintainer pass against reading the lines it
/// started from: the fields agree but for the maintainer, which holds the
/// written comment, trimmed, once one was replaced.
pub proof fn lemma_steps_maintainer(ls: Seq<Seq<char>>, body: Seq<char>, a: FieldsModel)
    requires
        plain_line(body),
        a.len() == FIELD_COUNT,
        forall|j: int| 0 <= j < ls.len() ==> line_write(#[trigger] ls[j]) is Some,
        forall|j: int| 0 <= j < ls.len() ==> keeps_indentation(#[trigger] ls[j]),
    ensures
        steps(ls, a) matches Some(ra) && steps(maintainer_lines(ls, "# Maintainer: "@ + body).0, a) matches Some(rb)
            && agree_except(ra, rb, 0) && ra.len() == FIELD_COUNT && rb[0] == (if maintainer_lines(
            ls,
            "# Maintainer: "@ + body,
        ).1 {
            Some(trim(body))
        } else {
            a[0]
        }),
    decreases ls.len(),
{
    let new_line = "# Maintainer: "@ + body;
    if ls.len() == 0 {
        assert(agree_except(a, a, 0));
    } else {
        let ls1 = ls.drop_last();
        let x = ls.last();
        assert(ls1.push(x) =~= ls);
        assert forall|j: int| 0 <= j < ls1.len() implies line_write(#[trigger] ls1[j]) is Some
            && keeps_indentation(ls1[j]) by {
            assert(ls1[j] == ls[j]);
        }
        assert(line_write(ls[ls.len() - 1]) is Some && keeps_indentation(ls[ls.len() - 1]));
        lemma_steps_maintainer(ls1, body, a);
        let (o1, r1) = maintainer_lines(ls1, new_line);
        let ra1 = steps(ls1, a).unwrap();
        let rb1 = steps(o1, a).unwrap();
        assert(ls1 + seq![x] =~= ls);
        lemma_steps_concat(ls1, seq![x], a);
        lemma_steps_cons(x, seq![], ra1);
        lemma_line_write_range(x);
        let w = line_write(x).unwrap();
        if is_maintainer_line(x) {
            if !r1 {
                let k = crate::text::skip_while(x, 0, crate::text::ws_pred());
                let p = x.take(k);
                lemma_maintainer_line(p, body);
                let pi = preserve_indent(x, new_line);
                assert(o1 + seq![pi] =~= o1.push(pi));
                lemma_steps_concat(o1, seq![pi], a);
                lemma_steps_cons(pi, seq![], rb1);
            }
        } else {
            lemma_non_maintainer_writes(x);
            assert(o1 + seq![x] =~= o1.push(x));
            lemma_steps_concat(o1, seq![x], a);
            lemma_steps_cons(x, seq![], rb1);
        }
        assert(seq![x] + Seq::<Seq<char>>::empty() =~= seq![x]);
        assert(seq![preserve_indent(x, new_line)] + Seq::<Seq<char>>::empty() =~= seq![
            preserve_indent(x, new_line),
        ]);
    }
}

/// A character an array entry may hold: no whitespace, no single quote.
pub open spec fn plain_entry_char(c: char) -> bool {
    !is_ws(c) && c != '\''
}

/// Array entries that read back as written: non-empty, of plain characters,
/// not opening with a double quote or a parenthesis.
pub open spec fn plain_entries(ts: Seq<Seq<char>>) -> bool {
    forall|k: int|
        0 <= k < ts.len() ==> (#[trigger] ts[k]).len() > 0 && ts[k][0] != '"' && ts[k][0] != '('
            && forall|j: int| 0 <= j < ts[k].len() ==> plain_entry_char(#[trigger] ts[k][j])
}

/// An entry as the quick editor writes it, in single quotes.
pub open spec fn quoted_entry(t: Seq<char>) -> Seq<char> {
    seq!['\''] + t + seq!['\'']
}

pub open spec fn quoted_entries(ts: Seq<Seq<char>>) -> Seq<Seq<char>> {
    Seq::new(ts.len(), |k: int| quoted_entry(ts[k]))
}

/// The array right-hand side the quick editor writes for `ts`.
pub open spec fn array_rhs(ts: Seq<Seq<char>>) -> Seq<char> {
    if ts.len() == 0 {
        seq!['(', ')']
    } else {
        seq!['('] + join(quoted_entries(ts), seq![' ']) + seq![')']
    }
}

proof fn lemma_plain_entries_tail(ts: Seq<Seq<char>>)
    requires
        plain_entries(ts),
        ts.len() > 0,
    ensures
        plain_entries(ts.skip(1)),
        plain_entries(ts.drop_last()),
{
    assert forall|k: int| 0 <= k < ts.skip(1).len() implies (#[trigger] ts.skip(1)[k]).len() > 0
        && forall|j: int| 0 <= j < ts.skip(1)[k].len() ==> plain_entry_char(#[trigger] ts.skip(1)[k][j]) by {
        assert(ts.skip(1)[k] == ts[k + 1]);
    }
    assert forall|k: int| 0 <= k < ts.drop_last().len() implies (#[trigger] ts.drop_last()[k]).len() > 0
        && forall|j: int|
        0 <= j < ts.drop_last()[k].len() ==> plain_entry_char(#[trigger] ts.drop_last()[k][j]) by {
        assert(ts.drop_last()[k] == ts[k]);
    }
}

/// How the quick editor quotes plain entries.
proof fn lemma_quote_plain_parts(ts: Seq<Seq<char>>)
    requires
        plain_entries(ts),
    ensures
        crate::workflow::pkgbuild_edit::quote_array_parts(ts) == Some(quoted_entries(ts)),
    decreases ts.len(),
{
    if ts.len() > 0 {
        lemma_plain_entries_tail(ts);
        lemma_quote_plain_parts(ts.drop_last());
        let t = ts.last();
        assert(t.len() > 0);
        assert(plain_entry_char(t[0]));
        assert(plain_entry_char(t.last()));
        assert(strip_outer_quotes(t) == Some(t));
        assert forall|j: int| 0 <= j < t.len() implies t[j] != '\'' by {
            assert(plain_entry_char(ts[ts.len() - 1][j]));
        }
        lemma_char_absent(t, '\'');
        lemma_replace_absent(t, seq!['\''], seq!['\'', '\\', '\'', '\'']);
        assert(quoted_entries(ts.drop_last()).push(quoted_entry(t)) =~= quoted_entries(ts));
    } else {
        assert(quoted_entries(ts) =~= Seq::<Seq<char>>::empty());
    }
}

/// What the quick editor writes for plain entries joined by spaces.
pub proof fn lemma_array_from_plain(ts: Seq<Seq<char>>)
    requires
        plain_entries(ts),
    ensures
        crate::workflow::pkgbuild_edit::bash_array_from_tokens(join(ts, seq![' '])) == Some(
            array_rhs(ts),
        ),
        split_ws(join(ts, seq![' '])) == ts,
{
    assert forall|k: int| 0 <= k < ts.len() implies (#[trigger] ts[k]).len() > 0 && forall|j: int|
        0 <= j < ts[k].len() ==> !is_ws(#[trigger] ts[k][j]) by {
        assert forall|j: int| 0 <= j < ts[k].len() implies !is_ws(#[trigger] ts[k][j]) by {
            assert(plain_entry_char(ts[k][j]));
        }
    }
    crate::text::lemma_split_join(ts);
    lemma_quote_plain_parts(ts);
}

/// Every character of a join is a character of a part or of the separator.
pub proof fn lemma_join_chars(parts: Seq<Seq<char>>, sep: Seq<char>, f: spec_fn(char) -> bool)
    requires
        forall|k: int, j: int| 0 <= k < parts.len() && 0 <= j < parts[k].len() ==> f(#[trigger] parts[k][j]),
        forall|j: int| 0 <= j < sep.len() ==> f(#[trigger] sep[j]),
    ensures
        forall|j: int| 0 <= j < join(parts, sep).len() ==> f(#[trigger] join(parts, sep)[j]),
    decreases parts.len(),
{
    if parts.len() == 1 {
        assert forall|j: int| 0 <= j < join(parts, sep).len() implies f(#[trigger] join(parts, sep)[j]) by {
            assert(join(parts, sep)[j] == parts[0][j]);
        }
    } else if parts.len() > 1 {
        let pd = parts.drop_last();
        assert forall|k: int, j: int| 0 <= k < pd.len() && 0 <= j < pd[k].len() implies f(#[trigger] pd[k][j]) by {
            assert(pd[k] == parts[k]);
        }
        lemma_join_chars(pd, sep, f);
        let a = join(pd, sep);
        let l = parts.last();
        assert forall|j: int| 0 <= j < join(parts, sep).len() implies f(#[trigger] join(parts, sep)[j]) by {
            if j < a.len() {
                assert(join(parts, sep)[j] == a[j]);
            } else if j < a.len() + sep.len() {
                assert(join(parts, sep)[j] == sep[j - a.len()]);
            } else {
                assert(join(parts, sep)[j] == l[j - a.len() - sep.len()]);
                assert(parts[parts.len() - 1] == l);
            }
        }
    }
}

/// `paren_walk` in `s` from `a` is `paren_walk` in `s.skip(i)`, shifted.
proof fn lemma_paren_walk_shift(s: Seq<char>, i: int, a: int, q: int)
    requires
        0 <= i <= a <= s.len(),
    ensures
        paren_walk(s, a, q) == paren_walk(s.skip(i), a - i, q),
    decreases s.len() - a,
{
    if a < s.len() {
        assert(s.skip(i)[a - i] == s[a]);
        lemma_paren_walk_shift(s, i, a + 1, 0);
        lemma_paren_walk_shift(s, i, a + 1, 1);
        lemma_paren_walk_shift(s, i, a + 1, 2);
        if a + 2 <= s.len() {
            lemma_paren_walk_shift(s, i, a + 2, 2);
        }
    }
}

/// Inside single quotes the walk runs on to the closing quote.
proof fn lemma_paren_walk_squote(s: Seq<char>, a: int, k: int)
    requires
        0 <= a <= k < s.len(),
        s[k] == '\'',
        forall|j: int| a <= j < k ==> s[j] != '\'',
    ensures
        paren_walk(s, a, 1) == paren_walk(s, k + 1, 0),
    decreases k - a,
{
    if a < k {
        lemma_paren_walk_squote(s, a + 1, k);
    }
}

/// A quoted entry in front changes no depth.
proof fn lemma_paren_walk_entry(t: Seq<char>, rest: Seq<char>)
    requires
        forall|j: int| 0 <= j < t.len() ==> t[j] != '\'',
    ensures
        paren_walk(quoted_entry(t) + rest, 0, 0) == paren_walk(rest, 0, 0),
{
    let s = quoted_entry(t) + rest;
    let k: int = t.len() as int + 1;
    assert(s[0] == '\'');
    assert(s[k] == '\'');
    assert forall|j: int| 1 <= j < k implies s[j] != '\'' by {
        assert(s[j] == t[j - 1]);
    }
    lemma_paren_walk_squote(s, 1, k);
    lemma_paren_walk_shift(s, k + 1, k + 1, 0);
    assert(s.skip(k + 1) =~= rest);
}

/// A space in front changes no depth.
proof fn lemma_paren_walk_space(rest: Seq<char>)
    ensures
        paren_walk(seq![' '] + rest, 0, 0) == paren_walk(rest, 0, 0),
{
    let s = seq![' '] + rest;
    assert(s[0] == ' ');
    lemma_paren_walk_shift(s, 1, 1, 0);
    assert(s.skip(1) =~= rest);
}

/// The quoted entries, joined by spaces, change no depth.
proof fn lemma_paren_walk_entries(ts: Seq<Seq<char>>, tail: Seq<char>)
    requires
        plain_entries(ts),
        ts.len() > 0,
    ensures
        paren_walk(join(quoted_entries(ts), seq![' ']) + tail, 0, 0) == paren_walk(tail, 0, 0),
    decreases ts.len(),
{
    let qs = quoted_entries(ts);
    let rest = ts.skip(1);
    assert(qs =~= seq![quoted_entry(ts[0])] + quoted_entries(rest));
    crate::text::lemma_join_front(quoted_entry(ts[0]), quoted_entries(rest), seq![' ']);
    assert forall|j: int| 0 <= j < ts[0].len() implies ts[0][j] != '\'' by {
        assert(plain_entry_char(ts[0][j]));
    }
    if rest.len() == 0 {
        lemma_paren_walk_entry(ts[0], tail);
    } else {
        lemma_plain_entries_tail(ts);
        let jr = join(quoted_entries(rest), seq![' ']);
        assert(join(qs, seq![' ']) + tail =~= quoted_entry(ts[0]) + (seq![' '] + (jr + tail)));
        lemma_paren_walk_entry(ts[0], seq![' '] + (jr + tail));
        lemma_paren_walk_space(jr + tail);
        lemma_paren_walk_entries(rest, tail);
    }
}

/// The array the quick editor writes is balanced.
pub proof fn lemma_array_rhs_balanced(ts: Seq<Seq<char>>)
    requires
        plain_entries(ts),
    ensures
        paren_delta(array_rhs(ts)) == 0,
{
    let s = array_rhs(ts);
    if ts.len() == 0 {
        assert(s[0] == '(' && s[1] == ')');
        assert(paren_walk(s, 2, 0) == 0);
        assert(paren_walk(s, 1, 0) == -1);
    } else {
        let jj = join(quoted_entries(ts), seq![' ']);
        assert(s[0] == '(');
        lemma_paren_walk_shift(s, 1, 1, 0);
        assert(s.skip(1) =~= jj + seq![')']);
        lemma_paren_walk_entries(ts, seq![')']);
        let c = seq![')'];
        assert(c[0] == ')');
        assert(paren_walk(c, 1, 0) == 0);
    }
}

proof fn lemma_dq_end_shift(s: Seq<char>, i: int, a: int)
    requires
        0 <= i <= a <= s.len(),
    ensures
        dq_end(s, a) == i + dq_end(s.skip(i), a - i),
    decreases s.len() - a,
{
    if a < s.len() {
        assert(s.skip(i)[a - i] == s[a]);
        if s[a] == '\\' {
            if a + 2 < s.len() {
                lemma_dq_end_shift(s, i, a + 2);
            }
        } else if s[a] != '"' {
            lemma_dq_end_shift(s, i, a + 1);
        }
    }
}

proof fn lemma_token_end_shift(s: Seq<char>, i: int, a: int)
    requires
        0 <= i <= a < s.len(),
    ensures
        token_end(s, a) == i + token_end(s.skip(i), a - i),
{
    assert(s.skip(i)[a - i] == s[a]);
    crate::text::lemma_skip_while_shift(s, i, a + 1, not_squote_pred());
    crate::text::lemma_skip_while_shift(s, i, a, non_ascii_ws_pred());
    lemma_dq_end_shift(s, i, a + 1);
}

/// `tokens_from` in `s` from `a` is `tokens_from` in `s.skip(i)`, shifted.
proof fn lemma_tokens_shift(s: Seq<char>, i: int, a: int)
    requires
        0 <= i <= a <= s.len(),
    ensures
        tokens_from(s, a) == tokens_from(s.skip(i), a - i),
    decreases s.len() - a,
{
    let t = s.skip(i);
    crate::text::lemma_skip_while_shift(s, i, a, ascii_ws_pred());
    crate::text::lemma_skip_while(s, a, ascii_ws_pred());
    let a1 = crate::text::skip_while(s, a, ascii_ws_pred());
    if a1 < s.len() {
        lemma_token_end_shift(s, i, a1);
        crate::workflow::pkgbuild_edit::lemma_token_end(s, a1);
        let b = token_end(s, a1);
        assert(t.subrange(a1 - i, b - i) =~= s.subrange(a1, b));
        if a < b && b <= s.len() {
            lemma_tokens_shift(s, i, b);
        }
    }
}

/// ASCII whitespace where tokenising starts is passed over.
proof fn lemma_tokens_from_ws(s: Seq<char>, a: int)
    requires
        0 <= a < s.len(),
        crate::text::is_ascii_ws(s[a]),
    ensures
        tokens_from(s, a) == tokens_from(s, a + 1),
{
    crate::text::lemma_skip_while(s, a + 1, ascii_ws_pred());
    let a1 = crate::text::skip_while(s, a + 1, ascii_ws_pred());
    assert(crate::text::skip_while(s, a, ascii_ws_pred()) == a1);
    if a1 < s.len() {
        assert(!crate::text::is_ascii_ws(s[a1]));
        crate::workflow::pkgbuild_edit::lemma_token_end(s, a1);
    }
}

/// The quoted entries, joined by spaces, tokenise into themselves.
proof fn lemma_tokens_entries(ts: Seq<Seq<char>>)
    requires
        plain_entries(ts),
        ts.len() > 0,
    ensures
        tokens_from(join(quoted_entries(ts), seq![' ']), 0) == quoted_entries(ts),
    decreases ts.len(),
{
    let qs = quoted_entries(ts);
    let rest = ts.skip(1);
    let t0 = ts[0];
    let q0 = quoted_entry(t0);
    assert(qs =~= seq![q0] + quoted_entries(rest));
    crate::text::lemma_join_front(q0, quoted_entries(rest), seq![' ']);
    let s = join(qs, seq![' ']);
    let k: int = t0.len() as int + 1;
    assert forall|j: int| 0 <= j < q0.len() implies s[j] == q0[j] by {}
    assert(s[0] == '\'');
    crate::text::lemma_skip_while_unique(s, 0, 0, ascii_ws_pred());
    assert forall|j: int| 1 <= j < k implies (not_squote_pred())(#[trigger] s[j]) by {
        assert(s[j] == t0[j - 1]);
        assert(plain_entry_char(ts[0][j - 1]));
    }
    assert(s[k] == '\'');
    crate::text::lemma_skip_while_unique(s, 1, k, not_squote_pred());
    assert(token_end(s, 0) == k + 1);
    assert(s.subrange(0, k + 1) =~= q0);
    if rest.len() == 0 {
        assert(tokens_from(s, k + 1) =~= Seq::<Seq<char>>::empty());
    } else {
        lemma_plain_entries_tail(ts);
        assert(s[k + 1] == ' ');
        lemma_tokens_from_ws(s, k + 1);
        lemma_tokens_shift(s, k + 2, k + 2);
        assert(s.skip(k + 2) =~= join(quoted_entries(rest), seq![' ']));
        lemma_tokens_entries(rest);
    }
}

/// Quoted entries read back as the entries.
proof fn lemma_clean_entries(ts: Seq<Seq<char>>)
    requires
        plain_entries(ts),
    ensures
        clean_tokens(quoted_entries(ts)) == Some(ts),
    decreases ts.len(),
{
    if ts.len() == 0 {
        assert(quoted_entries(ts) =~= Seq::<Seq<char>>::empty());
        assert(ts =~= Seq::<Seq<char>>::empty());
    } else {
        lemma_plain_entries_tail(ts);
        lemma_clean_entries(ts.drop_last());
        let qs = quoted_entries(ts);
        assert(qs.drop_last() =~= quoted_entries(ts.drop_last()));
        let t = ts.last();
        let q = quoted_entry(t);
        assert(qs.last() == q);
        assert(plain_entry_char(ts[ts.len() - 1][0]));
        assert(plain_entry_char(ts[ts.len() - 1][t.len() - 1]));
        lemma_trim_id(q);
        lemma_trim_id(t);
        assert(q.subrange(1, q.len() - 1) =~= t);
        assert(strip_outer_quotes(trim(q)) == Some(t));
        assert(ts.drop_last().push(t) =~= ts);
    }
}

/// The written array reads back as the entries joined by spaces.
pub proof fn lemma_array_rhs_reads(ts: Seq<Seq<char>>)
    requires
        plain_entries(ts),
    ensures
        array_inner_tokens(array_rhs(ts)) == Some(join(ts, seq![' '])),
{
    let s = array_rhs(ts);
    let f = paren_pred();
    if ts.len() == 0 {
        assert(s[0] == '(' && s[1] == ')');
        assert(crate::text::skip_while(s, 2, f) == 2);
        assert(crate::text::skip_while(s, 1, f) == 2);
        assert(crate::text::skip_while(s, 0, f) == 2);
        assert(rskip_while(s, 0, f) == 0);
        assert(rskip_while(s, 1, f) == 0);
        assert(rskip_while(s, 2, f) == 0);
        assert(trim_matches(s, f) =~= Seq::<char>::empty());
        assert(tokens_from(Seq::<char>::empty(), 0) =~= Seq::<Seq<char>>::empty());
        assert(clean_tokens(Seq::<Seq<char>>::empty()) == Some(Seq::<Seq<char>>::empty()));
        assert(ts =~= Seq::<Seq<char>>::empty());
    } else {
        let qs = quoted_entries(ts);
        let jj = join(qs, seq![' ']);
        crate::text::lemma_join_front(quoted_entry(ts[0]), quoted_entries(ts.skip(1)), seq![' ']);
        assert(qs =~= seq![quoted_entry(ts[0])] + quoted_entries(ts.skip(1)));
        assert(jj[0] == '\'');
        if qs.len() > 1 {
            assert(jj == join(qs.drop_last(), seq![' ']) + seq![' '] + qs.last());
        }
        assert(qs.last() == quoted_entry(ts.last()));
        assert(jj.last() == '\'');
        let n = s.len() as int;
        assert(s[1] == jj[0]);
        assert(s[n - 2] == jj.last());
        assert(crate::text::skip_while(s, 1, f) == 1);
        assert(crate::text::skip_while(s, 0, f) == 1);
        assert(rskip_while(s, n - 1, f) == n - 1);
        assert(rskip_while(s, n, f) == n - 1);
        assert(trim_matches(s, f) =~= jj);
        lemma_tokens_entries(ts);
        lemma_clean_entries(ts);
    }
}

/// The key of an array field: a name of key characters.
proof fn lemma_array_key(n: int)
    requires
        is_array_field(n),
    ensures
        field_key(n).len() > 0,
        !is_ws(field_key(n)[0]),
        !is_ws(field_key(n).last()),
        all_chars(field_key(n), |c: char| is_key_char(c)),
        forall|j: int|
            0 <= j < field_key(n).len() ==> field_key(n)[j] != '=' && field_key(n)[j] != '\n'
                && field_key(n)[j] != '#',
{
    reveal_strlit("arch");
    reveal_strlit("license");
    reveal_strlit("depends");
    reveal_strlit("makedepends");
    reveal_strlit("optdepends");
    reveal_strlit("conflicts");
    reveal_strlit("provides");
    reveal_strlit("source");
}

/// The array line the quick editor writes, after any indentation, is good
/// and reads back as field `n` set to the entries joined by spaces.
pub proof fn lemma_array_line(p: Seq<char>, n: int, ts: Seq<Seq<char>>)
    requires
        is_array_field(n),
        plain_entries(ts),
        indentation(p),
    ensures
        good_line(p + (field_key(n) + seq!['='] + array_rhs(ts))),
        line_write(p + (field_key(n) + seq!['='] + array_rhs(ts))) == Some(
            Some((n, join(ts, seq![' ']))),
        ),
{
    reveal_strlit("# Maintainer:");
    lemma_array_key(n);
    lemma_field_key(n);
    lemma_array_rhs_balanced(ts);
    lemma_array_rhs_reads(ts);
    let key = field_key(n);
    let q = array_rhs(ts);
    let nb = key + seq!['='] + q;
    let s = p + nb;
    assert(q[0] == '(');
    assert(q.last() == ')');
    lemma_trim_id(q);
    assert(nb[0] == key[0]);
    assert(s[p.len() as int] == nb[0]);
    lemma_trim_start_len_unique(s, p.len() as int);
    assert(trim_start(s) =~= nb);
    assert(!starts_with(nb, "# Maintainer:"@)) by {
        if starts_with(nb, "# Maintainer:"@) {
            assert(nb.take(13)[0] == nb[0]);
        }
    }
    lemma_index_of_unique(nb, '=', key.len() as int);
    assert(nb.take(key.len() as int) =~= key);
    lemma_trim_id(key);
    assert(nb.skip(key.len() as int + 1) =~= q);
    assert(parse_simple_assignment(nb) == Some((key, q)));
    assert(strip_outer_quotes(q) == Some(q));
    let not_nl = |c: char| c != '\n';
    if ts.len() > 0 {
        let qs = quoted_entries(ts);
        assert forall|k: int, j: int| 0 <= k < qs.len() && 0 <= j < qs[k].len() implies not_nl(
            #[trigger] qs[k][j],
        ) by {
            assert(qs[k] == quoted_entry(ts[k]));
            if 1 <= j < qs[k].len() - 1 {
                assert(qs[k][j] == ts[k][j - 1]);
                assert(plain_entry_char(ts[k][j - 1]));
            }
        }
        lemma_join_chars(qs, seq![' '], not_nl);
    }
    assert(no_newline(q)) by {
        assert forall|j: int| 0 <= j < q.len() implies q[j] != '\n' by {
            if ts.len() > 0 && 0 < j < q.len() - 1 {
                assert(q[j] == join(quoted_entries(ts), seq![' '])[j - 1]);
                assert(not_nl(join(quoted_entries(ts), seq![' '])[j - 1]));
            }
        }
    }
    assert(no_newline(s)) by {
        assert forall|j: int| 0 <= j < s.len() implies s[j] != '\n' by {
            if j < p.len() {
                assert(s[j] == p[j]);
            } else if j < p.len() + key.len() {
                assert(s[j] == key[j - p.len()]);
            } else if j > p.len() + key.len() {
                assert(s[j] == q[j - p.len() - key.len() - 1]);
            }
        }
    }
    assert(s.last() == q.last());
}

/// A value that field `n` reads back as written: a plain maintainer comment,
/// plain array entries joined by single spaces, or a simple scalar.
pub open spec fn writable_value(n: int, v: Seq<char>) -> bool {
    if n == 0 {
        simple_comment(v)
    } else if is_array_field(n) {
        plain_entries(split_ws(v)) && v == join(split_ws(v), seq![' '])
    } else {
        simple_value(v)
    }
}

/// The line the merge writes for field `n` set to `v` stands alone and reads
/// back as some value of field `n`, whatever its indentation: a maintainer
/// comment without a newline or a trailing carriage return, array tokens
/// without quotes or parentheses however they are spaced, or any scalar
/// whose written line reads.
pub open spec fn rewritable_value(n: int, v: Seq<char>) -> bool {
    if n == 0 {
        plain_line(v)
    } else if is_array_field(n) {
        plain_entries(split_ws(v))
    } else {
        exists|w: Seq<char>| writes_back(written_body(n, v), n, w)
    }
}


/// A text that starts with `#!` has a first line starting with `#`.
proof fn lemma_lines_first(text: Seq<char>)
    requires
        starts_with(text, "#!"@),
    ensures
        lines(text).len() > 0,
        lines(text)[0].len() > 0,
        lines(text)[0][0] == '#',
{
    reveal_strlit("#!");
    assert(text.take(2)[0] == text[0]);
    assert(text.take(2)[1] == text[1]);
    crate::text::lemma_index_of(text, '\n');
    if let Some(i) = crate::text::index_of(text, '\n') {
        assert(i >= 2);
        assert(text.take(i)[0] == '#');
    }
}

/// What a continuation line of a multi-line array must not be where
/// `fields` are written: a function start, a maintainer comment when the
/// maintainer is written, or an assignment of a written field.
pub open spec fn quiet_line(c: Seq<char>, fields: FieldsModel) -> bool {
    &&& !is_bash_function_start(c)
    &&& fields[0] is Some ==> !is_maintainer_line(c)
    &&& forall|n: int| 1 <= n < FIELD_COUNT && fields[n] is Some ==> !key_line(c, #[trigger] field_key(n))
}

pub open spec fn quiet_pred(fields: FieldsModel) -> spec_fn(Seq<char>) -> bool {
    |c: Seq<char>| quiet_line(c, fields)
}

/// The logical lines of a text: a continued array joined into one line.
pub open spec fn logical_lines(text: Seq<char>) -> Seq<Seq<char>> {
    renders(units_from(lines(text), 0))
}

/// The text is its lines, each followed by a newline.
pub open spec fn newline_ended(text: Seq<char>) -> bool {
    text == concat_lines(lines(text))
}

/// A PKGBUILD the quick editor reads back as it writes `fields`: its lines do
/// not end in a carriage return, every array it continues across lines is
/// closed, and no continuation line of such an array is read as a line the
/// merge looks for.
pub open spec fn editable(text: Seq<char>, fields: FieldsModel) -> bool {
    units_ok(units_from(lines(text), 0), quiet_pred(fields))
}

/// The units of an editable text, their logical lines, and how it reads.
proof fn lemma_editable_facts(text: Seq<char>, fields: FieldsModel)
    requires
        editable(text, fields),
        parse_quick_fields_spec(text) is Some,
    ensures
        flatten(units_from(lines(text), 0)) == lines(text),
        parse_quick_fields_spec(text) == steps(renders(units_from(lines(text), 0)), empty_fields()),
        forall|k: int|
            0 <= k < units_from(lines(text), 0).len() ==> shaped(
                #[trigger] units_from(lines(text), 0)[k],
            ),
        forall|j: int|
            0 <= j < renders(units_from(lines(text), 0)).len() ==> line_write(
                #[trigger] renders(units_from(lines(text), 0))[j],
            ) is Some && keeps_indentation(renders(units_from(lines(text), 0))[j]),
{
    let ls = lines(text);
    let us = units_from(ls, 0);
    let rs = renders(us);
    lemma_flatten_units(ls, 0);
    assert(ls.skip(0) =~= ls);
    lemma_parse_units(ls, 0, empty_fields());
    lemma_steps_some(rs, empty_fields());
    assert forall|k: int| 0 <= k < us.len() implies shaped(#[trigger] us[k]) by {
        assert(wf_unit(us[k]));
    }
    assert forall|j: int| 0 <= j < rs.len() implies keeps_indentation(#[trigger] rs[j]) by {
        let u = us[j];
        assert(shaped(u));
        assert(rs[j] == render(u));
        lemma_render_like_first(u, seq![], seq![]);
        lemma_flatten_split(us, j);
        assert(us.skip(j)[0] == u);
        assert(flatten(us.skip(j)) == u + flatten(us.skip(j).skip(1)));
        assert(ls[flatten(us.take(j)).len() as int] == u[0]);
        assert(plain_line(u[0]));
        lemma_kept_indentation(u[0]);
        let k0 = crate::text::skip_while(u[0], 0, crate::text::ws_pred());
        let k1 = crate::text::skip_while(render(u), 0, crate::text::ws_pred());
        assert(render(u).take(k1) + Seq::<char>::empty() == u[0].take(k0) + Seq::<char>::empty());
        assert(render(u).take(k1) =~= u[0].take(k0));
    }
}

/// Reading back what the assignment merge wrote for field `n`, where the
/// written line reads back as `v`: field `n` holds `v`, every other field is
/// as it was read before, and the text stays editable.
pub proof fn lemma_assign_round_trip(
    text: Seq<char>,
    n: int,
    rhs: Seq<char>,
    v: Seq<char>,
    fields: FieldsModel,
)
    requires
        1 <= n < FIELD_COUNT,
        fields.len() == FIELD_COUNT,
        fields[n] is Some,
        writes_back(field_key(n) + seq!['='] + rhs, n, v),
        parse_quick_fields_spec(text) is Some,
        editable(text, fields),
    ensures
        parse_quick_fields_spec(merge_assignment_line(text, field_key(n), rhs)) matches Some(after)
            && after[n] == Some(v) && forall|m: int|
            0 <= m < FIELD_COUNT && m != n ==> after[m] == parse_quick_fields_spec(text).unwrap()[m],
        editable(merge_assignment_line(text, field_key(n), rhs), fields),
{
    let ls = lines(text);
    let us = units_from(ls, 0);
    let rs = renders(us);
    let e = empty_fields();
    let key = field_key(n);
    let body = key + seq!['='] + rhs;
    let p = quiet_pred(fields);
    lemma_editable_facts(text, fields);
    assert forall|k: int, m: int| 0 <= k < us.len() && 1 <= m < us[k].len() implies (|
        c: Seq<char>,
    | !key_line(c, key))(#[trigger] us[k][m]) by {
        assert(p(us[k][m]));
        assert(quiet_line(us[k][m], fields));
    }
    assert forall|k: int, m: int| 0 <= k < us.len() && 1 <= m < us[k].len() implies (|
        c: Seq<char>,
    | !is_bash_function_start(c))(#[trigger] us[k][m]) by {
        assert(p(us[k][m]));
    }
    lemma_assign_walk_units(ls, 0, key, body, seq![], false);
    let ao = assign_out(rs, key, body, false);
    assert(Seq::<char>::empty() + concat_lines(ao) =~= concat_lines(ao));
    assert(indentation(Seq::<char>::empty()));
    assert(Seq::<char>::empty() + body =~= body);
    assert(good_line(Seq::<char>::empty() + body));
    if has_key_line(rs, key) {
        let aus = assign_units(us, key, body, false);
        lemma_assign_units(us, key, body, false);
        lemma_assign_units_ok(us, key, body, false, p);
        assert forall|k: int| 0 <= k < aus.len() implies shaped(#[trigger] aus[k]) by {
            assert(wf_unit(aus[k]));
        }
        lemma_concat_renders(aus);
        lemma_lines_of_concat(flatten(aus));
        lemma_resegment(aus);
        lemma_parse_units(flatten(aus), 0, e);
        lemma_steps_assign(rs, n, body, v, e, e, false);
    } else {
        lemma_insert_before_first_function(text, body);
        lemma_first_function_units(us);
        let k = first_function_unit(us);
        let ius = insert_unit(us, k, seq![body]);
        lemma_insert_units(us, k, body);
        lemma_insert_units_ok(us, k, body, p);
        lemma_insert_renders(us, k, body);
        lemma_lines_of_concat(flatten(ius));
        lemma_resegment(ius);
        lemma_parse_units(flatten(ius), 0, e);
        let io = insert_at(rs, k, body);
        assert forall|j: int| 0 <= j < rs.len() implies !writes_field(#[trigger] rs[j], n) by {
            lemma_key_line_writes(rs[j], n);
            if key_line(rs[j], key) {
                assert(has_key_line(rs, key));
            }
        }
        let a = rs.take(k);
        let b = rs.skip(k);
        assert(rs =~= a + b);
        assert(io =~= (a + seq![body]) + b);
        assert forall|j: int| 0 <= j < a.len() implies line_write(#[trigger] a[j]) is Some && !writes_field(
            a[j],
            n,
        ) by {
            assert(a[j] == rs[j]);
        }
        assert forall|j: int| 0 <= j < b.len() implies line_write(#[trigger] b[j]) is Some && !writes_field(
            b[j],
            n,
        ) by {
            assert(b[j] == rs[j + k]);
        }
        lemma_steps_agree(a, e, e, n);
        let x = steps(a, e).unwrap();
        lemma_steps_concat(a, b, e);
        lemma_steps_concat(a, seq![body], e);
        lemma_steps_cons(body, seq![], x);
        assert(seq![body] + Seq::<Seq<char>>::empty() =~= seq![body]);
        lemma_steps_concat(a + seq![body], b, e);
        lemma_steps_agree(b, x, x.update(n, Some(v)), n);
    }
}

/// Reading back what the maintainer merge wrote: the maintainer field holds
/// the comment without surrounding whitespace, every other field is as it
/// was read before, and the text stays editable.
#[verifier::spinoff_prover]
#[verifier::rlimit(40)]
pub proof fn lemma_maintainer_round_trip(text: Seq<char>, body: Seq<char>, fields: FieldsModel)
    requires
        plain_line(body),
        fields.len() == FIELD_COUNT,
        fields[0] is Some,
        parse_quick_fields_spec(text) is Some,
        editable(text, fields),
    ensures
        parse_quick_fields_spec(merge_maintainer_line(text, body)) matches Some(after) && after[0]
            == Some(trim(body)) && forall|m: int|
            1 <= m < FIELD_COUNT ==> after[m] == parse_quick_fields_spec(text).unwrap()[m],
        editable(merge_maintainer_line(text, body), fields),
{
    reveal_strlit("#!");
    let ls = lines(text);
    let us = units_from(ls, 0);
    let rs = renders(us);
    let e = empty_fields();
    let new_line = "# Maintainer: "@ + body;
    let p = quiet_pred(fields);
    lemma_editable_facts(text, fields);
    assert forall|k: int, m: int| 0 <= k < us.len() && 1 <= m < us[k].len() implies (|
        c: Seq<char>,
    | !is_maintainer_line(c))(#[trigger] us[k][m]) by {
        assert(p(us[k][m]));
    }
    lemma_maintainer_fold_lines(ls, new_line);
    lemma_maintainer_units(us, new_line);
    lemma_maintainer_units_render(us, new_line);
    lemma_steps_maintainer(rs, body, e);
    assert forall|q: Seq<char>| indentation(q) implies good_line(#[trigger] (q + new_line)) by {
        lemma_maintainer_line(q, body);
    }
    lemma_maintainer_line(seq![], body);
    assert(Seq::<char>::empty() + new_line =~= new_line);
    let (mo, r) = maintainer_units(us, new_line);
    if r {
        lemma_maintainer_units_ok(us, new_line, p);
        lemma_lines_of_concat(flatten(mo));
        lemma_resegment(mo);
        lemma_parse_units(flatten(mo), 0, e);
    } else {
        assert forall|j: int| 0 <= j < rs.len() implies !writes_field(#[trigger] rs[j], 0) by {
            let u = us[j];
            assert(shaped(u));
            lemma_render_like_first(u, seq![], seq![]);
            lemma_flatten_split(us, j);
            assert(us.skip(j)[0] == u);
            assert(flatten(us.skip(j)) == u + flatten(us.skip(j).skip(1)));
            assert(ls[flatten(us.take(j)).len() as int] == u[0]);
            lemma_non_maintainer_writes(rs[j]);
        }
        let k: int = if starts_with(text, "#!"@) && ls.len() > 0 { 1 } else { 0 };
        if k == 1 {
            assert(us[0] == ls.subrange(0, unit_end(ls, 0)));
            assert(trim_start(ls[0])[0] == '#') by {
                assert(ls[0][0] == '#') by {
                    lemma_lines_first(text);
                }
                crate::text::lemma_trim_start_len_unique(ls[0], 0);
                assert(ls[0].skip(0) =~= ls[0]);
            }
            assert(single_line(ls[0]));
            assert(flatten(us.take(1)) == us[0]) by {
                lemma_flatten_one(us[0]);
                assert(us.take(1) =~= seq![us[0]]);
            }
            assert(us[0] =~= seq![ls[0]]);
        } else {
            assert(flatten(us.take(0)) =~= Seq::<Seq<char>>::empty()) by {
                assert(us.take(0) =~= Seq::<Seq<Seq<char>>>::empty());
            }
        }
        let ius = insert_unit(us, k, seq![new_line]);
        lemma_insert_units(us, k, new_line);
        lemma_insert_units_ok(us, k, new_line, p);
        lemma_insert_renders(us, k, new_line);
        let io = insert_at(ls, k, new_line);
        if k == 1 {
            let rest = ls.skip(1);
            assert(io =~= seq![ls[0]] + (seq![new_line] + rest));
            lemma_concat_cons(new_line, rest);
            lemma_concat_cons(ls[0], seq![new_line] + rest);
            assert(merge_maintainer_line(text, body) =~= concat_lines(io));
            lemma_lines_of_concat(io);
        } else {
            assert(io =~= seq![new_line] + ls);
            lemma_lines_cons(new_line, text);
        }
        assert(lines(merge_maintainer_line(text, body)) == flatten(ius));
        lemma_resegment(ius);
        lemma_parse_units(flatten(ius), 0, e);
        let a = rs.take(k);
        let b = rs.skip(k);
        assert(rs =~= a + b);
        assert(insert_at(rs, k, new_line) =~= (a + seq![new_line]) + b);
        assert forall|j: int| 0 <= j < a.len() implies line_write(#[trigger] a[j]) is Some && !writes_field(
            a[j],
            0,
        ) by {
            assert(a[j] == rs[j]);
        }
        assert forall|j: int| 0 <= j < b.len() implies line_write(#[trigger] b[j]) is Some && !writes_field(
            b[j],
            0,
        ) by {
            assert(b[j] == rs[j + k]);
        }
        lemma_steps_agree(a, e, e, 0);
        let x = steps(a, e).unwrap();
        lemma_steps_concat(a, b, e);
        lemma_steps_concat(a, seq![new_line], e);
        lemma_steps_cons(new_line, seq![], x);
        assert(seq![new_line] + Seq::<Seq<char>>::empty() =~= seq![new_line]);
        lemma_steps_concat(a + seq![new_line], b, e);
        lemma_steps_agree(b, x, x.update(0, Some(trim(body))), 0);
    }
}

/// Fields `0..m` merged one after the other read back as written, the others
/// as before, and the text stays editable.
proof fn lemma_merge_upto_round_trip(text: Seq<char>, fields: FieldsModel, m: int)
    requires
        fields.len() == FIELD_COUNT,
        0 <= m <= FIELD_COUNT,
        forall|n: int|
            0 <= n < FIELD_COUNT ==> (#[trigger] fields[n] matches Some(v) ==> writable_value(n, v)),
        parse_quick_fields_spec(text) is Some,
        editable(text, fields),
    ensures
        merge_fields_upto(text, fields, m) matches Some(t) && parse_quick_fields_spec(t) matches Some(
            after,
        ) && editable(t, fields) && forall|n: int|
            0 <= n < FIELD_COUNT ==> #[trigger] after[n] == (if n < m && fields[n] is Some {
                fields[n]
            } else {
                parse_quick_fields_spec(text).unwrap()[n]
            }),
    decreases m,
{
    if m > 0 {
        lemma_merge_upto_round_trip(text, fields, m - 1);
        let t = merge_fields_upto(text, fields, m - 1).unwrap();
        let n = m - 1;
        if let Some(v) = fields[n] {
            assert(writable_value(n, v));
            if n == 0 {
                lemma_simple_comment(v);
                lemma_maintainer_round_trip(t, v, fields);
            } else if is_array_field(n) {
                let ts = split_ws(v);
                lemma_array_from_plain(ts);
                let body = field_key(n) + seq!['='] + array_rhs(ts);
                assert forall|q: Seq<char>| indentation(q) implies good_line(#[trigger] (q + body))
                    && line_write(q + body) == Some(Some((n, v))) by {
                    lemma_array_line(q, n, ts);
                }
                lemma_assign_round_trip(t, n, array_rhs(ts), v, fields);
            } else {
                assert(is_scalar_field(n));
                assert forall|q: Seq<char>| indentation(q) implies good_line(
                    #[trigger] (q + scalar_body(n, v)),
                ) && line_write(q + scalar_body(n, v)) == Some(Some((n, v))) by {
                    lemma_scalar_line(q, n, v);
                }
                lemma_assign_round_trip(t, n, bash_quote_scalar(v), v, fields);
            }
        }
    }
}



/// The logical lines after the assignment merge of field `n`: the first
/// assignment replaced and later ones dropped, or the written line inserted;
/// the result is its lines, each followed by a newline.
proof fn lemma_assign_lines(text: Seq<char>, n: int, rhs: Seq<char>, v: Seq<char>, fields: FieldsModel)
    requires
        1 <= n < FIELD_COUNT,
        fields.len() == FIELD_COUNT,
        fields[n] is Some,
        writes_back(field_key(n) + seq!['='] + rhs, n, v),
        parse_quick_fields_spec(text) is Some,
        editable(text, fields),
    ensures
        has_key_line(logical_lines(text), field_key(n)) ==> logical_lines(
            merge_assignment_line(text, field_key(n), rhs),
        ) == assign_out(logical_lines(text), field_key(n), field_key(n) + seq!['='] + rhs, false),
        !has_key_line(logical_lines(text), field_key(n)) ==> exists|k: int|
            0 <= k <= logical_lines(text).len() && logical_lines(
                merge_assignment_line(text, field_key(n), rhs),
            ) == insert_at(logical_lines(text), k, field_key(n) + seq!['='] + rhs),
        newline_ended(merge_assignment_line(text, field_key(n), rhs)),
{
    let ls = lines(text);
    let us = units_from(ls, 0);
    let rs = renders(us);
    let key = field_key(n);
    let body = key + seq!['='] + rhs;
    let p = quiet_pred(fields);
    lemma_editable_facts(text, fields);
    assert forall|k: int, m: int| 0 <= k < us.len() && 1 <= m < us[k].len() implies (|
        c: Seq<char>,
    | !key_line(c, key))(#[trigger] us[k][m]) by {
        assert(p(us[k][m]));
        assert(quiet_line(us[k][m], fields));
    }
    assert forall|k: int, m: int| 0 <= k < us.len() && 1 <= m < us[k].len() implies (|
        c: Seq<char>,
    | !is_bash_function_start(c))(#[trigger] us[k][m]) by {
        assert(p(us[k][m]));
    }
    lemma_assign_walk_units(ls, 0, key, body, seq![], false);
    let ao = assign_out(rs, key, body, false);
    assert(Seq::<char>::empty() + concat_lines(ao) =~= concat_lines(ao));
    assert(indentation(Seq::<char>::empty()));
    assert(Seq::<char>::empty() + body =~= body);
    assert(good_line(Seq::<char>::empty() + body));
    let m = merge_assignment_line(text, key, rhs);
    if has_key_line(rs, key) {
        let aus = assign_units(us, key, body, false);
        lemma_assign_units(us, key, body, false);
        lemma_assign_units_ok(us, key, body, false, p);
        assert forall|k: int| 0 <= k < aus.len() implies shaped(#[trigger] aus[k]) by {
            assert(wf_unit(aus[k]));
        }
        lemma_concat_renders(aus);
        lemma_lines_of_concat(flatten(aus));
        lemma_resegment(aus);
        assert(m == concat_lines(flatten(aus)));
        assert(lines(m) == flatten(aus));
    } else {
        lemma_insert_before_first_function(text, body);
        lemma_first_function_units(us);
        let k = first_function_unit(us);
        let ius = insert_unit(us, k, seq![body]);
        lemma_insert_units(us, k, body);
        lemma_insert_units_ok(us, k, body, p);
        lemma_insert_renders(us, k, body);
        lemma_lines_of_concat(flatten(ius));
        lemma_resegment(ius);
        assert(m == concat_lines(flatten(ius)));
        assert(lines(m) == flatten(ius));
        assert(logical_lines(m) == insert_at(rs, k, body));
    }
}

/// The logical lines after the maintainer merge: the first maintainer
/// comment replaced and later ones dropped, or the comment inserted; a text
/// that is its lines each followed by a newline stays so.
proof fn lemma_maintainer_merge_lines(text: Seq<char>, body: Seq<char>, fields: FieldsModel)
    requires
        plain_line(body),
        fields.len() == FIELD_COUNT,
        fields[0] is Some,
        parse_quick_fields_spec(text) is Some,
        editable(text, fields),
    ensures
        maintainer_lines(logical_lines(text), "# Maintainer: "@ + body).1 ==> logical_lines(
            merge_maintainer_line(text, body),
        ) == maintainer_lines(logical_lines(text), "# Maintainer: "@ + body).0,
        !maintainer_lines(logical_lines(text), "# Maintainer: "@ + body).1 ==> exists|k: int|
            0 <= k <= logical_lines(text).len() && logical_lines(merge_maintainer_line(text, body))
                == insert_at(logical_lines(text), k, "# Maintainer: "@ + body),
        newline_ended(text) ==> newline_ended(merge_maintainer_line(text, body)),
{
    reveal_strlit("#!");
    let ls = lines(text);
    let us = units_from(ls, 0);
    let rs = renders(us);
    let new_line = "# Maintainer: "@ + body;
    let p = quiet_pred(fields);
    lemma_editable_facts(text, fields);
    assert forall|k: int, m: int| 0 <= k < us.len() && 1 <= m < us[k].len() implies (|
        c: Seq<char>,
    | !is_maintainer_line(c))(#[trigger] us[k][m]) by {
        assert(p(us[k][m]));
    }
    lemma_maintainer_fold_lines(ls, new_line);
    lemma_maintainer_units(us, new_line);
    lemma_maintainer_units_render(us, new_line);
    assert forall|q: Seq<char>| indentation(q) implies good_line(#[trigger] (q + new_line)) by {
        lemma_maintainer_line(q, body);
    }
    lemma_maintainer_line(seq![], body);
    assert(Seq::<char>::empty() + new_line =~= new_line);
    let (mo, r) = maintainer_units(us, new_line);
    let m = merge_maintainer_line(text, body);
    if r {
        lemma_maintainer_units_ok(us, new_line, p);
        lemma_lines_of_concat(flatten(mo));
        lemma_resegment(mo);
        assert(m == concat_lines(flatten(mo)));
    } else {
        let k: int = if starts_with(text, "#!"@) && ls.len() > 0 { 1 } else { 0 };
        if k == 1 {
            assert(us[0] == ls.subrange(0, unit_end(ls, 0)));
            assert(trim_start(ls[0])[0] == '#') by {
                assert(ls[0][0] == '#') by {
                    lemma_lines_first(text);
                }
                crate::text::lemma_trim_start_len_unique(ls[0], 0);
                assert(ls[0].skip(0) =~= ls[0]);
            }
            assert(single_line(ls[0]));
            assert(flatten(us.take(1)) == us[0]) by {
                lemma_flatten_one(us[0]);
                assert(us.take(1) =~= seq![us[0]]);
            }
            assert(us[0] =~= seq![ls[0]]);
        } else {
            assert(flatten(us.take(0)) =~= Seq::<Seq<char>>::empty()) by {
                assert(us.take(0) =~= Seq::<Seq<Seq<char>>>::empty());
            }
        }
        let ius = insert_unit(us, k, seq![new_line]);
        lemma_insert_units(us, k, new_line);
        lemma_insert_units_ok(us, k, new_line, p);
        lemma_insert_renders(us, k, new_line);
        let io = insert_at(ls, k, new_line);
        if k == 1 {
            let rest = ls.skip(1);
            assert(io =~= seq![ls[0]] + (seq![new_line] + rest));
            lemma_concat_cons(new_line, rest);
            lemma_concat_cons(ls[0], seq![new_line] + rest);
            assert(m =~= concat_lines(io));
            lemma_lines_of_concat(io);
        } else {
            assert(io =~= seq![new_line] + ls);
            lemma_lines_cons(new_line, text);
            if newline_ended(text) {
                lemma_concat_cons(new_line, ls);
            }
        }
        assert(lines(m) == flatten(ius));
        lemma_resegment(ius);
        assert(logical_lines(m) == insert_at(rs, k, new_line));
    }
}


/// Number of lines that write field `n`.
pub open spec fn writers(rs: Seq<Seq<char>>, n: int) -> nat
    decreases rs.len(),
{
    if rs.len() == 0 {
        0
    } else {
        (if writes_field(rs[0], n) {
            1nat
        } else {
            0nat
        }) + writers(rs.skip(1), n)
    }
}

/// Every line writing field `n` is already the line the merge writes for it.
pub open spec fn writers_settled(rs: Seq<Seq<char>>, n: int, body: Seq<char>) -> bool {
    forall|j: int| 0 <= j < rs.len() && writes_field(#[trigger] rs[j], n) ==> preserve_indent(rs[j], body) == rs[j]
}

/// Every line reads, keeping its indentation.
pub open spec fn lines_read(rs: Seq<Seq<char>>) -> bool {
    forall|j: int| 0 <= j < rs.len() ==> line_write(#[trigger] rs[j]) is Some && keeps_indentation(rs[j])
}

proof fn lemma_writers_concat(a: Seq<Seq<char>>, b: Seq<Seq<char>>, n: int)
    ensures
        writers(a + b, n) == writers(a, n) + writers(b, n),
    decreases a.len(),
{
    if a.len() == 0 {
        assert(a + b =~= b);
    } else {
        assert((a + b)[0] == a[0]);
        assert((a + b).skip(1) =~= a.skip(1) + b);
        lemma_writers_concat(a.skip(1), b, n);
    }
}

proof fn lemma_writers_one(x: Seq<char>, n: int)
    ensures
        writers(seq![x], n) == (if writes_field(x, n) { 1nat } else { 0nat }),
{
    assert(seq![x].skip(1) =~= Seq::<Seq<char>>::empty());
    assert(writers(Seq::<Seq<char>>::empty(), n) == 0);
    assert(seq![x][0] == x);
}

proof fn lemma_writers_insert(rs: Seq<Seq<char>>, k: int, x: Seq<char>, n: int)
    requires
        0 <= k <= rs.len(),
    ensures
        writers(insert_at(rs, k, x), n) == writers(rs, n) + (if writes_field(x, n) { 1nat } else { 0nat }),
{
    assert(rs =~= rs.take(k) + rs.skip(k));
    lemma_writers_concat(rs.take(k), rs.skip(k), n);
    lemma_writers_concat(rs.take(k) + seq![x], rs.skip(k), n);
    lemma_writers_concat(rs.take(k), seq![x], n);
    lemma_writers_one(x, n);
}

/// Keeping the indentation of a line already so indented changes nothing.
proof fn lemma_preserve_indent_twice(l: Seq<char>, body: Seq<char>)
    requires
        body.len() > 0,
        !is_ws(body[0]),
    ensures
        preserve_indent(preserve_indent(l, body), body) == preserve_indent(l, body),
{
    let f = crate::text::ws_pred();
    crate::text::lemma_skip_while(l, 0, f);
    let k = crate::text::skip_while(l, 0, f);
    let q = l.take(k);
    let w = q + body;
    assert forall|j: int| 0 <= j < k implies f(#[trigger] w[j]) by {
        assert(w[j] == l[j]);
    }
    assert(w[k] == body[0]);
    crate::text::lemma_skip_while_unique(w, 0, k, f);
    assert(w.take(k) =~= q);
}

/// A line the merge writes for field `n` from a line keeping its indentation
/// writes field `n` alone.
proof fn lemma_written_line(l: Seq<char>, body: Seq<char>, n: int, v: Seq<char>)
    requires
        keeps_indentation(l),
        writes_back(body, n, v),
        body.len() > 0,
        !is_ws(body[0]),
    ensures
        line_write(preserve_indent(l, body)) == Some(Some((n, v))),
        keeps_indentation(preserve_indent(l, body)),
{
    let f = crate::text::ws_pred();
    crate::text::lemma_skip_while(l, 0, f);
    let k = crate::text::skip_while(l, 0, f);
    let q = l.take(k);
    assert(indentation(q));
    assert(preserve_indent(l, body) == q + body);
    assert(good_line(q + body));
    let w = q + body;
    assert forall|j: int| 0 <= j < k implies f(#[trigger] w[j]) by {
        assert(w[j] == l[j]);
    }
    assert(w[k] == body[0]);
    crate::text::lemma_skip_while_unique(w, 0, k, f);
    assert(w.take(k) =~= q);
}

/// A field key starts with a letter.
proof fn lemma_field_key_start(n: int)
    requires
        1 <= n < FIELD_COUNT,
    ensures
        field_key(n).len() > 0,
        !is_ws(field_key(n)[0]),
        (field_key(n) + seq!['=']).len() > 0,
{
    reveal_strlit("pkgname");
    reveal_strlit("pkgver");
    reveal_strlit("pkgrel");
    reveal_strlit("pkgdesc");
    reveal_strlit("arch");
    reveal_strlit("url");
    reveal_strlit("license");
    reveal_strlit("depends");
    reveal_strlit("makedepends");
    reveal_strlit("optdepends");
    reveal_strlit("conflicts");
    reveal_strlit("provides");
    reveal_strlit("source");
}

/// The maintainer comment starts with `#`.
proof fn lemma_maintainer_body_start(body: Seq<char>)
    ensures
        ("# Maintainer: "@ + body).len() > 0,
        !is_ws(("# Maintainer: "@ + body)[0]),
{
    reveal_strlit("# Maintainer: ");
    assert(("# Maintainer: "@ + body)[0] == '#');
}


proof fn lemma_writers_front(x: Seq<char>, rest: Seq<Seq<char>>, n: int)
    ensures
        writers(seq![x] + rest, n) == (if writes_field(x, n) { 1nat } else { 0nat }) + writers(rest, n),
{
    assert((seq![x] + rest)[0] == x);
    assert((seq![x] + rest).skip(1) =~= rest);
}

proof fn lemma_settled_front(x: Seq<char>, rest: Seq<Seq<char>>, n: int, body: Seq<char>)
    ensures
        writers_settled(seq![x] + rest, n, body) == ((writes_field(x, n) ==> preserve_indent(x, body)
            == x) && writers_settled(rest, n, body)),
        lines_read(seq![x] + rest) == (line_write(x) is Some && keeps_indentation(x) && lines_read(rest)),
{
    let a = seq![x] + rest;
    assert(a[0] == x);
    assert forall|j: int| 0 <= j < rest.len() implies a[j + 1] == rest[j] by {}
    if writers_settled(rest, n, body) && (writes_field(x, n) ==> preserve_indent(x, body) == x) {
        assert forall|j: int| 0 <= j < a.len() && writes_field(#[trigger] a[j], n) implies preserve_indent(
            a[j],
            body,
        ) == a[j] by {
            if j > 0 {
                assert(a[j] == rest[j - 1]);
            }
        }
    }
    if writers_settled(a, n, body) {
        assert forall|j: int| 0 <= j < rest.len() && writes_field(#[trigger] rest[j], n) implies preserve_indent(
            rest[j],
            body,
        ) == rest[j] by {
            assert(a[j + 1] == rest[j]);
        }
    }
    if lines_read(rest) && line_write(x) is Some && keeps_indentation(x) {
        assert forall|j: int| 0 <= j < a.len() implies line_write(#[trigger] a[j]) is Some && keeps_indentation(
            a[j],
        ) by {
            if j > 0 {
                assert(a[j] == rest[j - 1]);
            }
        }
    }
    if lines_read(a) {
        assert forall|j: int| 0 <= j < rest.len() implies line_write(#[trigger] rest[j]) is Some
            && keeps_indentation(rest[j]) by {
            assert(a[j + 1] == rest[j]);
        }
    }
}

/// The assignment merge of field `nk` on logical lines: lines writing another
/// field are kept as they are and in number, and those writing `nk` end up
/// being the written line once (when one was there to replace) and settled.
proof fn lemma_assign_out_writers(
    rs: Seq<Seq<char>>,
    nk: int,
    body: Seq<char>,
    v: Seq<char>,
    replaced: bool,
    m: int,
    bm: Seq<char>,
)
    requires
        1 <= nk < FIELD_COUNT,
        writes_back(body, nk, v),
        body.len() > 0,
        !is_ws(body[0]),
        lines_read(rs),
    ensures
        lines_read(assign_out(rs, field_key(nk), body, replaced)),
        m != nk ==> writers(assign_out(rs, field_key(nk), body, replaced), m) == writers(rs, m),
        m != nk && writers_settled(rs, m, bm) ==> writers_settled(
            assign_out(rs, field_key(nk), body, replaced),
            m,
            bm,
        ),
        writers(assign_out(rs, field_key(nk), body, replaced), nk) == (if !replaced && has_key_line(
            rs,
            field_key(nk),
        ) {
            1nat
        } else {
            0nat
        }),
        writers_settled(assign_out(rs, field_key(nk), body, replaced), nk, body),
    decreases rs.len(),
{
    let key = field_key(nk);
    let out = assign_out(rs, key, body, replaced);
    if rs.len() == 0 {
        assert(out =~= Seq::<Seq<char>>::empty());
        assert(!has_key_line(rs, key));
    } else {
        let x = rs[0];
        let rest = rs.skip(1);
        assert(rs =~= seq![x] + rest);
        lemma_settled_front(x, rest, m, bm);
        lemma_settled_front(x, rest, nk, body);
        lemma_writers_front(x, rest, m);
        lemma_writers_front(x, rest, nk);
        lemma_has_key_line_front(rs, key);
        lemma_key_line_writes(x, nk);
        let kl = key_line(x, key);
        let rep2 = replaced || kl;
        lemma_assign_out_writers(rest, nk, body, v, rep2, m, bm);
        let o2 = assign_out(rest, key, body, rep2);
        lemma_settled_front(x, o2, m, bm);
        lemma_settled_front(x, o2, nk, body);
        lemma_writers_front(x, o2, m);
        lemma_writers_front(x, o2, nk);
        if kl {
            if !replaced {
                let w = preserve_indent(x, body);
                lemma_written_line(x, body, nk, v);
                lemma_preserve_indent_twice(x, body);
                assert(out == seq![w] + o2);
                lemma_settled_front(w, o2, m, bm);
                lemma_settled_front(w, o2, nk, body);
                lemma_writers_front(w, o2, m);
                lemma_writers_front(w, o2, nk);
            } else {
                assert(out == o2);
            }
        } else {
            assert(out == seq![x] + o2);
        }
    }
}

/// Merging field `nk` into logical lines where it is written once, and
/// settled, gives them back.
proof fn lemma_assign_out_same(rs: Seq<Seq<char>>, nk: int, body: Seq<char>, replaced: bool)
    requires
        1 <= nk < FIELD_COUNT,
        lines_read(rs),
        writers_settled(rs, nk, body),
        writers(rs, nk) == (if replaced { 0nat } else { 1nat }),
    ensures
        assign_out(rs, field_key(nk), body, replaced) == rs,
    decreases rs.len(),
{
    let key = field_key(nk);
    if rs.len() > 0 {
        let x = rs[0];
        let rest = rs.skip(1);
        assert(rs =~= seq![x] + rest);
        lemma_settled_front(x, rest, nk, body);
        lemma_writers_front(x, rest, nk);
        lemma_key_line_writes(x, nk);
        if key_line(x, key) {
            lemma_assign_out_same(rest, nk, body, true);
        } else {
            lemma_assign_out_same(rest, nk, body, replaced);
        }
    }
}


proof fn lemma_writers_push(a: Seq<Seq<char>>, x: Seq<char>, n: int)
    ensures
        writers(a.push(x), n) == writers(a, n) + (if writes_field(x, n) { 1nat } else { 0nat }),
{
    assert(a.push(x) =~= a + seq![x]);
    lemma_writers_concat(a, seq![x], n);
    lemma_writers_one(x, n);
}

proof fn lemma_settled_push(a: Seq<Seq<char>>, x: Seq<char>, n: int, body: Seq<char>)
    ensures
        writers_settled(a.push(x), n, body) == (writers_settled(a, n, body) && (writes_field(x, n)
            ==> preserve_indent(x, body) == x)),
        lines_read(a.push(x)) == (lines_read(a) && line_write(x) is Some && keeps_indentation(x)),
{
    let b = a.push(x);
    assert(b[a.len() as int] == x);
    assert forall|j: int| 0 <= j < a.len() implies b[j] == a[j] by {}
    if writers_settled(b, n, body) {
        assert forall|j: int| 0 <= j < a.len() && writes_field(#[trigger] a[j], n) implies preserve_indent(
            a[j],
            body,
        ) == a[j] by {
            assert(b[j] == a[j]);
        }
    }
    if lines_read(b) {
        assert forall|j: int| 0 <= j < a.len() implies line_write(#[trigger] a[j]) is Some
            && keeps_indentation(a[j]) by {
            assert(b[j] == a[j]);
        }
    }
}

/// The maintainer line writes field 0, as the comment trimmed.
proof fn lemma_maintainer_writes_back(body: Seq<char>)
    requires
        plain_line(body),
    ensures
        writes_back("# Maintainer: "@ + body, 0, trim(body)),
{
    assert forall|q: Seq<char>| indentation(q) implies good_line(#[trigger] (q + ("# Maintainer: "@ + body)))
        && line_write(q + ("# Maintainer: "@ + body)) == Some(Some((0int, trim(body)))) by {
        lemma_maintainer_line(q, body);
    }
}

/// Whether a line is a maintainer comment is whether it writes field 0.
proof fn lemma_maintainer_is_field0(l: Seq<char>)
    ensures
        is_maintainer_line(l) == writes_field(l, 0),
{
}

/// The maintainer merge on logical lines: lines writing another field are
/// kept as they are and in number, and maintainer comments end up being the
/// written one once (when one was there to replace) and settled.
proof fn lemma_maintainer_lines_writers(rs: Seq<Seq<char>>, body: Seq<char>, m: int, bm: Seq<char>)
    requires
        plain_line(body),
        lines_read(rs),
    ensures
        lines_read(maintainer_lines(rs, "# Maintainer: "@ + body).0),
        m != 0 ==> writers(maintainer_lines(rs, "# Maintainer: "@ + body).0, m) == writers(rs, m),
        m != 0 && writers_settled(rs, m, bm) ==> writers_settled(
            maintainer_lines(rs, "# Maintainer: "@ + body).0,
            m,
            bm,
        ),
        writers(maintainer_lines(rs, "# Maintainer: "@ + body).0, 0) == (if maintainer_lines(
            rs,
            "# Maintainer: "@ + body,
        ).1 {
            1nat
        } else {
            0nat
        }),
        writers_settled(maintainer_lines(rs, "# Maintainer: "@ + body).0, 0, "# Maintainer: "@ + body),
        maintainer_lines(rs, "# Maintainer: "@ + body).1 == (writers(rs, 0) > 0),
    decreases rs.len(),
{
    let nl_ = "# Maintainer: "@ + body;
    if rs.len() == 0 {
        assert(maintainer_lines(rs, nl_).0 =~= Seq::<Seq<char>>::empty());
    } else {
        let a = rs.drop_last();
        let x = rs.last();
        assert(rs =~= a.push(x));
        lemma_settled_push(a, x, m, bm);
        lemma_settled_push(a, x, 0, nl_);
        lemma_writers_push(a, x, m);
        lemma_writers_push(a, x, 0);
        lemma_maintainer_lines_writers(a, body, m, bm);
        lemma_maintainer_is_field0(x);
        let (o, r) = maintainer_lines(a, nl_);
        lemma_settled_push(o, x, m, bm);
        lemma_settled_push(o, x, 0, nl_);
        lemma_writers_push(o, x, m);
        lemma_writers_push(o, x, 0);
        if is_maintainer_line(x) && !r {
            let w = preserve_indent(x, nl_);
            lemma_maintainer_writes_back(body);
            lemma_maintainer_body_start(body);
            lemma_written_line(x, nl_, 0, trim(body));
            lemma_preserve_indent_twice(x, nl_);
            lemma_settled_push(o, w, m, bm);
            lemma_settled_push(o, w, 0, nl_);
            lemma_writers_push(o, w, m);
            lemma_writers_push(o, w, 0);
        }
    }
}

/// The maintainer merge gives back logical lines where the comment is
/// written once and settled.
proof fn lemma_maintainer_lines_same(rs: Seq<Seq<char>>, new_line: Seq<char>)
    requires
        writers_settled(rs, 0, new_line),
        writers(rs, 0) <= 1,
    ensures
        maintainer_lines(rs, new_line) == (rs, writers(rs, 0) == 1),
    decreases rs.len(),
{
    if rs.len() > 0 {
        let a = rs.drop_last();
        let x = rs.last();
        assert(rs =~= a.push(x));
        lemma_settled_push(a, x, 0, new_line);
        lemma_writers_push(a, x, 0);
        lemma_maintainer_is_field0(x);
        lemma_maintainer_lines_same(a, new_line);
    } else {
        assert(writers(rs, 0) == 0);
    }
}


proof fn lemma_writers_zero(rs: Seq<Seq<char>>, n: int)
    ensures
        writers(rs, n) == 0 <==> forall|j: int| 0 <= j < rs.len() ==> !writes_field(#[trigger] rs[j], n),
    decreases rs.len(),
{
    if rs.len() > 0 {
        let rest = rs.skip(1);
        lemma_writers_zero(rest, n);
        assert forall|j: int| 1 <= j < rs.len() implies rs[j] == rest[j - 1] by {}
        if forall|j: int| 0 <= j < rs.len() ==> !writes_field(#[trigger] rs[j], n) {
            assert(!writes_field(rs[0], n));
            assert forall|j: int| 0 <= j < rest.len() implies !writes_field(#[trigger] rest[j], n) by {
                assert(rest[j] == rs[j + 1]);
            }
        }
    }
}

proof fn lemma_settled_insert(rs: Seq<Seq<char>>, k: int, x: Seq<char>, n: int, body: Seq<char>)
    requires
        0 <= k <= rs.len(),
        writers_settled(rs, n, body),
        writes_field(x, n) ==> preserve_indent(x, body) == x,
        lines_read(rs),
        line_write(x) is Some,
        keeps_indentation(x),
    ensures
        writers_settled(insert_at(rs, k, x), n, body),
        lines_read(insert_at(rs, k, x)),
{
    let o = insert_at(rs, k, x);
    assert forall|j: int| 0 <= j < o.len() implies (writes_field(#[trigger] o[j], n) ==> preserve_indent(
        o[j],
        body,
    ) == o[j]) && line_write(o[j]) is Some && keeps_indentation(o[j]) by {
        if j < k {
            assert(o[j] == rs[j]);
        } else if j == k {
            assert(o[j] == x);
        } else {
            assert(o[j] == rs[j - 1]);
        }
    }
}

/// The right-hand side the merge writes for set field `n` (`n >= 1`).
pub open spec fn written_rhs(n: int, v: Seq<char>) -> Seq<char> {
    if is_array_field(n) {
        array_rhs(split_ws(v))
    } else {
        bash_quote_scalar(v)
    }
}

/// The body of the line the merge writes for set field `n`.
pub open spec fn written_body(n: int, v: Seq<char>) -> Seq<char> {
    if n == 0 {
        "# Maintainer: "@ + v
    } else {
        field_key(n) + seq!['='] + written_rhs(n, v)
    }
}

/// After merging fields `0..k`: the text is its lines each followed by a
/// newline, it reads and stays editable, and every set field among them is
/// written exactly once, as the merge writes it.
pub open spec fn settled_upto(t: Seq<char>, fields: FieldsModel, k: int) -> bool {
    &&& parse_quick_fields_spec(t) is Some
    &&& editable(t, fields)
    &&& newline_ended(t)
    &&& lines_read(logical_lines(t))
    &&& forall|n: int|
        0 <= n < k && #[trigger] fields[n] is Some ==> writers(logical_lines(t), n) == 1
            && writers_settled(logical_lines(t), n, written_body(n, fields[n]->0))
}

/// The body of the written line writes field `n` back as `w`, starting
/// with a letter.
proof fn lemma_written_body(n: int, v: Seq<char>) -> (w: Seq<char>)
    requires
        0 <= n < FIELD_COUNT,
        rewritable_value(n, v),
    ensures
        writes_back(written_body(n, v), n, w),
        written_body(n, v).len() > 0,
        !is_ws(written_body(n, v)[0]),
{
    if n == 0 {
        lemma_maintainer_writes_back(v);
        lemma_maintainer_body_start(v);
        trim(v)
    } else {
        lemma_field_key_start(n);
        let b = written_body(n, v);
        assert(b[0] == field_key(n)[0]);
        if is_array_field(n) {
            let ts = split_ws(v);
            let w = join(ts, seq![' ']);
            assert forall|q: Seq<char>| indentation(q) implies good_line(#[trigger] (q + b)) && line_write(
                q + b,
            ) == Some(Some((n, w))) by {
                lemma_array_line(q, n, ts);
            }
            w
        } else {
            choose|w: Seq<char>| writes_back(written_body(n, v), n, w)
        }
    }
}

/// A written line with no indentation is settled.
proof fn lemma_body_settled(b: Seq<char>)
    requires
        b.len() > 0,
        !is_ws(b[0]),
    ensures
        preserve_indent(b, b) == b,
{
    lemma_preserve_indent_twice(Seq::<char>::empty(), b);
    let f = crate::text::ws_pred();
    assert(crate::text::skip_while(Seq::<char>::empty(), 0, f) == 0);
    assert(Seq::<char>::empty().take(0) + b =~= b);
}


/// The merge writes field `n` with the written right-hand side.
proof fn lemma_merge_field_body(t: Seq<char>, fields: FieldsModel, n: int)
    requires
        fields.len() == FIELD_COUNT,
        1 <= n < FIELD_COUNT,
        fields[n] matches Some(v) && rewritable_value(n, v),
    ensures
        merge_field(t, fields, n) == Some(
            merge_assignment_line(t, field_key(n), written_rhs(n, fields[n]->0)),
        ),
{
    let v = fields[n]->0;
    if is_array_field(n) {
        lemma_array_from_plain(split_ws(v));
    }
}

/// Merging fields `0..k` keeps each merged field written once, settled.
#[verifier::spinoff_prover]
#[verifier::rlimit(40)]
proof fn lemma_settled_upto(text: Seq<char>, fields: FieldsModel, k: int)
    requires
        fields.len() == FIELD_COUNT,
        0 <= k <= FIELD_COUNT,
        forall|n: int|
            0 <= n < FIELD_COUNT ==> (#[trigger] fields[n] matches Some(v) ==> rewritable_value(n, v)),
        parse_quick_fields_spec(text) is Some,
        editable(text, fields),
        newline_ended(text),
    ensures
        merge_fields_upto(text, fields, k) matches Some(t) && settled_upto(t, fields, k),
    decreases k,
{
    if k == 0 {
        lemma_editable_facts(text, fields);
    } else {
        lemma_settled_upto(text, fields, k - 1);
        let t = merge_fields_upto(text, fields, k - 1)->0;
        let n = k - 1;
        let rs = logical_lines(t);
        if let Some(v) = fields[n] {
            assert(rewritable_value(n, v));
            let w = lemma_written_body(n, v);
            let body = written_body(n, v);
            assert(indentation(Seq::<char>::empty()));
            assert(Seq::<char>::empty() + body =~= body);
            assert(line_write(body) == Some(Some((n, w))));
            lemma_body_settled(body);
            assert(keeps_indentation(body)) by {
                let f = crate::text::ws_pred();
                crate::text::lemma_skip_while_unique(body, 0, 0, f);
                assert(body.take(0) =~= Seq::<char>::empty());
            }
            if n == 0 {
                lemma_maintainer_round_trip(t, v, fields);
                lemma_maintainer_merge_lines(t, v, fields);
                let t2 = merge_maintainer_line(t, v);
                lemma_editable_facts(t2, fields);
                let rs2 = logical_lines(t2);
                lemma_maintainer_lines_writers(rs, v, 1, body);
                if !maintainer_lines(rs, body).1 {
                    let kk = choose|kk: int| 0 <= kk <= rs.len() && rs2 == insert_at(rs, kk, body);
                    lemma_writers_insert(rs, kk, body, 0);
                    lemma_writers_zero(rs, 0);
                    lemma_settled_insert(rs, kk, body, 0, body);
                }
                assert(settled_upto(t2, fields, k));
            } else {
                lemma_merge_field_body(t, fields, n);
                let key = field_key(n);
                let rhs = written_rhs(n, v);
                lemma_assign_round_trip(t, n, rhs, w, fields);
                lemma_assign_lines(t, n, rhs, w, fields);
                let t2 = merge_assignment_line(t, key, rhs);
                lemma_editable_facts(t2, fields);
                let rs2 = logical_lines(t2);
                if has_key_line(rs, key) {
                    assert forall|m: int| 0 <= m < k && #[trigger] fields[m] is Some implies writers(rs2, m)
                        == 1 && writers_settled(rs2, m, written_body(m, fields[m]->0)) by {
                        lemma_assign_out_writers(rs, n, body, w, false, m, written_body(m, fields[m]->0));
                    }
                } else {
                    let kk = choose|kk: int| 0 <= kk <= rs.len() && rs2 == insert_at(rs, kk, body);
                    assert forall|j: int| 0 <= j < rs.len() implies !writes_field(#[trigger] rs[j], n) by {
                        lemma_key_line_writes(rs[j], n);
                        if key_line(rs[j], key) {
                            assert(has_key_line(rs, key));
                        }
                    }
                    lemma_writers_zero(rs, n);
                    assert forall|m: int| 0 <= m < k && #[trigger] fields[m] is Some implies writers(rs2, m)
                        == 1 && writers_settled(rs2, m, written_body(m, fields[m]->0)) by {
                        lemma_writers_insert(rs, kk, body, m);
                        if m == n {
                            lemma_settled_insert(rs, kk, body, m, body);
                        } else {
                            lemma_settled_insert(rs, kk, body, m, written_body(m, fields[m]->0));
                        }
                    }
                }
                assert(settled_upto(t2, fields, k));
            }
        }
    }
}


/// Merging one set field into a text where every set field is settled gives
/// the text back.
proof fn lemma_field_same(t: Seq<char>, fields: FieldsModel, n: int)
    requires
        fields.len() == FIELD_COUNT,
        0 <= n < FIELD_COUNT,
        forall|m: int|
            0 <= m < FIELD_COUNT ==> (#[trigger] fields[m] matches Some(v) ==> rewritable_value(m, v)),
        settled_upto(t, fields, FIELD_COUNT as int),
    ensures
        merge_field(t, fields, n) == Some(t),
{
    if let Some(v) = fields[n] {
        assert(rewritable_value(n, v));
        let ls = lines(t);
        let us = units_from(ls, 0);
        let rs = renders(us);
        let p = quiet_pred(fields);
        let body = written_body(n, v);
        lemma_editable_facts(t, fields);
        lemma_written_body(n, v);
        assert(writers(rs, n) == 1 && writers_settled(rs, n, body));
        lemma_concat_renders(us);
        if n == 0 {
            assert forall|k: int, m: int| 0 <= k < us.len() && 1 <= m < us[k].len() implies (|
                c: Seq<char>,
            | !is_maintainer_line(c))(#[trigger] us[k][m]) by {
                assert(p(us[k][m]));
            }
            lemma_maintainer_fold_lines(ls, body);
            lemma_maintainer_units(us, body);
            lemma_maintainer_units_render(us, body);
            lemma_maintainer_lines_same(rs, body);
            assert forall|q: Seq<char>| indentation(q) implies good_line(#[trigger] (q + body)) by {
                lemma_maintainer_line(q, v);
            }
            lemma_maintainer_units_ok(us, body, p);
            let mo = maintainer_units(us, body).0;
            assert forall|k: int| 0 <= k < mo.len() implies shaped(#[trigger] mo[k]) by {
                assert(wf_unit(mo[k]));
            }
            lemma_concat_renders(mo);
            assert(merge_maintainer_line(t, v) == concat_lines(flatten(mo)));
        } else {
            let key = field_key(n);
            lemma_merge_field_body(t, fields, n);
            assert forall|k: int, m: int| 0 <= k < us.len() && 1 <= m < us[k].len() implies (|
                c: Seq<char>,
            | !key_line(c, key))(#[trigger] us[k][m]) by {
                assert(p(us[k][m]));
                assert(quiet_line(us[k][m], fields));
            }
            lemma_assign_walk_units(ls, 0, key, body, seq![], false);
            lemma_writers_zero(rs, n);
            let j = choose|j: int| 0 <= j < rs.len() && writes_field(#[trigger] rs[j], n);
            lemma_key_line_writes(rs[j], n);
            assert(has_key_line(rs, key));
            lemma_assign_out_same(rs, n, body, false);
            assert(Seq::<char>::empty() + concat_lines(rs) =~= concat_lines(rs));
        }
    }
}

proof fn lemma_merge_same(t: Seq<char>, fields: FieldsModel, m: int)
    requires
        fields.len() == FIELD_COUNT,
        0 <= m <= FIELD_COUNT,
        forall|n: int|
            0 <= n < FIELD_COUNT ==> (#[trigger] fields[n] matches Some(v) ==> rewritable_value(n, v)),
        settled_upto(t, fields, FIELD_COUNT as int),
    ensures
        merge_fields_upto(t, fields, m) == Some(t),
    decreases m,
{
    if m > 0 {
        lemma_merge_same(t, fields, m - 1);
        lemma_field_same(t, fields, m - 1);
    }
}

/// Merging the same quick fields a second time changes nothing: the text
/// the first merge wrote comes back unchanged. Stated for values whose
/// written line stands alone and reads back as some value of its field, and
/// a PKGBUILD that reads, is editable, and is its lines each followed by a
/// newline, with no line ending in a carriage return.
pub proof fn law_merge_twice(text: Seq<char>, fields: FieldsModel)
    requires
        fields.len() == FIELD_COUNT,
        forall|n: int|
            0 <= n < FIELD_COUNT ==> (#[trigger] fields[n] matches Some(v) ==> rewritable_value(n, v)),
        parse_quick_fields_spec(text) is Some,
        editable(text, fields),
        newline_ended(text),
    ensures
        merge_quick_fields_spec(text, fields) matches Some(out) && merge_quick_fields_spec(out, fields)
            == Some(out),
{
    lemma_settled_upto(text, fields, FIELD_COUNT as int);
    let out = merge_fields_upto(text, fields, FIELD_COUNT as int)->0;
    lemma_merge_same(out, fields, FIELD_COUNT as int);
}


/// `l` without its trailing carriage returns.
pub open spec fn crn(l: Seq<char>) -> Seq<char>
    decreases l.len(),
{
    if l.len() > 0 && l.last() == '\r' {
        crn(l.drop_last())
    } else {
        l
    }
}

/// Removing trailing carriage returns twice removes no more.
pub proof fn lemma_crn_idem(l: Seq<char>)
    ensures
        crn(crn(l)) == crn(l),
        crn(l).len() == 0 || crn(l).last() != '\r',
        crn(crate::text::strip_cr(l)) == crn(l),
    decreases l.len(),
{
    if l.len() > 0 && l.last() == '\r' {
        lemma_crn_idem(l.drop_last());
    }
}

/// Trimming the start of a text with a carriage return added.
proof fn lemma_trim_start_cr(x: Seq<char>)
    ensures
        trim_start(x.push('\r')) == (if trim_start(x).len() > 0 {
            trim_start(x).push('\r')
        } else {
            Seq::<char>::empty()
        }),
{
    let y = x.push('\r');
    crate::text::lemma_trim_start_len_bounds(x);
    let k = trim_start_len(x);
    assert forall|i: int| 0 <= i < k implies is_ws(#[trigger] y[i]) by {
        assert(y[i] == x[i]);
    }
    if k < x.len() {
        assert(y[k] == x[k]);
        lemma_trim_start_len_unique(y, k);
        assert(y.skip(k) =~= x.skip(k).push('\r'));
    } else {
        assert(is_ws(y[x.len() as int]));
        lemma_trim_start_len_unique(y, y.len() as int);
        assert(y.skip(y.len() as int) =~= Seq::<char>::empty());
        assert(x.skip(k).len() == 0);
    }
}

/// Trimming a text with a carriage return added.
proof fn lemma_trim_cr(x: Seq<char>)
    ensures
        trim(x.push('\r')) == trim(x),
{
    let y = x.push('\r');
    lemma_trim_start_cr(x);
    let t = trim_start(x);
    if t.len() > 0 {
        let u = t.push('\r');
        assert(u.drop_last() =~= t);
        assert(trim_end_len(u) == 1 + trim_end_len(t));
        crate::text::lemma_trim_end_len_bounds(t);
        assert(u.take(u.len() - trim_end_len(u)) =~= t.take(t.len() - trim_end_len(t)));
    } else {
        assert(trim_end_len(Seq::<char>::empty()) == 0);
        assert(trim_end_len(t) == 0);
        assert(t.take(0) =~= Seq::<char>::empty());
        assert(Seq::<char>::empty().take(0) =~= Seq::<char>::empty());
    }
}

/// A prefix without carriage returns is found as before after adding one.
proof fn lemma_starts_with_cr(t: Seq<char>, p: Seq<char>)
    requires
        p.len() > 0,
        forall|i: int| 0 <= i < p.len() ==> p[i] != '\r',
    ensures
        starts_with(t.push('\r'), p) == starts_with(t, p),
{
    let y = t.push('\r');
    if t.len() >= p.len() {
        assert(y.take(p.len() as int) =~= t.take(p.len() as int));
    } else if y.len() == p.len() {
        if starts_with(y, p) {
            assert(y.take(p.len() as int)[t.len() as int] == p[t.len() as int]);
        }
    }
}

/// Adding a carriage return to a text does not change its parenthesis depth.
proof fn lemma_paren_walk_cr(s: Seq<char>, i: int, q: int)
    requires
        0 <= i,
    ensures
        paren_walk(s.push('\r'), i, q) == paren_walk(s, i, q),
    decreases s.len() + 1 - i,
{
    let y = s.push('\r');
    if i < s.len() {
        assert(y[i] == s[i]);
        let c = s[i];
        if q == 2 && c == '\\' {
            if s.len() - i <= 2 {
                if y.len() - i > 2 {
                    assert(i + 2 == s.len());
                    assert(y[i + 2] == '\r');
                    assert(paren_walk(y, i + 3, 2) == 0);
                    assert(paren_walk(y, i + 2, 2) == paren_walk(y, i + 3, 2));
                }
            } else {
                lemma_paren_walk_cr(s, i + 2, 2);
            }
        } else {
            lemma_paren_walk_cr(s, i + 1, 0);
            lemma_paren_walk_cr(s, i + 1, 1);
            lemma_paren_walk_cr(s, i + 1, 2);
        }
    } else if i == s.len() {
        assert(y[i] == '\r');
        assert(paren_walk(y, i + 1, 0) == 0);
        assert(paren_walk(y, i + 1, 1) == 0);
        assert(paren_walk(y, i + 1, 2) == 0);
    }
}

/// Reading an assignment whose line gained a carriage return.
proof fn lemma_assignment_cr(t: Seq<char>)
    requires
        t.len() > 0,
        !is_ws(t[0]),
    ensures
        parse_simple_assignment(t.push('\r')) == (match parse_simple_assignment(t) {
            None => None,
            Some((k, v)) => Some((k, if trim_start(v).len() > 0 { v.push('\r') } else { v })),
        }),
        parse_simple_assignment(t) matches Some((k, v)) ==> v == trim_start(v) || true,
{
    let y = t.push('\r');
    assert(y[0] == t[0]);
    crate::text::lemma_index_of(t, '=');
    match crate::text::index_of(t, '=') {
        Some(idx) => {
            assert forall|j: int| 0 <= j < idx implies y[j] != '=' by {
                assert(y[j] == t[j]);
            }
            assert(y[idx] == t[idx]);
            lemma_index_of_unique(y, '=', idx);
            assert(y.take(idx) =~= t.take(idx));
            assert(y.skip(idx + 1) =~= t.skip(idx + 1).push('\r'));
            lemma_trim_start_cr(t.skip(idx + 1));
            let v = trim_start(t.skip(idx + 1));
            crate::text::lemma_trim_start_len_bounds(t.skip(idx + 1));
            if v.len() > 0 {
                crate::text::lemma_trim_start_len_bounds(v);
                crate::text::lemma_trim_start_len_bounds(t.skip(idx + 1).skip(trim_start_len(t.skip(idx + 1))));
                assert(v[0] == t.skip(idx + 1)[trim_start_len(t.skip(idx + 1))]);
                lemma_trim_start_len_unique(v, 0);
                assert(v.skip(0) =~= v);
            } else {
                assert(trim_start(v) =~= v) by {
                    lemma_trim_start_len_unique(v, 0);
                    assert(v.skip(0) =~= v);
                }
            }
        },
        None => {
            crate::text::lemma_index_of_none(y, '=');
            assert forall|j: int| 0 <= j < y.len() implies y[j] != '=' by {
                if j < t.len() {
                    assert(y[j] == t[j]);
                }
            }
        },
    }
}


/// What a line says is the same with a carriage return added.
proof fn lemma_line_cr(l: Seq<char>, key: Seq<char>, b: Seq<char>)
    ensures
        line_write(l.push('\r')) == line_write(l),
        single_line(l.push('\r')) == single_line(l),
        key_line(l.push('\r'), key) == key_line(l, key),
        is_maintainer_line(l.push('\r')) == is_maintainer_line(l),
        is_bash_function_start(l.push('\r')) == is_bash_function_start(l),
        trim_start(l).len() > 0 ==> preserve_indent(l.push('\r'), b) == preserve_indent(l, b),
{
    reveal_strlit("# Maintainer:");
    let y = l.push('\r');
    let p = "# Maintainer:"@;
    lemma_trim_start_cr(l);
    lemma_trim_cr(l);
    let t = trim_start(l);
    if t.len() > 0 {
        crate::text::lemma_trim_start_len_bounds(l);
        assert(t[0] == l[trim_start_len(l)]);
        lemma_starts_with_cr(t, p);
        lemma_assignment_cr(t);
        if starts_with(t, p) {
            assert(t.push('\r').skip(13) =~= t.skip(13).push('\r'));
            lemma_trim_cr(t.skip(13));
        }
        match parse_simple_assignment(t) {
            Some((k, v)) => {
                lemma_trim_start_cr(v);
                if trim_start(v).len() > 0 {
                    lemma_trim_cr(v);
                    lemma_starts_with_cr(trim_start(v), seq!['(']);
                    lemma_paren_walk_cr(v, 0, 0);
                }
            },
            None => {},
        }
        let f = crate::text::ws_pred();
        crate::text::lemma_skip_while(l, 0, f);
        let kk = crate::text::skip_while(l, 0, f);
        assert(kk == trim_start_len(l)) by {
            crate::text::lemma_trim_start_len_unique(l, kk);
        }
        assert forall|j: int| 0 <= j < kk implies f(#[trigger] y[j]) by {
            assert(y[j] == l[j]);
        }
        assert(y[kk] == l[kk]);
        crate::text::lemma_skip_while_unique(y, 0, kk, f);
        assert(y.take(kk) =~= l.take(kk));
    } else {
        assert(!starts_with(Seq::<char>::empty(), p));
        assert(parse_simple_assignment(Seq::<char>::empty()) is None) by {
            crate::text::lemma_index_of_none(Seq::<char>::empty(), '=');
        }
    }
}

/// What a line says is the same without its trailing carriage returns.
proof fn lemma_line_crn(l: Seq<char>, key: Seq<char>, b: Seq<char>)
    ensures
        line_write(crn(l)) == line_write(l),
        single_line(crn(l)) == single_line(l),
        key_line(crn(l), key) == key_line(l, key),
        is_maintainer_line(crn(l)) == is_maintainer_line(l),
        is_bash_function_start(crn(l)) == is_bash_function_start(l),
        trim_start(crn(l)).len() > 0 ==> preserve_indent(crn(l), b) == preserve_indent(l, b),
        trim_start(crn(l)).len() > 0 <==> trim_start(l).len() > 0,
    decreases l.len(),
{
    if l.len() > 0 && l.last() == '\r' {
        let x = l.drop_last();
        assert(x.push('\r') =~= l);
        lemma_line_cr(x, key, b);
        lemma_trim_start_cr(x);
        lemma_line_crn(x, key, b);
    }
}


/// Carriage returns end only one-line units: every line of a unit that opens
/// an array continued across lines is free of them.
pub open spec fn cr_ok(us: Seq<Seq<Seq<char>>>) -> bool {
    forall|k: int, m: int|
        0 <= k < us.len() && 0 <= m < us[k].len() && !single_line(us[k][0]) ==> crn(
            #[trigger] us[k][m],
        ) == us[k][m]
}

/// Each line of each unit mapped by `h`.
pub open spec fn map_units(us: Seq<Seq<Seq<char>>>, h: spec_fn(Seq<char>) -> Seq<char>) -> Seq<
    Seq<Seq<char>>,
> {
    Seq::new(us.len(), |k: int| Seq::new(us[k].len(), |m: int| h(us[k][m])))
}

/// Each line mapped by `h`.
pub open spec fn map_lines(ls: Seq<Seq<char>>, h: spec_fn(Seq<char>) -> Seq<char>) -> Seq<Seq<char>> {
    Seq::new(ls.len(), |j: int| h(ls[j]))
}

/// Collecting array lines stops at the same line in two lists that agree on
/// the lines it reads.
proof fn lemma_collect_same_end(
    ls: Seq<Seq<char>>,
    ls2: Seq<Seq<char>>,
    j: int,
    depth: int,
    acc: Seq<char>,
    acc2: Seq<char>,
)
    requires
        ls2.len() == ls.len(),
        0 <= j <= ls.len(),
        forall|m: int| j <= m < collect_array(ls, j, depth, acc).1 ==> ls2[m] == ls[m],
    ensures
        collect_array(ls2, j, depth, acc2).1 == collect_array(ls, j, depth, acc).1,
    decreases ls.len() - j,
{
    if depth > 0 && j < ls.len() {
        crate::workflow::pkgbuild_units::lemma_collect_array(ls, j + 1, depth + paren_delta(ls[j]), acc + nl() + ls[j]);
        assert(ls2[j] == ls[j]);
        lemma_collect_same_end(ls, ls2, j + 1, depth + paren_delta(ls[j]), acc + nl() + ls[j], acc2 + nl() + ls2[j]);
    }
}

/// Mapping each line by `h`, which keeps whether a line stands alone and
/// leaves lines without trailing carriage returns alone, maps each unit.
proof fn lemma_units_map(ls: Seq<Seq<char>>, h: spec_fn(Seq<char>) -> Seq<char>, i: int)
    requires
        0 <= i <= ls.len(),
        forall|l: Seq<char>| single_line(#[trigger] h(l)) == single_line(l),
        forall|l: Seq<char>| crn(l) == l ==> #[trigger] h(l) == l,
        cr_ok(units_from(ls, i)),
    ensures
        units_from(map_lines(ls, h), i) == map_units(units_from(ls, i), h),
    decreases ls.len() - i,
{
    let ls2 = map_lines(ls, h);
    let us = units_from(ls, i);
    if i == ls.len() {
        assert(units_from(ls2, i) =~= map_units(us, h));
    } else {
        crate::workflow::pkgbuild_units::lemma_unit_end(ls, i);
        let j = unit_end(ls, i);
        let u = ls.subrange(i, j);
        assert(us == seq![u] + units_from(ls, j));
        assert(us[0] == u);
        assert(u[0] == ls[i]);
        assert(ls2[i] == h(ls[i]));
        if !single_line(ls[i]) {
            assert forall|m: int| i <= m < j implies ls2[m] == ls[m] by {
                assert(u[m - i] == ls[m]);
                assert(crn(us[0][m - i]) == us[0][m - i]);
            }
            let v = crate::workflow::pkgbuild_units::assigned_value(ls[i]);
            lemma_collect_same_end(ls, ls2, i + 1, paren_delta(v), v, v);
            assert(ls2[i] == ls[i]);
        }
        assert(unit_end(ls2, i) == j);
        assert forall|k: int, m: int|
            0 <= k < units_from(ls, j).len() && 0 <= m < units_from(ls, j)[k].len() && !single_line(
                units_from(ls, j)[k][0],
            ) implies crn(#[trigger] units_from(ls, j)[k][m]) == units_from(ls, j)[k][m] by {
            assert(us[k + 1] == units_from(ls, j)[k]);
        }
        lemma_units_map(ls, h, j);
        assert(ls2.subrange(i, j) =~= Seq::new(u.len(), |m: int| h(u[m])));
        assert(units_from(ls2, i) =~= map_units(us, h));
    }
}


/// Lines without their trailing carriage returns.
pub open spec fn crn_fn() -> spec_fn(Seq<char>) -> Seq<char> {
    |l: Seq<char>| crn(l)
}

/// The units of any lines are shaped.
proof fn lemma_units_shaped(ls: Seq<Seq<char>>, i: int)
    requires
        0 <= i <= ls.len(),
    ensures
        forall|k: int| 0 <= k < units_from(ls, i).len() ==> shaped(#[trigger] units_from(ls, i)[k]),
    decreases ls.len() - i,
{
    if i < ls.len() {
        crate::workflow::pkgbuild_units::lemma_unit_end(ls, i);
        let j = unit_end(ls, i);
        lemma_units_shaped(ls, j);
        let us = units_from(ls, i);
        assert forall|k: int| 0 <= k < us.len() implies shaped(#[trigger] us[k]) by {
            if k > 0 {
                assert(us[k] == units_from(ls, j)[k - 1]);
            } else {
                assert(us[0] == ls.subrange(i, j));
            }
        }
    }
}

/// Two lists of lines that read line by line alike are read alike.
proof fn lemma_steps_pointwise(a: Seq<Seq<char>>, b: Seq<Seq<char>>, acc: FieldsModel)
    requires
        a.len() == b.len(),
        forall|k: int| 0 <= k < a.len() ==> line_write(#[trigger] a[k]) == line_write(b[k]),
    ensures
        steps(a, acc) == steps(b, acc),
    decreases a.len(),
{
    if a.len() > 0 {
        assert(line_write(a[0]) == line_write(b[0]));
        match line_write(a[0]) {
            None => {},
            Some(w) => {
                assert forall|k: int| 0 <= k < a.skip(1).len() implies line_write(#[trigger] a.skip(1)[k])
                    == line_write(b.skip(1)[k]) by {
                    assert(a.skip(1)[k] == a[k + 1]);
                    assert(b.skip(1)[k] == b[k + 1]);
                }
                lemma_steps_pointwise(a.skip(1), b.skip(1), apply_write(acc, w));
            },
        }
    }
}

/// Where carriage returns end only one-line units, the logical lines without
/// them are the logical lines with each one's trailing carriage returns
/// removed, and read the same.
proof fn lemma_logical_crn(ls: Seq<Seq<char>>)
    requires
        cr_ok(units_from(ls, 0)),
    ensures
        units_from(map_lines(ls, crn_fn()), 0) == map_units(units_from(ls, 0), crn_fn()),
        renders(units_from(map_lines(ls, crn_fn()), 0)).len() == renders(units_from(ls, 0)).len(),
        forall|k: int|
            0 <= k < renders(units_from(ls, 0)).len() ==> #[trigger] renders(
                units_from(map_lines(ls, crn_fn()), 0),
            )[k] == crn(renders(units_from(ls, 0))[k]),
        forall|k: int|
            0 <= k < renders(units_from(ls, 0)).len() ==> line_write(
                #[trigger] renders(units_from(ls, 0))[k],
            ) == line_write(renders(units_from(map_lines(ls, crn_fn()), 0))[k]),
        parse_walk(map_lines(ls, crn_fn()), 0, empty_fields()) == parse_walk(ls, 0, empty_fields()),
{
    let h = crn_fn();
    assert forall|l: Seq<char>| single_line(#[trigger] h(l)) == single_line(l) by {
        lemma_line_crn(l, seq![], seq![]);
    }
    lemma_units_map(ls, h, 0);
    let us = units_from(ls, 0);
    let ls2 = map_lines(ls, h);
    let us2 = units_from(ls2, 0);
    lemma_units_shaped(ls, 0);
    assert forall|k: int| 0 <= k < us.len() implies #[trigger] renders(us2)[k] == crn(renders(us)[k])
        && line_write(renders(us)[k]) == line_write(renders(us2)[k]) by {
        let u = us[k];
        assert(shaped(u));
        assert(us2[k] =~= Seq::new(u.len(), |m: int| crn(u[m])));
        if single_line(u[0]) {
            assert(u =~= seq![u[0]]);
            crate::workflow::pkgbuild_units::lemma_render_one(u[0]);
            crate::workflow::pkgbuild_units::lemma_render_one(crn(u[0]));
            assert(us2[k] =~= seq![crn(u[0])]);
            lemma_line_crn(u[0], seq![], seq![]);
        } else {
            assert forall|m: int| 0 <= m < u.len() implies crn(#[trigger] u[m]) == u[m] by {}
            assert(us2[k] =~= u);
            assert(u.len() > 0);
            let r = render(u);
            assert(r == u[0] + crate::workflow::pkgbuild_units::nl_tail(u.skip(1)));
            lemma_render_crn_fixed(u);
        }
    }
    lemma_parse_units(ls, 0, empty_fields());
    lemma_parse_units(ls2, 0, empty_fields());
    lemma_steps_pointwise(renders(us), renders(us2), empty_fields());
}

/// A text is free of trailing carriage returns exactly when it does not
/// end in one.
proof fn lemma_crn_fixed_iff(x: Seq<char>)
    ensures
        (crn(x) == x) <==> (x.len() == 0 || x.last() != '\r'),
        crn(x).len() <= x.len(),
    decreases x.len(),
{
    if x.len() > 0 && x.last() == '\r' {
        lemma_crn_fixed_iff(x.drop_last());
        assert(crn(x).len() < x.len());
    }
}

/// A unit whose lines have no trailing carriage return renders without one.
proof fn lemma_render_crn_fixed(u: Seq<Seq<char>>)
    requires
        u.len() > 0,
        forall|m: int| 0 <= m < u.len() ==> crn(#[trigger] u[m]) == u[m],
    ensures
        crn(render(u)) == render(u),
    decreases u.len(),
{
    let r = render(u);
    lemma_crn_fixed_iff(u[0]);
    if u.len() == 1 {
        assert(u.skip(1) =~= Seq::<Seq<char>>::empty());
        assert(r =~= u[0]);
    } else {
        let v = u.skip(1);
        assert(crate::workflow::pkgbuild_units::nl_tail(v) == nl() + v[0]
            + crate::workflow::pkgbuild_units::nl_tail(v.skip(1)));
        assert(render(v) == v[0] + crate::workflow::pkgbuild_units::nl_tail(v.skip(1)));
        assert forall|m: int| 0 <= m < v.len() implies crn(#[trigger] v[m]) == v[m] by {
            assert(v[m] == u[m + 1]);
        }
        lemma_render_crn_fixed(v);
        lemma_crn_fixed_iff(render(v));
        assert(r =~= u[0] + nl() + render(v));
        if render(v).len() == 0 {
            assert(r.last() == '\n');
        } else {
            assert(r.last() == render(v).last());
        }
    }
    lemma_crn_fixed_iff(r);
}


/// A line has no newline exactly when it has none without its trailing
/// carriage returns.
proof fn lemma_no_newline_crn(x: Seq<char>)
    ensures
        no_newline(crn(x)) == no_newline(x),
    decreases x.len(),
{
    if x.len() > 0 && x.last() == '\r' {
        lemma_no_newline_crn(x.drop_last());
        let d = x.drop_last();
        if no_newline(d) {
            assert forall|j: int| 0 <= j < x.len() implies x[j] != '\n' by {
                if j < d.len() {
                    assert(x[j] == d[j]);
                }
            }
        }
        if no_newline(x) {
            assert forall|j: int| 0 <= j < d.len() implies d[j] != '\n' by {
                assert(x[j] == d[j]);
            }
        }
    }
}

/// Lines of mapped units are the mapped lines.
proof fn lemma_flatten_map(us: Seq<Seq<Seq<char>>>, h: spec_fn(Seq<char>) -> Seq<char>)
    ensures
        flatten(map_units(us, h)) == map_lines(flatten(us), h),
    decreases us.len(),
{
    if us.len() == 0 {
        assert(flatten(map_units(us, h)) =~= Seq::<Seq<char>>::empty());
        assert(map_lines(flatten(us), h) =~= Seq::<Seq<char>>::empty());
    } else {
        let m = map_units(us, h);
        assert(m.skip(1) =~= map_units(us.skip(1), h));
        lemma_flatten_map(us.skip(1), h);
        assert(flatten(m) == m[0] + flatten(m.skip(1)));
        assert(flatten(us) == us[0] + flatten(us.skip(1)));
        assert(flatten(m) =~= map_lines(flatten(us), h));
    }
}

/// A line without a trailing carriage return.
pub open spec fn crn_free(x: Seq<char>) -> bool {
    crn(x) == x
}

/// The assignment merge on units commutes with removing trailing carriage
/// returns, and keeps carriage returns to one-line units.
proof fn lemma_assign_units_crn(us: Seq<Seq<Seq<char>>>, key: Seq<char>, body: Seq<char>, r: bool)
    requires
        forall|k: int| 0 <= k < us.len() ==> (#[trigger] us[k]).len() > 0,
        forall|k: int|
            0 <= k < us.len() && key_line(us[k][0], key) ==> single_line(
                #[trigger] preserve_indent(us[k][0], body),
            ) && crn_free(preserve_indent(us[k][0], body)),
        cr_ok(us),
    ensures
        assign_units(map_units(us, crn_fn()), key, body, r) == map_units(
            assign_units(us, key, body, r),
            crn_fn(),
        ),
        cr_ok(assign_units(us, key, body, r)),
        forall|k: int| 0 <= k < assign_units(us, key, body, r).len() ==> (#[trigger] assign_units(us, key, body, r)[k]).len() > 0,
    decreases us.len(),
{
    let h = crn_fn();
    let mu = map_units(us, h);
    let out = assign_units(us, key, body, r);
    if us.len() == 0 {
        assert(mu.len() == 0);
        assert(assign_units(mu, key, body, r) =~= map_units(out, h));
    } else {
        let u = us[0];
        let rest = us.skip(1);
        assert(mu[0] =~= Seq::new(u.len(), |m: int| crn(u[m])));
        assert(mu.skip(1) =~= map_units(rest, h));
        assert(mu[0][0] == crn(u[0]));
        lemma_line_crn(u[0], key, body);
        assert forall|k: int| 0 <= k < rest.len() implies (#[trigger] rest[k]).len() > 0 by {
            assert(rest[k] == us[k + 1]);
        }
        assert forall|k: int|
            0 <= k < rest.len() && key_line(rest[k][0], key) implies single_line(
                #[trigger] preserve_indent(rest[k][0], body),
            ) && crn_free(preserve_indent(rest[k][0], body)) by {
            assert(rest[k] == us[k + 1]);
        }
        assert forall|k: int, m: int|
            0 <= k < rest.len() && 0 <= m < rest[k].len() && !single_line(rest[k][0]) implies crn(
                #[trigger] rest[k][m],
            ) == rest[k][m] by {
            assert(rest[k] == us[k + 1]);
        }
        let kl = key_line(u[0], key);
        let r2 = r || kl;
        lemma_assign_units_crn(rest, key, body, r2);
        let o2 = assign_units(rest, key, body, r2);
        if kl {
            assert(parse_simple_assignment(trim_start(u[0])) is Some);
            if trim_start(u[0]).len() == 0 {
                crate::text::lemma_index_of_none(Seq::<char>::empty(), '=');
            }
            let w = preserve_indent(u[0], body);
            assert(w == preserve_indent(crn(u[0]), body));
            if !r {
                assert(out == seq![seq![w]] + o2);
                let mo = map_units(out, h);
                let m2 = map_units(o2, h);
                assert(out[0] == seq![w]);
                assert(mo[0] =~= seq![crn(w)]);
                assert forall|k: int| 1 <= k < mo.len() implies #[trigger] mo[k] == m2[k - 1] by {
                    assert(out[k] == o2[k - 1]);
                    assert(mo[k] =~= m2[k - 1]);
                }
                assert(mo =~= seq![seq![crn(w)]] + m2);
                assert(assign_units(mu, key, body, r) == seq![seq![preserve_indent(mu[0][0], body)]]
                    + assign_units(mu.skip(1), key, body, true));
                assert(assign_units(mu, key, body, r) =~= map_units(out, h));
                assert forall|k: int, m: int|
                    0 <= k < out.len() && 0 <= m < out[k].len() && !single_line(out[k][0]) implies crn(
                        #[trigger] out[k][m],
                    ) == out[k][m] by {
                    if k > 0 {
                        assert(out[k] == o2[k - 1]);
                    }
                }
                assert forall|k: int| 0 <= k < out.len() implies (#[trigger] out[k]).len() > 0 by {
                    if k > 0 {
                        assert(out[k] == o2[k - 1]);
                    }
                }
            } else {
                assert(out == o2);
                assert(assign_units(mu, key, body, r) == assign_units(mu.skip(1), key, body, true));
            }
        } else {
            assert(out == seq![u] + o2);
            assert(map_units(out, h) =~= seq![mu[0]] + map_units(o2, h));
            assert(assign_units(mu, key, body, r) == seq![mu[0]] + assign_units(mu.skip(1), key, body, r));
            assert forall|k: int, m: int|
                0 <= k < out.len() && 0 <= m < out[k].len() && !single_line(out[k][0]) implies crn(
                    #[trigger] out[k][m],
                ) == out[k][m] by {
                if k > 0 {
                    assert(out[k] == o2[k - 1]);
                } else {
                    assert(out[0] == us[0]);
                }
            }
            assert forall|k: int| 0 <= k < out.len() implies (#[trigger] out[k]).len() > 0 by {
                if k > 0 {
                    assert(out[k] == o2[k - 1]);
                }
            }
        }
    }
}


/// Two texts alike but for carriage returns ending lines: the second's lines
/// are the first's without them, and in the first they end only lines that
/// stand alone.
pub open spec fn cr_related(a: Seq<char>, b: Seq<char>) -> bool {
    &&& lines(b) == map_lines(lines(a), crn_fn())
    &&& cr_ok(units_from(lines(a), 0))
}

/// Every line of units whose lines are plain is plain.
proof fn lemma_unit_lines_plain(us: Seq<Seq<Seq<char>>>)
    requires
        crate::text::plain_lines(flatten(us)),
    ensures
        forall|k: int, m: int|
            0 <= k < us.len() && 0 <= m < us[k].len() ==> plain_line(#[trigger] us[k][m]),
    decreases us.len(),
{
    if us.len() > 0 {
        assert(flatten(us) == us[0] + flatten(us.skip(1)));
        crate::workflow::pkgbuild_units::lemma_plain_lines_append(us[0], flatten(us.skip(1)));
        lemma_unit_lines_plain(us.skip(1));
        assert forall|k: int, m: int| 0 <= k < us.len() && 0 <= m < us[k].len() implies plain_line(
            #[trigger] us[k][m],
        ) by {
            if k > 0 {
                assert(us[k] == us.skip(1)[k - 1]);
            }
        }
    }
}

/// A plain line has no trailing carriage return to remove.
proof fn lemma_plain_crn(l: Seq<char>)
    requires
        plain_line(l),
    ensures
        crn(l) == l,
{
    lemma_crn_fixed_iff(l);
}

/// Units written out with their carriage returns, and written out without
/// them, give related texts, where the units without them are sound.
proof fn lemma_written_related(x: Seq<Seq<Seq<char>>>, p: spec_fn(Seq<char>) -> bool)
    requires
        cr_ok(x),
        units_ok(map_units(x, crn_fn()), p),
    ensures
        cr_related(concat_lines(flatten(x)), concat_lines(flatten(map_units(x, crn_fn())))),
        forall|k: int| 0 <= k < x.len() ==> wf_unit(#[trigger] x[k]),
{
    let h = crn_fn();
    let y = map_units(x, h);
    let fx = flatten(x);
    let fy = flatten(y);
    lemma_flatten_map(x, h);
    lemma_lines_of_concat(fy);
    assert forall|j: int| 0 <= j < fx.len() implies no_newline(#[trigger] fx[j]) by {
        assert(fy[j] == crn(fx[j]));
        assert(plain_line(fy[j]));
        lemma_no_newline_crn(fx[j]);
    }
    crate::text::lemma_lines_of_concat_cr(fx);
    let sc = |l: Seq<char>| crate::text::strip_cr(l);
    let la = lines(concat_lines(fx));
    assert(la =~= map_lines(fx, sc));
    assert forall|j: int| 0 <= j < fy.len() implies #[trigger] fy[j] == map_lines(la, h)[j] by {
        lemma_crn_idem(fx[j]);
    }
    assert(fy =~= map_lines(la, h));
    assert forall|k: int| 0 <= k < x.len() implies wf_unit(#[trigger] x[k]) by {
        assert(wf_unit(y[k]));
        assert(y[k].len() == x[k].len());
        assert(y[k][0] == crn(x[k][0]));
        lemma_line_crn(x[k][0], seq![], seq![]);
        if !single_line(x[k][0]) {
            assert(y[k] =~= x[k]);
        }
    }
    lemma_resegment(x);
    assert forall|l: Seq<char>| single_line(#[trigger] sc(l)) == single_line(l) by {
        lemma_crn_idem(l);
        lemma_line_crn(l, seq![], seq![]);
        lemma_line_crn(crate::text::strip_cr(l), seq![], seq![]);
    }
    assert forall|l: Seq<char>| crn(l) == l implies #[trigger] sc(l) == l by {
        lemma_crn_fixed_iff(l);
    }
    lemma_units_map(fx, sc, 0);
    let mx = map_units(x, sc);
    assert forall|k: int, m: int|
        0 <= k < mx.len() && 0 <= m < mx[k].len() && !single_line(mx[k][0]) implies crn(
            #[trigger] mx[k][m],
        ) == mx[k][m] by {
        assert(mx[k][0] == sc(x[k][0]));
        assert(mx[k][m] == sc(x[k][m]));
        assert(crn(x[k][m]) == x[k][m]);
    }
}

/// What related texts share: their units, alike but for carriage returns,
/// and what they read.
proof fn lemma_related_units(a: Seq<char>, b: Seq<char>)
    requires
        cr_related(a, b),
    ensures
        units_from(lines(b), 0) == map_units(units_from(lines(a), 0), crn_fn()),
        parse_quick_fields_spec(b) == parse_quick_fields_spec(a),
        flatten(units_from(lines(a), 0)) == lines(a),
        forall|k: int| 0 <= k < units_from(lines(a), 0).len() ==> shaped(
            #[trigger] units_from(lines(a), 0)[k],
        ),
{
    lemma_logical_crn(lines(a));
    lemma_units_shaped(lines(a), 0);
    lemma_flatten_units(lines(a), 0);
    assert(lines(a).skip(0) =~= lines(a));
}

/// The first function unit does not move when trailing carriage returns go.
proof fn lemma_first_function_unit_crn(us: Seq<Seq<Seq<char>>>)
    requires
        forall|k: int| 0 <= k < us.len() ==> (#[trigger] us[k]).len() > 0,
    ensures
        first_function_unit(map_units(us, crn_fn())) == first_function_unit(us),
    decreases us.len(),
{
    if us.len() > 0 {
        let h = crn_fn();
        let mu = map_units(us, h);
        assert(mu.drop_last() =~= map_units(us.drop_last(), h));
        assert forall|k: int| 0 <= k < us.drop_last().len() implies (#[trigger] us.drop_last()[k]).len() > 0 by {
            assert(us.drop_last()[k] == us[k]);
        }
        lemma_first_function_unit_crn(us.drop_last());
        assert(mu.last()[0] == crn(us.last()[0]));
        lemma_line_crn(us.last()[0], seq![], seq![]);
    }
}

/// A one-line unit without trailing carriage returns, inserted among units.
proof fn lemma_insert_unit_crn(us: Seq<Seq<Seq<char>>>, k: int, x: Seq<char>)
    requires
        0 <= k <= us.len(),
        crn(x) == x,
        single_line(x),
        cr_ok(us),
    ensures
        map_units(insert_unit(us, k, seq![x]), crn_fn()) == insert_unit(map_units(us, crn_fn()), k, seq![x]),
        cr_ok(insert_unit(us, k, seq![x])),
{
    let h = crn_fn();
    let o = insert_unit(us, k, seq![x]);
    let mo = map_units(o, h);
    let mu = map_units(us, h);
    let r = insert_unit(mu, k, seq![x]);
    assert forall|j: int| 0 <= j < mo.len() implies #[trigger] mo[j] == r[j] by {
        if j < k {
            assert(o[j] == us[j]);
            assert(mo[j] =~= mu[j]);
        } else if j > k {
            assert(o[j] == us[j - 1]);
            assert(mo[j] =~= mu[j - 1]);
        } else {
            assert(o[j] == seq![x]);
            assert(mo[j] =~= seq![x]);
        }
    }
    assert(mo =~= r);
    assert forall|j: int, m: int| 0 <= j < o.len() && 0 <= m < o[j].len() && !single_line(o[j][0]) implies crn(
        #[trigger] o[j][m],
    ) == o[j][m] by {
        if j < k {
            assert(o[j] == us[j]);
        } else if j > k {
            assert(o[j] == us[j - 1]);
        } else {
            assert(o[j] == seq![x]);
        }
    }
}


/// The maintainer merge on units commutes with removing trailing carriage
/// returns, and keeps carriage returns to one-line units.
proof fn lemma_maintainer_units_crn(us: Seq<Seq<Seq<char>>>, new_line: Seq<char>)
    requires
        forall|k: int| 0 <= k < us.len() ==> (#[trigger] us[k]).len() > 0,
        forall|k: int|
            0 <= k < us.len() && is_maintainer_line(us[k][0]) ==> single_line(
                #[trigger] preserve_indent(us[k][0], new_line),
            ) && crn_free(preserve_indent(us[k][0], new_line)),
        cr_ok(us),
    ensures
        maintainer_units(map_units(us, crn_fn()), new_line).0 == map_units(
            maintainer_units(us, new_line).0,
            crn_fn(),
        ),
        maintainer_units(map_units(us, crn_fn()), new_line).1 == maintainer_units(us, new_line).1,
        cr_ok(maintainer_units(us, new_line).0),
        forall|k: int|
            0 <= k < maintainer_units(us, new_line).0.len() ==> (#[trigger] maintainer_units(
                us,
                new_line,
            ).0[k]).len() > 0,
    decreases us.len(),
{
    reveal_strlit("# Maintainer:");
    let h = crn_fn();
    if us.len() == 0 {
        assert(map_units(us, h).len() == 0);
        assert(map_units(maintainer_units(us, new_line).0, h) =~= Seq::<Seq<Seq<char>>>::empty());
    } else {
        let mu = map_units(us, h);
        let us1 = us.drop_last();
        let u = us.last();
        assert(mu.drop_last() =~= map_units(us1, h));
        assert forall|k: int| 0 <= k < us1.len() implies (#[trigger] us1[k]).len() > 0 by {
            assert(us1[k] == us[k]);
        }
        assert forall|k: int|
            0 <= k < us1.len() && is_maintainer_line(us1[k][0]) implies single_line(
                #[trigger] preserve_indent(us1[k][0], new_line),
            ) && crn_free(preserve_indent(us1[k][0], new_line)) by {
            assert(us1[k] == us[k]);
        }
        assert forall|k: int, m: int|
            0 <= k < us1.len() && 0 <= m < us1[k].len() && !single_line(us1[k][0]) implies crn(
                #[trigger] us1[k][m],
            ) == us1[k][m] by {
            assert(us1[k] == us[k]);
        }
        lemma_maintainer_units_crn(us1, new_line);
        let (o, r) = maintainer_units(us1, new_line);
        let mo = map_units(o, h);
        let ml = mu.last();
        assert(ml =~= Seq::new(u.len(), |m: int| crn(u[m])));
        assert(ml[0] == crn(u[0]));
        lemma_line_crn(u[0], seq![], new_line);
        if is_maintainer_line(u[0]) {
            assert(trim_start(u[0]).len() > 0) by {
                assert(trim_start(u[0]).len() >= 13);
            }
            let w = preserve_indent(u[0], new_line);
            assert(preserve_indent(ml[0], new_line) == w);
            assert(single_line(w) && crn_free(w)) by {
                assert(u == us[us.len() - 1]);
            }
            if !r {
                assert(map_units(o.push(seq![w]), h) =~= mo.push(seq![w])) by {
                    assert(map_units(o.push(seq![w]), h).last() =~= seq![w]);
                    assert forall|k: int| 0 <= k < o.len() implies #[trigger] map_units(o.push(seq![w]), h)[k]
                        == mo[k] by {
                        assert(o.push(seq![w])[k] == o[k]);
                        assert(map_units(o.push(seq![w]), h)[k] =~= mo[k]);
                    }
                }
                let no = o.push(seq![w]);
                assert forall|k: int, m: int|
                    0 <= k < no.len() && 0 <= m < no[k].len() && !single_line(no[k][0]) implies crn(
                        #[trigger] no[k][m],
                    ) == no[k][m] by {
                    if k < o.len() {
                        assert(no[k] == o[k]);
                    }
                }
                assert forall|k: int| 0 <= k < no.len() implies (#[trigger] no[k]).len() > 0 by {
                    if k < o.len() {
                        assert(no[k] == o[k]);
                    }
                }
            }
        } else {
            let no = o.push(u);
            assert(map_units(no, h) =~= mo.push(ml)) by {
                assert(map_units(no, h).last() =~= ml);
                assert forall|k: int| 0 <= k < o.len() implies #[trigger] map_units(no, h)[k] == mo[k] by {
                    assert(no[k] == o[k]);
                    assert(map_units(no, h)[k] =~= mo[k]);
                }
            }
            assert forall|k: int, m: int|
                0 <= k < no.len() && 0 <= m < no[k].len() && !single_line(no[k][0]) implies crn(
                    #[trigger] no[k][m],
                ) == no[k][m] by {
                if k < o.len() {
                    assert(no[k] == o[k]);
                } else {
                    assert(no[k] == us[us.len() - 1]);
                }
            }
            assert forall|k: int| 0 <= k < no.len() implies (#[trigger] no[k]).len() > 0 by {
                if k < o.len() {
                    assert(no[k] == o[k]);
                } else {
                    assert(no[k] == us[us.len() - 1]);
                }
            }
        }
    }
}

/// Lines of units related by `map_units` and the units' own facts.
proof fn lemma_mapped_unit_lines(ua: Seq<Seq<Seq<char>>>, ub: Seq<Seq<Seq<char>>>)
    requires
        ub == map_units(ua, crn_fn()),
        cr_ok(ua),
        forall|k: int| 0 <= k < ua.len() ==> shaped(#[trigger] ua[k]),
    ensures
        forall|k: int| 0 <= k < ua.len() ==> (#[trigger] ub[k]).len() == ua[k].len(),
        forall|k: int, m: int|
            0 <= k < ua.len() && 0 <= m < ua[k].len() ==> #[trigger] ub[k][m] == crn(ua[k][m]),
        forall|k: int, m: int|
            0 <= k < ua.len() && 1 <= m < ua[k].len() ==> #[trigger] ub[k][m] == ua[k][m],
{
    assert forall|k: int, m: int| 0 <= k < ua.len() && 1 <= m < ua[k].len() implies #[trigger] ub[k][m]
        == ua[k][m] by {
        assert(shaped(ua[k]));
        assert(!single_line(ua[k][0]));
        assert(crn(ua[k][m]) == ua[k][m]);
    }
}

/// The assignment merge keeps texts related.
#[verifier::spinoff_prover]
#[verifier::rlimit(50)]
proof fn lemma_assign_related(
    a: Seq<char>,
    b: Seq<char>,
    n: int,
    rhs: Seq<char>,
    v: Seq<char>,
    fields: FieldsModel,
)
    requires
        1 <= n < FIELD_COUNT,
        fields.len() == FIELD_COUNT,
        fields[n] is Some,
        writes_back(field_key(n) + seq!['='] + rhs, n, v),
        parse_quick_fields_spec(b) is Some,
        editable(b, fields),
        cr_related(a, b),
    ensures
        cr_related(merge_assignment_line(a, field_key(n), rhs), merge_assignment_line(b, field_key(n), rhs)),
{
    let h = crn_fn();
    let la = lines(a);
    let lb = lines(b);
    let ua = units_from(la, 0);
    let ub = units_from(lb, 0);
    let key = field_key(n);
    let body = key + seq!['='] + rhs;
    let p = quiet_pred(fields);
    lemma_related_units(a, b);
    lemma_editable_facts(b, fields);
    lemma_unit_lines_plain(ub);
    lemma_mapped_unit_lines(ua, ub);
    assert forall|k: int, m: int| 0 <= k < ub.len() && 1 <= m < ub[k].len() implies (|
        c: Seq<char>,
    | !key_line(c, key))(#[trigger] ub[k][m]) && (|c: Seq<char>| !is_bash_function_start(c))(ub[k][m]) by {
        assert(p(ub[k][m]));
        assert(quiet_line(ub[k][m], fields));
    }
    assert forall|k: int, m: int| 0 <= k < ua.len() && 1 <= m < ua[k].len() implies (|
        c: Seq<char>,
    | !key_line(c, key))(#[trigger] ua[k][m]) && (|c: Seq<char>| !is_bash_function_start(c))(ua[k][m]) by {
        assert(ub[k][m] == ua[k][m]);
        assert(p(ub[k][m]));
        assert(quiet_line(ub[k][m], fields));
    }
    assert forall|k: int, m: int| 0 <= k < ua.len() && 1 <= m < ua[k].len() implies (|
        c: Seq<char>,
    | !key_line(c, key))(#[trigger] ua[k][m]) by {}
    assert forall|k: int, m: int| 0 <= k < ub.len() && 1 <= m < ub[k].len() implies (|
        c: Seq<char>,
    | !key_line(c, key))(#[trigger] ub[k][m]) by {}
    lemma_assign_walk_units(la, 0, key, body, seq![], false);
    lemma_assign_walk_units(lb, 0, key, body, seq![], false);
    let ra = renders(ua);
    let rb = renders(ub);
    lemma_logical_crn(la);
    assert(has_key_line(ra, key) == has_key_line(rb, key)) by {
        if has_key_line(ra, key) {
            let j = choose|j: int| 0 <= j < ra.len() && key_line(#[trigger] ra[j], key);
            lemma_line_crn(ra[j], key, body);
            assert(key_line(rb[j], key));
        }
        if has_key_line(rb, key) {
            let j = choose|j: int| 0 <= j < rb.len() && key_line(#[trigger] rb[j], key);
            lemma_line_crn(ra[j], key, body);
            assert(key_line(ra[j], key));
        }
    }
    assert(Seq::<char>::empty() + concat_lines(assign_out(ra, key, body, false)) =~= concat_lines(
        assign_out(ra, key, body, false),
    ));
    assert(Seq::<char>::empty() + concat_lines(assign_out(rb, key, body, false)) =~= concat_lines(
        assign_out(rb, key, body, false),
    ));
    assert(indentation(Seq::<char>::empty()));
    assert(Seq::<char>::empty() + body =~= body);
    assert(good_line(body));
    lemma_plain_crn(body);
    if has_key_line(rb, key) {
        assert forall|k: int|
            0 <= k < ua.len() && key_line(ua[k][0], key) implies single_line(
                #[trigger] preserve_indent(ua[k][0], body),
            ) && crn_free(preserve_indent(ua[k][0], body)) by {
            assert(parse_simple_assignment(trim_start(ua[k][0])) is Some);
            if trim_start(ua[k][0]).len() == 0 {
                crate::text::lemma_index_of_none(Seq::<char>::empty(), '=');
            }
            lemma_line_crn(ua[k][0], key, body);
            assert(ub[k][0] == crn(ua[k][0]));
            assert(plain_line(ub[k][0]));
            lemma_kept_indentation(ub[k][0]);
            let q = ub[k][0].take(crate::text::skip_while(ub[k][0], 0, crate::text::ws_pred()));
            assert(good_line(q + body));
            lemma_plain_crn(q + body);
        }
        let aa = assign_units(ua, key, body, false);
        let ab = assign_units(ub, key, body, false);
        lemma_assign_units_crn(ua, key, body, false);
        lemma_assign_units(ua, key, body, false);
        lemma_assign_units(ub, key, body, false);
        lemma_assign_units_ok(ub, key, body, false, p);
        lemma_written_related(aa, p);
        assert forall|k: int| 0 <= k < aa.len() implies shaped(#[trigger] aa[k]) by {
            assert(wf_unit(aa[k]));
        }
        assert forall|k: int| 0 <= k < ab.len() implies shaped(#[trigger] ab[k]) by {
            assert(wf_unit(ab[k]));
        }
        lemma_concat_renders(aa);
        lemma_concat_renders(ab);
    } else {
        lemma_insert_before_first_function(a, body);
        lemma_insert_before_first_function(b, body);
        lemma_first_function_units(ua);
        lemma_first_function_units(ub);
        assert forall|k: int| 0 <= k < ua.len() implies (#[trigger] ua[k]).len() > 0 by {
            assert(shaped(ua[k]));
        }
        lemma_first_function_unit_crn(ua);
        let k = first_function_unit(ua);
        lemma_insert_units(ua, k, body);
        lemma_insert_units(ub, k, body);
        lemma_insert_unit_crn(ua, k, body);
        lemma_insert_units_ok(ub, k, body, p);
        lemma_written_related(insert_unit(ua, k, seq![body]), p);
    }
}


/// A text starts with `#!` exactly when its first line does.
proof fn lemma_shebang_first_line(text: Seq<char>)
    ensures
        starts_with(text, "#!"@) == (lines(text).len() > 0 && starts_with(lines(text)[0], "#!"@)),
{
    reveal_strlit("#!");
    let p = "#!"@;
    if text.len() > 0 {
        crate::text::lemma_index_of(text, '\n');
        match crate::text::index_of(text, '\n') {
            None => {
                assert(lines(text) =~= seq![text]);
            },
            Some(i) => {
                let t = text.take(i);
                let l0 = crate::text::strip_cr(t);
                assert(lines(text)[0] == l0);
                if starts_with(text, p) {
                    assert(text.take(2)[0] == text[0] && text.take(2)[1] == text[1]);
                    assert(i >= 2);
                    assert(t[0] == '#' && t[1] == '!');
                    if i > 2 {
                        assert(l0.len() >= 2);
                        assert(l0[0] == t[0] && l0[1] == t[1]);
                    } else {
                        assert(t.last() == '!');
                        assert(l0 == t);
                    }
                    assert(l0.take(2) =~= p);
                }
                if lines(text).len() > 0 && starts_with(lines(text)[0], p) {
                    assert(l0.take(2)[0] == l0[0] && l0.take(2)[1] == l0[1]);
                    assert(l0[0] == t[0] && l0[1] == t[1]);
                    assert(text.take(2) =~= p);
                }
            },
        }
    } else {
        assert(lines(text) =~= Seq::<Seq<char>>::empty());
    }
}

/// A prefix without carriage returns is found in a line exactly when it is
/// found without the line's trailing carriage returns.
proof fn lemma_starts_with_crn(l: Seq<char>, p: Seq<char>)
    requires
        p.len() > 0,
        forall|i: int| 0 <= i < p.len() ==> p[i] != '\r',
    ensures
        starts_with(crn(l), p) == starts_with(l, p),
    decreases l.len(),
{
    if l.len() > 0 && l.last() == '\r' {
        let d = l.drop_last();
        assert(d.push('\r') =~= l);
        lemma_starts_with_cr(d, p);
        lemma_starts_with_crn(d, p);
    }
}

/// The maintainer merge keeps texts related.
#[verifier::spinoff_prover]
#[verifier::rlimit(50)]
proof fn lemma_maintainer_related(a: Seq<char>, b: Seq<char>, body: Seq<char>, fields: FieldsModel)
    requires
        plain_line(body),
        fields.len() == FIELD_COUNT,
        fields[0] is Some,
        parse_quick_fields_spec(b) is Some,
        editable(b, fields),
        cr_related(a, b),
    ensures
        cr_related(merge_maintainer_line(a, body), merge_maintainer_line(b, body)),
{
    reveal_strlit("#!");
    reveal_strlit("# Maintainer:");
    let h = crn_fn();
    let la = lines(a);
    let lb = lines(b);
    let ua = units_from(la, 0);
    let ub = units_from(lb, 0);
    let p = quiet_pred(fields);
    let new_line = "# Maintainer: "@ + body;
    lemma_related_units(a, b);
    lemma_editable_facts(b, fields);
    lemma_unit_lines_plain(ub);
    lemma_mapped_unit_lines(ua, ub);
    assert forall|k: int, m: int| 0 <= k < ub.len() && 1 <= m < ub[k].len() implies (|
        c: Seq<char>,
    | !is_maintainer_line(c))(#[trigger] ub[k][m]) by {
        assert(p(ub[k][m]));
    }
    assert forall|k: int, m: int| 0 <= k < ua.len() && 1 <= m < ua[k].len() implies (|
        c: Seq<char>,
    | !is_maintainer_line(c))(#[trigger] ua[k][m]) by {
        assert(ub[k][m] == ua[k][m]);
        assert(p(ub[k][m]));
    }
    lemma_maintainer_fold_lines(la, new_line);
    lemma_maintainer_fold_lines(lb, new_line);
    lemma_maintainer_units(ua, new_line);
    lemma_maintainer_units(ub, new_line);
    assert forall|q: Seq<char>| indentation(q) implies good_line(#[trigger] (q + new_line)) by {
        lemma_maintainer_line(q, body);
    }
    lemma_maintainer_line(seq![], body);
    assert(Seq::<char>::empty() + new_line =~= new_line);
    lemma_plain_crn(new_line);
    assert forall|k: int|
        0 <= k < ua.len() && is_maintainer_line(ua[k][0]) implies single_line(
            #[trigger] preserve_indent(ua[k][0], new_line),
        ) && crn_free(preserve_indent(ua[k][0], new_line)) by {
        assert(trim_start(ua[k][0]).len() >= 13);
        lemma_line_crn(ua[k][0], seq![], new_line);
        assert(ub[k][0] == crn(ua[k][0]));
        assert(plain_line(ub[k][0]));
        lemma_kept_indentation(ub[k][0]);
        let q = ub[k][0].take(crate::text::skip_while(ub[k][0], 0, crate::text::ws_pred()));
        assert(good_line(q + new_line));
        lemma_plain_crn(q + new_line);
    }
    assert forall|k: int| 0 <= k < ua.len() implies (#[trigger] ua[k]).len() > 0 by {
        assert(shaped(ua[k]));
    }
    lemma_maintainer_units_crn(ua, new_line);
    let (mo, r) = maintainer_units(ua, new_line);
    if r {
        lemma_maintainer_units_ok(ub, new_line, p);
        lemma_written_related(mo, p);
    } else {
        lemma_shebang_first_line(a);
        lemma_shebang_first_line(b);
        assert(lb.len() == la.len());
        if la.len() > 0 {
            assert(lb[0] == crn(la[0]));
            lemma_starts_with_crn(la[0], "#!"@);
        }
        lemma_insert_units_ok(ub, 0, new_line, p);
        if starts_with(a, "#!"@) && la.len() > 0 {
            assert(ua[0] == la.subrange(0, unit_end(la, 0)));
            assert(trim_start(la[0])[0] == '#') by {
                assert(la[0][0] == '#') by {
                    lemma_lines_first(a);
                }
                crate::text::lemma_trim_start_len_unique(la[0], 0);
                assert(la[0].skip(0) =~= la[0]);
            }
            assert(single_line(la[0]));
            assert(ua[0] =~= seq![la[0]]);
            assert(flatten(ua.take(1)) == ua[0]) by {
                lemma_flatten_one(ua[0]);
                assert(ua.take(1) =~= seq![ua[0]]);
            }
            assert(flatten(ub.take(1)) == ub[0]) by {
                lemma_flatten_one(ub[0]);
                assert(ub.take(1) =~= seq![ub[0]]);
            }
            assert(ub[0].len() == 1);
            let ia = insert_unit(ua, 1, seq![new_line]);
            lemma_insert_units(ua, 1, new_line);
            lemma_insert_units(ub, 1, new_line);
            lemma_insert_unit_crn(ua, 1, new_line);
            lemma_insert_units_ok(ub, 1, new_line, p);
            lemma_written_related(ia, p);
            let ioa = insert_at(la, 1, new_line);
            assert(ioa =~= seq![la[0]] + (seq![new_line] + la.skip(1)));
            lemma_concat_cons(new_line, la.skip(1));
            lemma_concat_cons(la[0], seq![new_line] + la.skip(1));
            assert(merge_maintainer_line(a, body) =~= concat_lines(ioa));
            let iob = insert_at(lb, 1, new_line);
            assert(iob =~= seq![lb[0]] + (seq![new_line] + lb.skip(1)));
            lemma_concat_cons(new_line, lb.skip(1));
            lemma_concat_cons(lb[0], seq![new_line] + lb.skip(1));
            assert(merge_maintainer_line(b, body) =~= concat_lines(iob));
        } else {
            let ia = insert_unit(ua, 0, seq![new_line]);
            assert(flatten(ua.take(0)) =~= Seq::<Seq<char>>::empty()) by {
                assert(ua.take(0) =~= Seq::<Seq<Seq<char>>>::empty());
            }
            lemma_insert_units(ua, 0, new_line);
            lemma_insert_unit_crn(ua, 0, new_line);
            lemma_written_related(ia, p);
            lemma_resegment(ia);
            assert(insert_at(la, 0, new_line) =~= seq![new_line] + la);
            lemma_lines_cons(new_line, a);
            lemma_lines_cons(new_line, b);
            let la2 = seq![new_line] + la;
            assert(lines(merge_maintainer_line(a, body)) == la2);
            assert(lines(merge_maintainer_line(b, body)) == seq![new_line] + lb);
            assert(seq![new_line] + lb =~= map_lines(la2, h));
        }
    }
}


/// Merging fields `0..m` keeps texts related.
proof fn lemma_merge_upto_related(a: Seq<char>, b: Seq<char>, fields: FieldsModel, m: int)
    requires
        fields.len() == FIELD_COUNT,
        0 <= m <= FIELD_COUNT,
        forall|n: int|
            0 <= n < FIELD_COUNT ==> (#[trigger] fields[n] matches Some(v) ==> writable_value(n, v)),
        parse_quick_fields_spec(b) is Some,
        editable(b, fields),
        cr_related(a, b),
    ensures
        merge_fields_upto(a, fields, m) matches Some(ta) && merge_fields_upto(b, fields, m) matches Some(tb)
            && cr_related(ta, tb),
    decreases m,
{
    if m > 0 {
        lemma_merge_upto_related(a, b, fields, m - 1);
        lemma_merge_upto_round_trip(b, fields, m - 1);
        let ta = merge_fields_upto(a, fields, m - 1).unwrap();
        let tb = merge_fields_upto(b, fields, m - 1).unwrap();
        let n = m - 1;
        if let Some(v) = fields[n] {
            assert(writable_value(n, v));
            if n == 0 {
                lemma_simple_comment(v);
                lemma_maintainer_related(ta, tb, v, fields);
            } else if is_array_field(n) {
                let ts = split_ws(v);
                lemma_array_from_plain(ts);
                let body = field_key(n) + seq!['='] + array_rhs(ts);
                assert forall|q: Seq<char>| indentation(q) implies good_line(#[trigger] (q + body))
                    && line_write(q + body) == Some(Some((n, v))) by {
                    lemma_array_line(q, n, ts);
                }
                lemma_assign_related(ta, tb, n, array_rhs(ts), v, fields);
            } else {
                assert(is_scalar_field(n));
                assert forall|q: Seq<char>| indentation(q) implies good_line(
                    #[trigger] (q + scalar_body(n, v)),
                ) && line_write(q + scalar_body(n, v)) == Some(Some((n, v))) by {
                    lemma_scalar_line(q, n, v);
                }
                lemma_assign_related(ta, tb, n, bash_quote_scalar(v), v, fields);
            }
        }
    }
}

/// The text with the trailing carriage returns of each line removed, each
/// line followed by a newline.
pub open spec fn without_trailing_crs(text: Seq<char>) -> Seq<char> {
    concat_lines(map_lines(lines(text), crn_fn()))
}

/// A text and its lines without trailing carriage returns are related.
proof fn lemma_without_trailing_crs(text: Seq<char>)
    requires
        cr_ok(units_from(lines(text), 0)),
    ensures
        cr_related(text, without_trailing_crs(text)),
{
    let h = crn_fn();
    let ls = lines(text);
    crate::text::lemma_lines_no_newline(text);
    assert forall|j: int| 0 <= j < ls.len() implies plain_line(#[trigger] map_lines(ls, h)[j]) by {
        lemma_no_newline_crn(ls[j]);
        lemma_crn_idem(ls[j]);
    }
    lemma_lines_of_concat(map_lines(ls, h));
}

/// Writing quick fields into a PKGBUILD and reading it back gives every field
/// that was written, and every other field as it was read before. Stated for
/// values each field reads back as written, and a PKGBUILD that reads, whose
/// lines, without the carriage returns they end in, are editable (arrays
/// continued across lines are closed, and no continuation line of such an
/// array starts a function, or is a maintainer comment or assigns a field
/// being written), and where carriage returns end only lines that are not
/// part of an array continued across lines.
pub proof fn law_quick_fields_round_trip(text: Seq<char>, fields: FieldsModel)
    requires
        fields.len() == FIELD_COUNT,
        forall|n: int|
            0 <= n < FIELD_COUNT ==> (#[trigger] fields[n] matches Some(v) ==> writable_value(n, v)),
        parse_quick_fields_spec(text) is Some,
        cr_ok(units_from(lines(text), 0)),
        editable(without_trailing_crs(text), fields),
    ensures
        merge_quick_fields_spec(text, fields) matches Some(out) && parse_quick_fields_spec(out) matches Some(
            after,
        ) && forall|n: int|
            0 <= n < FIELD_COUNT ==> #[trigger] after[n] == (if fields[n] is Some {
                fields[n]
            } else {
                parse_quick_fields_spec(text).unwrap()[n]
            }),
{
    let b = without_trailing_crs(text);
    lemma_without_trailing_crs(text);
    lemma_related_units(text, b);
    lemma_merge_upto_round_trip(b, fields, FIELD_COUNT as int);
    lemma_merge_upto_related(text, b, fields, FIELD_COUNT as int);
    let ta = merge_fields_upto(text, fields, FIELD_COUNT as int).unwrap();
    let tb = merge_fields_upto(b, fields, FIELD_COUNT as int).unwrap();
    lemma_related_units(ta, tb);
}

} // verus!
