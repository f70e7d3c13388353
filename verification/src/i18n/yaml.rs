//! The translation files' structure: YAML documents flattened into dotted
//! keys, the `fallbacks` and `default_locale` entries of `i18n.yml`, and the
//! check that a `Cargo.toml` belongs to this project (used to find the
//! development `config/` tree).
//!
//! The application parses the YAML text and hands over the document tree.
use vstd::prelude::*;

use crate::i18n::pairs_view;
use crate::text::{
    append_chars, before_char, before_char_exec, chars_of, ends_with, ends_with_exec, eq_chars,
    lemma_deep_chars, lines, lines_exec, slice_vec, starts_with, starts_with_exec, string_of, trim,
    trim_start, trim_start_vec, trim_vec,
};

verus! {

/// A node of a parsed YAML document, as far as translation files need it.
#[derive(Debug)]
pub enum YamlNode {
    /// A mapping in document order; each key as text when it is a string.
    Mapping(Vec<(Option<String>, YamlNode)>),
    /// A string scalar.
    Str(String),
    /// A boolean scalar.
    Bool(bool),
    /// A number, in the text the YAML library writes for it.
    Number(String),
    /// Null, a sequence or a tagged value.
    Other,
}

/// Key of a child entry: the segment alone at the top, else `prefix.segment`.
pub open spec fn child_key(prefix: Seq<char>, seg: Seq<char>) -> Seq<char> {
    if prefix.len() == 0 {
        seg
    } else {
        prefix + seq!['.'] + seg
    }
}

/// Dotted-key entries of a node, in document order: one per string, boolean
/// or number leaf under string keys; sequences and other nodes add nothing.
pub open spec fn flatten(prefix: Seq<char>, n: YamlNode) -> Seq<(Seq<char>, Seq<char>)>
    decreases n,
{
    match n {
        YamlNode::Mapping(es) => {
            proof {
                assert(decreases_to!(n => es));
            }
            flatten_entries(prefix, es@)
        },
        YamlNode::Str(s) => seq![(prefix, s@)],
        YamlNode::Bool(b) => seq![(prefix, if b { "true"@ } else { "false"@ })],
        YamlNode::Number(t) => seq![(prefix, t@)],
        YamlNode::Other => Seq::empty(),
    }
}

/// Dotted-key entries of a mapping's entries, in order.
pub open spec fn flatten_entries(prefix: Seq<char>, es: Seq<(Option<String>, YamlNode)>) -> Seq<
    (Seq<char>, Seq<char>),
>
    decreases es,
{
    if es.len() == 0 {
        Seq::empty()
    } else {
        proof {
            assert(decreases_to!(es => es.drop_last()));
            assert(decreases_to!(es => es[es.len() - 1]));
        }
        flatten_entries(prefix, es.drop_last()) + match es[es.len() - 1].0 {
            Some(k) => flatten(child_key(prefix, k@), es[es.len() - 1].1),
            None => Seq::empty(),
        }
    }
}

fn push_pair(out: &mut Vec<(String, String)>, k: &[char], v: &[char])
    ensures
        pairs_view(final(out)@) == pairs_view(old(out)@).push((k@, v@)),
{
    let ghost o = pairs_view(out@);
    out.push((string_of(k), string_of(v)));
    assert(pairs_view(out@) =~= o.push((k@, v@)));
}

/// Appends the dotted-key entries of `value` under `prefix` to `out` (see
/// [`flatten`]).
pub fn flatten_yaml(prefix: &str, value: &YamlNode, out: &mut Vec<(String, String)>)
    ensures
        pairs_view(final(out)@) == pairs_view(old(out)@) + flatten(prefix@, *value),
    decreases value,
{
    let ghost o0 = pairs_view(out@);
    let p = chars_of(prefix);
    match value {
        YamlNode::Mapping(es) => {
            let mut k: usize = 0;
            assert(es@.take(0) =~= Seq::<(Option<String>, YamlNode)>::empty());
            assert(pairs_view(out@) =~= o0 + flatten_entries(prefix@, es@.take(0)));
            while k < es.len()
                invariant
                    k <= es.len(),
                    p@ == prefix@,
                    *value == YamlNode::Mapping(*es),
                    pairs_view(out@) == o0 + flatten_entries(prefix@, es@.take(k as int)),
                decreases es.len() - k,
            {
                let ghost before = pairs_view(out@);
                assert(es@.take(k as int + 1).drop_last() =~= es@.take(k as int));
                assert(es@.take(k as int + 1)[k as int] == es@[k as int]);
                match &es[k].0 {
                    Some(seg) => {
                        let mut next: Vec<char> = Vec::new();
                        if p.len() > 0 {
                            append_chars(&mut next, &p);
                            next.push('.');
                        }
                        append_chars(&mut next, &chars_of(seg.as_str()));
                        assert(next@ =~= child_key(prefix@, seg@));
                        let ns = string_of(&next);
                        proof {
                            assert(decreases_to!(*value => (*value)->Mapping_0));
                            assert((*value)->Mapping_0 == *es);
                            assert(decreases_to!(*es => es@));
                            assert(decreases_to!(es@ => es@[k as int]));
                            assert(decreases_to!(es@[k as int] => es@[k as int].1));
                        }
                        flatten_yaml(ns.as_str(), &es[k].1, out);
                    },
                    None => {},
                }
                assert(pairs_view(out@) =~= o0 + flatten_entries(prefix@, es@.take(k as int + 1)));
                k += 1;
            }
            assert(es@.take(es.len() as int) =~= es@);
        },
        YamlNode::Str(v) => {
            push_pair(out, &p, &chars_of(v.as_str()));
        },
        YamlNode::Bool(b) => {
            if *b {
                push_pair(out, &p, &chars_of("true"));
            } else {
                push_pair(out, &p, &chars_of("false"));
            }
        },
        YamlNode::Number(t) => {
            push_pair(out, &p, &chars_of(t.as_str()));
        },
        YamlNode::Other => {
            assert(pairs_view(out@) =~= o0 + flatten(prefix@, *value));
        },
    }
}

/// The translation bundle of a locale file: its dotted-key entries, or none
/// when the file did not parse.
pub open spec fn bundle_of(doc: Option<&YamlNode>) -> Seq<(Seq<char>, Seq<char>)> {
    match doc {
        Some(root) => flatten(Seq::empty(), *root),
        None => Seq::empty(),
    }
}

/// The translation bundle of a parsed locale file (see [`bundle_of`]).
pub fn parse_bundle(doc: Option<&YamlNode>) -> (r: Vec<(String, String)>)
    ensures
        pairs_view(r@) == bundle_of(doc),
{
    let mut out: Vec<(String, String)> = Vec::new();
    match doc {
        Some(root) => {
            proof {
                reveal_strlit("");
            }
            assert(""@ =~= Seq::<char>::empty());
            flatten_yaml("", root, &mut out);
            assert(pairs_view(out@) =~= bundle_of(doc));
        },
        None => {
            assert(pairs_view(out@) =~= bundle_of(doc));
        },
    }
    out
}

/// The first entry with string key `key`.
pub open spec fn entries_get(es: Seq<(Option<String>, YamlNode)>, key: Seq<char>) -> Option<YamlNode>
    decreases es.len(),
{
    if es.len() == 0 {
        None
    } else {
        match entries_get(es.drop_last(), key) {
            Some(v) => Some(v),
            None => if es.last().0 matches Some(k) && k@ == key {
                Some(es.last().1)
            } else {
                None
            },
        }
    }
}

/// The value under a top-level string key of a mapping document.
pub open spec fn doc_get(doc: Option<&YamlNode>, key: Seq<char>) -> Option<YamlNode> {
    match doc {
        Some(YamlNode::Mapping(es)) => entries_get(es@, key),
        _ => None,
    }
}

/// Index of the first entry with string key `key`.
fn find_key(es: &Vec<(Option<String>, YamlNode)>, key: &str) -> (r: Option<usize>)
    ensures
        match r {
            Some(i) => i < es.len() && entries_get(es@, key@) == Some(es@[i as int].1),
            None => entries_get(es@, key@) is None,
        },
{
    let kc = chars_of(key);
    let mut i: usize = 0;
    assert(es@.take(0) =~= Seq::<(Option<String>, YamlNode)>::empty());
    while i < es.len()
        invariant
            i <= es.len(),
            kc@ == key@,
            entries_get(es@.take(i as int), key@) is None,
        decreases es.len() - i,
    {
        assert(es@.take(i as int + 1).drop_last() =~= es@.take(i as int));
        assert(es@.take(i as int + 1).last() == es@[i as int]);
        let hit = match &es[i].0 {
            Some(k) => eq_chars(&chars_of(k.as_str()), &kc),
            None => false,
        };
        if hit {
            proof {
                lemma_entries_get_prefix(es@, key@, i as int + 1);
            }
            return Some(i);
        }
        i += 1;
    }
    assert(es@.take(i as int) =~= es@);
    None
}

/// A hit in a prefix is the hit of the whole sequence.
proof fn lemma_entries_get_prefix(es: Seq<(Option<String>, YamlNode)>, key: Seq<char>, n: int)
    requires
        0 <= n <= es.len(),
        entries_get(es.take(n), key) is Some,
    ensures
        entries_get(es, key) == entries_get(es.take(n), key),
    decreases es.len() - n,
{
    if n < es.len() {
        assert(es.take(n + 1).drop_last() =~= es.take(n));
        lemma_entries_get_prefix(es, key, n + 1);
    } else {
        assert(es.take(n) =~= es);
    }
}

/// String-to-string entries of a mapping, in order.
pub open spec fn string_pairs(es: Seq<(Option<String>, YamlNode)>) -> Seq<(Seq<char>, Seq<char>)>
    decreases es.len(),
{
    if es.len() == 0 {
        Seq::empty()
    } else {
        let rest = string_pairs(es.drop_last());
        match es.last() {
            (Some(k), YamlNode::Str(v)) => rest.push((k@, v@)),
            _ => rest,
        }
    }
}

/// The `fallbacks` of `i18n.yml`: its string-to-string entries, in order;
/// none when the file is missing, did not parse, or has no such mapping.
pub open spec fn fallbacks_of(doc: Option<&YamlNode>) -> Seq<(Seq<char>, Seq<char>)> {
    match doc_get(doc, "fallbacks"@) {
        Some(YamlNode::Mapping(es)) => string_pairs(es@),
        _ => Seq::empty(),
    }
}

/// The `fallbacks` entries of a parsed `i18n.yml` (see [`fallbacks_of`]).
pub fn read_fallbacks(doc: Option<&YamlNode>) -> (r: Vec<(String, String)>)
    ensures
        pairs_view(r@) == fallbacks_of(doc),
{
    let mut out: Vec<(String, String)> = Vec::new();
    assert(pairs_view(out@) =~= Seq::<(Seq<char>, Seq<char>)>::empty());
    if let Some(YamlNode::Mapping(top)) = doc {
        if let Some(i) = find_key(top, "fallbacks") {
            if let YamlNode::Mapping(es) = &top[i].1 {
                let mut k: usize = 0;
                assert(es@.take(0) =~= Seq::<(Option<String>, YamlNode)>::empty());
                while k < es.len()
                    invariant
                        k <= es.len(),
                        pairs_view(out@) == string_pairs(es@.take(k as int)),
                    decreases es.len() - k,
                {
                    assert(es@.take(k as int + 1).drop_last() =~= es@.take(k as int));
                    assert(es@.take(k as int + 1).last() == es@[k as int]);
                    match (&es[k].0, &es[k].1) {
                        (Some(key), YamlNode::Str(v)) => {
                            push_pair(&mut out, &chars_of(key.as_str()), &chars_of(v.as_str()));
                        },
                        _ => {},
                    }
                    k += 1;
                }
                assert(es@.take(k as int) =~= es@);
            }
        }
    }
    out
}

/// The `default_locale` string of `i18n.yml`, if any.
pub open spec fn default_locale_of(doc: Option<&YamlNode>) -> Option<Seq<char>> {
    match doc_get(doc, "default_locale"@) {
        Some(YamlNode::Str(s)) => Some(s@),
        _ => None,
    }
}

/// The `default_locale` of a parsed `i18n.yml` (see [`default_locale_of`]).
pub fn read_default_locale(doc: Option<&YamlNode>) -> (r: Option<String>)
    ensures
        match r {
            Some(s) => default_locale_of(doc) == Some(s@),
            None => default_locale_of(doc) is None,
        },
{
    if let Some(YamlNode::Mapping(top)) = doc {
        if let Some(i) = find_key(top, "default_locale") {
            if let YamlNode::Str(s) = &top[i].1 {
                return Some(string_of(&chars_of(s.as_str())));
            }
        }
    }
    None
}

/// Text between matching double or single quotes (at least the two quotes).
pub open spec fn quoted_value(r: Seq<char>) -> Option<Seq<char>> {
    if r.len() >= 2 && r[0] == '"' && r[r.len() - 1] == '"' {
        Some(r.subrange(1, r.len() - 1))
    } else if r.len() >= 2 && r[0] == '\'' && r[r.len() - 1] == '\'' {
        Some(r.subrange(1, r.len() - 1))
    } else {
        None
    }
}

/// The quoted value of a `name = "…"` line (`None` for any other line).
pub open spec fn name_value(l: Seq<char>) -> Option<Seq<char>> {
    if starts_with(l, "name"@) {
        let r2 = trim_start(l.skip(4));
        let r3 = if starts_with(r2, "="@) {
            trim(r2.skip(1))
        } else {
            Seq::empty()
        };
        quoted_value(r3)
    } else {
        None
    }
}

/// A manifest line without its comment, trimmed.
pub open spec fn manifest_line(line: Seq<char>) -> Seq<char> {
    trim(before_char(line, '#'))
}

/// Scans manifest lines from `i`: `[package]` opens the package table,
/// another table header inside it ends the scan, and a
/// `name = "aur-pkgbuilder"` inside it answers yes.
pub open spec fn manifest_scan(ls: Seq<Seq<char>>, i: int, in_package: bool) -> bool
    decreases ls.len() - i,
{
    if i < 0 || i >= ls.len() {
        false
    } else {
        let l = manifest_line(ls[i]);
        if l == "[package]"@ {
            manifest_scan(ls, i + 1, true)
        } else if in_package && starts_with(l, "["@) && ends_with(l, "]"@) {
            false
        } else if !in_package {
            manifest_scan(ls, i + 1, false)
        } else if name_value(l) == Some("aur-pkgbuilder"@) {
            true
        } else {
            manifest_scan(ls, i + 1, true)
        }
    }
}

/// Whether a `Cargo.toml` text is this project's manifest: its `[package]`
/// table declares `name = "aur-pkgbuilder"` (tables after it are ignored).
pub fn crate_name_is_aur_pkgbuilder(contents: &str) -> (r: bool)
    ensures
        r == manifest_scan(lines(contents@), 0, false),
{
    let ls = lines_exec(&chars_of(contents));
    let ghost lv = ls.deep_view();
    let mut in_package = false;
    let mut i: usize = 0;
    while i < ls.len()
        invariant
            i <= ls.len(),
            lv == ls.deep_view(),
            lv == lines(contents@),
            manifest_scan(lv, i as int, in_package) == manifest_scan(lv, 0, false),
        decreases ls.len() - i,
    {
        proof {
            lemma_deep_chars(&ls[i as int]);
        }
        assert(lv[i as int] == ls@[i as int]@);
        let l = trim_vec(&before_char_exec(&ls[i], '#'));
        if eq_chars(&l, &chars_of("[package]")) {
            in_package = true;
        } else if in_package && starts_with_exec(&l, &chars_of("[")) && ends_with_exec(&l, &chars_of("]")) {
            return false;
        } else if in_package {
            proof {
                reveal_strlit("name");
                reveal_strlit("=");
            }
            if starts_with_exec(&l, &chars_of("name")) {
                let r2 = trim_start_vec(&slice_vec(&l, 4, l.len()));
                assert(l@.subrange(4, l@.len() as int) == l@.skip(4));
                let r3: Vec<char> = if starts_with_exec(&r2, &chars_of("=")) {
                    let t = trim_vec(&slice_vec(&r2, 1, r2.len()));
                    assert(r2@.subrange(1, r2@.len() as int) == r2@.skip(1));
                    t
                } else {
                    Vec::new()
                };
                let n = r3.len();
                if n >= 2 && ((r3[0] == '"' && r3[n - 1] == '"') || (r3[0] == '\'' && r3[n - 1] == '\'')) {
                    let inner = slice_vec(&r3, 1, n - 1);
                    if eq_chars(&inner, &chars_of("aur-pkgbuilder")) {
                        return true;
                    }
                }
            }
        }
        i += 1;
    }
    false
}

} // verus!
