//! Connection page: the tool rows' subtitles and the toasts after saving or
//! clearing the AUR username.
use vstd::prelude::*;

use crate::i18n::{fill_placeholders, str_pairs_view, I18nHolder};
use crate::text::{append_chars, chars_of, decimal, decimal_exec, eq_chars, join, string_of};
use crate::ui::home::{join_first_ids, tr};
use crate::workflow::preflight::ToolCheck;
use crate::workflow::ssh_setup::strings_view;

verus! {

/// Unmatched registry ids for a toast: all of them when there are at most
/// eight, else the first eight and the count of the rest in the
/// `connection.unmatched_more` template.
pub open spec fn unmatched_list_text(h: I18nHolder, ids: Seq<Seq<char>>) -> Seq<char> {
    if ids.len() <= 8 {
        join(ids, ", "@)
    } else {
        fill_placeholders(
            tr(h, "connection.unmatched_more"@),
            seq![("head"@, join(ids.take(8), ", "@)), ("more"@, decimal((ids.len() - 8) as nat))],
        )
    }
}

/// Unmatched registry ids for a toast (see [`unmatched_list_text`]).
pub fn format_unmatched_list(h: &I18nHolder, ids: &Vec<String>) -> (r: String)
    ensures
        r@ == unmatched_list_text(*h, strings_view(ids@)),
{
    if ids.len() <= 8 {
        let v = join_first_ids(ids, ids.len());
        assert(strings_view(ids@).take(ids.len() as int) =~= strings_view(ids@));
        return string_of(&v);
    }
    let head = string_of(&join_first_ids(ids, 8));
    let more = string_of(&decimal_exec((ids.len() - 8) as u64));
    let pairs = [("head", head.as_str()), ("more", more.as_str())];
    let r = h.translate_fmt("connection.unmatched_more", &pairs);
    assert(str_pairs_view(pairs@) =~= seq![("head"@, head@), ("more"@, more@)]);
    r
}

/// The tool row is satisfied: found on `PATH`, or satisfied otherwise.
pub open spec fn tool_ok(c: ToolCheck) -> bool {
    c.path is Some || c.satisfied_without_binary
}

/// Whether the tool row is satisfied (see [`tool_ok`]).
pub fn tool_row_ok(check: &ToolCheck) -> (r: bool)
    ensures
        r == tool_ok(*check),
{
    check.path.is_some() || check.satisfied_without_binary
}

/// Translation of `key`, or `fallback` when the bundles lack it.
pub open spec fn tr_or(h: I18nHolder, key: Seq<char>, fallback: Seq<char>) -> Seq<char> {
    if tr(h, key) == key {
        fallback
    } else {
        tr(h, key)
    }
}

/// Subtitle of a tool row: for a missing tool its detail (if any) and the
/// install hint; for a tool on `PATH` its purpose, with the binary that
/// satisfied it when several are accepted; otherwise the detail, else the
/// purpose. Purpose and hint come from the bundles when they have them.
pub open spec fn tool_subtitle_text(h: I18nHolder, c: ToolCheck) -> Seq<char> {
    let purpose = tr_or(h, "preflight.rows."@ + c.name@ + ".purpose"@, c.purpose@);
    let hint = tr_or(h, "preflight.rows."@ + c.name@ + ".install_hint"@, c.install_hint@);
    if !tool_ok(c) {
        match c.detail {
            Some(d) => fill_placeholders(
                tr(h, "connection.tool_row.detail_hint"@),
                seq![("detail"@, d@), ("hint"@, hint)],
            ),
            None => fill_placeholders(tr(h, "connection.tool_row.missing"@), seq![("hint"@, hint)]),
        }
    } else if c.path is Some {
        match c.resolved_via {
            Some(via) => fill_placeholders(
                tr(h, "connection.tool_row.purpose_path"@),
                seq![("purpose"@, purpose), ("via"@, via@)],
            ),
            None => purpose,
        }
    } else {
        match c.detail {
            Some(d) => d@,
            None => purpose,
        }
    }
}

fn tr_or_exec(h: &I18nHolder, key: &[char], fallback: &str) -> (r: String)
    ensures
        r@ == tr_or(*h, key@, fallback@),
{
    let ks = string_of(key);
    let t = h.translate(ks.as_str());
    if eq_chars(&chars_of(t.as_str()), key) {
        string_of(&chars_of(fallback))
    } else {
        t
    }
}

/// Subtitle of a tool row (see [`tool_subtitle_text`]).
pub fn tool_row_subtitle(h: &I18nHolder, check: &ToolCheck) -> (r: String)
    ensures
        r@ == tool_subtitle_text(*h, *check),
{
    let mut pk = chars_of("preflight.rows.");
    append_chars(&mut pk, &chars_of(check.name));
    append_chars(&mut pk, &chars_of(".purpose"));
    let mut hk = chars_of("preflight.rows.");
    append_chars(&mut hk, &chars_of(check.name));
    append_chars(&mut hk, &chars_of(".install_hint"));
    let purpose = tr_or_exec(h, &pk, check.purpose);
    let hint = tr_or_exec(h, &hk, check.install_hint);
    if !tool_row_ok(check) {
        return match &check.detail {
            Some(d) => {
                let pairs = [("detail", d.as_str()), ("hint", hint.as_str())];
                let r = h.translate_fmt("connection.tool_row.detail_hint", &pairs);
                assert(str_pairs_view(pairs@) =~= seq![("detail"@, d@), ("hint"@, hint@)]);
                r
            },
            None => {
                let pairs = [("hint", hint.as_str())];
                let r = h.translate_fmt("connection.tool_row.missing", &pairs);
                assert(str_pairs_view(pairs@) =~= seq![("hint"@, hint@)]);
                r
            },
        };
    }
    if check.path.is_some() {
        return match check.resolved_via {
            Some(via) => {
                let pairs = [("purpose", purpose.as_str()), ("via", via)];
                let r = h.translate_fmt("connection.tool_row.purpose_path", &pairs);
                assert(str_pairs_view(pairs@) =~= seq![("purpose"@, purpose@), ("via"@, via@)]);
                r
            },
            None => purpose,
        };
    }
    match &check.detail {
        Some(d) => string_of(&chars_of(d.as_str())),
        None => purpose,
    }
}

/// Toast after clearing the AUR username.
pub open spec fn username_cleared_text(h: I18nHolder, registered: nat) -> Seq<char> {
    if registered == 0 {
        tr(h, "connection.username_cleared_short"@)
    } else {
        fill_placeholders(tr(h, "connection.username_cleared_with_packages"@), seq![("n"@, decimal(registered))])
    }
}

/// Toast after clearing the AUR username (see [`username_cleared_text`]).
pub fn username_cleared_toast(h: &I18nHolder, registered_len: usize) -> (r: String)
    ensures
        r@ == username_cleared_text(*h, registered_len as nat),
{
    if registered_len == 0 {
        return h.translate("connection.username_cleared_short");
    }
    let n = string_of(&decimal_exec(registered_len as u64));
    let pairs = [("n", n.as_str())];
    let r = h.translate_fmt("connection.username_cleared_with_packages", &pairs);
    assert(str_pairs_view(pairs@) =~= seq![("n"@, n@)]);
    r
}

/// Toast after saving a verified AUR username: all registered packages are
/// listed for the account, or which are not.
pub open spec fn username_saved_text(
    h: I18nHolder,
    registered: nat,
    aur_count: nat,
    unmatched: Seq<Seq<char>>,
) -> Seq<char> {
    if unmatched.len() == 0 {
        fill_placeholders(
            tr(h, "connection.username_saved_all"@),
            seq![("registered"@, decimal(registered)), ("aur"@, decimal(aur_count))],
        )
    } else {
        fill_placeholders(
            tr(h, "connection.username_saved_partial"@),
            seq![("k"@, decimal(unmatched.len())), ("list"@, unmatched_list_text(h, unmatched))],
        )
    }
}

/// Toast after saving a verified AUR username (see [`username_saved_text`]).
pub fn username_saved_toast(
    h: &I18nHolder,
    registered_len: usize,
    aur_package_count: usize,
    unmatched: &Vec<String>,
) -> (r: String)
    ensures
        r@ == username_saved_text(*h, registered_len as nat, aur_package_count as nat, strings_view(unmatched@)),
{
    if unmatched.len() == 0 {
        let a = string_of(&decimal_exec(registered_len as u64));
        let b = string_of(&decimal_exec(aur_package_count as u64));
        let pairs = [("registered", a.as_str()), ("aur", b.as_str())];
        let r = h.translate_fmt("connection.username_saved_all", &pairs);
        assert(str_pairs_view(pairs@) =~= seq![("registered"@, a@), ("aur"@, b@)]);
        return r;
    }
    let k = string_of(&decimal_exec(unmatched.len() as u64));
    let list = format_unmatched_list(h, unmatched);
    let pairs = [("k", k.as_str()), ("list", list.as_str())];
    let r = h.translate_fmt("connection.username_saved_partial", &pairs);
    assert(str_pairs_view(pairs@) =~= seq![("k"@, k@), ("list"@, list@)]);
    r
}

} // verus!
