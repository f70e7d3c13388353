//! PKGBUILD editor: moving the quick-metadata fields between the form's
//! entries and the parsed PKGBUILD.
use vstd::prelude::*;

use crate::i18n::I18nHolder;
use crate::text::{append_chars, chars_of, join, join_exec, lemma_deep_chars, opt_str, string_of, trim};
use crate::ui::home::tr;
use crate::workflow::ssh_setup::strings_view;
use crate::ui::package_editor::non_empty;
use crate::workflow::pkgbuild_edit::{PkgbuildQuickFields, FIELD_COUNT};

verus! {

/// What an entry contributes: its trimmed text, or nothing when that is empty.
pub open spec fn entry_value(s: Seq<char>) -> Option<Seq<char>> {
    if trim(s).len() == 0 {
        None
    } else {
        Some(trim(s))
    }
}

/// Reads the quick-metadata entries, given in editor order (maintainer comment
/// first): each field is the entry's trimmed text, unset when it is empty.
pub fn collect_quick(entries: &Vec<String>) -> (r: PkgbuildQuickFields)
    requires
        entries.len() == FIELD_COUNT,
    ensures
        r@.len() == FIELD_COUNT,
        forall|i: int| 0 <= i < FIELD_COUNT ==> #[trigger] r@[i] == entry_value(entries@[i]@),
{
    let r = PkgbuildQuickFields {
        maintainer_comment: non_empty(entries[0].as_str()),
        pkgname: non_empty(entries[1].as_str()),
        pkgver: non_empty(entries[2].as_str()),
        pkgrel: non_empty(entries[3].as_str()),
        pkgdesc: non_empty(entries[4].as_str()),
        arch_tokens: non_empty(entries[5].as_str()),
        url: non_empty(entries[6].as_str()),
        license_tokens: non_empty(entries[7].as_str()),
        depends_tokens: non_empty(entries[8].as_str()),
        makedepends_tokens: non_empty(entries[9].as_str()),
        optdepends_tokens: non_empty(entries[10].as_str()),
        conflicts_tokens: non_empty(entries[11].as_str()),
        provides_tokens: non_empty(entries[12].as_str()),
        source_tokens: non_empty(entries[13].as_str()),
    };
    assert forall|i: int| 0 <= i < FIELD_COUNT implies #[trigger] r@[i] == entry_value(
        entries@[i]@,
    ) by {}
    r
}

/// Entry text after loading `field` into an entry showing `current`: a set
/// field replaces the text, an unset one leaves it.
pub open spec fn loaded_entry(current: Seq<char>, field: Option<Seq<char>>) -> Seq<char> {
    match field {
        Some(v) => v,
        None => current,
    }
}

fn load_entry(current: &String, field: &Option<String>) -> (r: String)
    ensures
        r@ == loaded_entry(current@, opt_str(*field)),
{
    match field {
        Some(v) => v.clone(),
        None => current.clone(),
    }
}

/// Loads parsed fields into the entries (editor order): each set field
/// replaces its entry's text, unset fields leave theirs.
pub fn populate_quick(current: &Vec<String>, fields: &PkgbuildQuickFields) -> (r: Vec<String>)
    requires
        current.len() == FIELD_COUNT,
    ensures
        r.len() == FIELD_COUNT,
        forall|i: int|
            0 <= i < FIELD_COUNT ==> #[trigger] r@[i]@ == loaded_entry(current@[i]@, fields@[i]),
{
    let mut r: Vec<String> = Vec::new();
    r.push(load_entry(&current[0], &fields.maintainer_comment));
    r.push(load_entry(&current[1], &fields.pkgname));
    r.push(load_entry(&current[2], &fields.pkgver));
    r.push(load_entry(&current[3], &fields.pkgrel));
    r.push(load_entry(&current[4], &fields.pkgdesc));
    r.push(load_entry(&current[5], &fields.arch_tokens));
    r.push(load_entry(&current[6], &fields.url));
    r.push(load_entry(&current[7], &fields.license_tokens));
    r.push(load_entry(&current[8], &fields.depends_tokens));
    r.push(load_entry(&current[9], &fields.makedepends_tokens));
    r.push(load_entry(&current[10], &fields.optdepends_tokens));
    r.push(load_entry(&current[11], &fields.conflicts_tokens));
    r.push(load_entry(&current[12], &fields.provides_tokens));
    r.push(load_entry(&current[13], &fields.source_tokens));
    assert forall|i: int| 0 <= i < FIELD_COUNT implies #[trigger] r@[i]@ == loaded_entry(
        current@[i]@,
        fields@[i],
    ) by {}
    r
}

/// A set field reads back as itself when its value is trimmed and non-empty.
pub open spec fn entry_stable(field: Option<Seq<char>>) -> bool {
    match field {
        Some(v) => trim(v) == v && v.len() > 0,
        None => true,
    }
}

/// Loading fields into the form and reading the form back gives each set
/// field (when its value is trimmed and non-empty) and, for each unset field,
/// what the entry already held.
pub proof fn law_populate_then_collect(current: Seq<Seq<char>>, fields: Seq<Option<Seq<char>>>)
    requires
        current.len() == FIELD_COUNT,
        fields.len() == FIELD_COUNT,
        forall|i: int| 0 <= i < FIELD_COUNT ==> entry_stable(#[trigger] fields[i]),
    ensures
        forall|i: int|
            0 <= i < FIELD_COUNT ==> #[trigger] entry_value(loaded_entry(current[i], fields[i]))
                == match fields[i] {
                Some(v) => Some(v),
                None => entry_value(current[i]),
            },
{
    assert forall|i: int| 0 <= i < FIELD_COUNT implies #[trigger] entry_value(
        loaded_entry(current[i], fields[i]),
    ) == match fields[i] {
        Some(v) => Some(v),
        None => entry_value(current[i]),
    } by {
        assert(entry_stable(fields[i]));
    }
}


/// Most removed lines the diff preview shows.
pub const REMOVED_PREVIEW_MAX_LINES: usize = 120;

/// Text of the removed-lines preview: the first
/// [`REMOVED_PREVIEW_MAX_LINES`] lines joined by newlines, then, when lines
/// were cut, a newline and the "more removed" note.
pub open spec fn removed_preview(h: I18nHolder, lines: Seq<Seq<char>>) -> Seq<char> {
    if lines.len() > REMOVED_PREVIEW_MAX_LINES {
        join(lines.take(REMOVED_PREVIEW_MAX_LINES as int), seq!['\n']) + seq!['\n'] + tr(
            h,
            "pkgbuild_editor.diff_more_removed"@,
        )
    } else {
        join(lines, seq!['\n'])
    }
}

/// Text of the removed-lines preview of the PKGBUILD diff (see
/// [`removed_preview`]).
pub fn removed_preview_text(h: &I18nHolder, lines: &Vec<String>) -> (r: String)
    ensures
        r@ == removed_preview(*h, strings_view(lines@)),
{
    let ghost lv = strings_view(lines@);
    let n = if lines.len() > REMOVED_PREVIEW_MAX_LINES {
        REMOVED_PREVIEW_MAX_LINES
    } else {
        lines.len()
    };
    let mut parts: Vec<Vec<char>> = Vec::new();
    let mut i: usize = 0;
    while i < n
        invariant
            i <= n,
            n <= lines.len(),
            lv == strings_view(lines@),
            parts.deep_view() == lv.take(i as int),
        decreases n - i,
    {
        let c = chars_of(lines[i].as_str());
        proof {
            lemma_deep_chars(&c);
        }
        let ghost before = parts.deep_view();
        parts.push(c);
        assert(parts.deep_view() =~= before.push(c@));
        assert(lv.take(i as int + 1) =~= lv.take(i as int).push(lv[i as int]));
        i += 1;
    }
    let nl = vec!['\n'];
    assert(nl@ =~= seq!['\n']);
    let mut body = join_exec(&parts, &nl);
    if lines.len() > REMOVED_PREVIEW_MAX_LINES {
        body.push('\n');
        let note = h.translate("pkgbuild_editor.diff_more_removed");
        append_chars(&mut body, &chars_of(note.as_str()));
    } else {
        assert(lv.take(n as int) =~= lv);
    }
    string_of(&body)
}

} // verus!
