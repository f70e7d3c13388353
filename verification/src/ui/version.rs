//! Version page: the guidance shown for each package kind and the message after
//! refreshing the checksums.
use vstd::prelude::*;

use crate::i18n::{fill_placeholders, I18nHolder};
use crate::ui::home::tr;
use crate::workflow::build::UpdpkgsumsReport;
use crate::workflow::package::PackageKind;

verus! {

/// Translation keys of the title and description of the kind guidance.
pub open spec fn kind_hint_key_text(kind: PackageKind) -> (Seq<char>, Seq<char>) {
    match kind {
        PackageKind::Bin => ("version.kind.bin_title"@, "version.kind.bin_desc"@),
        PackageKind::Git => ("version.kind.git_title"@, "version.kind.git_desc"@),
        PackageKind::Other => ("version.kind.other_title"@, "version.kind.other_desc"@),
    }
}

/// Title and description of the guidance for a package kind, translated.
pub fn kind_hint(h: &I18nHolder, kind: PackageKind) -> (r: (String, String))
    ensures
        r.0@ == tr(*h, kind_hint_key_text(kind).0),
        r.1@ == tr(*h, kind_hint_key_text(kind).1),
{
    let (title, desc) = match kind {
        PackageKind::Bin => ("version.kind.bin_title", "version.kind.bin_desc"),
        PackageKind::Git => ("version.kind.git_title", "version.kind.git_desc"),
        PackageKind::Other => ("version.kind.other_title", "version.kind.other_desc"),
    };
    (h.translate(title), h.translate(desc))
}

/// Message after a checksum refresh: updated or unchanged after a successful
/// run, the exit status after a failed one, the error when it could not run.
pub open spec fn checksum_toast_text(h: I18nHolder, res: Result<UpdpkgsumsReport, String>) -> Seq<
    char,
> {
    match res {
        Ok(rep) => if rep.success && rep.pkgbuild_changed {
            tr(h, "version.toast_checksums_updated"@)
        } else if rep.success {
            tr(h, "version.toast_checksums_unchanged"@)
        } else {
            fill_placeholders(
                tr(h, "version.toast_updpkgsums_exit"@),
                seq![("status"@, rep.status@)],
            )
        },
        Err(e) => fill_placeholders(tr(h, "version.toast_err"@), seq![("e"@, e@)]),
    }
}

/// Message after a checksum refresh (see [`checksum_toast_text`]).
pub fn checksum_run_toast(h: &I18nHolder, res: &Result<UpdpkgsumsReport, String>) -> (r: String)
    ensures
        r@ == checksum_toast_text(*h, *res),
{
    match res {
        Ok(rep) => if rep.success && rep.pkgbuild_changed {
            h.translate("version.toast_checksums_updated")
        } else if rep.success {
            h.translate("version.toast_checksums_unchanged")
        } else {
            let pairs = [("status", rep.status.as_str())];
            let r = h.translate_fmt("version.toast_updpkgsums_exit", &pairs);
            assert(crate::i18n::str_pairs_view(pairs@) =~= seq![("status"@, rep.status@)]);
            r
        },
        Err(e) => {
            let pairs = [("e", e.as_str())];
            let r = h.translate_fmt("version.toast_err", &pairs);
            assert(crate::i18n::str_pairs_view(pairs@) =~= seq![("e"@, e@)]);
            r
        },
    }
}

} // verus!
