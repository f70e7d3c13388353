//! Package editor dialog: field titles, the reading of optional entries, the
//! package **Save** builds, the answer to the pkgbase namespace check, and the
//! destination preview.
use vstd::prelude::*;

use crate::text::{all_chars, append_chars, chars_of, opt_str, string_of, trim, trim_vec};
use crate::workflow::package::{PackageDef, PackageKind};
use crate::workflow::pkgbase::{
    is_pkgbase_char, validate_aur_pkgbase_id, PkgbasePublishNs, PkgbaseValidationError,
};
use crate::workflow::sync::{
    destination_help, destination_help_line, join_paths, opt_str_ref, package_dir, package_dir_of,
    path_join,
};

verus! {

/// Row title, with ` *` when the field is required.
pub open spec fn field_title_text(base: Seq<char>, required: bool) -> Seq<char> {
    if required {
        base + " *"@
    } else {
        base
    }
}

/// Row title of an editor field (see [`field_title_text`]).
pub fn field_title(base: &'static str, required: bool) -> (r: String)
    ensures
        r@ == field_title_text(base@, required),
{
    let mut v = chars_of(base);
    if required {
        append_chars(&mut v, &chars_of(" *"));
    }
    string_of(&v)
}

/// An optional entry: its trimmed text, or `None` when that is empty.
pub fn non_empty(s: &str) -> (r: Option<String>)
    ensures
        match r {
            Some(t) => t@ == trim(s@) && t@.len() > 0,
            None => trim(s@).len() == 0,
        },
{
    let t = trim_vec(&chars_of(s));
    if t.len() == 0 {
        None
    } else {
        Some(string_of(&t))
    }
}


/// Whether the editor adds or edits a package for Home, or defines a new one
/// for the Register page.
#[derive(Debug, Clone, Copy, PartialEq, Eq, Structural, Default)]
pub enum PackageEditorPurpose {
    /// Home **Add package** / **Edit package**: the PKGBUILD URL is required;
    /// a name already on the AUR may be adopted.
    #[default]
    AddOrEdit,
    /// The Register page: no PKGBUILD URL; the name must be new on the AUR.
    RegisterNewAurPackage,
}

/// Hint under the pkgbase entry.
pub open spec fn pkgbase_hint_text() -> Seq<char> {
    "Use the pkgbase (AUR repository name), not a split pkgname. Example: my-pkg-bin."@
}

pub fn pkgbase_field_hint() -> (r: &'static str)
    ensures
        r@ == pkgbase_hint_text(),
{
    "Use the pkgbase (AUR repository name), not a split pkgname. Example: my-pkg-bin."
}

/// What the entries of the editor hold when **Save** is clicked.
#[derive(Debug)]
pub struct EditorForm {
    pub id: String,
    pub url: String,
    pub title: String,
    pub subtitle: String,
    pub icon: String,
    /// Selected row of the kind list.
    pub kind_index: usize,
    /// Folder picked for the PKGBUILD, if any.
    pub destination_dir: Option<String>,
    /// The legacy folder of the edited package was cleared.
    pub legacy_cleared: bool,
    pub favorite: bool,
}

/// Why **Save** does not go on.
#[derive(Debug, PartialEq, Eq)]
pub enum EditorRefusal {
    /// The pkgbase, or (for Home) the PKGBUILD URL, is empty.
    MissingRequired,
    /// A new pkgbase breaks the naming rules.
    InvalidPkgbase(PkgbaseValidationError),
}

/// The kind at row `i` of the kind list (binary when out of range).
pub open spec fn kind_at(i: int) -> PackageKind {
    if i == 1 {
        PackageKind::Git
    } else if i == 2 {
        PackageKind::Other
    } else {
        PackageKind::Bin
    }
}

/// The package behind an optional reference.
pub open spec fn opt_pkg(o: Option<&PackageDef>) -> Option<PackageDef> {
    match o {
        Some(p) => Some(*p),
        None => None,
    }
}

/// The legacy folder the saved package keeps: none once a destination is
/// picked or the legacy folder was cleared, else the edited package's.
pub open spec fn kept_sync_subdir(
    destination_dir: Option<String>,
    legacy_cleared: bool,
    existing: Option<PackageDef>,
) -> Option<String> {
    if destination_dir is Some || legacy_cleared {
        None
    } else {
        match existing {
            Some(p) => p.sync_subdir,
            None => None,
        }
    }
}

fn clone_opt(o: &Option<String>) -> (r: Option<String>)
    ensures
        r == *o,
{
    match o {
        Some(s) => Some(s.clone()),
        None => None,
    }
}

/// The package **Save** builds from the entries: the trimmed pkgbase, the
/// title (the pkgbase when empty), the optional subtitle and icon, the kind,
/// the PKGBUILD URL (none for the Register page), the destination, the legacy
/// folder still in use, the refresh time of the edited package when the
/// pkgbase is unchanged, and the favourite flag. Refused when a required
/// entry is empty, or when a new pkgbase breaks the naming rules.
pub fn editor_package(form: &EditorForm, existing: Option<&PackageDef>, purpose: PackageEditorPurpose) -> (r:
    Result<PackageDef, EditorRefusal>)
    ensures
        ({
            let id = trim(form.id@);
            let url = trim(form.url@);
            if id.len() == 0 || (purpose == PackageEditorPurpose::AddOrEdit && url.len() == 0) {
                r == Err::<PackageDef, EditorRefusal>(EditorRefusal::MissingRequired)
            } else if existing is None && !all_chars(id, |c: char| is_pkgbase_char(c)) {
                r == Err::<PackageDef, EditorRefusal>(
                    EditorRefusal::InvalidPkgbase(PkgbaseValidationError::InvalidCharset),
                )
            } else {
                r matches Ok(p) && p.id@ == id && p.title@ == (if trim(form.title@).len() > 0 {
                    trim(form.title@)
                } else {
                    id
                }) && p.subtitle@ == trim(form.subtitle@) && opt_str(p.icon_name) == (if trim(
                    form.icon@,
                ).len() > 0 {
                    Some(trim(form.icon@))
                } else {
                    None
                }) && p.kind == kind_at(form.kind_index as int) && p.pkgbuild_url@ == (if purpose
                    == PackageEditorPurpose::RegisterNewAurPackage {
                    Seq::<char>::empty()
                } else {
                    url
                }) && p.destination_dir == form.destination_dir && p.sync_subdir == kept_sync_subdir(
                    form.destination_dir,
                    form.legacy_cleared,
                    opt_pkg(existing),
                ) && p.pkgbuild_refreshed_at_unix == (match existing {
                    Some(e) => if e.id@ == id {
                        e.pkgbuild_refreshed_at_unix
                    } else {
                        None
                    },
                    None => None,
                }) && p.favorite == form.favorite
            }
        }),
{
    let idv = trim_vec(&chars_of(form.id.as_str()));
    let urlv = trim_vec(&chars_of(form.url.as_str()));
    if idv.len() == 0 || (purpose == PackageEditorPurpose::AddOrEdit && urlv.len() == 0) {
        return Err(EditorRefusal::MissingRequired);
    }
    let id = string_of(&idv);
    let url = string_of(&urlv);
    if existing.is_none() {
        match validate_aur_pkgbase_id(id.as_str()) {
            Err(e) => {
                proof {
                    crate::text::lemma_trim_idempotent(form.id@);
                }
                return Err(EditorRefusal::InvalidPkgbase(e));
            },
            Ok(()) => {
                proof {
                    crate::text::lemma_trim_idempotent(form.id@);
                }
            },
        }
    }
    let title = match non_empty(form.title.as_str()) {
        Some(t) => t,
        None => id.clone(),
    };
    let subtitle = match non_empty(form.subtitle.as_str()) {
        Some(t) => t,
        None => String::new(),
    };
    let icon_name = non_empty(form.icon.as_str());
    let kind = if form.kind_index == 1 {
        PackageKind::Git
    } else if form.kind_index == 2 {
        PackageKind::Other
    } else {
        PackageKind::Bin
    };
    let sync_subdir = if form.destination_dir.is_some() || form.legacy_cleared {
        None
    } else {
        match existing {
            Some(p) => clone_opt(&p.sync_subdir),
            None => None,
        }
    };
    let refreshed = match existing {
        Some(p) => if crate::text::eq_chars(&chars_of(p.id.as_str()), &chars_of(id.as_str())) {
            p.pkgbuild_refreshed_at_unix
        } else {
            None
        },
        None => None,
    };
    let pkgbuild_url = if purpose == PackageEditorPurpose::RegisterNewAurPackage {
        String::new()
    } else {
        url
    };
    Ok(
        PackageDef {
            id,
            title,
            subtitle,
            kind,
            pkgbuild_url,
            icon_name,
            destination_dir: clone_opt(&form.destination_dir),
            sync_subdir,
            pkgbuild_refreshed_at_unix: refreshed,
            favorite: form.favorite,
        },
    )
}

/// What the editor does with the namespace check of a new pkgbase.
#[derive(Debug, PartialEq, Eq)]
pub enum NamespaceOutcome {
    /// Show `feedback` as an error and the dialog `title` / `body`; do not save.
    Refuse { feedback: String, title: String, body: String },
    /// Show `feedback` as an error and ask `title` / `body` with Cancel and
    /// Continue; Continue saves.
    Confirm { feedback: String, title: String, body: String },
    /// Show the pkgbase hint and save.
    Accept,
}

pub open spec fn official_feedback() -> Seq<char> {
    "This pkgbase matches an official repository package. Pick another name for the AUR."@
}

pub open spec fn official_body() -> Seq<char> {
    "Official repositories already publish a package with this name. The AUR will reject a colliding pkgbase—choose a different name."@
}

pub open spec fn taken_register_feedback() -> Seq<char> {
    "This pkgbase already exists on the AUR. Greenfield Register needs a new name—use Publish to update an existing repo."@
}

pub open spec fn taken_register_body() -> Seq<char> {
    "Registration creates a new AUR Git repository for a pkgbase that does not exist yet. This name is already taken. Pick another pkgbase, or cancel and use Publish / Edit package for an existing one."@
}

pub open spec fn taken_adopt_feedback() -> Seq<char> {
    "This pkgbase already exists on the AUR. Continue only if you maintain or adopt it."@
}

pub open spec fn taken_adopt_body() -> Seq<char> {
    "The AUR lists this pkgbase already. Choose Continue if you are adopting or updating it. Otherwise Cancel and pick a new name."@
}

fn s(t: &str) -> (r: String)
    ensures
        r@ == t@,
{
    string_of(&chars_of(t))
}

/// The editor's answer to the namespace check of a new pkgbase: a name of the
/// official repositories is refused, a name already on the AUR is refused for
/// the Register page and needs confirming otherwise, a free name is saved.
pub fn pkgbase_namespace_outcome(ns: PkgbasePublishNs, purpose: PackageEditorPurpose) -> (r: NamespaceOutcome)
    ensures
        ns.official_repo_hit ==> (r matches NamespaceOutcome::Refuse { feedback, title, body } && feedback@
            == official_feedback() && title@ == "Name unavailable"@ && body@ == official_body()),
        !ns.official_repo_hit && ns.aur_pkgbase_hit && purpose == PackageEditorPurpose::RegisterNewAurPackage
            ==> (r matches NamespaceOutcome::Refuse { feedback, title, body } && feedback@
            == taken_register_feedback() && title@ == "Name already on the AUR"@ && body@
            == taken_register_body()),
        !ns.official_repo_hit && ns.aur_pkgbase_hit && purpose == PackageEditorPurpose::AddOrEdit ==> (
        r matches NamespaceOutcome::Confirm { feedback, title, body } && feedback@
            == taken_adopt_feedback() && title@ == "Package found on AUR"@ && body@
            == taken_adopt_body()),
        (r is Accept) == (!ns.official_repo_hit && !ns.aur_pkgbase_hit),
{
    if ns.official_repo_hit {
        return NamespaceOutcome::Refuse {
            feedback: s(
                "This pkgbase matches an official repository package. Pick another name for the AUR.",
            ),
            title: s("Name unavailable"),
            body: s(
                "Official repositories already publish a package with this name. The AUR will reject a colliding pkgbase—choose a different name.",
            ),
        };
    }
    if ns.aur_pkgbase_hit {
        if purpose == PackageEditorPurpose::RegisterNewAurPackage {
            return NamespaceOutcome::Refuse {
                feedback: s(
                    "This pkgbase already exists on the AUR. Greenfield Register needs a new name—use Publish to update an existing repo.",
                ),
                title: s("Name already on the AUR"),
                body: s(
                    "Registration creates a new AUR Git repository for a pkgbase that does not exist yet. This name is already taken. Pick another pkgbase, or cancel and use Publish / Edit package for an existing one.",
                ),
            };
        }
        return NamespaceOutcome::Confirm {
            feedback: s(
                "This pkgbase already exists on the AUR. Continue only if you maintain or adopt it.",
            ),
            title: s("Package found on AUR"),
            body: s(
                "The AUR lists this pkgbase already. Choose Continue if you are adopting or updating it. Otherwise Cancel and pick a new name.",
            ),
        };
    }
    NamespaceOutcome::Accept
}

/// Feedback while the namespace of a new pkgbase is being checked.
pub fn namespace_checking_text() -> (r: &'static str)
    ensures
        r@ == "Checking AUR and official repositories…"@,
{
    "Checking AUR and official repositories…"
}

/// Feedback when the namespace check could not run.
pub fn namespace_check_failed_text(detail: &str) -> (r: String)
    ensures
        r@ == "Could not verify this name ("@ + detail@
            + "). Fix the network issue, then click Save again."@,
{
    let mut v = chars_of("Could not verify this name (");
    append_chars(&mut v, &chars_of(detail));
    append_chars(&mut v, &chars_of("). Fix the network issue, then click Save again."));
    string_of(&v)
}

/// The package the destination row previews while editing: the entered
/// pkgbase and picked folder over the edited package, or over a blank one.
pub fn preview_pkg(id: &str, destination_dir: Option<String>, existing: Option<&PackageDef>, legacy_cleared: bool) -> (r:
    PackageDef)
    ensures
        r.id@ == id@,
        r.destination_dir == destination_dir,
        r.sync_subdir == kept_sync_subdir(destination_dir, legacy_cleared, opt_pkg(existing)),
        match existing {
            Some(p) => r.title == p.title && r.subtitle == p.subtitle && r.kind == p.kind && r.pkgbuild_url
                == p.pkgbuild_url && r.icon_name == p.icon_name && r.pkgbuild_refreshed_at_unix
                == p.pkgbuild_refreshed_at_unix && r.favorite == p.favorite,
            None => r.title@.len() == 0 && r.subtitle@.len() == 0 && r.kind == PackageKind::Bin
                && r.pkgbuild_url@.len() == 0 && r.icon_name is None && r.pkgbuild_refreshed_at_unix is None
                && !r.favorite,
        },
{
    let sync_subdir = if destination_dir.is_some() || legacy_cleared {
        None
    } else {
        match existing {
            Some(p) => clone_opt(&p.sync_subdir),
            None => None,
        }
    };
    match existing {
        Some(p) => PackageDef {
            id: s(id),
            title: p.title.clone(),
            subtitle: p.subtitle.clone(),
            kind: p.kind,
            pkgbuild_url: p.pkgbuild_url.clone(),
            icon_name: clone_opt(&p.icon_name),
            destination_dir,
            sync_subdir,
            pkgbuild_refreshed_at_unix: p.pkgbuild_refreshed_at_unix,
            favorite: p.favorite,
        },
        None => PackageDef {
            id: s(id),
            title: String::new(),
            subtitle: String::new(),
            kind: PackageKind::Bin,
            pkgbuild_url: String::new(),
            icon_name: None,
            destination_dir,
            sync_subdir,
            pkgbuild_refreshed_at_unix: None,
            favorite: false,
        },
    }
}

/// Subtitle of the destination row: where the PKGBUILD goes, or why that is
/// not known yet.
pub open spec fn destination_subtitle_text(work: Option<Seq<char>>, pkg: PackageDef) -> Seq<char> {
    "Optional — "@ + match package_dir_of(work, pkg) {
        Some(dir) => path_join(dir, "PKGBUILD"@),
        None => destination_help(work, pkg),
    }
}

/// Subtitle of the destination row for the package being edited.
pub fn destination_subtitle(work_dir: Option<&str>, pkg: &PackageDef) -> (r: String)
    ensures
        r@ == destination_subtitle_text(opt_str_ref(work_dir), *pkg),
{
    let detail = match package_dir(work_dir, pkg) {
        Some(dir) => join_paths(dir.as_str(), "PKGBUILD"),
        None => destination_help_line(work_dir, pkg),
    };
    let mut v = chars_of("Optional — ");
    append_chars(&mut v, &chars_of(detail.as_str()));
    string_of(&v)
}

} // verus!
