use aur_pkgbuilder::ui::package_editor::{
    destination_subtitle, editor_package, namespace_check_failed_text, pkgbase_field_hint,
    pkgbase_namespace_outcome, preview_pkg, EditorForm, EditorRefusal, NamespaceOutcome,
    PackageEditorPurpose,
};
use aur_pkgbuilder::workflow::package::{PackageDef, PackageKind};
use aur_pkgbuilder::workflow::pkgbase::{PkgbasePublishNs, PkgbaseValidationError};

fn form(id: &str, url: &str) -> EditorForm {
    EditorForm {
        id: id.into(),
        url: url.into(),
        title: "  ".into(),
        subtitle: " Fast tool ".into(),
        icon: "".into(),
        kind_index: 1,
        destination_dir: None,
        legacy_cleared: false,
        favorite: true,
    }
}

fn existing() -> PackageDef {
    PackageDef {
        id: "foo-bin".into(),
        title: "Foo".into(),
        subtitle: "".into(),
        kind: PackageKind::Bin,
        pkgbuild_url: "https://x/PKGBUILD".into(),
        icon_name: Some("foo".into()),
        destination_dir: None,
        sync_subdir: Some("legacy/foo".into()),
        pkgbuild_refreshed_at_unix: Some(1_700_000_000),
        favorite: false,
    }
}

#[test]
fn editor_package_builds_from_entries() {
    let p = editor_package(&form("  foo-bin ", " https://x/PKGBUILD "), None, PackageEditorPurpose::AddOrEdit)
        .unwrap();
    assert_eq!(p.id, "foo-bin");
    assert_eq!(p.title, "foo-bin");
    assert_eq!(p.subtitle, "Fast tool");
    assert_eq!(p.icon_name, None);
    assert_eq!(p.kind, PackageKind::Git);
    assert_eq!(p.pkgbuild_url, "https://x/PKGBUILD");
    assert_eq!(p.sync_subdir, None);
    assert_eq!(p.pkgbuild_refreshed_at_unix, None);
    assert!(p.favorite);
}

#[test]
fn editor_package_keeps_legacy_folder_and_refresh_time() {
    let e = existing();
    let p = editor_package(&form("foo-bin", "u"), Some(&e), PackageEditorPurpose::AddOrEdit).unwrap();
    assert_eq!(p.sync_subdir.as_deref(), Some("legacy/foo"));
    assert_eq!(p.pkgbuild_refreshed_at_unix, Some(1_700_000_000));
    let p = editor_package(&form("foo-git", "u"), Some(&e), PackageEditorPurpose::AddOrEdit).unwrap();
    assert_eq!(p.pkgbuild_refreshed_at_unix, None);
    let mut f = form("foo-bin", "u");
    f.legacy_cleared = true;
    let p = editor_package(&f, Some(&e), PackageEditorPurpose::AddOrEdit).unwrap();
    assert_eq!(p.sync_subdir, None);
}

#[test]
fn editor_package_refusals() {
    assert_eq!(
        editor_package(&form("foo", "  "), None, PackageEditorPurpose::AddOrEdit).err(),
        Some(EditorRefusal::MissingRequired)
    );
    assert_eq!(
        editor_package(&form(" ", "u"), None, PackageEditorPurpose::RegisterNewAurPackage).err(),
        Some(EditorRefusal::MissingRequired)
    );
    assert_eq!(
        editor_package(&form("Foo Bar", "u"), None, PackageEditorPurpose::AddOrEdit).err(),
        Some(EditorRefusal::InvalidPkgbase(PkgbaseValidationError::InvalidCharset))
    );
    let p = editor_package(&form("newpkg", "ignored"), None, PackageEditorPurpose::RegisterNewAurPackage)
        .unwrap();
    assert_eq!(p.pkgbuild_url, "");
}

#[test]
fn namespace_outcomes() {
    let official = PkgbasePublishNs { official_repo_hit: true, aur_pkgbase_hit: true };
    match pkgbase_namespace_outcome(official, PackageEditorPurpose::AddOrEdit) {
        NamespaceOutcome::Refuse { title, .. } => assert_eq!(title, "Name unavailable"),
        other => panic!("unexpected {other:?}"),
    }
    let taken = PkgbasePublishNs { official_repo_hit: false, aur_pkgbase_hit: true };
    match pkgbase_namespace_outcome(taken, PackageEditorPurpose::RegisterNewAurPackage) {
        NamespaceOutcome::Refuse { title, .. } => assert_eq!(title, "Name already on the AUR"),
        other => panic!("unexpected {other:?}"),
    }
    match pkgbase_namespace_outcome(taken, PackageEditorPurpose::AddOrEdit) {
        NamespaceOutcome::Confirm { feedback, title, .. } => {
            assert_eq!(title, "Package found on AUR");
            assert_eq!(
                feedback,
                "This pkgbase already exists on the AUR. Continue only if you maintain or adopt it."
            );
        }
        other => panic!("unexpected {other:?}"),
    }
    let free = PkgbasePublishNs { official_repo_hit: false, aur_pkgbase_hit: false };
    assert_eq!(pkgbase_namespace_outcome(free, PackageEditorPurpose::AddOrEdit), NamespaceOutcome::Accept);
    assert_eq!(
        namespace_check_failed_text("timeout"),
        "Could not verify this name (timeout). Fix the network issue, then click Save again."
    );
    assert!(pkgbase_field_hint().starts_with("Use the pkgbase"));
}

#[test]
fn destination_preview() {
    let e = existing();
    let p = preview_pkg("foo-bin", None, Some(&e), false);
    assert_eq!(p.title, "Foo");
    assert_eq!(p.sync_subdir.as_deref(), Some("legacy/foo"));
    assert_eq!(destination_subtitle(Some("/work"), &p), "Optional — /work/legacy/foo/PKGBUILD");
    let q = preview_pkg("bar", Some("/pkgs/bar".into()), None, false);
    assert_eq!(q.title, "");
    assert_eq!(q.sync_subdir, None);
    assert_eq!(destination_subtitle(None, &q), "Optional — /pkgs/bar/PKGBUILD");
    let r = preview_pkg("baz", None, None, false);
    assert_eq!(
        destination_subtitle(None, &r),
        "Optional — Set a working directory on Connection, or browse for an absolute folder."
    );
}
