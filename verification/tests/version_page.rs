use aur_pkgbuilder::i18n::{I18nHolder, UiLocale};
use aur_pkgbuilder::ui::version::{checksum_run_toast, kind_hint};
use aur_pkgbuilder::workflow::build::UpdpkgsumsReport;
use aur_pkgbuilder::workflow::package::PackageKind;

fn holder() -> I18nHolder {
    let en = vec![
        ("version.toast_checksums_updated".to_string(), "Checksums updated".to_string()),
        ("version.toast_checksums_unchanged".to_string(), "Checksums already current".to_string()),
        ("version.toast_updpkgsums_exit".to_string(), "updpkgsums exited: {status}".to_string()),
        ("version.toast_err".to_string(), "Error: {e}".to_string()),
        ("version.kind.git_title".to_string(), "VCS package".to_string()),
    ];
    I18nHolder::new(UiLocale::EnUs, en, Vec::new())
}

fn report(success: bool, changed: bool) -> UpdpkgsumsReport {
    UpdpkgsumsReport { success, status: "exit status: 2".to_string(), pkgbuild_changed: changed }
}

#[test]
fn checksum_toasts_by_outcome() {
    let h = holder();
    assert_eq!(checksum_run_toast(&h, &Ok(report(true, true))), "Checksums updated");
    assert_eq!(checksum_run_toast(&h, &Ok(report(true, false))), "Checksums already current");
    assert_eq!(checksum_run_toast(&h, &Ok(report(false, false))), "updpkgsums exited: exit status: 2");
    assert_eq!(checksum_run_toast(&h, &Err("no PKGBUILD".to_string())), "Error: no PKGBUILD");
}

#[test]
fn kind_hint_uses_kind_keys() {
    let h = holder();
    let (title, desc) = kind_hint(&h, PackageKind::Git);
    assert_eq!(title, "VCS package");
    assert_eq!(desc, "version.kind.git_desc");
}
