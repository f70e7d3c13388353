use aur_pkgbuilder::workflow::build::{updpkgsums_action, UpdpkgsumsAction};

#[test]
fn updpkgsums_keeps_or_restores() {
    let before = b"pkgver=1\nsha256sums=('aa')\n".to_vec();
    assert_eq!(updpkgsums_action(&before, &before.clone()), UpdpkgsumsAction::Unchanged);
    let reformatted = b"pkgver=1\nsha256sums=( 'aa'  )\n".to_vec();
    let a = updpkgsums_action(&before, &reformatted);
    assert_eq!(a, UpdpkgsumsAction::RestoreOriginal);
    assert!(!a.pkgbuild_changed());
    let changed = b"pkgver=1\nsha256sums=('bb')\n".to_vec();
    let a = updpkgsums_action(&before, &changed);
    assert_eq!(a, UpdpkgsumsAction::KeepUpdated);
    assert!(a.pkgbuild_changed());
    assert_eq!(a.log_message(), "PKGBUILD updated with new checksums.");
    let binary = vec![0xff, 0xfe, 0x00];
    assert_eq!(updpkgsums_action(&before, &binary), UpdpkgsumsAction::KeepNonUtf8);
}
