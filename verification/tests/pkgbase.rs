use aur_pkgbuilder::workflow::aur_account::AurAccountError;
use aur_pkgbuilder::workflow::pkgbase::{
    combine_namespace_probes, validate_aur_pkgbase_id, PkgbaseNsError, PkgbaseValidationError,
};

#[test]
fn validate_accepts_common_pkgbases() {
    assert!(validate_aur_pkgbase_id("foo").is_ok());
    assert!(validate_aur_pkgbase_id("foo-bar-bin").is_ok());
    assert!(validate_aur_pkgbase_id("lib32-foo+git").is_ok());
}

#[test]
fn validate_rejects_upper_and_space() {
    assert_eq!(
        validate_aur_pkgbase_id("Foo"),
        Err(PkgbaseValidationError::InvalidCharset)
    );
    assert_eq!(
        validate_aur_pkgbase_id("foo bar"),
        Err(PkgbaseValidationError::InvalidCharset)
    );
}

#[test]
fn validate_rejects_empty() {
    assert_eq!(
        validate_aur_pkgbase_id(""),
        Err(PkgbaseValidationError::Empty)
    );
    assert_eq!(
        validate_aur_pkgbase_id("   "),
        Err(PkgbaseValidationError::Empty)
    );
}

#[test]
fn validate_rejects_non_ascii_and_trims() {
    assert_eq!(
        validate_aur_pkgbase_id("föo"),
        Err(PkgbaseValidationError::InvalidCharset)
    );
    assert!(validate_aur_pkgbase_id("  a@b._c  ").is_ok());
    assert_eq!(PkgbaseValidationError::Empty.message(), "Pkgbase must not be empty.");
}

#[test]
fn namespace_probe_combination() {
    let ns = combine_namespace_probes(Ok(true), Ok(false)).unwrap();
    assert!(ns.aur_pkgbase_hit);
    assert!(!ns.official_repo_hit);
    assert!(matches!(
        combine_namespace_probes(Err(AurAccountError::Rpc("x".into())), Err("p".into())),
        Err(PkgbaseNsError::Aur(_))
    ));
    assert!(matches!(
        combine_namespace_probes(Ok(false), Err("p".into())),
        Err(PkgbaseNsError::Pacman(m)) if m == "p"
    ));
}

#[test]
fn blank_pkgbase_needs_no_probe() {
    let r = aur_pkgbuilder::workflow::pkgbase::namespace_probe_target("   ");
    let ns = r.expect("blank collides with nothing");
    assert!(!ns.official_repo_hit && !ns.aur_pkgbase_hit);
    assert_eq!(
        aur_pkgbuilder::workflow::pkgbase::namespace_probe_target(" foo-bin ").unwrap_err(),
        "foo-bin"
    );
}
