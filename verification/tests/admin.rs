use aur_pkgbuilder::workflow::admin::{
    classify_local_vs_upstream_pkgbuild, classify_local_vs_upstream_pkgbuild_checked,
    is_missing_pkgbuild_upstream_error, namespace_gate, normalize_pkgbuild_text,
    require_master_branch, summarize_required_failures, AdminError, UpdateStatus,
    CHECK_UPSTREAM_PKGBUILD_MISSING_MSG,
};
use aur_pkgbuilder::workflow::pkgbase::PkgbasePublishNs;
use aur_pkgbuilder::workflow::validate::{CheckId, CheckReport};

#[test]
fn identical_after_crlf_normalization_is_up_to_date() {
    let local = "pkgver=1\n";
    let remote = "pkgver=1\r\n";
    match classify_local_vs_upstream_pkgbuild(local, remote) {
        UpdateStatus::UpToDate { version } => assert_eq!(version, "1"),
        other => panic!("expected UpToDate, got {other:?}"),
    }
}

#[test]
fn pkgver_bump_is_outdated_with_diff() {
    let local = "pkgname=x\npkgver=1\npkgrel=1\n";
    let remote = "pkgname=x\npkgver=2\npkgrel=1\n";
    let u = classify_local_vs_upstream_pkgbuild(local, remote);
    let UpdateStatus::Outdated {
        local,
        upstream,
        diff,
    } = u
    else {
        panic!("expected Outdated");
    };
    assert_eq!(local, "1");
    assert_eq!(upstream, "2");
    assert!(diff.contains("-pkgver=1"));
    assert!(diff.contains("+pkgver=2"));
}

#[test]
fn missing_pkgbuild_upstream_error_round_trip() {
    let e = AdminError::Other(CHECK_UPSTREAM_PKGBUILD_MISSING_MSG.to_string());
    assert!(is_missing_pkgbuild_upstream_error(&e));
    assert!(!is_missing_pkgbuild_upstream_error(&AdminError::Other(
        "network failure".to_string()
    )));
}

#[test]
fn classify_without_pkgver_uses_question_mark() {
    match classify_local_vs_upstream_pkgbuild("pkgname=a\n", "pkgname=a\r\n") {
        UpdateStatus::UpToDate { version } => assert_eq!(version, "?"),
        other => panic!("unexpected {other:?}"),
    }
    assert!(classify_local_vs_upstream_pkgbuild_checked("pkgver=\"\n", "x").is_none());
}

#[test]
fn crlf_normalization() {
    assert_eq!(normalize_pkgbuild_text("a\r\nb\rc\r\n"), "a\nb\rc\n");
}

#[test]
fn namespace_gate_decisions() {
    assert!(matches!(
        namespace_gate(PkgbasePublishNs { official_repo_hit: true, aur_pkgbase_hit: true }),
        Err(AdminError::OfficialRepoPkgbaseCollision)
    ));
    assert!(matches!(
        namespace_gate(PkgbasePublishNs { official_repo_hit: false, aur_pkgbase_hit: true }),
        Err(AdminError::AurPkgbaseAlreadyExists)
    ));
    assert!(namespace_gate(PkgbasePublishNs { official_repo_hit: false, aur_pkgbase_hit: false }).is_ok());
}

#[test]
fn required_failure_summary() {
    let reports = vec![
        CheckReport::pass(CheckId::BashSyntax),
        CheckReport::fail(CheckId::PrintSrcinfo, "makepkg exited 1".to_string()),
        CheckReport::warn(CheckId::ShellCheck, "warnings".to_string()),
        CheckReport::skipped(CheckId::VerifySource, "offline".to_string()),
    ];
    assert_eq!(
        summarize_required_failures(&reports),
        ".SRCINFO generation — makepkg exited 1; Verify sources — offline"
    );
    assert_eq!(
        summarize_required_failures(&vec![CheckReport::pass(CheckId::BashSyntax)]),
        "required tier incomplete (internal)"
    );
}

#[test]
fn master_branch_gate() {
    assert!(require_master_branch(" master\n", "/c").is_ok());
    match require_master_branch("main", "/c") {
        Err(AdminError::Other(m)) => assert_eq!(
            m,
            "Switch the clone at /c to master (e.g. git branch -M master) before pushing."
        ),
        other => panic!("unexpected {other:?}"),
    }
}
