use aur_pkgbuilder::workflow::validate::{
    bash_syntax_report, fakeroot_build_report, find_latest_package, namcap_package_report,
    namcap_report, printsrcinfo_report, shellcheck_report, verifysource_report, CheckId,
    CheckOutcome,
};

fn ok() -> Result<(bool, String), String> {
    Ok((true, "exit status: 0".into()))
}

fn failed() -> Result<(bool, String), String> {
    Ok((false, "exit status: 1".into()))
}

#[test]
fn required_steps_fail_on_bad_exit() {
    let r = bash_syntax_report(ok());
    assert_eq!((r.id, r.outcome, r.summary.as_str()), (CheckId::BashSyntax, CheckOutcome::Pass, "OK"));
    let r = bash_syntax_report(failed());
    assert_eq!(r.outcome, CheckOutcome::Fail);
    assert_eq!(r.summary, "bash -n exited exit status: 1");
    let r = verifysource_report(Err("spawn makepkg: not found".into()));
    assert_eq!(r.outcome, CheckOutcome::Fail);
    assert_eq!(r.summary, "spawn makepkg: not found");
    let r = printsrcinfo_report(ok(), "pkgbase = foo\n\tpkgver = 1.2\n\tpkgrel = 3\n");
    assert_eq!(r.outcome, CheckOutcome::Pass);
    assert_eq!(r.summary, "foo 1.2-3");
    let r = printsrcinfo_report(ok(), "");
    assert_eq!(r.summary, "PKGBUILD parsed OK");
    let r = printsrcinfo_report(failed(), "");
    assert_eq!(r.summary, "makepkg --printsrcinfo exited exit status: 1");
}

#[test]
fn optional_steps_warn_or_skip() {
    let r = shellcheck_report(None);
    assert_eq!((r.outcome, r.summary.as_str()), (CheckOutcome::Skipped, "shellcheck not installed"));
    let r = shellcheck_report(Some(failed()));
    assert_eq!(r.outcome, CheckOutcome::Warn);
    assert_eq!(r.summary, "shellcheck exited exit status: 1 (warnings above)");
    let r = namcap_report(Some(failed()));
    assert_eq!(r.summary, "namcap exited exit status: 1 (see notes above)");
    assert_eq!(namcap_report(None).summary, "namcap not installed");
}

#[test]
fn extended_steps() {
    let r = fakeroot_build_report(None, None);
    assert_eq!((r.outcome, r.summary.as_str()), (CheckOutcome::Skipped, "fakeroot missing (install base-devel)"));
    let r = fakeroot_build_report(Some(ok()), Some("foo-1-1-x86_64.pkg.tar.zst".into()));
    assert_eq!((r.outcome, r.summary.as_str()), (CheckOutcome::Pass, "built foo-1-1-x86_64.pkg.tar.zst"));
    let r = fakeroot_build_report(Some(ok()), None);
    assert_eq!(r.outcome, CheckOutcome::Warn);
    let r = fakeroot_build_report(Some(failed()), None);
    assert_eq!((r.outcome, r.summary.as_str()), (CheckOutcome::Fail, "makepkg exited exit status: 1"));
    assert_eq!(namcap_package_report(None).summary, "namcap not installed");
    assert_eq!(
        namcap_package_report(Some(None)).summary,
        "no built package found — run “Build in fakeroot” first"
    );
    assert_eq!(namcap_package_report(Some(Some(ok()))).outcome, CheckOutcome::Pass);
}

#[test]
fn latest_package_is_first_newest_candidate() {
    let entries = vec![
        ("PKGBUILD".to_string(), Some(900)),
        ("foo-1-1-x86_64.pkg.tar.zst".to_string(), Some(100)),
        ("foo-2-1-x86_64.pkg.tar.zst.sig".to_string(), Some(500)),
        ("foo-2-1-x86_64.pkg.tar.zst".to_string(), Some(300)),
        ("foo-3-1-x86_64.pkg.tar.xz".to_string(), None),
        ("foo-2-1-any.pkg.tar.zst".to_string(), Some(300)),
    ];
    assert_eq!(find_latest_package(&entries), Some(3));
    assert_eq!(find_latest_package(&vec![("PKGBUILD".to_string(), Some(1))]), None);
}
