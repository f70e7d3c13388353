use aur_pkgbuilder::config::{render_commit_template, Config, FALLBACK_COMMIT_TEMPLATE};
use aur_pkgbuilder::i18n::{I18nHolder, UiLocale};
use aur_pkgbuilder::state::AppState;
use aur_pkgbuilder::workflow::aur_account::{
    aur_pkgbuild_url, infer_kind, into_summary, to_package_def, AurAccountError, AurRpcPackage,
    Role,
};
use aur_pkgbuilder::workflow::aur_git::{
    aur_clone_dir, compose_diff_report, diff_quiet_exit, ls_remote_output_has_ref,
};
use aur_pkgbuilder::workflow::aur_ssh::{remote_args, ArgsShape, AurSshCommand, Severity};
use aur_pkgbuilder::workflow::package::{PackageDef, PackageKind};
use aur_pkgbuilder::workflow::registry::Registry;
use aur_pkgbuilder::workflow::validate::{
    checks_in_tier, fast_check_ids, required_tier_all_pass, srcinfo_summary, CheckId, CheckReport,
    CheckTier,
};

fn pkg(id: &str) -> PackageDef {
    PackageDef {
        id: id.into(),
        title: id.into(),
        subtitle: String::new(),
        kind: PackageKind::Bin,
        pkgbuild_url: String::new(),
        icon_name: None,
        destination_dir: None,
        sync_subdir: None,
        pkgbuild_refreshed_at_unix: None,
        favorite: false,
    }
}

#[test]
fn commit_template_rendering() {
    assert_eq!(render_commit_template(FALLBACK_COMMIT_TEMPLATE, "foo"), "foo: update");
    assert_eq!(render_commit_template("{pkg} {pkg}!", "x"), "x x!");
    assert_eq!(render_commit_template("plain", "x"), "plain");
}

#[test]
fn config_load_choice() {
    let mut a = Config::with_defaults(Some("/w".into()), None);
    a.aur_username = Some("me".into());
    let d = Config::with_defaults(None, None);
    assert_eq!(Config::load(Some(a), None, d.clone()).aur_username.as_deref(), Some("me"));
    assert_eq!(Config::load(None, None, d).work_dir, None);
}

#[test]
fn package_kind_and_def_helpers() {
    assert_eq!(PackageKind::Bin.label(), "binary");
    assert_eq!(PackageKind::Other.label(), "source");
    assert_eq!(PackageKind::all(), [PackageKind::Bin, PackageKind::Git, PackageKind::Other]);
    let mut p = pkg("foo-git");
    p.kind = PackageKind::Git;
    assert_eq!(p.aur_ssh_url(), "ssh://aur@aur.archlinux.org/foo-git.git");
    assert_eq!(p.icon(), "folder-remote-symbolic");
    p.icon_name = Some("my-icon".into());
    assert_eq!(p.icon(), "my-icon");
}

#[test]
fn aur_account_conversions() {
    assert_eq!(infer_kind("foo-git"), PackageKind::Git);
    assert_eq!(infer_kind("foo-svn"), PackageKind::Git);
    assert_eq!(infer_kind("foo-bin"), PackageKind::Bin);
    assert_eq!(infer_kind("foo"), PackageKind::Other);
    assert_eq!(
        aur_pkgbuild_url("foo"),
        "https://aur.archlinux.org/cgit/aur.git/plain/PKGBUILD?h=foo"
    );
    let s = into_summary(
        AurRpcPackage {
            name: "foo-bin".into(),
            version: "1-1".into(),
            description: None,
            maintainer: Some("me".into()),
            co_maintainers: vec![],
            last_modified: 5,
            out_of_date: None,
        },
        Role::CoMaintainer,
    );
    assert_eq!(s.role.label(), "co-maintainer");
    let d = to_package_def(&s);
    assert_eq!(d.id, "foo-bin");
    assert_eq!(d.subtitle, "Imported from the AUR.");
    assert_eq!(d.kind, PackageKind::Bin);
    assert_eq!(AurAccountError::Rpc("bad".into()).message(), "AUR RPC error: bad");
}

#[test]
fn aur_ssh_commands() {
    assert_eq!(AurSshCommand::SetupRepo.cmd(), "setup-repo");
    assert_eq!(AurSshCommand::Disown.severity(), Severity::Destructive);
    assert_eq!(AurSshCommand::Help.severity(), Severity::Safe);
    assert!(!AurSshCommand::ListRepos.needs_package());
    assert_eq!(AurSshCommand::Flag.args_shape(), ArgsShape::OneArg);
    let h = I18nHolder::new(
        UiLocale::EnUs,
        vec![("aur_ssh.cmd.vote.title".to_string(), "Vote".to_string())],
        Vec::new(),
    );
    assert_eq!(AurSshCommand::Vote.title(&h), "Vote");
    assert_eq!(AurSshCommand::Vote.description(&h), "aur_ssh.cmd.vote.desc");
    assert_eq!(AurSshCommand::Vote.args_hint(&h), None);
    assert_eq!(
        AurSshCommand::SetKeywords.args_hint(&h).as_deref(),
        Some("aur_ssh.args.hint_keywords")
    );
    assert_eq!(remote_args(AurSshCommand::Help, None, "x y").unwrap(), vec!["help".to_string()]);
    assert_eq!(
        remote_args(AurSshCommand::Flag, Some(" foo "), "  out of date  ").unwrap(),
        vec!["flag".to_string(), "foo".to_string(), "out of date".to_string()]
    );
    assert_eq!(
        remote_args(AurSshCommand::SetKeywords, Some("foo"), " a  b ").unwrap(),
        vec!["set-keywords".to_string(), "foo".to_string(), "a".to_string(), "b".to_string()]
    );
    assert_eq!(
        remote_args(AurSshCommand::Vote, Some("  "), "").unwrap_err(),
        "this command requires a package name"
    );
}

#[test]
fn aur_git_helpers() {
    assert_eq!(aur_clone_dir("/w", "foo"), "/w/aur/foo");
    assert!(!ls_remote_output_has_ref("\n  \n"));
    assert!(ls_remote_output_has_ref("abc\trefs/heads/master\n"));
    assert_eq!(compose_diff_report(" ", ""), "(no changes staged against HEAD)");
    assert_eq!(compose_diff_report("", " "), " (no changes staged against HEAD)");
    assert_eq!(compose_diff_report("1 file", "patch"), "1 file\npatch");
    assert_eq!(diff_quiet_exit(Some(0)), Ok(false));
    assert_eq!(diff_quiet_exit(Some(1)), Ok(true));
    assert_eq!(
        diff_quiet_exit(Some(128)),
        Err("git diff --quiet HEAD exited with 128".to_string())
    );
    assert_eq!(
        diff_quiet_exit(None),
        Err("git diff --quiet HEAD: no exit code".to_string())
    );
}

#[test]
fn validate_ids_and_summary() {
    assert_eq!(CheckId::Namcap.title(), "namcap (PKGBUILD)");
    assert_eq!(CheckId::FakerootBuild.tier(), CheckTier::Extended);
    assert_eq!(CheckId::NamcapPackage.install_hint(), Some("pacman -S --needed namcap"));
    assert_eq!(CheckId::BashSyntax.install_hint(), None);
    assert_eq!(
        checks_in_tier(CheckTier::Required),
        vec![CheckId::BashSyntax, CheckId::PrintSrcinfo, CheckId::VerifySource]
    );
    assert_eq!(fast_check_ids().len(), 5);
    assert_eq!(
        srcinfo_summary("pkgbase = my-pkg-bin\n\tpkgver = 0.8.2\n\tpkgrel = 1\n").as_deref(),
        Some("my-pkg-bin 0.8.2-1")
    );
    assert_eq!(srcinfo_summary("pkgbase = x\n"), None);
    let reports = vec![CheckReport::pass(CheckId::BashSyntax), CheckReport::warn(CheckId::Namcap, "w".into())];
    assert!(required_tier_all_pass(&reports));
    let bad = vec![CheckReport::fail(CheckId::VerifySource, "f".into())];
    assert!(!required_tier_all_pass(&bad));
}

#[test]
fn state_prunes_mismatch_ids() {
    let registry = Registry { version: 1, packages: vec![pkg("a"), pkg("c")] };
    let mut st = AppState::new(Config::with_defaults(None, None), registry);
    st.aur_account_mismatch_ids = Some(vec!["a".into(), "b".into(), "c".into()]);
    st.prune_aur_account_mismatch_ids();
    assert_eq!(st.aur_account_mismatch_ids, Some(vec!["a".to_string(), "c".to_string()]));
    st.package = Some(pkg("c"));
    assert_eq!(st.package().id, "c");
}

#[test]
fn onboarding_only_on_first_launch() {
    let mut st = AppState::new(Config::with_defaults(None, None), Registry::load(None, None));
    assert!(aur_pkgbuilder::state::needs_onboarding(&st));
    st.config.aur_username = Some("me".into());
    assert!(!aur_pkgbuilder::state::needs_onboarding(&st));
}
