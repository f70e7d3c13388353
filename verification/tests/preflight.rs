use aur_pkgbuilder::workflow::preflight::{
    aur_ssh_probe_is_relevant, classify_ssh_probe, devtools_tool_check, fakeroot_tool_check,
    first_devtools_on_path, nonempty_trimmed_owned_lines, packaging_config_path,
    required_tool_checks, tool_check_base_devel, BaseDevelProbe, PackagingConfigTarget, SshProbe,
};

#[test]
fn metapackage_satisfies_without_group_query() {
    let t = tool_check_base_devel(BaseDevelProbe::Metapackage("base-devel 1-2".to_string()));
    assert!(t.satisfied_without_binary);
    assert_eq!(
        t.detail.as_deref(),
        Some("metapackage base-devel 1-2 (pacman -Q base-devel)")
    );
}

#[test]
fn group_members_non_empty_satisfies() {
    let t = tool_check_base_devel(BaseDevelProbe::GroupMembers(Ok(vec![
        "base-devel gcc".to_string(),
        "base-devel patch".to_string(),
    ])));
    assert!(t.satisfied_without_binary);
    let d = t.detail.expect("detail");
    assert!(d.contains("2 installed members"));
    assert!(d.contains("pacman -Qg base-devel"));
}

#[test]
fn group_members_empty_not_satisfied() {
    let t = tool_check_base_devel(BaseDevelProbe::GroupMembers(Ok(vec![])));
    assert!(!t.satisfied_without_binary);
    assert_eq!(
        t.detail.as_deref(),
        Some("no installed packages belong to base-devel")
    );
}

#[test]
fn group_query_error_surfaces() {
    let t = tool_check_base_devel(BaseDevelProbe::GroupMembers(Err(
        "error: group 'base-devel' was not found".to_string(),
    )));
    assert!(!t.satisfied_without_binary);
    let d = t.detail.expect("detail");
    assert!(d.starts_with("could not query pacman ("));
    assert!(d.contains("group"));
}

#[test]
fn group_member_count_is_decimal() {
    let members: Vec<String> = (0..12).map(|i| format!("m{i}")).collect();
    let t = tool_check_base_devel(BaseDevelProbe::GroupMembers(Ok(members)));
    assert_eq!(
        t.detail.as_deref(),
        Some("12 installed members (pacman -Qg base-devel)")
    );
}

#[test]
fn keeps_nonempty_trimmed_lines() {
    let v = nonempty_trimmed_owned_lines("base-devel gcc\n\n base-devel patch \n");
    assert_eq!(v.len(), 2);
    assert_eq!(v[0], "base-devel gcc");
    assert_eq!(v[1], "base-devel patch");
}

#[test]
fn prefers_pkgctl_when_present() {
    let paths = [
        Some("/usr/bin/pkgctl".to_string()),
        Some("/usr/bin/extra-x86_64-build".to_string()),
        None,
    ];
    let (name, p) = first_devtools_on_path(&paths).expect("hit");
    assert_eq!(name, "pkgctl");
    assert_eq!(p, "/usr/bin/pkgctl");
}

#[test]
fn falls_back_to_second_binary() {
    let paths = [None, Some("/usr/bin/extra-x86_64-build".to_string()), None];
    let (name, _) = first_devtools_on_path(&paths).expect("hit");
    assert_eq!(name, "extra-x86_64-build");
}

#[test]
fn returns_none_when_all_absent() {
    let paths: [Option<String>; 3] = [None, None, None];
    assert!(first_devtools_on_path(&paths).is_none());
}

#[test]
fn tool_rows_carry_paths() {
    let rows = required_tool_checks(vec![Some("/usr/bin/makepkg".into()), None, None, Some("/u".into())]);
    assert_eq!(rows[0].name, "makepkg");
    assert_eq!(rows[0].path.as_deref(), Some("/usr/bin/makepkg"));
    assert_eq!(rows[1].name, "git");
    assert!(rows[1].path.is_none());
    assert_eq!(rows[3].install_hint, "pacman -S --needed pacman-contrib");
    let f = fakeroot_tool_check(Some("/usr/bin/fakeroot".into()));
    assert_eq!(f.name, "fakeroot");
    let d = devtools_tool_check(&[None, None, Some("/usr/bin/makechrootpkg".into())]);
    assert_eq!(d.resolved_via, Some("makechrootpkg"));
    assert_eq!(d.path.as_deref(), Some("/usr/bin/makechrootpkg"));
}

#[test]
fn config_paths_and_probe_relevance() {
    assert_eq!(packaging_config_path(PackagingConfigTarget::MakepkgConf), "/etc/makepkg.conf");
    assert_eq!(
        packaging_config_path(PackagingConfigTarget::DevtoolsShareDir),
        "/usr/share/devtools"
    );
    assert!(aur_ssh_probe_is_relevant(Some("/k"), false));
    assert!(aur_ssh_probe_is_relevant(None, true));
    assert!(!aur_ssh_probe_is_relevant(None, false));
}

#[test]
fn ssh_probe_classification() {
    match classify_ssh_probe(
        "Interactive shell is disabled. Welcome, me!".into(),
        String::new(),
        1,
    ) {
        SshProbe::Authenticated { banner } => assert!(banner.contains("Welcome")),
        other => panic!("unexpected {other:?}"),
    }
    match classify_ssh_probe("  ".into(), "aur@aur.archlinux.org: Permission denied (publickey).".into(), 255) {
        SshProbe::KeyRejected { banner } => assert!(banner.starts_with("aur@")),
        other => panic!("unexpected {other:?}"),
    }
    match classify_ssh_probe(String::new(), "Could not resolve hostname".into(), 255) {
        SshProbe::Failed { stderr, exit_code } => {
            assert_eq!(stderr, "Could not resolve hostname");
            assert_eq!(exit_code, 255);
        }
        other => panic!("unexpected {other:?}"),
    }
}
