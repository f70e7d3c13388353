use aur_pkgbuilder::workflow::admin::{register_prepare_gates, register_push_gates};
use aur_pkgbuilder::workflow::admin::{map_pkgbase_ns_err, register_precheck_ids, register_resolve_build_dir};
use aur_pkgbuilder::workflow::aur_account::AurAccountError;
use aur_pkgbuilder::workflow::aur_ssh::{all_commands_vec, AurSshCommand};
use aur_pkgbuilder::workflow::pkgbase::PkgbaseNsError;
use aur_pkgbuilder::workflow::admin::{
    check_upstream_outcome, check_upstream_targets, open_work_dir_target, register_ensure_pkgbuild,
    remote_history_action, remote_history_note, verify_origin_url, AdminError,
    RegisterRemoteHistoryMode, RemoteHistoryAction, UpdateStatus, CHECK_UPSTREAM_PKGBUILD_MISSING_MSG,
};
use aur_pkgbuilder::workflow::package::{PackageDef, PackageKind};
use aur_pkgbuilder::workflow::pkgbuild_edit::PkgbuildEditError;
use aur_pkgbuilder::workflow::sync::{effective_sync_relative, parse_safe_relative_path, parse_valid_destination_path};

fn pkg(id: &str, url: &str) -> PackageDef {
    PackageDef {
        id: id.into(),
        title: id.into(),
        subtitle: String::new(),
        kind: PackageKind::Bin,
        pkgbuild_url: url.into(),
        icon_name: None,
        destination_dir: None,
        sync_subdir: None,
        pkgbuild_refreshed_at_unix: None,
        favorite: false,
    }
}

fn other_msg(r: Result<impl std::fmt::Debug, AdminError>) -> String {
    match r {
        Err(AdminError::Other(m)) => m,
        other => panic!("unexpected {other:?}"),
    }
}

#[test]
fn register_needs_a_pkgbuild_file() {
    assert!(register_ensure_pkgbuild(true).is_ok());
    match register_ensure_pkgbuild(false) {
        Err(AdminError::RegisterPrecheck(m)) => assert!(m.starts_with("PKGBUILD is missing")),
        other => panic!("unexpected {other:?}"),
    }
}

#[test]
fn check_upstream_targets_and_outcome() {
    assert_eq!(
        other_msg(check_upstream_targets("/w", &pkg("foo", "  "))),
        "No PKGBUILD URL — add one under Edit package."
    );
    assert_eq!(
        other_msg(check_upstream_targets("", &pkg("foo", "https://x/PKGBUILD"))),
        "Could not resolve the package directory — set a working directory or Sync destination."
    );
    let (url, dir) = check_upstream_targets("/w", &pkg("foo", " https://x/PKGBUILD ")).unwrap();
    assert_eq!(url, "https://x/PKGBUILD");
    assert_eq!(dir, "/w/foo");

    assert_eq!(
        other_msg(check_upstream_outcome(Err(PkgbuildEditError::NotFound("/w/foo".into())), Ok("x".into()))),
        CHECK_UPSTREAM_PKGBUILD_MISSING_MSG
    );
    assert_eq!(
        other_msg(check_upstream_outcome(Err(PkgbuildEditError::Io("denied".into())), Ok("x".into()))),
        "I/O error: denied"
    );
    assert_eq!(
        other_msg(check_upstream_outcome(Ok("pkgver=1\n".into()), Err("HTTP 404".into()))),
        "HTTP 404"
    );
    match check_upstream_outcome(Ok("pkgver=1\n".into()), Ok("pkgver=1\r\n".into())) {
        Ok(UpdateStatus::UpToDate { version }) => assert_eq!(version, "1"),
        other => panic!("unexpected {other:?}"),
    }
}

#[test]
fn open_work_dir_needs_a_directory() {
    assert_eq!(open_work_dir_target(Some("/w"), &pkg("foo", "")).unwrap(), "/w/foo");
    assert_eq!(
        other_msg(open_work_dir_target(None, &pkg("foo", ""))),
        "Set a working directory or choose a destination folder for this package."
    );
}

#[test]
fn remote_history_decisions() {
    assert_eq!(remote_history_action(false, 5, RegisterRemoteHistoryMode::StrictEmptyRemoteOnly), RemoteHistoryAction::Proceed);
    assert_eq!(remote_history_action(true, 0, RegisterRemoteHistoryMode::StrictEmptyRemoteOnly), RemoteHistoryAction::Proceed);
    assert_eq!(remote_history_action(true, 3, RegisterRemoteHistoryMode::StrictEmptyRemoteOnly), RemoteHistoryAction::Refuse);
    assert_eq!(remote_history_action(true, 3, RegisterRemoteHistoryMode::AllowExistingRemoteHistory), RemoteHistoryAction::Adopt);
    assert_eq!(
        remote_history_note(3),
        "origin/master has 3 commit(s) — this is not an empty AUR Git remote."
    );
    assert!(verify_origin_url("ssh://aur@aur.archlinux.org/foo.git\n", "ssh://aur@aur.archlinux.org/foo.git").is_ok());
    assert_eq!(
        other_msg(verify_origin_url("git@x:y.git\n", "ssh://aur@aur.archlinux.org/foo.git")),
        "origin URL mismatch: expected ssh://aur@aur.archlinux.org/foo.git, got git@x:y.git"
    );
}

#[test]
fn path_parsers() {
    assert_eq!(parse_valid_destination_path("/a/./b"), Ok("/a/./b".to_string()));
    assert_eq!(parse_valid_destination_path("/a/../b"), Err(()));
    assert_eq!(parse_valid_destination_path("a/b"), Err(()));
    assert_eq!(parse_safe_relative_path("a/b"), Ok("a/b".to_string()));
    assert_eq!(parse_safe_relative_path("./a"), Err(()));
    assert_eq!(parse_safe_relative_path("/a"), Err(()));
    assert_eq!(parse_safe_relative_path("a/../b"), Err(()));
    let mut p = pkg("foo", "");
    assert_eq!(effective_sync_relative(&p), "foo");
    p.sync_subdir = Some(" nested/dir ".into());
    assert_eq!(effective_sync_relative(&p), "nested/dir");
    p.sync_subdir = Some("../escape".into());
    assert_eq!(effective_sync_relative(&p), "foo");
}

#[test]
fn register_gates() {
    assert!(register_precheck_ids(&pkg("foo-bin", "")).is_ok());
    assert_eq!(other_msg(register_precheck_ids(&pkg("", ""))), "Pkgbase must not be empty.");
    match map_pkgbase_ns_err(PkgbaseNsError::Pacman("no db".into())) {
        AdminError::PacmanNamespace(m) => assert_eq!(m, "no db"),
        other => panic!("unexpected {other:?}"),
    }
    match map_pkgbase_ns_err(PkgbaseNsError::Aur(AurAccountError::Rpc("down".into()))) {
        AdminError::Other(m) => assert_eq!(m, "AUR RPC error: down"),
        other => panic!("unexpected {other:?}"),
    }
    assert_eq!(register_resolve_build_dir("/w", &pkg("foo", "")).unwrap(), "/w/foo");
    match register_resolve_build_dir("", &pkg("foo", "")) {
        Err(AdminError::RegisterPrecheck(m)) => assert!(m.starts_with("Set a working directory")),
        other => panic!("unexpected {other:?}"),
    }
}

#[test]
fn aur_ssh_command_menu() {
    let all = all_commands_vec();
    assert_eq!(all.len(), 13);
    assert_eq!(all[0], AurSshCommand::Help);
    assert_eq!(all[12], AurSshCommand::SetKeywords);
}

#[test]
fn register_gates_fail_in_order() {
    let p = pkg("foo", "");
    assert!(matches!(register_push_gates(true, "", &p, false, false), Err(AdminError::RunningAsRoot)));
    match register_push_gates(false, "", &p, true, true) {
        Err(AdminError::RegisterPrecheck(m)) => assert!(m.starts_with("Set a working directory")),
        other => panic!("unexpected {other:?}"),
    }
    match register_push_gates(false, "/w", &p, false, false) {
        Err(AdminError::RegisterPrecheck(m)) => assert!(m.starts_with("PKGBUILD is missing")),
        other => panic!("unexpected {other:?}"),
    }
    match register_push_gates(false, "/w", &p, true, false) {
        Err(AdminError::RegisterPrecheck(m)) => assert!(m.starts_with("AUR clone is missing")),
        other => panic!("unexpected {other:?}"),
    }
    assert_eq!(register_push_gates(false, "/w", &p, true, true).unwrap(), "/w/foo");
    match register_prepare_gates(true, "", &p, false) {
        Err(AdminError::RegisterPrecheck(m)) => assert!(m.starts_with("Set a working directory")),
        other => panic!("unexpected {other:?}"),
    }
    assert!(matches!(register_prepare_gates(true, "/w", &p, false), Err(AdminError::RunningAsRoot)));
    match register_prepare_gates(false, "/w", &p, false) {
        Err(AdminError::RegisterPrecheck(m)) => assert!(m.starts_with("PKGBUILD is missing")),
        other => panic!("unexpected {other:?}"),
    }
    assert_eq!(register_prepare_gates(false, "/w", &p, true).unwrap(), "/w/foo");
}
