use aur_pkgbuilder::ui::register::{
    probe_finished, probe_started, register_pkgbuild_actions, register_step,
    register_steps_initial, PkgbuildActions, RegisterAction, RegisterEvent, RegisterSteps,
    RemotePkgbuildProbe,
};
use aur_pkgbuilder::workflow::admin::RegisterRemoteHistoryMode;
use aur_pkgbuilder::workflow::pkgbuild_edit::StarterPkgbuildOutcome;

#[test]
fn pkgbuild_actions_follow_local_files_without_ssh() {
    assert_eq!(
        register_pkgbuild_actions(true, true, false, false, false, None),
        PkgbuildActions { starter: true, edit: false }
    );
    assert_eq!(
        register_pkgbuild_actions(true, true, true, false, false, None),
        PkgbuildActions { starter: false, edit: true }
    );
    assert_eq!(
        register_pkgbuild_actions(false, true, false, false, false, None),
        PkgbuildActions { starter: false, edit: false }
    );
}

#[test]
fn pkgbuild_actions_wait_for_remote_probe_with_ssh() {
    assert_eq!(
        register_pkgbuild_actions(true, true, false, true, true, None),
        PkgbuildActions { starter: false, edit: false }
    );
    assert_eq!(
        register_pkgbuild_actions(true, true, false, true, false, Some(false)),
        PkgbuildActions { starter: true, edit: false }
    );
    assert_eq!(
        register_pkgbuild_actions(true, true, false, true, false, Some(true)),
        PkgbuildActions { starter: false, edit: true }
    );
    assert_eq!(
        register_pkgbuild_actions(true, true, true, true, true, None),
        PkgbuildActions { starter: false, edit: true }
    );
}

#[test]
fn probe_result_for_other_package_is_ignored() {
    let p = probe_started(true);
    assert_eq!(p, RemotePkgbuildProbe { in_flight: true, remote_has_pkgbuild: None });
    let (q, msg) = probe_finished(p, Some("other"), "mine", Ok(true));
    assert_eq!(q, p);
    assert_eq!(msg, None);
    let (q, msg) = probe_finished(p, Some("mine"), "mine", Ok(true));
    assert_eq!(q, RemotePkgbuildProbe { in_flight: false, remote_has_pkgbuild: Some(true) });
    assert_eq!(msg, None);
    let (q, msg) = probe_finished(p, Some("mine"), "mine", Err("timeout".into()));
    assert_eq!(q, RemotePkgbuildProbe { in_flight: false, remote_has_pkgbuild: None });
    assert_eq!(msg.as_deref(), Some("Could not inspect AUR Git for PKGBUILD: timeout"));
    assert_eq!(probe_started(false), RemotePkgbuildProbe { in_flight: false, remote_has_pkgbuild: None });
}

#[test]
fn register_prepare_then_push_flow() {
    let s = register_steps_initial(true);
    assert_eq!(s, RegisterSteps { prepared: false, prepare_enabled: true, push_enabled: false });
    let (s, a) = register_step(
        s,
        RegisterEvent::Defined { id: "foo".into(), title: "Foo".into() },
        true,
    );
    assert_eq!(
        a,
        RegisterAction::Save {
            summary: "Ready: foo — Foo".into(),
            toast: "Saved foo to the local registry.".into()
        }
    );
    let (s, a) = register_step(
        s,
        RegisterEvent::PushClicked { work_dir_set: true, package_defined: true },
        true,
    );
    assert_eq!(
        a,
        RegisterAction::Toast("Run “Validate, clone, and stage” successfully before pushing.".into())
    );
    let (s, a) = register_step(
        s,
        RegisterEvent::PrepareClicked { work_dir_set: true, package_defined: true, allow_history: true },
        true,
    );
    assert_eq!(a, RegisterAction::RunPrepare(RegisterRemoteHistoryMode::AllowExistingRemoteHistory));
    assert_eq!(s, RegisterSteps { prepared: false, prepare_enabled: false, push_enabled: false });
    let (s, _) = register_step(s, RegisterEvent::PrepareFinished(Ok(())), true);
    assert_eq!(s, RegisterSteps { prepared: true, prepare_enabled: true, push_enabled: true });
    let (s, a) = register_step(
        s,
        RegisterEvent::PushClicked { work_dir_set: true, package_defined: true },
        true,
    );
    assert_eq!(a, RegisterAction::ConfirmPush);
    let (s, a) = register_step(s, RegisterEvent::PushConfirmed, true);
    assert_eq!(a, RegisterAction::RunPush);
    let (s, a) = register_step(
        s,
        RegisterEvent::PushFinished { id: "foo".into(), result: Ok(()) },
        true,
    );
    assert_eq!(
        a,
        RegisterAction::Registered(
            "Registered foo on the AUR — opened on Home for Publish or Validate.".into()
        )
    );
    assert_eq!(s, RegisterSteps { prepared: false, prepare_enabled: true, push_enabled: false });
}

#[test]
fn register_changes_close_push_step() {
    let prepared = RegisterSteps { prepared: true, prepare_enabled: true, push_enabled: true };
    let (s, a) = register_step(prepared, RegisterEvent::Invalidated, true);
    assert_eq!(a, RegisterAction::Idle);
    assert_eq!(s, RegisterSteps { prepared: false, prepare_enabled: true, push_enabled: false });
    let (s, a) = register_step(
        prepared,
        RegisterEvent::StarterFinished { id: "foo".into(), outcome: Ok(StarterPkgbuildOutcome::Created) },
        true,
    );
    assert_eq!(
        a,
        RegisterAction::StarterWritten(
            "Wrote starter PKGBUILD for foo — opened the editor; run Prepare when ready.".into()
        )
    );
    assert_eq!(s, RegisterSteps { prepared: false, prepare_enabled: true, push_enabled: false });
}

#[test]
fn register_gates_and_failures() {
    let s = register_steps_initial(false);
    let (_, a) = register_step(
        s,
        RegisterEvent::PrepareClicked { work_dir_set: false, package_defined: true, allow_history: false },
        false,
    );
    assert_eq!(a, RegisterAction::Toast("Set a working directory on the Connection tab first.".into()));
    let (_, a) = register_step(
        s,
        RegisterEvent::StarterClicked { work_dir_set: true, package_defined: true, folder_known: false },
        false,
    );
    assert_eq!(
        a,
        RegisterAction::Toast(
            "Pick a destination folder (Define package…) so the PKGBUILD path is known.".into()
        )
    );
    let (_, a) = register_step(
        s,
        RegisterEvent::StarterFinished { id: "foo".into(), outcome: Err("disk full".into()) },
        false,
    );
    assert_eq!(a, RegisterAction::Toast("Could not create starter: disk full".into()));
    let prepared = RegisterSteps { prepared: true, prepare_enabled: false, push_enabled: false };
    let (s2, a) = register_step(
        prepared,
        RegisterEvent::PushFinished { id: "foo".into(), result: Err("rejected".into()) },
        true,
    );
    assert_eq!(a, RegisterAction::Toast("rejected".into()));
    assert_eq!(s2, RegisterSteps { prepared: true, prepare_enabled: true, push_enabled: true });
}
