//! Register page: which PKGBUILD actions it offers, what its remote PKGBUILD
//! probe keeps, and when its prepare and push steps are open.
//!
//! The page itself (widgets, dialogs, spawning the prepare and push runs)
//! lives in the application; it hands each click and each finished run to
//! [`register_step`] and performs the action it gets back.
use vstd::prelude::*;

use crate::text::{append_chars, chars_of, string_of};
use crate::workflow::admin::RegisterRemoteHistoryMode;
use crate::workflow::pkgbuild_edit::StarterPkgbuildOutcome;

verus! {

/// Whether **Create starter PKGBUILD** and **Edit PKGBUILD** are offered.
#[derive(Debug, Clone, Copy, PartialEq, Eq, Structural)]
pub struct PkgbuildActions {
    pub starter: bool,
    pub edit: bool,
}

/// **Create starter PKGBUILD** is offered: the package and its folder are
/// known, no local `PKGBUILD` exists, and, with SSH ready, the finished remote
/// probe found none on the AUR either.
pub open spec fn starter_offered(
    ready: bool,
    has_pkg: bool,
    local: bool,
    ssh_ready: bool,
    in_flight: bool,
    remote: Option<bool>,
) -> bool {
    if !ready || !has_pkg {
        false
    } else if !ssh_ready {
        !local
    } else {
        !local && remote == Some(false) && !in_flight
    }
}

/// **Edit PKGBUILD** is offered: the package and its folder are known, and a
/// local `PKGBUILD` exists or, with SSH ready, the finished remote probe found
/// one on the AUR.
pub open spec fn edit_offered(
    ready: bool,
    has_pkg: bool,
    local: bool,
    ssh_ready: bool,
    in_flight: bool,
    remote: Option<bool>,
) -> bool {
    if !ready || !has_pkg {
        false
    } else if !ssh_ready {
        local
    } else if local {
        true
    } else {
        remote == Some(true) && !in_flight
    }
}

/// The PKGBUILD actions of the Register page: `ready` when the package folder
/// is known, `has_pkg` when a package is defined, `local` when its folder
/// holds a `PKGBUILD`, and the state of the remote probe.
pub fn register_pkgbuild_actions(
    ready: bool,
    has_pkg: bool,
    local: bool,
    ssh_ready: bool,
    in_flight: bool,
    remote: Option<bool>,
) -> (r: PkgbuildActions)
    ensures
        r.starter == starter_offered(ready, has_pkg, local, ssh_ready, in_flight, remote),
        r.edit == edit_offered(ready, has_pkg, local, ssh_ready, in_flight, remote),
{
    let starter = if !ready || !has_pkg {
        false
    } else if !ssh_ready {
        !local
    } else {
        !local && remote == Some(false) && !in_flight
    };
    let edit = if !ready || !has_pkg {
        false
    } else if !ssh_ready {
        local
    } else if local {
        true
    } else {
        remote == Some(true) && !in_flight
    };
    PkgbuildActions { starter, edit }
}

/// The page never offers both actions, and with SSH ready it offers to create
/// a starter only once the remote probe has finished and found no PKGBUILD on
/// the AUR.
pub proof fn law_pkgbuild_actions(
    ready: bool,
    has_pkg: bool,
    local: bool,
    ssh_ready: bool,
    in_flight: bool,
    remote: Option<bool>,
)
    ensures
        !(starter_offered(ready, has_pkg, local, ssh_ready, in_flight, remote) && edit_offered(
            ready,
            has_pkg,
            local,
            ssh_ready,
            in_flight,
            remote,
        )),
        ssh_ready && starter_offered(ready, has_pkg, local, ssh_ready, in_flight, remote) ==> !in_flight
            && remote == Some(false) && !local,
{
}

/// The remote PKGBUILD probe: whether it runs, and what it found.
#[derive(Debug, Clone, Copy, PartialEq, Eq, Structural)]
pub struct RemotePkgbuildProbe {
    pub in_flight: bool,
    pub remote_has_pkgbuild: Option<bool>,
}

/// The probe as a newly defined package starts it: running with SSH ready,
/// idle without; nothing is known yet either way.
pub fn probe_started(ssh_ready: bool) -> (r: RemotePkgbuildProbe)
    ensures
        r.in_flight == ssh_ready,
        r.remote_has_pkgbuild is None,
{
    RemotePkgbuildProbe { in_flight: ssh_ready, remote_has_pkgbuild: None }
}

/// Message when the remote probe failed.
pub open spec fn probe_failed_text(detail: Seq<char>) -> Seq<char> {
    "Could not inspect AUR Git for PKGBUILD: "@ + detail
}

/// A probe result for package `probed_id` arriving while the page shows
/// `current_id`: ignored when the page moved on to another package; else the
/// probe stops and keeps what it found, with a message when it failed.
pub fn probe_finished(
    probe: RemotePkgbuildProbe,
    current_id: Option<&str>,
    probed_id: &str,
    result: Result<bool, String>,
) -> (r: (RemotePkgbuildProbe, Option<String>))
    ensures
        !(current_id matches Some(c) && c@ == probed_id@) ==> r == (probe, None::<String>),
        current_id matches Some(c) && c@ == probed_id@ ==> !r.0.in_flight && match result {
            Ok(has) => r.0.remote_has_pkgbuild == Some(has) && r.1 is None,
            Err(e) => r.0.remote_has_pkgbuild is None && (r.1 matches Some(m) && m@ == probe_failed_text(
                e@,
            )),
        },
{
    let same = match current_id {
        Some(c) => crate::text::eq_chars(&chars_of(c), &chars_of(probed_id)),
        None => false,
    };
    if !same {
        return (probe, None);
    }
    match result {
        Ok(has) => (RemotePkgbuildProbe { in_flight: false, remote_has_pkgbuild: Some(has) }, None),
        Err(e) => {
            let mut v = chars_of("Could not inspect AUR Git for PKGBUILD: ");
            append_chars(&mut v, &chars_of(e.as_str()));
            (RemotePkgbuildProbe { in_flight: false, remote_has_pkgbuild: None }, Some(string_of(&v)))
        },
    }
}


/// The Register page's prepare and push steps.
#[derive(Debug, Clone, Copy, PartialEq, Eq, Structural)]
pub struct RegisterSteps {
    /// The last prepare succeeded and nothing was changed since.
    pub prepared: bool,
    pub prepare_enabled: bool,
    pub push_enabled: bool,
}

/// What happens on the Register page.
#[derive(Debug)]
pub enum RegisterEvent {
    /// A package was saved from the package editor.
    Defined { id: String, title: String },
    /// The remote-history choice changed, or the PKGBUILD was saved in the editor.
    Invalidated,
    /// **Create starter PKGBUILD** was clicked.
    StarterClicked { work_dir_set: bool, package_defined: bool, folder_known: bool },
    /// Writing the starter PKGBUILD for package `id` ended.
    StarterFinished { id: String, outcome: Result<StarterPkgbuildOutcome, String> },
    /// **Validate, clone, and stage** was clicked.
    PrepareClicked { work_dir_set: bool, package_defined: bool, allow_history: bool },
    /// The prepare run ended.
    PrepareFinished(Result<(), String>),
    /// **Commit and push to AUR** was clicked.
    PushClicked { work_dir_set: bool, package_defined: bool },
    /// The push was confirmed in the dialog.
    PushConfirmed,
    /// The push run for package `id` ended.
    PushFinished { id: String, result: Result<(), String> },
}

/// What the page does next.
#[derive(Debug, PartialEq, Eq)]
pub enum RegisterAction {
    /// Nothing beyond the new state of the buttons.
    Idle,
    /// Show a message.
    Toast(String),
    /// Save the package to the registry, show `summary`, restart the remote
    /// probe, and show `toast`.
    Save { summary: String, toast: String },
    /// Write the starter PKGBUILD (and the default `.gitignore`).
    WriteStarter,
    /// The starter was written: refresh the PKGBUILD actions, open the
    /// editor, and show the message.
    StarterWritten(String),
    /// Clear the log and run prepare in this mode.
    RunPrepare(RegisterRemoteHistoryMode),
    /// Ask for confirmation before pushing.
    ConfirmPush,
    /// Run the push.
    RunPush,
    /// The package is registered: open it on Home and show the message.
    Registered(String),
}

pub open spec fn no_work_dir_msg() -> Seq<char> {
    "Set a working directory on the Connection tab first."@
}

pub open spec fn saved_summary(id: Seq<char>, title: Seq<char>) -> Seq<char> {
    "Ready: "@ + id + " — "@ + title
}

pub open spec fn saved_toast(id: Seq<char>) -> Seq<char> {
    "Saved "@ + id + " to the local registry."@
}

pub open spec fn starter_written_toast(id: Seq<char>) -> Seq<char> {
    "Wrote starter PKGBUILD for "@ + id + " — opened the editor; run Prepare when ready."@
}

pub open spec fn registered_toast(id: Seq<char>) -> Seq<char> {
    "Registered "@ + id + " on the AUR — opened on Home for Publish or Validate."@
}

/// The steps as the page opens.
pub fn register_steps_initial(ssh_ready: bool) -> (r: RegisterSteps)
    ensures
        r == (RegisterSteps { prepared: false, prepare_enabled: ssh_ready, push_enabled: false }),
{
    RegisterSteps { prepared: false, prepare_enabled: ssh_ready, push_enabled: false }
}

/// The steps after an event, with SSH ready or not when it happens.
pub open spec fn next_steps(s: RegisterSteps, e: RegisterEvent, ssh_ready: bool) -> RegisterSteps {
    match e {
        RegisterEvent::Defined { .. } => RegisterSteps {
            prepared: false,
            prepare_enabled: ssh_ready,
            push_enabled: false,
        },
        RegisterEvent::Invalidated => RegisterSteps { prepared: false, push_enabled: false, ..s },
        RegisterEvent::StarterClicked { .. } => s,
        RegisterEvent::StarterFinished { outcome, .. } => if outcome == Ok::<
            StarterPkgbuildOutcome,
            String,
        >(StarterPkgbuildOutcome::Created) {
            RegisterSteps { prepared: false, push_enabled: false, ..s }
        } else {
            s
        },
        RegisterEvent::PrepareClicked { work_dir_set, package_defined, .. } => if work_dir_set
            && package_defined {
            RegisterSteps { prepared: false, prepare_enabled: false, push_enabled: false }
        } else {
            s
        },
        RegisterEvent::PrepareFinished(res) => if res is Ok {
            RegisterSteps { prepared: true, prepare_enabled: ssh_ready, push_enabled: ssh_ready }
        } else {
            RegisterSteps { prepare_enabled: ssh_ready, ..s }
        },
        RegisterEvent::PushClicked { .. } => s,
        RegisterEvent::PushConfirmed => RegisterSteps {
            prepare_enabled: false,
            push_enabled: false,
            ..s
        },
        RegisterEvent::PushFinished { result, .. } => if result is Ok {
            RegisterSteps { prepared: false, prepare_enabled: ssh_ready, push_enabled: false }
        } else {
            RegisterSteps { prepare_enabled: ssh_ready, push_enabled: ssh_ready, ..s }
        },
    }
}

fn toast(s: &str) -> (r: RegisterAction)
    ensures
        r matches RegisterAction::Toast(t) && t@ == s@,
{
    RegisterAction::Toast(string_of(&chars_of(s)))
}

/// One step of the Register page: the new state of its buttons and what it
/// does next.
pub fn register_step(s: RegisterSteps, e: RegisterEvent, ssh_ready: bool) -> (r: (
    RegisterSteps,
    RegisterAction,
))
    ensures
        r.0 == next_steps(s, e, ssh_ready),
        match e {
            RegisterEvent::Defined { id, title } => r.1 matches RegisterAction::Save { summary, toast }
                && summary@ == saved_summary(id@, title@) && toast@ == saved_toast(id@),
            RegisterEvent::Invalidated => r.1 is Idle,
            RegisterEvent::StarterClicked { work_dir_set, package_defined, folder_known } => if !work_dir_set {
                r.1 matches RegisterAction::Toast(t) && t@ == no_work_dir_msg()
            } else if !package_defined {
                r.1 matches RegisterAction::Toast(t) && t@ == "Define a package first."@
            } else if !folder_known {
                r.1 matches RegisterAction::Toast(t) && t@
                    == "Pick a destination folder (Define package…) so the PKGBUILD path is known."@
            } else {
                r.1 is WriteStarter
            },
            RegisterEvent::StarterFinished { id, outcome } => match outcome {
                Ok(StarterPkgbuildOutcome::Created) => r.1 matches RegisterAction::StarterWritten(t)
                    && t@ == starter_written_toast(id@),
                Ok(StarterPkgbuildOutcome::SkippedExisting) => r.1 matches RegisterAction::Toast(t)
                    && t@
                    == "PKGBUILD already exists — starter was not written. Use Edit PKGBUILD or delete the file first."@,
                Err(msg) => r.1 matches RegisterAction::Toast(t) && t@ == "Could not create starter: "@
                    + msg@,
            },
            RegisterEvent::PrepareClicked { work_dir_set, package_defined, allow_history } => if !work_dir_set {
                r.1 matches RegisterAction::Toast(t) && t@ == no_work_dir_msg()
            } else if !package_defined {
                r.1 matches RegisterAction::Toast(t) && t@ == "Define a package before preparing."@
            } else {
                r.1 == RegisterAction::RunPrepare(
                    if allow_history {
                        RegisterRemoteHistoryMode::AllowExistingRemoteHistory
                    } else {
                        RegisterRemoteHistoryMode::StrictEmptyRemoteOnly
                    },
                )
            },
            RegisterEvent::PrepareFinished(res) => match res {
                Ok(_) => r.1 matches RegisterAction::Toast(t) && t@
                    == "Prepare finished — review the log, then use Commit and push when ready."@,
                Err(msg) => r.1 matches RegisterAction::Toast(t) && t@ == msg@,
            },
            RegisterEvent::PushClicked { work_dir_set, package_defined } => if !s.prepared {
                r.1 matches RegisterAction::Toast(t) && t@
                    == "Run “Validate, clone, and stage” successfully before pushing."@
            } else if !work_dir_set {
                r.1 matches RegisterAction::Toast(t) && t@ == no_work_dir_msg()
            } else if !package_defined {
                r.1 matches RegisterAction::Toast(t) && t@ == "Define a package before pushing."@
            } else {
                r.1 is ConfirmPush
            },
            RegisterEvent::PushConfirmed => r.1 is RunPush,
            RegisterEvent::PushFinished { id, result } => match result {
                Ok(_) => r.1 matches RegisterAction::Registered(t) && t@ == registered_toast(id@),
                Err(msg) => r.1 matches RegisterAction::Toast(t) && t@ == msg@,
            },
        },
{
    let ghost e0 = e;
    match e {
        RegisterEvent::Defined { id, title } => {
            let mut sm = chars_of("Ready: ");
            append_chars(&mut sm, &chars_of(id.as_str()));
            append_chars(&mut sm, &chars_of(" — "));
            append_chars(&mut sm, &chars_of(title.as_str()));
            let mut tm = chars_of("Saved ");
            append_chars(&mut tm, &chars_of(id.as_str()));
            append_chars(&mut tm, &chars_of(" to the local registry."));
            (
                RegisterSteps { prepared: false, prepare_enabled: ssh_ready, push_enabled: false },
                RegisterAction::Save { summary: string_of(&sm), toast: string_of(&tm) },
            )
        },
        RegisterEvent::Invalidated => (
            RegisterSteps { prepared: false, prepare_enabled: s.prepare_enabled, push_enabled: false },
            RegisterAction::Idle,
        ),
        RegisterEvent::StarterClicked { work_dir_set, package_defined, folder_known } => {
            if !work_dir_set {
                (s, toast("Set a working directory on the Connection tab first."))
            } else if !package_defined {
                (s, toast("Define a package first."))
            } else if !folder_known {
                (s, toast("Pick a destination folder (Define package…) so the PKGBUILD path is known."))
            } else {
                (s, RegisterAction::WriteStarter)
            }
        },
        RegisterEvent::StarterFinished { id, outcome } => match outcome {
            Ok(StarterPkgbuildOutcome::Created) => {
                let mut m = chars_of("Wrote starter PKGBUILD for ");
                append_chars(&mut m, &chars_of(id.as_str()));
                append_chars(&mut m, &chars_of(" — opened the editor; run Prepare when ready."));
                (
                    RegisterSteps { prepared: false, prepare_enabled: s.prepare_enabled, push_enabled: false },
                    RegisterAction::StarterWritten(string_of(&m)),
                )
            },
            Ok(StarterPkgbuildOutcome::SkippedExisting) => (
                s,
                toast(
                    "PKGBUILD already exists — starter was not written. Use Edit PKGBUILD or delete the file first.",
                ),
            ),
            Err(msg) => {
                let mut m = chars_of("Could not create starter: ");
                append_chars(&mut m, &chars_of(msg.as_str()));
                (s, RegisterAction::Toast(string_of(&m)))
            },
        },
        RegisterEvent::PrepareClicked { work_dir_set, package_defined, allow_history } => {
            if !work_dir_set {
                (s, toast("Set a working directory on the Connection tab first."))
            } else if !package_defined {
                (s, toast("Define a package before preparing."))
            } else {
                let mode = if allow_history {
                    RegisterRemoteHistoryMode::AllowExistingRemoteHistory
                } else {
                    RegisterRemoteHistoryMode::StrictEmptyRemoteOnly
                };
                (
                    RegisterSteps { prepared: false, prepare_enabled: false, push_enabled: false },
                    RegisterAction::RunPrepare(mode),
                )
            }
        },
        RegisterEvent::PrepareFinished(res) => match res {
            Ok(()) => (
                RegisterSteps { prepared: true, prepare_enabled: ssh_ready, push_enabled: ssh_ready },
                toast("Prepare finished — review the log, then use Commit and push when ready."),
            ),
            Err(msg) => (
                RegisterSteps { prepared: s.prepared, prepare_enabled: ssh_ready, push_enabled: s.push_enabled },
                RegisterAction::Toast(msg),
            ),
        },
        RegisterEvent::PushClicked { work_dir_set, package_defined } => {
            if !s.prepared {
                (s, toast("Run “Validate, clone, and stage” successfully before pushing."))
            } else if !work_dir_set {
                (s, toast("Set a working directory on the Connection tab first."))
            } else if !package_defined {
                (s, toast("Define a package before pushing."))
            } else {
                (s, RegisterAction::ConfirmPush)
            }
        },
        RegisterEvent::PushConfirmed => (
            RegisterSteps { prepared: s.prepared, prepare_enabled: false, push_enabled: false },
            RegisterAction::RunPush,
        ),
        RegisterEvent::PushFinished { id, result } => match result {
            Ok(()) => {
                let mut m = chars_of("Registered ");
                append_chars(&mut m, &chars_of(id.as_str()));
                append_chars(&mut m, &chars_of(" on the AUR — opened on Home for Publish or Validate."));
                (
                    RegisterSteps { prepared: false, prepare_enabled: ssh_ready, push_enabled: false },
                    RegisterAction::Registered(string_of(&m)),
                )
            },
            Err(msg) => (
                RegisterSteps { prepared: s.prepared, prepare_enabled: ssh_ready, push_enabled: ssh_ready },
                RegisterAction::Toast(msg),
            ),
        },
    }
}

/// The push button is open only after a successful prepare with nothing
/// changed since: every step keeps it so, except a failed push that ends
/// after the prepared state was already cleared, where the button opens again
/// and the click is then refused.
pub proof fn law_push_needs_prepare(s: RegisterSteps, e: RegisterEvent, ssh_ready: bool)
    requires
        s.push_enabled ==> s.prepared,
        !(e matches RegisterEvent::PushFinished { result, .. } && result is Err && !s.prepared),
    ensures
        next_steps(s, e, ssh_ready).push_enabled ==> next_steps(s, e, ssh_ready).prepared,
{
}

/// Changing the remote-history choice, saving the PKGBUILD or writing a
/// starter closes the push step until prepare runs again.
pub proof fn law_changes_close_push(s: RegisterSteps, id: String, ssh_ready: bool)
    ensures
        !next_steps(s, RegisterEvent::Invalidated, ssh_ready).prepared,
        !next_steps(s, RegisterEvent::Invalidated, ssh_ready).push_enabled,
        !next_steps(
            s,
            RegisterEvent::StarterFinished { id, outcome: Ok(StarterPkgbuildOutcome::Created) },
            ssh_ready,
        ).prepared,
        !next_steps(
            s,
            RegisterEvent::StarterFinished { id, outcome: Ok(StarterPkgbuildOutcome::Created) },
            ssh_ready,
        ).push_enabled,
{
}

} // verus!
