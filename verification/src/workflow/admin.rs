//! Lifecycle decisions for registry packages: comparing a local PKGBUILD with
//! upstream, the Register wizard's gates, and its error type.
//!
//! The Git, `makepkg` and network steps run in the application.
use vstd::prelude::*;

use crate::text::{
    append_chars, chars_of, decimal, decimal_exec, eq_chars, join, join_exec, lemma_deep_chars,
    replace_all, replace_all_exec, string_of, trim, trim_vec,
};
use crate::workflow::aur_account::{aur_account_error_message, AurAccountError};
use crate::workflow::package::PackageDef;
use crate::workflow::pkgbase::{validate_aur_pkgbase_id, PkgbaseNsError, PkgbasePublishNs, PkgbaseValidationError, is_pkgbase_char};
use crate::workflow::pkgbuild_diff::{local_upstream_diff, unified_pkbuild_diff_local_vs_upstream};
use crate::workflow::pkgbuild_edit::{parse_quick_fields_checked, parse_quick_fields_spec, FieldsModel};
use crate::workflow::ssh_setup::strings_view;
use crate::workflow::sync::{opt_str_ref, package_dir, package_dir_of};
use crate::workflow::validate::{check_tier, check_title, CheckOutcome, CheckReport, CheckTier};

verus! {

/// How the Register prepare step treats commits already on `origin/master`.
#[derive(Debug, Clone, Copy, PartialEq, Eq, Default, Structural)]
pub enum RegisterRemoteHistoryMode {
    /// Stop after showing a short `git log`; the maintainer must confirm.
    #[default]
    StrictEmptyRemoteOnly,
    /// Proceed on top of existing history.
    AllowExistingRemoteHistory,
}

/// Typed outcome of a lifecycle call.
#[derive(Debug)]
pub enum AdminError {
    /// Planned but not wired up yet; the text is a short label.
    NotImplemented(&'static str),
    /// The pkgbase matches an official repository package.
    OfficialRepoPkgbaseCollision,
    /// The pkgbase already exists on the AUR.
    AurPkgbaseAlreadyExists,
    PacmanNamespace(String),
    RunningAsRoot,
    RemoteHasGitHistory,
    RegisterPrecheck(&'static str),
    /// Required-tier validation did not all pass.
    ValidationRequiredFailed(String),
    /// Any other runtime failure, by its message.
    Other(String),
}

/// User-facing text of a lifecycle error.
pub open spec fn admin_error_message(e: AdminError) -> Seq<char> {
    match e {
        AdminError::NotImplemented(w) => "not implemented yet: "@ + w@,
        AdminError::OfficialRepoPkgbaseCollision =>
            "This pkgbase matches an official repository package. Pick another name for the AUR."@,
        AdminError::AurPkgbaseAlreadyExists =>
            "This pkgbase already exists on the AUR. Use Publish to update an existing clone, not “Register new AUR package”."@,
        AdminError::PacmanNamespace(m) => "could not query official repositories with pacman: "@ + m@,
        AdminError::RunningAsRoot =>
            "makepkg validation must not run as root — run the app as a normal user."@,
        AdminError::RemoteHasGitHistory =>
            "The AUR Git remote already has commits on master. Review the log above, then enable “Allow existing remote Git history” in the Register wizard if you intend to continue, or pick another pkgbase."@,
        AdminError::RegisterPrecheck(m) => m@,
        AdminError::ValidationRequiredFailed(m) => "validation failed (required checks must pass): "@ + m@,
        AdminError::Other(m) => m@,
    }
}

impl AdminError {
    /// User-facing text of the error.
    pub fn message(&self) -> (r: String)
        ensures
            r@ == admin_error_message(*self),
    {
        let v = match self {
            AdminError::NotImplemented(w) => {
                let mut v = chars_of("not implemented yet: ");
                append_chars(&mut v, &chars_of(w));
                v
            },
            AdminError::OfficialRepoPkgbaseCollision => chars_of(
                "This pkgbase matches an official repository package. Pick another name for the AUR.",
            ),
            AdminError::AurPkgbaseAlreadyExists => chars_of(
                "This pkgbase already exists on the AUR. Use Publish to update an existing clone, not “Register new AUR package”.",
            ),
            AdminError::PacmanNamespace(m) => {
                let mut v = chars_of("could not query official repositories with pacman: ");
                append_chars(&mut v, &chars_of(m.as_str()));
                v
            },
            AdminError::RunningAsRoot => chars_of(
                "makepkg validation must not run as root — run the app as a normal user.",
            ),
            AdminError::RemoteHasGitHistory => chars_of(
                "The AUR Git remote already has commits on master. Review the log above, then enable “Allow existing remote Git history” in the Register wizard if you intend to continue, or pick another pkgbase.",
            ),
            AdminError::RegisterPrecheck(m) => chars_of(m),
            AdminError::ValidationRequiredFailed(m) => {
                let mut v = chars_of("validation failed (required checks must pass): ");
                append_chars(&mut v, &chars_of(m.as_str()));
                v
            },
            AdminError::Other(m) => chars_of(m.as_str()),
        };
        string_of(&v)
    }
}

/// High-level status of a local PKGBUILD against upstream.
#[derive(Debug, Clone)]
pub enum UpdateStatus {
    /// The texts match after newline normalization.
    UpToDate { version: String },
    /// The texts differ.
    Outdated {
        /// Local `pkgver=` value when present, else `"?"`.
        local: String,
        /// Upstream `pkgver=` value when present, else `"?"`.
        upstream: String,
        /// Unified diff (local → upstream).
        diff: String,
    },
}

/// Message of the "no local PKGBUILD" failure of an upstream check.
pub const CHECK_UPSTREAM_PKGBUILD_MISSING_MSG: &'static str =
    "PKGBUILD is missing — use Sync or create the file first.";

pub open spec fn missing_msg() -> Seq<char> {
    "PKGBUILD is missing — use Sync or create the file first."@
}

/// Whether an error is the "no local PKGBUILD" outcome of an upstream check.
pub fn is_missing_pkgbuild_upstream_error(err: &AdminError) -> (r: bool)
    ensures
        r == (err matches AdminError::Other(m) && m@ == missing_msg()),
{
    match err {
        AdminError::Other(m) => eq_chars(
            &chars_of(m.as_str()),
            &chars_of("PKGBUILD is missing — use Sync or create the file first."),
        ),
        _ => false,
    }
}

/// `\r\n` replaced by `\n`.
pub open spec fn normalize_newlines(s: Seq<char>) -> Seq<char> {
    replace_all(s, seq!['\r', '\n'], seq!['\n'])
}

/// PKGBUILD text with `\r\n` line endings turned into `\n`.
pub fn normalize_pkgbuild_text(s: &str) -> (r: String)
    ensures
        r@ == normalize_newlines(s@),
{
    let crlf = vec!['\r', '\n'];
    let lf = vec!['\n'];
    assert(crlf@ =~= seq!['\r', '\n']);
    assert(lf@ =~= seq!['\n']);
    string_of(&replace_all_exec(&chars_of(s), &crlf, &lf))
}

/// `pkgver` of parsed quick fields, or `"?"`.
pub open spec fn pkgver_or_unknown(f: Option<FieldsModel>) -> Seq<char> {
    match f {
        Some(fs) => match fs[2] {
            Some(v) => v,
            None => "?"@,
        },
        None => "?"@,
    }
}

/// Whether the quick-field parser can read every text the classification reads.
pub open spec fn classify_readable(local: Seq<char>, upstream: Seq<char>) -> bool {
    &&& parse_quick_fields_spec(normalize_newlines(local)) is Some
    &&& normalize_newlines(local) != normalize_newlines(upstream) ==> parse_quick_fields_spec(
        normalize_newlines(upstream),
    ) is Some
}

/// The status of a local PKGBUILD against upstream.
pub open spec fn classified(local: Seq<char>, upstream: Seq<char>, r: UpdateStatus) -> bool {
    let loc = normalize_newlines(local);
    let up = normalize_newlines(upstream);
    if loc == up {
        r matches UpdateStatus::UpToDate { version } && version@ == pkgver_or_unknown(
            parse_quick_fields_spec(loc),
        )
    } else {
        r matches UpdateStatus::Outdated { local: l, upstream: u, diff } && l@ == pkgver_or_unknown(
            parse_quick_fields_spec(loc),
        ) && u@ == pkgver_or_unknown(parse_quick_fields_spec(up)) && diff@ == local_upstream_diff(
            loc,
            up,
        )
    }
}

/// A local PKGBUILD is up to date exactly when it is the upstream text once
/// `\r\n` line endings are read as `\n`: any other difference, a `pkgrel`
/// bump or an edit that keeps `pkgver` included, makes it outdated. An up to
/// date status carries the local `pkgver`; an outdated one carries the local
/// `pkgver` as `local`, the upstream one as `upstream`, and the diff of the
/// local text (old side) against the upstream text (new side).
pub proof fn law_outdated_iff_texts_differ(local: Seq<char>, upstream: Seq<char>, r: UpdateStatus)
    requires
        classified(local, upstream, r),
    ensures
        (r is Outdated) <==> replace_all(local, "\r\n"@, "\n"@) != replace_all(upstream, "\r\n"@, "\n"@),
        (r is UpToDate) <==> replace_all(local, "\r\n"@, "\n"@) == replace_all(upstream, "\r\n"@, "\n"@),
        r matches UpdateStatus::UpToDate { version } ==> (parse_quick_fields_spec(
            replace_all(local, "\r\n"@, "\n"@),
        ) matches Some(f) ==> (f[2] matches Some(v) ==> version@ == v)),
        r matches UpdateStatus::Outdated { local: l, upstream: u, diff } ==> (parse_quick_fields_spec(
            replace_all(local, "\r\n"@, "\n"@),
        ) matches Some(f) ==> (f[2] matches Some(v) ==> l@ == v)) && (parse_quick_fields_spec(
            replace_all(upstream, "\r\n"@, "\n"@),
        ) matches Some(f) ==> (f[2] matches Some(v) ==> u@ == v)) && diff@ == local_upstream_diff(
            replace_all(local, "\r\n"@, "\n"@),
            replace_all(upstream, "\r\n"@, "\n"@),
        ),
{
    reveal_strlit("\r\n");
    reveal_strlit("\n");
    assert("\r\n"@ =~= seq!['\r', '\n']);
    assert("\n"@ =~= seq!['\n']);
    let loc = replace_all(local, "\r\n"@, "\n"@);
    let up = replace_all(upstream, "\r\n"@, "\n"@);
    assert(loc == normalize_newlines(local));
    assert(up == normalize_newlines(upstream));
    match r {
        UpdateStatus::UpToDate { version } => {
            if let Some(f) = parse_quick_fields_spec(loc) {
                if let Some(v) = f[2] {
                    assert(version@ == v);
                }
            }
        },
        UpdateStatus::Outdated { local: l, upstream: u, diff } => {
            if let Some(f) = parse_quick_fields_spec(loc) {
                if let Some(v) = f[2] {
                    assert(l@ == v);
                }
            }
            if let Some(f) = parse_quick_fields_spec(up) {
                if let Some(v) = f[2] {
                    assert(u@ == v);
                }
            }
        },
    }
}

fn pkgver_string(text: &str) -> (r: Option<String>)
    ensures
        match r {
            Some(v) => parse_quick_fields_spec(text@) is Some && v@ == pkgver_or_unknown(
                parse_quick_fields_spec(text@),
            ),
            None => parse_quick_fields_spec(text@) is None,
        },
{
    match parse_quick_fields_checked(text) {
        None => None,
        Some(f) => match f.pkgver {
            Some(v) => Some(v),
            None => Some(string_of(&chars_of("?"))),
        },
    }
}

/// Compares local and upstream PKGBUILD text; `None` when the quick-field
/// parser cannot read one of them.
pub fn classify_local_vs_upstream_pkgbuild_checked(local: &str, upstream: &str) -> (r: Option<
    UpdateStatus,
>)
    ensures
        match r {
            Some(s) => classify_readable(local@, upstream@) && classified(local@, upstream@, s),
            None => !classify_readable(local@, upstream@),
        },
{
    let loc = normalize_pkgbuild_text(local);
    let up = normalize_pkgbuild_text(upstream);
    if eq_chars(&chars_of(loc.as_str()), &chars_of(up.as_str())) {
        match pkgver_string(loc.as_str()) {
            None => None,
            Some(version) => Some(UpdateStatus::UpToDate { version }),
        }
    } else {
        match pkgver_string(loc.as_str()) {
            None => None,
            Some(l) => match pkgver_string(up.as_str()) {
                None => None,
                Some(u) => {
                    let diff = unified_pkbuild_diff_local_vs_upstream(loc.as_str(), up.as_str());
                    Some(UpdateStatus::Outdated { local: l, upstream: u, diff })
                },
            },
        }
    }
}

/// Compares local and upstream PKGBUILD text (after `\r\n` → `\n`): up to
/// date with the local `pkgver`, or outdated with both versions and a unified
/// diff.
pub fn classify_local_vs_upstream_pkgbuild(local: &str, upstream: &str) -> (r: UpdateStatus)
    requires
        classify_readable(local@, upstream@),
    ensures
        classified(local@, upstream@, r),
{
    match classify_local_vs_upstream_pkgbuild_checked(local, upstream) {
        Some(s) => s,
        None => UpdateStatus::UpToDate { version: String::new() },
    }
}

/// Register refuses ids outside the pkgbase rules, with the rule's message.
pub fn register_precheck_ids(pkg: &PackageDef) -> (r: Result<(), AdminError>)
    ensures
        match validate_result_spec(pkg.id@) {
            None => r is Ok,
            Some(m) => r matches Err(AdminError::Other(x)) && x@ == m,
        },
{
    match validate_aur_pkgbase_id(pkg.id.as_str()) {
        Ok(()) => Ok(()),
        Err(e) => Err(AdminError::Other(string_of(&chars_of(e.message())))),
    }
}

/// Message of the pkgbase rule an id breaks, if any.
pub open spec fn validate_result_spec(id: Seq<char>) -> Option<Seq<char>> {
    if trim(id).len() == 0 {
        Some("Pkgbase must not be empty."@)
    } else if !crate::text::all_chars(trim(id), |c: char| is_pkgbase_char(c)) {
        Some("Use only ASCII lowercase letters, digits, and @ . _ + - (AUR / makepkg rules)."@)
    } else {
        None
    }
}

/// Register refuses a pkgbase taken by an official package or already on the AUR.
pub fn namespace_gate(ns: PkgbasePublishNs) -> (r: Result<(), AdminError>)
    ensures
        ns.official_repo_hit ==> r matches Err(AdminError::OfficialRepoPkgbaseCollision),
        !ns.official_repo_hit && ns.aur_pkgbase_hit ==> r matches Err(
            AdminError::AurPkgbaseAlreadyExists,
        ),
        !ns.official_repo_hit && !ns.aur_pkgbase_hit ==> r is Ok,
{
    if ns.official_repo_hit {
        return Err(AdminError::OfficialRepoPkgbaseCollision);
    }
    if ns.aur_pkgbase_hit {
        return Err(AdminError::AurPkgbaseAlreadyExists);
    }
    Ok(())
}

/// Namespace probe failures as lifecycle errors.
pub fn map_pkgbase_ns_err(e: PkgbaseNsError) -> (r: AdminError)
    ensures
        match e {
            PkgbaseNsError::Pacman(m) => r matches AdminError::PacmanNamespace(x) && x == m,
            PkgbaseNsError::Aur(a) => r matches AdminError::Other(x) && x@
                == aur_account_error_message(a),
        },
{
    match e {
        PkgbaseNsError::Pacman(msg) => AdminError::PacmanNamespace(msg),
        PkgbaseNsError::Aur(a) => AdminError::Other(a.message()),
    }
}

/// Message when no build directory can be resolved for Register.
pub open spec fn no_build_dir_msg() -> Seq<char> {
    "Set a working directory and Sync destination (or package folder) before registering."@
}

/// The package directory Register works in.
pub fn register_resolve_build_dir(work_dir: &str, pkg: &PackageDef) -> (r: Result<
    String,
    AdminError,
>)
    ensures
        match package_dir_of(Some(work_dir@), *pkg) {
            Some(d) => r matches Ok(x) && x@ == d,
            None => r matches Err(AdminError::RegisterPrecheck(m)) && m@ == no_build_dir_msg(),
        },
{
    match package_dir(Some(work_dir), pkg) {
        Some(d) => Ok(d),
        None => Err(
            AdminError::RegisterPrecheck(
                "Set a working directory and Sync destination (or package folder) before registering.",
            ),
        ),
    }
}

/// Failing required checks as `title — summary` lines.
pub open spec fn required_failures(rs: Seq<CheckReport>) -> Seq<Seq<char>>
    decreases rs.len(),
{
    if rs.len() == 0 {
        seq![]
    } else {
        let acc = required_failures(rs.drop_last());
        let r = rs.last();
        if check_tier(r.id) == CheckTier::Required && r.outcome != CheckOutcome::Pass {
            acc.push(check_title(r.id) + " — "@ + r.summary@)
        } else {
            acc
        }
    }
}

/// Summary of the failed required checks, joined with `; `.
pub open spec fn required_failure_summary(rs: Seq<CheckReport>) -> Seq<char> {
    let parts = required_failures(rs);
    if parts.len() == 0 {
        "required tier incomplete (internal)"@
    } else {
        join(parts, "; "@)
    }
}

/// One line naming each failed required check and its summary.
pub fn summarize_required_failures(reports: &Vec<CheckReport>) -> (r: String)
    ensures
        r@ == required_failure_summary(reports@),
{
    let mut parts: Vec<Vec<char>> = Vec::new();
    let mut i: usize = 0;
    assert(reports@.take(0) =~= Seq::<CheckReport>::empty());
    assert(parts.deep_view() =~= Seq::<Seq<char>>::empty());
    while i < reports.len()
        invariant
            i <= reports.len(),
            parts.deep_view() == required_failures(reports@.take(i as int)),
        decreases reports.len() - i,
    {
        assert(reports@.take(i as int + 1).drop_last() =~= reports@.take(i as int));
        let r = &reports[i];
        if r.id.tier() == CheckTier::Required && r.outcome != CheckOutcome::Pass {
            let mut line = chars_of(r.id.title());
            append_chars(&mut line, &chars_of(" — "));
            append_chars(&mut line, &chars_of(r.summary.as_str()));
            let ghost p0 = parts.deep_view();
            let ghost lv = line@;
            proof {
                lemma_deep_chars(&line);
            }
            parts.push(line);
            assert(parts.deep_view() =~= p0.push(lv)) by {
                assert forall|k: int| 0 <= k < p0.len() implies parts.deep_view()[k] == p0[k] by {}
            }
        }
        i += 1;
    }
    assert(reports@.take(reports.len() as int) =~= reports@);
    if parts.len() == 0 {
        return string_of(&chars_of("required tier incomplete (internal)"));
    }
    string_of(&join_exec(&parts, &chars_of("; ")))
}

/// Message when the clone is not on `master`.
pub open spec fn not_master_msg(clone_dir: Seq<char>) -> Seq<char> {
    "Switch the clone at "@ + clone_dir + " to master (e.g. git branch -M master) before pushing."@
}

/// The AUR accepts pushes to `master` only: checks the (trimmed) current
/// branch name reported by `git branch --show-current`.
pub fn require_master_branch(current: &str, clone_dir: &str) -> (r: Result<(), AdminError>)
    ensures
        trim(current@) == "master"@ ==> r is Ok,
        trim(current@) != "master"@ ==> (r matches Err(AdminError::Other(m)) && m@ == not_master_msg(
            clone_dir@,
        )),
{
    let name = trim_vec(&chars_of(current));
    if eq_chars(&name, &chars_of("master")) {
        return Ok(());
    }
    let mut m = chars_of("Switch the clone at ");
    append_chars(&mut m, &chars_of(clone_dir));
    append_chars(&mut m, &chars_of(" to master (e.g. git branch -M master) before pushing."));
    Err(AdminError::Other(string_of(&m)))
}

/// Message when the package directory has no `PKGBUILD` at Register time.
pub open spec fn register_missing_pkgbuild_msg() -> Seq<char> {
    "PKGBUILD is missing in the package directory — add or sync it before registering."@
}

/// Register needs a `PKGBUILD` in the package directory; the application
/// reports whether the file exists.
pub fn register_ensure_pkgbuild(pkgbuild_is_file: bool) -> (r: Result<(), AdminError>)
    ensures
        pkgbuild_is_file <==> r is Ok,
        r matches Err(e) ==> (e matches AdminError::RegisterPrecheck(m) && m@ == register_missing_pkgbuild_msg()),
{
    if !pkgbuild_is_file {
        return Err(
            AdminError::RegisterPrecheck(
                "PKGBUILD is missing in the package directory — add or sync it before registering.",
            ),
        );
    }
    Ok(())
}

/// Message when a package has no upstream PKGBUILD URL.
pub open spec fn no_pkgbuild_url_msg() -> Seq<char> {
    "No PKGBUILD URL — add one under Edit package."@
}

/// Message when the package directory cannot be resolved for the check.
pub open spec fn no_package_dir_msg() -> Seq<char> {
    "Could not resolve the package directory — set a working directory or Sync destination."@
}

/// What "check upstream" reads: the trimmed PKGBUILD URL and the package
/// directory; an error when either is missing.
pub fn check_upstream_targets(work_dir: &str, pkg: &PackageDef) -> (r: Result<(String, String), AdminError>)
    ensures
        trim(pkg.pkgbuild_url@).len() == 0 ==> (r matches Err(AdminError::Other(m)) && m@ == no_pkgbuild_url_msg()),
        trim(pkg.pkgbuild_url@).len() > 0 && package_dir_of(Some(work_dir@), *pkg) is None ==> (r matches Err(
            AdminError::Other(m),
        ) && m@ == no_package_dir_msg()),
        trim(pkg.pkgbuild_url@).len() > 0 && package_dir_of(Some(work_dir@), *pkg) is Some ==> (r matches Ok(t)
            && t.0@ == trim(pkg.pkgbuild_url@) && Some(t.1@) == package_dir_of(Some(work_dir@), *pkg)),
{
    let url = trim_vec(&chars_of(pkg.pkgbuild_url.as_str()));
    if url.len() == 0 {
        return Err(AdminError::Other(string_of(&chars_of("No PKGBUILD URL — add one under Edit package."))));
    }
    match package_dir(Some(work_dir), pkg) {
        None => Err(
            AdminError::Other(
                string_of(
                    &chars_of(
                        "Could not resolve the package directory — set a working directory or Sync destination.",
                    ),
                ),
            ),
        ),
        Some(dir) => Ok((string_of(&url), dir)),
    }
}

/// Outcome of "check upstream" from what was read: a missing local
/// `PKGBUILD` gives the dedicated message, other read or download failures
/// their text, else the comparison of the two texts (whose quick fields must
/// be readable: reading them panics otherwise).
pub fn check_upstream_outcome(
    local: Result<String, crate::workflow::pkgbuild_edit::PkgbuildEditError>,
    upstream: Result<String, String>,
) -> (r: Result<UpdateStatus, AdminError>)
    requires
        local matches Ok(l) ==> (upstream matches Ok(u) ==> classify_readable(l@, u@)),
    ensures
        match local {
            Err(crate::workflow::pkgbuild_edit::PkgbuildEditError::NotFound(_)) => (r matches Err(
                AdminError::Other(m),
            ) && m@ == missing_msg()),
            Err(e) => (r matches Err(AdminError::Other(m)) && m@
                == crate::workflow::pkgbuild_edit::edit_error_message(e)),
            Ok(l) => match upstream {
                Err(u) => (r matches Err(AdminError::Other(m)) && m@ == u@),
                Ok(u) => (r matches Ok(s) && classified(l@, u@, s)),
            },
        },
{
    let l = match local {
        Err(crate::workflow::pkgbuild_edit::PkgbuildEditError::NotFound(_)) => {
            return Err(AdminError::Other(string_of(&chars_of(CHECK_UPSTREAM_PKGBUILD_MISSING_MSG))));
        },
        Err(e) => {
            return Err(AdminError::Other(e.message()));
        },
        Ok(l) => l,
    };
    let u = match upstream {
        Err(e) => {
            return Err(AdminError::Other(e));
        },
        Ok(u) => u,
    };
    Ok(classify_local_vs_upstream_pkgbuild(l.as_str(), u.as_str()))
}

/// Message when "open folder" has no directory to open.
pub open spec fn no_work_dir_msg() -> Seq<char> {
    "Set a working directory or choose a destination folder for this package."@
}

/// The folder "open folder" creates if needed and opens.
pub fn open_work_dir_target(work_dir: Option<&str>, pkg: &PackageDef) -> (r: Result<String, AdminError>)
    ensures
        match package_dir_of(opt_str_ref(work_dir), *pkg) {
            Some(d) => (r matches Ok(p) && p@ == d),
            None => (r matches Err(AdminError::Other(m)) && m@ == no_work_dir_msg()),
        },
{
    match package_dir(work_dir, pkg) {
        Some(d) => Ok(d),
        None => Err(
            AdminError::Other(
                string_of(&chars_of("Set a working directory or choose a destination folder for this package.")),
            ),
        ),
    }
}

/// What Register does about commits already on `origin/master`.
#[derive(Debug, Clone, Copy, PartialEq, Eq, Structural)]
pub enum RemoteHistoryAction {
    /// No remote history: go on.
    Proceed,
    /// Show the log, then refuse (the maintainer must allow existing history).
    Refuse,
    /// Show the log, verify `origin`, fetch and integrate, then go on.
    Adopt,
}

/// Action for the remote history: nothing to do without commits, else by mode.
pub open spec fn remote_history_action_of(resolves: bool, count: u64, mode: RegisterRemoteHistoryMode) -> RemoteHistoryAction {
    if !resolves || count == 0 {
        RemoteHistoryAction::Proceed
    } else {
        match mode {
            RegisterRemoteHistoryMode::StrictEmptyRemoteOnly => RemoteHistoryAction::Refuse,
            RegisterRemoteHistoryMode::AllowExistingRemoteHistory => RemoteHistoryAction::Adopt,
        }
    }
}

/// Action for the remote history (see [`remote_history_action_of`]).
pub fn remote_history_action(
    origin_master_resolves: bool,
    commit_count: u64,
    mode: RegisterRemoteHistoryMode,
) -> (r: RemoteHistoryAction)
    ensures
        r == remote_history_action_of(origin_master_resolves, commit_count, mode),
{
    if !origin_master_resolves || commit_count == 0 {
        return RemoteHistoryAction::Proceed;
    }
    match mode {
        RegisterRemoteHistoryMode::StrictEmptyRemoteOnly => RemoteHistoryAction::Refuse,
        RegisterRemoteHistoryMode::AllowExistingRemoteHistory => RemoteHistoryAction::Adopt,
    }
}

/// Log line about existing remote commits.
pub fn remote_history_note(commit_count: u64) -> (r: String)
    ensures
        r@ == "origin/master has "@ + decimal(commit_count as nat) + " commit(s) — this is not an empty AUR Git remote."@,
{
    let mut v = chars_of("origin/master has ");
    append_chars(&mut v, &decimal_exec(commit_count));
    append_chars(&mut v, &chars_of(" commit(s) — this is not an empty AUR Git remote."));
    string_of(&v)
}

/// The `origin` URL (as `git remote get-url` printed it, trimmed) must be
/// the expected AUR SSH URL.
pub fn verify_origin_url(url_output: &str, expected_ssh_url: &str) -> (r: Result<(), AdminError>)
    ensures
        trim(url_output@) == expected_ssh_url@ <==> r is Ok,
        r matches Err(e) ==> (e matches AdminError::Other(m) && m@ == "origin URL mismatch: expected "@
            + expected_ssh_url@ + ", got "@ + trim(url_output@)),
{
    let url = trim_vec(&chars_of(url_output));
    if eq_chars(&url, &chars_of(expected_ssh_url)) {
        return Ok(());
    }
    let mut v = chars_of("origin URL mismatch: expected ");
    append_chars(&mut v, &chars_of(expected_ssh_url));
    append_chars(&mut v, &chars_of(", got "));
    append_chars(&mut v, &url);
    Err(AdminError::Other(string_of(&v)))
}


/// Registering is refused as root: `makepkg` must not run as root.
pub fn register_refuse_root(is_root: bool) -> (r: Result<(), AdminError>)
    ensures
        is_root ==> r matches Err(AdminError::RunningAsRoot),
        !is_root ==> r is Ok,
{
    if is_root {
        Err(AdminError::RunningAsRoot)
    } else {
        Ok(())
    }
}

/// Message of the Build page when a build is asked for as root; `None` when
/// the build may run.
pub fn build_root_refusal(is_root: bool) -> (r: Option<&'static str>)
    ensures
        is_root ==> (r matches Some(m) && m@ == "Refusing to build as root."@),
        !is_root ==> r is None,
{
    if is_root {
        Some("Refusing to build as root.")
    } else {
        None
    }
}


/// Message when the AUR clone is missing at push time.
pub open spec fn missing_clone_msg() -> Seq<char> {
    "AUR clone is missing — run “Validate, clone, and stage” first."@
}

/// Register's checks before validation, in order: a package directory, not
/// running as root, a `PKGBUILD` in that directory (the application reports
/// whether the file exists there); the package directory when all pass.
pub fn register_prepare_gates(is_root: bool, work_dir: &str, pkg: &PackageDef, pkgbuild_is_file: bool) -> (r:
    Result<String, AdminError>)
    ensures
        match package_dir_of(Some(work_dir@), *pkg) {
            None => r matches Err(AdminError::RegisterPrecheck(m)) && m@ == no_build_dir_msg(),
            Some(d) => if is_root {
                r matches Err(AdminError::RunningAsRoot)
            } else if !pkgbuild_is_file {
                r matches Err(AdminError::RegisterPrecheck(m)) && m@ == register_missing_pkgbuild_msg()
            } else {
                r matches Ok(x) && x@ == d
            },
        },
{
    let dir = register_resolve_build_dir(work_dir, pkg)?;
    register_refuse_root(is_root)?;
    register_ensure_pkgbuild(pkgbuild_is_file)?;
    Ok(dir)
}

/// Register's checks before the push, in order: not running as root, a
/// package directory, a `PKGBUILD` in it, and the AUR clone (the application
/// reports whether the file and the clone exist); the package directory when
/// all pass.
pub fn register_push_gates(
    is_root: bool,
    work_dir: &str,
    pkg: &PackageDef,
    pkgbuild_is_file: bool,
    clone_is_git: bool,
) -> (r: Result<String, AdminError>)
    ensures
        is_root ==> r matches Err(AdminError::RunningAsRoot),
        !is_root ==> match package_dir_of(Some(work_dir@), *pkg) {
            None => r matches Err(AdminError::RegisterPrecheck(m)) && m@ == no_build_dir_msg(),
            Some(d) => if !pkgbuild_is_file {
                r matches Err(AdminError::RegisterPrecheck(m)) && m@ == register_missing_pkgbuild_msg()
            } else if !clone_is_git {
                r matches Err(AdminError::RegisterPrecheck(m)) && m@ == missing_clone_msg()
            } else {
                r matches Ok(x) && x@ == d
            },
        },
{
    register_refuse_root(is_root)?;
    let dir = register_resolve_build_dir(work_dir, pkg)?;
    register_ensure_pkgbuild(pkgbuild_is_file)?;
    if !clone_is_git {
        return Err(AdminError::RegisterPrecheck("AUR clone is missing — run “Validate, clone, and stage” first."));
    }
    Ok(dir)
}

} // verus!
