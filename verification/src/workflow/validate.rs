//! Standard PKGBUILD validation checks: their identities, tiers and reports.
//!
//! Running the tools (`bash -n`, `makepkg`, `shellcheck`, `namcap`) happens in
//! the application; this module names the checks, groups them, and reads the
//! `.SRCINFO` summary.
use vstd::prelude::*;

use crate::text::{
    append_chars, chars_of, contains, contains_exec, ends_with, ends_with_exec, lemma_deep_chars,
    lines, lines_exec, slice_vec, starts_with, starts_with_exec, string_of, trim, trim_vec,
};

verus! {

/// Severity of a single check's result.
#[derive(Debug, Clone, Copy, PartialEq, Eq, Structural)]
pub enum CheckOutcome {
    /// Clean pass.
    Pass,
    /// Non-fatal issues (optional linters).
    Warn,
    /// Hard failure — the PKGBUILD cannot be built as-is.
    Fail,
    /// Not executed, usually because the tool is missing from `PATH`.
    Skipped,
}

/// How a check is grouped: `Required` must pass, `Optional` only warns,
/// `Extended` builds the package and runs on demand.
#[derive(Debug, Clone, Copy, PartialEq, Eq, Hash, Structural)]
pub enum CheckTier {
    Required,
    Optional,
    Extended,
}

/// Identifier for a single check.
#[derive(Debug, Clone, Copy, PartialEq, Eq, Hash, Structural)]
pub enum CheckId {
    BashSyntax,
    PrintSrcinfo,
    VerifySource,
    ShellCheck,
    Namcap,
    FakerootBuild,
    NamcapPackage,
}

/// Every check, in declaration order.
pub open spec fn all_checks() -> Seq<CheckId> {
    seq![
        CheckId::BashSyntax,
        CheckId::PrintSrcinfo,
        CheckId::VerifySource,
        CheckId::ShellCheck,
        CheckId::Namcap,
        CheckId::FakerootBuild,
        CheckId::NamcapPackage,
    ]
}

pub open spec fn check_title(id: CheckId) -> Seq<char> {
    match id {
        CheckId::BashSyntax => "Bash syntax"@,
        CheckId::PrintSrcinfo => ".SRCINFO generation"@,
        CheckId::VerifySource => "Verify sources"@,
        CheckId::ShellCheck => "shellcheck"@,
        CheckId::Namcap => "namcap (PKGBUILD)"@,
        CheckId::FakerootBuild => "Build in fakeroot"@,
        CheckId::NamcapPackage => "namcap (built package)"@,
    }
}

pub open spec fn check_description(id: CheckId) -> Seq<char> {
    match id {
        CheckId::BashSyntax => "Parse the PKGBUILD with `bash -n` — catches typos before makepkg."@,
        CheckId::PrintSrcinfo => "`makepkg --printsrcinfo` — PKGBUILD must expose the expected fields."@,
        CheckId::VerifySource => "`makepkg --verifysource` — downloads and checksums every source entry."@,
        CheckId::ShellCheck => "Static analysis for PKGBUILD (optional — install `shellcheck`)."@,
        CheckId::Namcap => "Arch packaging lint of the PKGBUILD (optional — install `namcap`)."@,
        CheckId::FakerootBuild => "`makepkg -f --noconfirm` — full build using fakeroot for the package() step. Slow."@,
        CheckId::NamcapPackage => "`namcap -i <pkg>.pkg.tar.*` on the artefact produced by the fakeroot build."@,
    }
}

pub open spec fn check_tier(id: CheckId) -> CheckTier {
    match id {
        CheckId::BashSyntax | CheckId::PrintSrcinfo | CheckId::VerifySource => CheckTier::Required,
        CheckId::ShellCheck | CheckId::Namcap => CheckTier::Optional,
        CheckId::FakerootBuild | CheckId::NamcapPackage => CheckTier::Extended,
    }
}

pub open spec fn check_install_hint(id: CheckId) -> Option<Seq<char>> {
    match id {
        CheckId::ShellCheck => Some("pacman -S --needed shellcheck"@),
        CheckId::Namcap | CheckId::NamcapPackage => Some("pacman -S --needed namcap"@),
        _ => None,
    }
}

impl CheckId {
    /// Every check, in declaration order.
    pub fn all() -> (r: Vec<CheckId>)
        ensures
            r@ == all_checks(),
    {
        let r = vec![
            CheckId::BashSyntax,
            CheckId::PrintSrcinfo,
            CheckId::VerifySource,
            CheckId::ShellCheck,
            CheckId::Namcap,
            CheckId::FakerootBuild,
            CheckId::NamcapPackage,
        ];
        assert(r@ =~= all_checks());
        r
    }

    pub fn title(self) -> (r: &'static str)
        ensures
            r@ == check_title(self),
    {
        match self {
            CheckId::BashSyntax => "Bash syntax",
            CheckId::PrintSrcinfo => ".SRCINFO generation",
            CheckId::VerifySource => "Verify sources",
            CheckId::ShellCheck => "shellcheck",
            CheckId::Namcap => "namcap (PKGBUILD)",
            CheckId::FakerootBuild => "Build in fakeroot",
            CheckId::NamcapPackage => "namcap (built package)",
        }
    }

    pub fn description(self) -> (r: &'static str)
        ensures
            r@ == check_description(self),
    {
        match self {
            CheckId::BashSyntax => "Parse the PKGBUILD with `bash -n` — catches typos before makepkg.",
            CheckId::PrintSrcinfo => "`makepkg --printsrcinfo` — PKGBUILD must expose the expected fields.",
            CheckId::VerifySource => "`makepkg --verifysource` — downloads and checksums every source entry.",
            CheckId::ShellCheck => "Static analysis for PKGBUILD (optional — install `shellcheck`).",
            CheckId::Namcap => "Arch packaging lint of the PKGBUILD (optional — install `namcap`).",
            CheckId::FakerootBuild => "`makepkg -f --noconfirm` — full build using fakeroot for the package() step. Slow.",
            CheckId::NamcapPackage => "`namcap -i <pkg>.pkg.tar.*` on the artefact produced by the fakeroot build.",
        }
    }

    pub fn tier(self) -> (r: CheckTier)
        ensures
            r == check_tier(self),
    {
        match self {
            CheckId::BashSyntax | CheckId::PrintSrcinfo | CheckId::VerifySource => {
                CheckTier::Required
            },
            CheckId::ShellCheck | CheckId::Namcap => CheckTier::Optional,
            CheckId::FakerootBuild | CheckId::NamcapPackage => CheckTier::Extended,
        }
    }

    pub fn install_hint(self) -> (r: Option<&'static str>)
        ensures
            match r {
                Some(h) => check_install_hint(self) == Some(h@),
                None => check_install_hint(self) is None,
            },
    {
        match self {
            CheckId::ShellCheck => Some("pacman -S --needed shellcheck"),
            CheckId::Namcap | CheckId::NamcapPackage => Some("pacman -S --needed namcap"),
            _ => None,
        }
    }
}

/// Outcome of a single check.
#[derive(Debug, Clone)]
pub struct CheckReport {
    pub id: CheckId,
    pub outcome: CheckOutcome,
    /// One-line summary suitable for a row subtitle.
    pub summary: String,
}

impl CheckReport {
    pub fn pass(id: CheckId) -> (r: CheckReport)
        ensures
            r.id == id,
            r.outcome == CheckOutcome::Pass,
            r.summary@ == "OK"@,
    {
        CheckReport { id, outcome: CheckOutcome::Pass, summary: string_of(&chars_of("OK")) }
    }

    pub fn fail(id: CheckId, msg: String) -> (r: CheckReport)
        ensures
            r.id == id,
            r.outcome == CheckOutcome::Fail,
            r.summary == msg,
    {
        CheckReport { id, outcome: CheckOutcome::Fail, summary: msg }
    }

    pub fn warn(id: CheckId, msg: String) -> (r: CheckReport)
        ensures
            r.id == id,
            r.outcome == CheckOutcome::Warn,
            r.summary == msg,
    {
        CheckReport { id, outcome: CheckOutcome::Warn, summary: msg }
    }

    pub fn skipped(id: CheckId, msg: String) -> (r: CheckReport)
        ensures
            r.id == id,
            r.outcome == CheckOutcome::Skipped,
            r.summary == msg,
    {
        CheckReport { id, outcome: CheckOutcome::Skipped, summary: msg }
    }
}

/// The checks of a tier, in declaration order.
pub open spec fn tier_checks(ids: Seq<CheckId>, tier: CheckTier) -> Seq<CheckId>
    decreases ids.len(),
{
    if ids.len() == 0 {
        seq![]
    } else if check_tier(ids.last()) == tier {
        tier_checks(ids.drop_last(), tier).push(ids.last())
    } else {
        tier_checks(ids.drop_last(), tier)
    }
}

/// The checks of the fast tiers (everything but `Extended`), in declaration order.
pub open spec fn fast_checks(ids: Seq<CheckId>) -> Seq<CheckId>
    decreases ids.len(),
{
    if ids.len() == 0 {
        seq![]
    } else if check_tier(ids.last()) != CheckTier::Extended {
        fast_checks(ids.drop_last()).push(ids.last())
    } else {
        fast_checks(ids.drop_last())
    }
}

/// Checks run for one tier, in declaration order.
pub fn checks_in_tier(tier: CheckTier) -> (r: Vec<CheckId>)
    ensures
        r@ == tier_checks(all_checks(), tier),
{
    let all = CheckId::all();
    let mut out: Vec<CheckId> = Vec::new();
    let mut i: usize = 0;
    assert(all@.take(0) =~= Seq::<CheckId>::empty());
    while i < all.len()
        invariant
            i <= all.len(),
            all@ == all_checks(),
            out@ == tier_checks(all@.take(i as int), tier),
        decreases all.len() - i,
    {
        assert(all@.take(i as int + 1).drop_last() =~= all@.take(i as int));
        if all[i].tier() == tier {
            out.push(all[i]);
        }
        i += 1;
    }
    assert(all@.take(all.len() as int) =~= all@);
    out
}

/// Checks run by a full fast validation (required and optional tiers).
pub fn fast_check_ids() -> (r: Vec<CheckId>)
    ensures
        r@ == fast_checks(all_checks()),
{
    let all = CheckId::all();
    let mut out: Vec<CheckId> = Vec::new();
    let mut i: usize = 0;
    assert(all@.take(0) =~= Seq::<CheckId>::empty());
    while i < all.len()
        invariant
            i <= all.len(),
            all@ == all_checks(),
            out@ == fast_checks(all@.take(i as int)),
        decreases all.len() - i,
    {
        assert(all@.take(i as int + 1).drop_last() =~= all@.take(i as int));
        if all[i].tier() != CheckTier::Extended {
            out.push(all[i]);
        }
        i += 1;
    }
    assert(all@.take(all.len() as int) =~= all@);
    out
}

/// Every required-tier report passed.
pub open spec fn required_all_pass(reports: Seq<CheckReport>) -> bool {
    forall|i: int|
        0 <= i < reports.len() && check_tier(#[trigger] reports[i].id) == CheckTier::Required
            ==> reports[i].outcome == CheckOutcome::Pass
}

/// Whether every required-tier report passed.
pub fn required_tier_all_pass(reports: &Vec<CheckReport>) -> (r: bool)
    ensures
        r == required_all_pass(reports@),
{
    let mut i: usize = 0;
    while i < reports.len()
        invariant
            i <= reports.len(),
            forall|j: int|
                0 <= j < i && check_tier(#[trigger] reports@[j].id) == CheckTier::Required
                    ==> reports@[j].outcome == CheckOutcome::Pass,
        decreases reports.len() - i,
    {
        if reports[i].id.tier() == CheckTier::Required && reports[i].outcome != CheckOutcome::Pass {
            return false;
        }
        i += 1;
    }
    true
}

/// `pkgbase`, `pkgver` and `pkgrel` values seen in `.SRCINFO` lines (a later
/// line wins).
pub open spec fn srcinfo_fold(ls: Seq<Seq<char>>) -> (Option<Seq<char>>, Option<Seq<char>>, Option<
    Seq<char>,
>)
    decreases ls.len(),
{
    if ls.len() == 0 {
        (None, None, None)
    } else {
        let (b, v, r) = srcinfo_fold(ls.drop_last());
        let line = trim(ls.last());
        if starts_with(line, "pkgbase = "@) {
            (Some(line.skip(10)), v, r)
        } else if starts_with(line, "pkgver = "@) {
            (b, Some(line.skip(9)), r)
        } else if starts_with(line, "pkgrel = "@) {
            (b, v, Some(line.skip(9)))
        } else {
            (b, v, r)
        }
    }
}

/// `<pkgbase> <pkgver>-<pkgrel>` when all three are present.
pub open spec fn srcinfo_line(src: Seq<char>) -> Option<Seq<char>> {
    match srcinfo_fold(lines(src)) {
        (Some(b), Some(v), Some(r)) => Some(b + seq![' '] + v + seq!['-'] + r),
        _ => None,
    }
}

pub proof fn lemma_srcinfo_prefix_lens()
    ensures
        "pkgbase = "@.len() == 10,
        "pkgver = "@.len() == 9,
        "pkgrel = "@.len() == 9,
{
    reveal_strlit("pkgbase = ");
    reveal_strlit("pkgver = ");
    reveal_strlit("pkgrel = ");
}

/// Extracts `pkgbase = …` / `pkgver = …` / `pkgrel = …` from `.SRCINFO`
/// output as a short line like `my-pkg-bin 0.8.2-1`.
pub fn srcinfo_summary(src: &str) -> (r: Option<String>)
    ensures
        match r {
            Some(s) => srcinfo_line(src@) == Some(s@),
            None => srcinfo_line(src@) is None,
        },
{
    let v = chars_of(src);
    let ls = lines_exec(&v);
    let ghost lv = ls.deep_view();
    let pb = chars_of("pkgbase = ");
    let pv = chars_of("pkgver = ");
    let pr = chars_of("pkgrel = ");
    proof {
        lemma_srcinfo_prefix_lens();
    }
    let mut base: Option<Vec<char>> = None;
    let mut ver: Option<Vec<char>> = None;
    let mut rel: Option<Vec<char>> = None;
    let mut i: usize = 0;
    assert(lv.take(0) =~= Seq::<Seq<char>>::empty());
    while i < ls.len()
        invariant
            i <= ls.len(),
            lv == ls.deep_view(),
            pb@ == "pkgbase = "@,
            pv@ == "pkgver = "@,
            pr@ == "pkgrel = "@,
            "pkgbase = "@.len() == 10,
            "pkgver = "@.len() == 9,
            "pkgrel = "@.len() == 9,
            srcinfo_fold(lv.take(i as int)) == (base.deep_view(), ver.deep_view(), rel.deep_view()),
        decreases ls.len() - i,
    {
        proof {
            lemma_deep_chars(&ls[i as int]);
        }
        assert(lv.take(i as int + 1).drop_last() =~= lv.take(i as int));
        assert(lv.take(i as int + 1).last() == ls@[i as int]@);
        let line = trim_vec(&ls[i]);
        if starts_with_exec(&line, &pb) {
            let x = slice_vec(&line, 10, line.len());
            assert(x@ == line@.skip(10));
            proof {
                lemma_deep_chars(&x);
            }
            base = Some(x);
        } else if starts_with_exec(&line, &pv) {
            let x = slice_vec(&line, 9, line.len());
            assert(x@ == line@.skip(9));
            proof {
                lemma_deep_chars(&x);
            }
            ver = Some(x);
        } else if starts_with_exec(&line, &pr) {
            let x = slice_vec(&line, 9, line.len());
            assert(x@ == line@.skip(9));
            proof {
                lemma_deep_chars(&x);
            }
            rel = Some(x);
        }
        i += 1;
    }
    assert(lv.take(ls.len() as int) =~= lv);
    match (base, ver, rel) {
        (Some(b), Some(v), Some(r)) => {
            proof {
                lemma_deep_chars(&b);
                lemma_deep_chars(&v);
                lemma_deep_chars(&r);
            }
            let mut out = b;
            out.push(' ');
            append_chars(&mut out, &v);
            out.push('-');
            append_chars(&mut out, &r);
            Some(string_of(&out))
        },
        _ => None,
    }
}

/// How a check's process ended: `Ok((exited successfully, exit status as
/// text))`, or `Err` with why it could not be run.
pub type ProcessRun = Result<(bool, String), String>;

/// Outcome and summary of a report.
pub open spec fn report_of(r: CheckReport) -> (CheckId, CheckOutcome, Seq<char>) {
    (r.id, r.outcome, r.summary@)
}

/// Report of a check from its process: a clean exit passes (`OK`); a failing
/// exit gives `bad` with `prefix`, the status and `suffix`; a process that
/// could not run gives `bad` with its error.
pub open spec fn run_report(
    id: CheckId,
    run: ProcessRun,
    bad: CheckOutcome,
    prefix: Seq<char>,
    suffix: Seq<char>,
) -> (CheckId, CheckOutcome, Seq<char>) {
    match run {
        Ok((true, _)) => (id, CheckOutcome::Pass, "OK"@),
        Ok((false, st)) => (id, bad, prefix + st@ + suffix),
        Err(e) => (id, bad, e@),
    }
}

fn run_report_exec(id: CheckId, run: ProcessRun, bad: CheckOutcome, prefix: &str, suffix: &str) -> (r:
    CheckReport)
    ensures
        report_of(r) == run_report(id, run, bad, prefix@, suffix@),
{
    match run {
        Ok((true, _)) => CheckReport::pass(id),
        Ok((false, st)) => {
            let mut v = chars_of(prefix);
            append_chars(&mut v, &chars_of(st.as_str()));
            append_chars(&mut v, &chars_of(suffix));
            CheckReport { id, outcome: bad, summary: string_of(&v) }
        },
        Err(e) => CheckReport { id, outcome: bad, summary: e },
    }
}

/// `bash -n PKGBUILD`: fails on a failing exit.
pub fn bash_syntax_report(run: ProcessRun) -> (r: CheckReport)
    ensures
        report_of(r) == run_report(CheckId::BashSyntax, run, CheckOutcome::Fail, "bash -n exited "@, ""@),
{
    run_report_exec(CheckId::BashSyntax, run, CheckOutcome::Fail, "bash -n exited ", "")
}

/// `makepkg --printsrcinfo`: a clean exit passes with the `.SRCINFO`
/// summary of its output (or "PKGBUILD parsed OK"); a failing exit fails.
pub fn printsrcinfo_report(run: ProcessRun, stdout: &str) -> (r: CheckReport)
    ensures
        run matches Ok((true, _)) ==> report_of(r) == (CheckId::PrintSrcinfo, CheckOutcome::Pass, match srcinfo_line(stdout@) {
            Some(l) => l,
            None => "PKGBUILD parsed OK"@,
        }),
        !(run matches Ok((true, _))) ==> report_of(r) == run_report(
            CheckId::PrintSrcinfo,
            run,
            CheckOutcome::Fail,
            "makepkg --printsrcinfo exited "@,
            ""@,
        ),
{
    match run {
        Ok((true, _)) => {
            let summary = match srcinfo_summary(stdout) {
                Some(s) => s,
                None => string_of(&chars_of("PKGBUILD parsed OK")),
            };
            CheckReport { id: CheckId::PrintSrcinfo, outcome: CheckOutcome::Pass, summary }
        },
        other => run_report_exec(CheckId::PrintSrcinfo, other, CheckOutcome::Fail, "makepkg --printsrcinfo exited ", ""),
    }
}

/// `makepkg --verifysource`: fails on a failing exit.
pub fn verifysource_report(run: ProcessRun) -> (r: CheckReport)
    ensures
        report_of(r) == run_report(CheckId::VerifySource, run, CheckOutcome::Fail, "verifysource exited "@, ""@),
{
    run_report_exec(CheckId::VerifySource, run, CheckOutcome::Fail, "verifysource exited ", "")
}

/// `shellcheck`: skipped when not installed (`None`), warns on a failing exit.
pub fn shellcheck_report(run: Option<ProcessRun>) -> (r: CheckReport)
    ensures
        match run {
            None => report_of(r) == (CheckId::ShellCheck, CheckOutcome::Skipped, "shellcheck not installed"@),
            Some(x) => report_of(r) == run_report(
                CheckId::ShellCheck,
                x,
                CheckOutcome::Warn,
                "shellcheck exited "@,
                " (warnings above)"@,
            ),
        },
{
    match run {
        None => CheckReport::skipped(CheckId::ShellCheck, string_of(&chars_of("shellcheck not installed"))),
        Some(x) => run_report_exec(CheckId::ShellCheck, x, CheckOutcome::Warn, "shellcheck exited ", " (warnings above)"),
    }
}

/// `namcap PKGBUILD`: skipped when not installed (`None`), warns on a
/// failing exit.
pub fn namcap_report(run: Option<ProcessRun>) -> (r: CheckReport)
    ensures
        match run {
            None => report_of(r) == (CheckId::Namcap, CheckOutcome::Skipped, "namcap not installed"@),
            Some(x) => report_of(r) == run_report(
                CheckId::Namcap,
                x,
                CheckOutcome::Warn,
                "namcap exited "@,
                " (see notes above)"@,
            ),
        },
{
    match run {
        None => CheckReport::skipped(CheckId::Namcap, string_of(&chars_of("namcap not installed"))),
        Some(x) => run_report_exec(CheckId::Namcap, x, CheckOutcome::Warn, "namcap exited ", " (see notes above)"),
    }
}

/// `makepkg -f` under fakeroot: skipped without fakeroot (`None`); a clean
/// exit passes naming the newest built package, or warns when none was
/// found; a failing exit fails.
pub fn fakeroot_build_report(run: Option<ProcessRun>, built: Option<String>) -> (r: CheckReport)
    ensures
        match run {
            None => report_of(r) == (
                CheckId::FakerootBuild,
                CheckOutcome::Skipped,
                "fakeroot missing (install base-devel)"@,
            ),
            Some(Ok((true, _))) => match built {
                Some(name) => report_of(r) == (CheckId::FakerootBuild, CheckOutcome::Pass, "built "@ + name@),
                None => report_of(r) == (
                    CheckId::FakerootBuild,
                    CheckOutcome::Warn,
                    "makepkg succeeded but no .pkg.tar.* artefact was found"@,
                ),
            },
            Some(x) => report_of(r) == run_report(CheckId::FakerootBuild, x, CheckOutcome::Fail, "makepkg exited "@, ""@),
        },
{
    match run {
        None => CheckReport::skipped(
            CheckId::FakerootBuild,
            string_of(&chars_of("fakeroot missing (install base-devel)")),
        ),
        Some(Ok((true, _))) => match built {
            Some(name) => {
                let mut v = chars_of("built ");
                append_chars(&mut v, &chars_of(name.as_str()));
                CheckReport { id: CheckId::FakerootBuild, outcome: CheckOutcome::Pass, summary: string_of(&v) }
            },
            None => CheckReport::warn(
                CheckId::FakerootBuild,
                string_of(&chars_of("makepkg succeeded but no .pkg.tar.* artefact was found")),
            ),
        },
        Some(x) => run_report_exec(CheckId::FakerootBuild, x, CheckOutcome::Fail, "makepkg exited ", ""),
    }
}

/// `namcap -i <package>`: skipped when namcap is not installed (`None`) or
/// no built package was found (`Some(None)`); warns on a failing exit.
pub fn namcap_package_report(run: Option<Option<ProcessRun>>) -> (r: CheckReport)
    ensures
        match run {
            None => report_of(r) == (CheckId::NamcapPackage, CheckOutcome::Skipped, "namcap not installed"@),
            Some(None) => report_of(r) == (
                CheckId::NamcapPackage,
                CheckOutcome::Skipped,
                "no built package found — run “Build in fakeroot” first"@,
            ),
            Some(Some(x)) => report_of(r) == run_report(
                CheckId::NamcapPackage,
                x,
                CheckOutcome::Warn,
                "namcap exited "@,
                " (see notes above)"@,
            ),
        },
{
    match run {
        None => CheckReport::skipped(CheckId::NamcapPackage, string_of(&chars_of("namcap not installed"))),
        Some(None) => CheckReport::skipped(
            CheckId::NamcapPackage,
            string_of(&chars_of("no built package found — run “Build in fakeroot” first")),
        ),
        Some(Some(x)) => run_report_exec(CheckId::NamcapPackage, x, CheckOutcome::Warn, "namcap exited ", " (see notes above)"),
    }
}

/// A built package file: `.pkg.tar` in the name, not a `.sig`, with a known
/// modification time.
pub open spec fn is_package_candidate(e: (String, Option<u128>)) -> bool {
    contains(e.0@, ".pkg.tar"@) && !ends_with(e.0@, ".sig"@) && e.1 is Some
}

/// The first of the newest package candidates among `es`.
pub open spec fn newest_package(es: Seq<(String, Option<u128>)>) -> Option<int>
    decreases es.len(),
{
    if es.len() == 0 {
        None
    } else {
        let prev = newest_package(es.drop_last());
        let i = es.len() - 1;
        if !is_package_candidate(es[i]) {
            prev
        } else {
            match prev {
                Some(j) => if es[j].1.unwrap() >= es[i].1.unwrap() {
                    Some(j)
                } else {
                    Some(i)
                },
                None => Some(i),
            }
        }
    }
}

/// Index of the newest built package among directory entries (file name,
/// modification time in nanoseconds since the epoch when known): the first
/// one with the latest time.
pub fn find_latest_package(entries: &Vec<(String, Option<u128>)>) -> (r: Option<usize>)
    ensures
        match r {
            Some(i) => newest_package(entries@) == Some(i as int),
            None => newest_package(entries@) is None,
        },
{
    let mut best: Option<usize> = None;
    let mut i: usize = 0;
    assert(entries@.take(0) =~= Seq::<(String, Option<u128>)>::empty());
    while i < entries.len()
        invariant
            i <= entries.len(),
            match best {
                Some(j) => j < i && entries@[j as int].1 is Some && newest_package(entries@.take(i as int)) == Some(j as int),
                None => newest_package(entries@.take(i as int)) is None,
            },
        decreases entries.len() - i,
    {
        assert(entries@.take(i as int + 1).drop_last() =~= entries@.take(i as int));
        assert(entries@.take(i as int + 1)[i as int] == entries@[i as int]);
        match best {
            Some(j) => {
                assert(entries@.take(i as int + 1)[j as int] == entries@[j as int]);
            },
            None => {},
        }
        let name = chars_of(entries[i].0.as_str());
        let candidate = contains_exec(&name, &chars_of(".pkg.tar")) && !ends_with_exec(&name, &chars_of(".sig"))
            && entries[i].1.is_some();
        if candidate {
            let t = match entries[i].1 {
                Some(t) => t,
                None => 0,
            };
            match best {
                Some(j) => {
                    let tj = match entries[j].1 {
                        Some(x) => x,
                        None => 0,
                    };
                    if !(tj >= t) {
                        best = Some(i);
                    }
                },
                None => {
                    best = Some(i);
                },
            }
        }
        i += 1;
    }
    assert(entries@.take(i as int) =~= entries@);
    best
}

} // verus!
