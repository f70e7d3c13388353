//! Validate page: what each check row shows, when the Required section counts
//! as passed, and the one-line summary and toast of a run.
use vstd::prelude::*;

use crate::text::{append_chars, chars_of, decimal, decimal_exec, string_of};
use crate::workflow::validate::{
    all_checks, check_install_hint, check_tier, CheckId, CheckOutcome, CheckReport, CheckTier,
};

verus! {

/// Number of reports with outcome `o`.
pub open spec fn count_outcome(rs: Seq<CheckReport>, o: CheckOutcome) -> nat
    decreases rs.len(),
{
    if rs.len() == 0 {
        0
    } else {
        count_outcome(rs.drop_last(), o) + if rs.last().outcome == o {
            1nat
        } else {
            0nat
        }
    }
}

/// `"<p> passed · <w> warn · <f> failed · <s> skipped"` for a run.
pub open spec fn summary_text(rs: Seq<CheckReport>) -> Seq<char> {
    decimal(count_outcome(rs, CheckOutcome::Pass)) + " passed · "@ + decimal(count_outcome(rs, CheckOutcome::Warn))
        + " warn · "@ + decimal(count_outcome(rs, CheckOutcome::Fail)) + " failed · "@
        + decimal(count_outcome(rs, CheckOutcome::Skipped)) + " skipped"@
}

/// The outcome counts of a validation run (see [`summary_text`]).
pub fn summarize(reports: &Vec<CheckReport>) -> (r: String)
    ensures
        r@ == summary_text(reports@),
{
    let mut pass: usize = 0;
    let mut warn: usize = 0;
    let mut fail: usize = 0;
    let mut skipped: usize = 0;
    let mut i: usize = 0;
    assert(reports@.take(0) =~= Seq::<CheckReport>::empty());
    while i < reports.len()
        invariant
            i <= reports.len(),
            pass == count_outcome(reports@.take(i as int), CheckOutcome::Pass),
            warn == count_outcome(reports@.take(i as int), CheckOutcome::Warn),
            fail == count_outcome(reports@.take(i as int), CheckOutcome::Fail),
            skipped == count_outcome(reports@.take(i as int), CheckOutcome::Skipped),
            pass + warn + fail + skipped == i,
        decreases reports.len() - i,
    {
        assert(reports@.take(i as int + 1).drop_last() =~= reports@.take(i as int));
        assert(reports@.take(i as int + 1).last() == reports@[i as int]);
        match reports[i].outcome {
            CheckOutcome::Pass => pass += 1,
            CheckOutcome::Warn => warn += 1,
            CheckOutcome::Fail => fail += 1,
            CheckOutcome::Skipped => skipped += 1,
        }
        i += 1;
    }
    assert(reports@.take(i as int) =~= reports@);
    let mut v = decimal_exec(pass as u64);
    append_chars(&mut v, &chars_of(" passed · "));
    append_chars(&mut v, &decimal_exec(warn as u64));
    append_chars(&mut v, &chars_of(" warn · "));
    append_chars(&mut v, &decimal_exec(fail as u64));
    append_chars(&mut v, &chars_of(" failed · "));
    append_chars(&mut v, &decimal_exec(skipped as u64));
    append_chars(&mut v, &chars_of(" skipped"));
    string_of(&v)
}

/// Position of a check in [`CheckId::all`].
pub open spec fn check_index(id: CheckId) -> int {
    match id {
        CheckId::BashSyntax => 0,
        CheckId::PrintSrcinfo => 1,
        CheckId::VerifySource => 2,
        CheckId::ShellCheck => 3,
        CheckId::Namcap => 4,
        CheckId::FakerootBuild => 5,
        CheckId::NamcapPackage => 6,
    }
}

/// Position of a check in [`CheckId::all`].
pub fn check_row_index(id: CheckId) -> (r: usize)
    ensures
        r == check_index(id),
        r < all_checks().len(),
        all_checks()[r as int] == id,
{
    match id {
        CheckId::BashSyntax => 0,
        CheckId::PrintSrcinfo => 1,
        CheckId::VerifySource => 2,
        CheckId::ShellCheck => 3,
        CheckId::Namcap => 4,
        CheckId::FakerootBuild => 5,
        CheckId::NamcapPackage => 6,
    }
}

/// What one check row shows.
pub struct CheckRow {
    /// Latest finished outcome; `None` before the first run and while running.
    pub outcome: Option<CheckOutcome>,
    /// The spinner turns and the row's Run button is disabled.
    pub running: bool,
    /// Status icon name.
    pub icon: &'static str,
    /// Style class of the status icon.
    pub status_class: &'static str,
    /// Text beside the Run button.
    pub summary: String,
}

/// Icon name and style class for a finished outcome.
pub open spec fn outcome_icon(o: CheckOutcome) -> (Seq<char>, Seq<char>) {
    match o {
        CheckOutcome::Pass => ("emblem-ok-symbolic"@, "success"@),
        CheckOutcome::Warn => ("dialog-warning-symbolic"@, "warning"@),
        CheckOutcome::Fail => ("dialog-error-symbolic"@, "error"@),
        CheckOutcome::Skipped => ("action-unavailable-symbolic"@, "dim-label"@),
    }
}

/// Icon name and style class for a finished outcome.
pub fn icon_for(o: CheckOutcome) -> (r: (&'static str, &'static str))
    ensures
        (r.0@, r.1@) == outcome_icon(o),
{
    match o {
        CheckOutcome::Pass => ("emblem-ok-symbolic", "success"),
        CheckOutcome::Warn => ("dialog-warning-symbolic", "warning"),
        CheckOutcome::Fail => ("dialog-error-symbolic", "error"),
        CheckOutcome::Skipped => ("action-unavailable-symbolic", "dim-label"),
    }
}

/// Row text for a report: its summary, followed by ` — ` and the install hint
/// when the check was skipped and has one.
pub open spec fn report_row_text(r: CheckReport) -> Seq<char> {
    match check_install_hint(r.id) {
        Some(h) if r.outcome == CheckOutcome::Skipped => r.summary@ + " — "@ + h,
        _ => r.summary@,
    }
}

/// A row before its check first ran.
pub open spec fn idle_row(row: CheckRow) -> bool {
    &&& row.outcome is None
    &&& !row.running
    &&& row.icon@ == "media-playback-start-symbolic"@
    &&& row.status_class@ == "dim-label"@
    &&& row.summary@ == "not run"@
}

/// A row whose check is running.
pub open spec fn running_row(row: CheckRow) -> bool {
    &&& row.outcome is None
    &&& row.running
    &&& row.icon@ == "content-loading-symbolic"@
    &&& row.status_class@ == "dim-label"@
    &&& row.summary@ == "running…"@
}

/// A row showing the report `r`.
pub open spec fn reported_row(row: CheckRow, r: CheckReport) -> bool {
    &&& row.outcome == Some(r.outcome)
    &&& !row.running
    &&& (row.icon@, row.status_class@) == outcome_icon(r.outcome)
    &&& row.summary@ == report_row_text(r)
}

fn running_check_row() -> (row: CheckRow)
    ensures
        running_row(row),
{
    CheckRow {
        outcome: None,
        running: true,
        icon: "content-loading-symbolic",
        status_class: "dim-label",
        summary: string_of(&chars_of("running…")),
    }
}

/// The check rows of the Validate page, one per check in the order of
/// [`CheckId::all`].
pub struct CheckRows {
    pub rows: Vec<CheckRow>,
}

/// Latest outcomes of the rows.
pub open spec fn row_outcomes(rows: Seq<CheckRow>) -> Seq<Option<CheckOutcome>> {
    Seq::new(rows.len(), |i: int| rows[i].outcome)
}

/// Required-section state over the rows from position `i` on, in check
/// order: `None` at the first required row without an outcome, `Some(false)`
/// at the first required row that did not pass, `Some(true)` when neither
/// comes.
pub open spec fn aggregate_from(os: Seq<Option<CheckOutcome>>, i: int) -> Option<bool>
    decreases all_checks().len() - i,
{
    if i < 0 || i >= all_checks().len() || i >= os.len() {
        Some(true)
    } else if check_tier(all_checks()[i]) != CheckTier::Required {
        aggregate_from(os, i + 1)
    } else {
        match os[i] {
            None => None,
            Some(o) => if o != CheckOutcome::Pass {
                Some(false)
            } else {
                aggregate_from(os, i + 1)
            },
        }
    }
}

/// Every required row from position `i` on shows a pass.
pub open spec fn required_pass_from(os: Seq<Option<CheckOutcome>>, i: int) -> bool {
    forall|j: int|
        i <= j < os.len() && check_tier(#[trigger] all_checks()[j]) == CheckTier::Required
            ==> os[j] == Some(CheckOutcome::Pass)
}

proof fn lemma_aggregate_true(os: Seq<Option<CheckOutcome>>, i: int)
    requires
        os.len() == all_checks().len(),
        0 <= i <= os.len(),
    ensures
        aggregate_from(os, i) == Some(true) <==> required_pass_from(os, i),
        aggregate_from(os, i) is None ==> exists|j: int|
            i <= j < os.len() && check_tier(#[trigger] all_checks()[j]) == CheckTier::Required
                && os[j] is None,
    decreases os.len() - i,
{
    if i < os.len() {
        lemma_aggregate_true(os, i + 1);
        if check_tier(all_checks()[i]) == CheckTier::Required {
            if os[i] is None {
            } else if os[i] != Some(CheckOutcome::Pass) {
                assert(!required_pass_from(os, i));
            }
        }
    }
}

/// The rows' well-formedness: one row per check.
pub open spec fn rows_wf(rows: Seq<CheckRow>) -> bool {
    rows.len() == all_checks().len()
}

/// The runs the page starts: the required tier when it opens, the fast tiers
/// ("Run all checks"), the optional lints, or the extended fakeroot build.
#[derive(Debug, Clone, Copy, PartialEq, Eq, Structural)]
pub enum ValidateRun {
    Required,
    Fast,
    Optional,
    Extended,
}

/// Whether a run covers the checks of `tier`.
pub open spec fn run_covers(run: ValidateRun, tier: CheckTier) -> bool {
    match run {
        ValidateRun::Required => tier == CheckTier::Required,
        ValidateRun::Fast => tier != CheckTier::Extended,
        ValidateRun::Optional => tier == CheckTier::Optional,
        ValidateRun::Extended => tier == CheckTier::Extended,
    }
}

/// Status line while a run is under way.
pub open spec fn run_status_text(run: ValidateRun) -> Seq<char> {
    match run {
        ValidateRun::Required => "running required checks…"@,
        ValidateRun::Fast => "running fast checks…"@,
        ValidateRun::Optional => "running optional lint checks…"@,
        ValidateRun::Extended => "running extended checks — this may take a while…"@,
    }
}

/// Toast when a run ends: a failure text when any report failed, else a
/// completion text.
pub open spec fn run_toast_text(run: ValidateRun, any_fail: bool) -> Seq<char> {
    match run {
        ValidateRun::Required => if any_fail {
            "Some required checks failed"@
        } else {
            "Required checks complete"@
        },
        ValidateRun::Fast => if any_fail {
            "Some required checks failed"@
        } else {
            "Fast checks complete"@
        },
        ValidateRun::Optional => if any_fail {
            "Some optional lint checks failed"@
        } else {
            "Optional lint checks complete"@
        },
        ValidateRun::Extended => if any_fail {
            "Fakeroot build failed"@
        } else {
            "Extended checks complete"@
        },
    }
}

/// Some report failed.
pub open spec fn any_failed(rs: Seq<CheckReport>) -> bool {
    exists|i: int| 0 <= i < rs.len() && #[trigger] rs[i].outcome == CheckOutcome::Fail
}

/// Toast shown when a run ends.
pub fn run_finished_toast(run: ValidateRun, reports: &Vec<CheckReport>) -> (r: &'static str)
    ensures
        r@ == run_toast_text(run, any_failed(reports@)),
{
    let mut fail = false;
    let mut i: usize = 0;
    while i < reports.len()
        invariant
            i <= reports.len(),
            fail <==> exists|j: int|
                0 <= j < i && #[trigger] reports@[j].outcome == CheckOutcome::Fail,
        decreases reports.len() - i,
    {
        if reports[i].outcome == CheckOutcome::Fail {
            fail = true;
        }
        i += 1;
    }
    match run {
        ValidateRun::Required => if fail {
            "Some required checks failed"
        } else {
            "Required checks complete"
        },
        ValidateRun::Fast => if fail {
            "Some required checks failed"
        } else {
            "Fast checks complete"
        },
        ValidateRun::Optional => if fail {
            "Some optional lint checks failed"
        } else {
            "Optional lint checks complete"
        },
        ValidateRun::Extended => if fail {
            "Fakeroot build failed"
        } else {
            "Extended checks complete"
        },
    }
}

impl CheckRows {
    /// Rows as the page first shows them: every check idle.
    pub fn new() -> (r: CheckRows)
        ensures
            rows_wf(r.rows@),
            forall|i: int| 0 <= i < r.rows@.len() ==> idle_row(#[trigger] r.rows@[i]),
    {
        let mut rows: Vec<CheckRow> = Vec::new();
        let mut i: usize = 0;
        while i < 7
            invariant
                i <= 7,
                rows@.len() == i,
                forall|j: int| 0 <= j < i ==> idle_row(#[trigger] rows@[j]),
            decreases 7 - i,
        {
            rows.push(
                CheckRow {
                    outcome: None,
                    running: false,
                    icon: "media-playback-start-symbolic",
                    status_class: "dim-label",
                    summary: string_of(&chars_of("not run")),
                },
            );
            i += 1;
        }
        CheckRows { rows }
    }

    /// Puts the row of `id` into its running state; the other rows stay.
    pub fn mark_running(&mut self, id: CheckId)
        requires
            rows_wf(old(self).rows@),
        ensures
            rows_wf(final(self).rows@),
            running_row(final(self).rows@[check_index(id)]),
            forall|i: int|
                0 <= i < final(self).rows@.len() && i != check_index(id) ==> #[trigger] final(self).rows@[i] == old(self).rows@[i],
    {
        let k = check_row_index(id);
        self.rows.set(k, running_check_row());
    }

    /// Starts `run`: the rows of the tiers it covers run, the others stay.
    /// Returns the status line.
    pub fn start_run(&mut self, run: ValidateRun) -> (status: &'static str)
        requires
            rows_wf(old(self).rows@),
        ensures
            status@ == run_status_text(run),
            rows_wf(final(self).rows@),
            forall|i: int|
                0 <= i < final(self).rows@.len() ==> if run_covers(
                    run,
                    check_tier(all_checks()[i]),
                ) {
                    running_row(#[trigger] final(self).rows@[i])
                } else {
                    final(self).rows@[i] == old(self).rows@[i]
                },
    {
        let all = CheckId::all();
        let mut i: usize = 0;
        while i < all.len()
            invariant
                i <= all.len(),
                all@ == all_checks(),
                rows_wf(self.rows@),
                forall|j: int|
                    0 <= j < self.rows@.len() ==> if j < i && run_covers(
                        run,
                        check_tier(all_checks()[j]),
                    ) {
                        running_row(#[trigger] self.rows@[j])
                    } else {
                        self.rows@[j] == old(self).rows@[j]
                    },
            decreases all.len() - i,
        {
            let covered = match run {
                ValidateRun::Required => all[i].tier() == CheckTier::Required,
                ValidateRun::Fast => all[i].tier() != CheckTier::Extended,
                ValidateRun::Optional => all[i].tier() == CheckTier::Optional,
                ValidateRun::Extended => all[i].tier() == CheckTier::Extended,
            };
            if covered {
                self.rows.set(i, running_check_row());
            }
            i += 1;
        }
        match run {
            ValidateRun::Required => "running required checks…",
            ValidateRun::Fast => "running fast checks…",
            ValidateRun::Optional => "running optional lint checks…",
            ValidateRun::Extended => "running extended checks — this may take a while…",
        }
    }

    /// Shows a finished report on its row; the other rows stay. Returns
    /// whether the Required section state needs a refresh (a required
    /// check reported).
    pub fn apply_report(&mut self, report: &CheckReport) -> (refresh_required: bool)
        requires
            rows_wf(old(self).rows@),
        ensures
            refresh_required == (check_tier(report.id) == CheckTier::Required),
            rows_wf(final(self).rows@),
            reported_row(final(self).rows@[check_index(report.id)], *report),
            forall|i: int|
                0 <= i < final(self).rows@.len() && i != check_index(report.id) ==> #[trigger] final(self).rows@[i] == old(self).rows@[i],
    {
        let k = check_row_index(report.id);
        let (icon, class) = icon_for(report.outcome);
        let mut text = chars_of(report.summary.as_str());
        if report.outcome == CheckOutcome::Skipped {
            match report.id.install_hint() {
                Some(h) => {
                    append_chars(&mut text, &chars_of(" — "));
                    append_chars(&mut text, &chars_of(h));
                },
                None => {},
            }
        }
        let row = CheckRow {
            outcome: Some(report.outcome),
            running: false,
            icon,
            status_class: class,
            summary: string_of(&text),
        };
        self.rows.set(k, row);
        report.id.tier() == CheckTier::Required
    }

    /// Required-section state: `Some(true)` when every required check
    /// passed, `None` while one has no finished outcome (checked in check
    /// order), `Some(false)` when one did not pass. The section is shown
    /// collapsed exactly on `Some(true)`.
    pub fn required_tier_aggregate(&self) -> (r: Option<bool>)
        requires
            rows_wf(self.rows@),
        ensures
            r == aggregate_from(row_outcomes(self.rows@), 0),
            r == Some(true) <==> forall|i: int|
                0 <= i < self.rows@.len() && check_tier(#[trigger] all_checks()[i])
                    == CheckTier::Required ==> self.rows@[i].outcome == Some(CheckOutcome::Pass),
    {
        let ghost os = row_outcomes(self.rows@);
        proof {
            lemma_aggregate_true(os, 0);
        }
        let all = CheckId::all();
        let mut i: usize = all.len();
        let mut acc: Option<bool> = Some(true);
        while i > 0
            invariant
                i <= all.len(),
                all@ == all_checks(),
                rows_wf(self.rows@),
                os == row_outcomes(self.rows@),
                acc == aggregate_from(os, i as int),
            decreases i,
        {
            i -= 1;
            if all[i].tier() == CheckTier::Required {
                acc = match self.rows[i].outcome {
                    None => None,
                    Some(o) => if o != CheckOutcome::Pass {
                        Some(false)
                    } else {
                        acc
                    },
                };
            }
        }
        proof {
            assert forall|j: int|
                0 <= j < self.rows@.len() && check_tier(#[trigger] all_checks()[j])
                    == CheckTier::Required implies (self.rows@[j].outcome == Some(
                CheckOutcome::Pass,
            ) <==> os[j] == Some(CheckOutcome::Pass)) by {}
        }
        acc
    }
}

/// Starting a run that covers the required tier leaves the Required section
/// without a settled state until its checks report.
pub proof fn law_required_run_unsettles_section(before: Seq<CheckRow>, after: Seq<CheckRow>, run: ValidateRun)
    requires
        rows_wf(before),
        rows_wf(after),
        run_covers(run, CheckTier::Required),
        forall|i: int|
            0 <= i < after.len() ==> if run_covers(run, check_tier(all_checks()[i])) {
                running_row(#[trigger] after[i])
            } else {
                after[i] == before[i]
            },
    ensures
        aggregate_from(row_outcomes(after), 0) is None,
{
    let os = row_outcomes(after);
    assert(check_tier(all_checks()[0]) == CheckTier::Required);
    assert(running_row(after[0]));
    assert(os[0] is None);
}

} // verus!
