use aur_pkgbuilder::ui::validate::{icon_for, run_finished_toast, CheckRows, ValidateRun};
use aur_pkgbuilder::workflow::validate::{CheckId, CheckOutcome, CheckReport};

#[test]
fn rows_start_idle_without_verdict() {
    let rows = CheckRows::new();
    assert_eq!(rows.rows.len(), 7);
    for r in &rows.rows {
        assert_eq!(r.summary, "not run");
        assert_eq!(r.icon, "media-playback-start-symbolic");
        assert!(!r.running);
    }
    assert_eq!(rows.required_tier_aggregate(), None);
}

#[test]
fn required_run_marks_only_required_rows() {
    let mut rows = CheckRows::new();
    let status = rows.start_run(ValidateRun::Required);
    assert_eq!(status, "running required checks…");
    for i in 0..3 {
        assert!(rows.rows[i].running);
        assert_eq!(rows.rows[i].summary, "running…");
    }
    for i in 3..7 {
        assert!(!rows.rows[i].running);
        assert_eq!(rows.rows[i].summary, "not run");
    }
    let status = rows.start_run(ValidateRun::Fast);
    assert_eq!(status, "running fast checks…");
    assert!(rows.rows[4].running);
    assert!(!rows.rows[5].running);
}

#[test]
fn required_verdict_follows_reports() {
    let mut rows = CheckRows::new();
    rows.start_run(ValidateRun::Required);
    assert!(rows.apply_report(&CheckReport::pass(CheckId::BashSyntax)));
    assert!(rows.apply_report(&CheckReport::pass(CheckId::PrintSrcinfo)));
    assert_eq!(rows.required_tier_aggregate(), None);
    assert!(rows.apply_report(&CheckReport::pass(CheckId::VerifySource)));
    assert_eq!(rows.required_tier_aggregate(), Some(true));
    assert!(!rows.apply_report(&CheckReport::fail(CheckId::ShellCheck, "bad".into())));
    assert_eq!(rows.required_tier_aggregate(), Some(true));
    rows.apply_report(&CheckReport::fail(CheckId::PrintSrcinfo, "makepkg exited 1".into()));
    assert_eq!(rows.required_tier_aggregate(), Some(false));
    assert_eq!(rows.rows[1].icon, "dialog-error-symbolic");
    assert_eq!(rows.rows[1].status_class, "error");
    assert_eq!(rows.rows[1].summary, "makepkg exited 1");
    rows.mark_running(CheckId::BashSyntax);
    assert_eq!(rows.required_tier_aggregate(), None);
}

#[test]
fn skipped_row_shows_install_hint() {
    let mut rows = CheckRows::new();
    rows.apply_report(&CheckReport::skipped(CheckId::ShellCheck, "shellcheck not found".into()));
    assert_eq!(rows.rows[3].summary, "shellcheck not found — pacman -S --needed shellcheck");
    assert_eq!(rows.rows[3].outcome, Some(CheckOutcome::Skipped));
    rows.apply_report(&CheckReport::skipped(CheckId::VerifySource, "skipped".into()));
    assert_eq!(rows.rows[2].summary, "skipped");
    assert_eq!(icon_for(CheckOutcome::Warn), ("dialog-warning-symbolic", "warning"));
}

#[test]
fn run_toasts_name_failures() {
    let ok = vec![CheckReport::pass(CheckId::BashSyntax)];
    let bad = vec![
        CheckReport::pass(CheckId::BashSyntax),
        CheckReport::fail(CheckId::FakerootBuild, "x".into()),
    ];
    assert_eq!(run_finished_toast(ValidateRun::Required, &ok), "Required checks complete");
    assert_eq!(run_finished_toast(ValidateRun::Fast, &bad), "Some required checks failed");
    assert_eq!(run_finished_toast(ValidateRun::Optional, &bad), "Some optional lint checks failed");
    assert_eq!(run_finished_toast(ValidateRun::Extended, &bad), "Fakeroot build failed");
    assert_eq!(run_finished_toast(ValidateRun::Extended, &ok), "Extended checks complete");
}
