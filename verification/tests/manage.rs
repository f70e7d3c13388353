use aur_pkgbuilder::ui::manage::{
    admin_result_toast, bulk_sync_toast, bulk_upstream_check_view, bulk_upstream_package_column_width,
    BulkCheckView,
    format_bulk_upstream_report, packages_missing_pkgbuild_for_bulk_sync, upstream_check_view,
    UpstreamCheckView,
};
use aur_pkgbuilder::workflow::admin::{AdminError, UpdateStatus, CHECK_UPSTREAM_PKGBUILD_MISSING_MSG};
use aur_pkgbuilder::workflow::package::{PackageDef, PackageKind};

fn sample_pkg(id: &str) -> PackageDef {
    PackageDef {
        id: id.into(),
        title: "t".into(),
        subtitle: "s".into(),
        kind: PackageKind::Bin,
        pkgbuild_url: "https://example.invalid/PKGBUILD".into(),
        icon_name: None,
        destination_dir: None,
        sync_subdir: None,
        pkgbuild_refreshed_at_unix: None,
        favorite: false,
    }
}

#[test]
fn bulk_report_aligns_columns_with_pipe_separators() {
    let results = vec![
        (
            sample_pkg("short"),
            Err(AdminError::Other(CHECK_UPSTREAM_PKGBUILD_MISSING_MSG.to_string())),
        ),
        (
            sample_pkg("longer-package-name-here"),
            Err(AdminError::Other(CHECK_UPSTREAM_PKGBUILD_MISSING_MSG.to_string())),
        ),
    ];
    let report = format_bulk_upstream_report(&results);
    let header = report.lines().next().expect("header line");
    assert!(
        header.starts_with("Package") && header.contains(" | Status") && header.contains("| Details"),
        "header: {header}"
    );
    let err_lines: Vec<&str> = report
        .lines()
        .filter(|l| l.contains("error") && l.contains('|'))
        .collect();
    assert_eq!(err_lines.len(), 2, "{report}");
    let pipe0 = err_lines[0].match_indices(" | ").count();
    let pipe1 = err_lines[1].match_indices(" | ").count();
    assert_eq!(pipe0, 2);
    assert_eq!(pipe1, 2);
    let idx_pkg = err_lines[0].find(" | ").expect("sep");
    let idx_stat = err_lines[1].find(" | ").expect("sep");
    assert_eq!(
        idx_pkg, idx_stat,
        "package column should align: {:?} vs {:?}",
        err_lines[0], err_lines[1]
    );
    assert!(err_lines[0].ends_with(CHECK_UPSTREAM_PKGBUILD_MISSING_MSG));
    assert!(err_lines[1].ends_with(CHECK_UPSTREAM_PKGBUILD_MISSING_MSG));
}

#[test]
fn bulk_report_outdated_appends_diff_block() {
    let results = vec![(
        sample_pkg("foo"),
        Ok(UpdateStatus::Outdated {
            local: "1".into(),
            upstream: "2".into(),
            diff: "-pkgver=1\n+pkgver=2".into(),
        }),
    )];
    let report = format_bulk_upstream_report(&results);
    assert!(report.contains("outdated"));
    assert!(report.contains("foo (PKGBUILD vs upstream)"));
    assert!(report.contains("-pkgver=1"));
}

#[test]
fn bulk_report_exact_layout() {
    let results = vec![
        (sample_pkg("a"), Ok(UpdateStatus::UpToDate { version: "1.0".into() })),
        (sample_pkg("b"), Err(AdminError::NotImplemented("later"))),
        (sample_pkg("c"), Err(AdminError::Other("two\nlines".into()))),
    ];
    let expected = [
        "Package          | Status     | Details",
        &format!("{}-+-{}-+-{}", "-".repeat(16), "-".repeat(10), "-".repeat(52)),
        "a                | up to date | pkgver 1.0",
        "b                | preview    | later",
        "c                | error      | two lines",
    ]
    .join("\n")
        + "\n";
    assert_eq!(format_bulk_upstream_report(&results), expected);
}

#[test]
fn bulk_report_column_width_is_clamped() {
    let short = vec![(sample_pkg("x"), Ok(UpdateStatus::UpToDate { version: "1".into() }))];
    assert_eq!(bulk_upstream_package_column_width(&short), 16);
    let mid = vec![(sample_pkg(&"m".repeat(20)), Ok(UpdateStatus::UpToDate { version: "1".into() }))];
    assert_eq!(bulk_upstream_package_column_width(&mid), 20);
    let long = vec![(sample_pkg(&"l".repeat(60)), Ok(UpdateStatus::UpToDate { version: "1".into() }))];
    assert_eq!(bulk_upstream_package_column_width(&long), 48);
    assert_eq!(bulk_upstream_package_column_width(&vec![]), 16);
}

#[test]
fn missing_pkgbuild_packages_for_bulk_sync() {
    let results = vec![
        (sample_pkg("a"), Err(AdminError::Other(CHECK_UPSTREAM_PKGBUILD_MISSING_MSG.to_string()))),
        (sample_pkg("b"), Err(AdminError::Other("other failure".into()))),
        (sample_pkg("c"), Ok(UpdateStatus::UpToDate { version: "1".into() })),
    ];
    let missing = packages_missing_pkgbuild_for_bulk_sync(&results).expect("one missing");
    assert_eq!(missing.len(), 1);
    assert_eq!(missing[0].id, "a");
    let none = vec![(sample_pkg("b"), Err(AdminError::Other("other failure".into())))];
    assert!(packages_missing_pkgbuild_for_bulk_sync(&none).is_none());
}

#[test]
fn manage_toasts() {
    assert_eq!(bulk_sync_toast(0, 0), None);
    assert_eq!(bulk_sync_toast(3, 0).unwrap(), "Downloaded PKGBUILD for 3 package(s).");
    assert_eq!(
        bulk_sync_toast(0, 2).unwrap(),
        "Could not download PKGBUILD for 2 package(s). Use Sync per package for details."
    );
    assert_eq!(
        bulk_sync_toast(1, 1).unwrap(),
        "Downloaded 1 PKGBUILD(s); 1 failed — use Sync or Edit package for failing rows."
    );
    assert_eq!(admin_result_toast(&Ok(()), "Done"), "Done");
    assert_eq!(admin_result_toast(&Err(AdminError::NotImplemented("x")), "Done"), "Coming soon: x");
    assert_eq!(
        admin_result_toast(&Err(AdminError::RunningAsRoot), "Done"),
        "Failed: makepkg validation must not run as root — run the app as a normal user."
    );
}

#[test]
fn upstream_check_views() {
    assert_eq!(
        upstream_check_view("foo", &Ok(UpdateStatus::UpToDate { version: "1.2".into() })),
        UpstreamCheckView::Toast("foo: PKGBUILD matches upstream (pkgver 1.2).".into())
    );
    assert_eq!(
        upstream_check_view(
            "foo",
            &Ok(UpdateStatus::Outdated { local: "1".into(), upstream: "2".into(), diff: "-a\n+b".into() })
        ),
        UpstreamCheckView::Report {
            title: "foo — PKGBUILD vs upstream".into(),
            body: "pkgver: 1 (local) → 2 (upstream)\n\nDiff (same style as Publish “Diff vs HEAD”):\n\n-a\n+b".into()
        }
    );
    assert_eq!(
        upstream_check_view("foo", &Err(AdminError::NotImplemented("archive"))),
        UpstreamCheckView::Toast("Coming soon: archive".into())
    );
    assert_eq!(
        upstream_check_view("foo", &Err(AdminError::RunningAsRoot)),
        UpstreamCheckView::Toast(
            "foo: makepkg validation must not run as root — run the app as a normal user.".into()
        )
    );
}

#[test]
fn bulk_check_all_match_is_a_toast() {
    let results = vec![
        (sample_pkg("a"), Ok(UpdateStatus::UpToDate { version: "1".into() })),
        (sample_pkg("b"), Ok(UpdateStatus::UpToDate { version: "2".into() })),
    ];
    match bulk_upstream_check_view(&results) {
        BulkCheckView::AllMatch(t) => assert_eq!(t, "All 2 package(s) match upstream PKGBUILD."),
        _ => panic!("expected a toast"),
    }
}

#[test]
fn bulk_check_differences_open_a_report() {
    let results = vec![
        (sample_pkg("a"), Ok(UpdateStatus::UpToDate { version: "1".into() })),
        (
            sample_pkg("b"),
            Err(AdminError::Other(CHECK_UPSTREAM_PKGBUILD_MISSING_MSG.to_string())),
        ),
    ];
    match bulk_upstream_check_view(&results) {
        BulkCheckView::Report { title, report, bulk_sync, toast } => {
            assert_eq!(title, "Upstream check — report");
            assert_eq!(report, format_bulk_upstream_report(&results));
            let ids: Vec<String> = bulk_sync.expect("missing PKGBUILD").iter().map(|p| p.id.clone()).collect();
            assert_eq!(ids, vec!["b".to_string()]);
            assert_eq!(toast, "One or more packages differ from upstream or failed — see the report window.");
        }
        _ => panic!("expected a report"),
    }
    let results = vec![(
        sample_pkg("c"),
        Ok(UpdateStatus::Outdated { local: "1".into(), upstream: "2".into(), diff: "-a\n+b".into() }),
    )];
    match bulk_upstream_check_view(&results) {
        BulkCheckView::Report { title, bulk_sync, .. } => {
            assert_eq!(title, "Upstream check — review diffs");
            assert!(bulk_sync.is_none());
        }
        _ => panic!("expected a report"),
    }
}
