use aur_pkgbuilder::config::Config;
use aur_pkgbuilder::i18n::{I18nHolder, UiLocale};
use aur_pkgbuilder::state::AppState;
use aur_pkgbuilder::ui::home::{
    apply_home_package_list_view, format_ids_for_confirm_dialog, home_pkg_last_updated_line,
    is_pkg_flagged_mismatch, kind_rank, mismatch_ids_still_in_registry, package_matches_search,
    HomePackageFilter, HomePackageListState, HomePackageSort,
};
use aur_pkgbuilder::workflow::package::{PackageDef, PackageKind};
use aur_pkgbuilder::workflow::registry::Registry;

fn sample_pkg(id: &str, title: &str, kind: PackageKind, refreshed: Option<i64>) -> PackageDef {
    PackageDef {
        id: id.to_string(),
        title: title.to_string(),
        subtitle: format!("sub-{id}"),
        kind,
        pkgbuild_url: "https://example.invalid/pkgbuild".to_string(),
        icon_name: None,
        destination_dir: None,
        sync_subdir: None,
        pkgbuild_refreshed_at_unix: refreshed,
        favorite: false,
    }
}

fn ids(v: &[PackageDef]) -> Vec<&str> {
    v.iter().map(|p| p.id.as_str()).collect()
}

fn english() -> I18nHolder {
    let en = vec![
        ("home.last_updated.prefix".to_string(), "Last updated: {detail}".to_string()),
        ("home.last_updated.never".to_string(), "Last updated: never".to_string()),
        ("home.last_updated.just_now".to_string(), "just now".to_string()),
        ("home.last_updated.min_ago".to_string(), "{n} min ago".to_string()),
        ("home.last_updated.hours_ago".to_string(), "{n} h ago".to_string()),
        ("home.last_updated.days_ago".to_string(), "{n} d ago".to_string()),
        ("home.last_updated.unknown_date".to_string(), "unknown date".to_string()),
    ];
    I18nHolder::new(UiLocale::EnUs, en, Vec::new())
}

#[test]
fn apply_view_search_matches_id_or_title() {
    let pkgs = vec![
        sample_pkg("alpha-bin", "Alpha", PackageKind::Bin, None),
        sample_pkg("zed-git", "Zed", PackageKind::Git, None),
    ];
    let controls = HomePackageListState {
        search: "zed".to_string(),
        ..Default::default()
    };
    let out = apply_home_package_list_view(pkgs, None, &controls);
    assert_eq!(out.len(), 1);
    assert_eq!(out[0].id, "zed-git");
}

#[test]
fn apply_view_filter_flagged_only() {
    let pkgs = vec![
        sample_pkg("a", "A", PackageKind::Bin, None),
        sample_pkg("b", "B", PackageKind::Bin, None),
    ];
    let mism = vec!["b".to_string()];
    let controls = HomePackageListState {
        filter: HomePackageFilter::FlaggedOnly,
        ..Default::default()
    };
    let out = apply_home_package_list_view(pkgs, Some(&mism), &controls);
    assert_eq!(out.len(), 1);
    assert_eq!(out[0].id, "b");
}

#[test]
fn apply_view_sort_name_ascending() {
    let pkgs = vec![
        sample_pkg("zzz", "Z", PackageKind::Bin, None),
        sample_pkg("aaa", "A", PackageKind::Git, None),
        sample_pkg("mmm", "M", PackageKind::Other, None),
    ];
    let controls = HomePackageListState::default();
    let out = apply_home_package_list_view(pkgs, None, &controls);
    assert_eq!(ids(&out), vec!["aaa", "mmm", "zzz"]);
}

#[test]
fn apply_view_sort_refresh_oldest() {
    let pkgs = vec![
        sample_pkg("new", "N", PackageKind::Bin, Some(300)),
        sample_pkg("old", "O", PackageKind::Bin, Some(100)),
        sample_pkg("mid", "M", PackageKind::Bin, Some(200)),
    ];
    let controls = HomePackageListState {
        sort: HomePackageSort::RefreshOldest,
        ..Default::default()
    };
    let out = apply_home_package_list_view(pkgs, None, &controls);
    assert_eq!(ids(&out), vec!["old", "mid", "new"]);
}

#[test]
fn apply_view_sort_refresh_oldest_missing_last() {
    let pkgs = vec![
        sample_pkg("a", "A", PackageKind::Bin, Some(50)),
        sample_pkg("b", "B", PackageKind::Bin, None),
    ];
    let controls = HomePackageListState {
        sort: HomePackageSort::RefreshOldest,
        ..Default::default()
    };
    let out = apply_home_package_list_view(pkgs, None, &controls);
    assert_eq!(ids(&out), vec!["a", "b"]);
}

#[test]
fn last_updated_line_never() {
    let s = home_pkg_last_updated_line(&english(), None, 1_000_000, None);
    assert!(s.contains("never"), "{s}");
}

#[test]
fn last_updated_line_minutes_ago() {
    let s = home_pkg_last_updated_line(&english(), Some(100), 100 + 5 * 60, None);
    assert!(s.contains("5 min ago"), "{s}");
}

#[test]
fn last_updated_line_ranges() {
    let h = english();
    assert_eq!(home_pkg_last_updated_line(&h, Some(100), 130, None), "Last updated: just now");
    assert_eq!(home_pkg_last_updated_line(&h, Some(0), 7200, None), "Last updated: 2 h ago");
    assert_eq!(home_pkg_last_updated_line(&h, Some(0), 3 * 86400, None), "Last updated: 3 d ago");
    assert_eq!(
        home_pkg_last_updated_line(&h, Some(0), 30 * 86400, Some("1970-01-01 00:00".into())),
        "Last updated: 1970-01-01 00:00"
    );
    assert_eq!(home_pkg_last_updated_line(&h, Some(0), 30 * 86400, None), "Last updated: unknown date");
    assert_eq!(
        home_pkg_last_updated_line(&h, Some(i64::MAX), i64::MIN, None),
        "Last updated: just now"
    );
}

#[test]
fn sort_and_filter_index_round_trip() {
    for i in 0..5 {
        assert_eq!(HomePackageSort::from_index(i).to_index(), i);
    }
    for i in 0..3 {
        assert_eq!(HomePackageFilter::from_index(i).to_index(), i);
    }
    assert_eq!(HomePackageSort::from_index(9), HomePackageSort::NameAsc);
    assert_eq!(HomePackageFilter::from_index(9), HomePackageFilter::All);
    assert_eq!(kind_rank(PackageKind::Git), 1);
}

#[test]
fn sort_desc_kind_newest_and_stability() {
    let pkgs = vec![
        sample_pkg("b-git", "B", PackageKind::Git, Some(10)),
        sample_pkg("a-other", "A", PackageKind::Other, None),
        sample_pkg("c-bin", "C", PackageKind::Bin, Some(30)),
        sample_pkg("a-bin", "A2", PackageKind::Bin, Some(20)),
    ];
    let mut c = HomePackageListState { sort: HomePackageSort::NameDesc, ..Default::default() };
    assert_eq!(
        ids(&apply_home_package_list_view(pkgs.clone(), None, &c)),
        vec!["c-bin", "b-git", "a-other", "a-bin"]
    );
    c.sort = HomePackageSort::Kind;
    assert_eq!(
        ids(&apply_home_package_list_view(pkgs.clone(), None, &c)),
        vec!["a-bin", "c-bin", "b-git", "a-other"]
    );
    c.sort = HomePackageSort::RefreshNewest;
    assert_eq!(
        ids(&apply_home_package_list_view(pkgs, None, &c)),
        vec!["c-bin", "a-bin", "b-git", "a-other"]
    );
    // Ids equal up to case keep their registry order.
    let twins = vec![
        sample_pkg("Foo", "first", PackageKind::Bin, None),
        sample_pkg("foo", "second", PackageKind::Bin, None),
    ];
    let out = apply_home_package_list_view(twins, None, &HomePackageListState::default());
    assert_eq!(out[0].title, "first");
    assert_eq!(out[1].title, "second");
}

#[test]
fn search_is_trimmed_and_case_insensitive() {
    let p = sample_pkg("My-Tool", "Title", PackageKind::Bin, None);
    assert!(package_matches_search(&p, "   "));
    assert!(package_matches_search(&p, "  my-t "));
    assert!(package_matches_search(&p, "SUB-"));
    assert!(!package_matches_search(&p, "zzz"));
    let flagged = vec!["My-Tool".to_string()];
    assert!(is_pkg_flagged_mismatch(&p, Some(&flagged)));
    assert!(!is_pkg_flagged_mismatch(&p, None));
    let c = HomePackageListState { filter: HomePackageFilter::NotFlagged, ..Default::default() };
    assert!(apply_home_package_list_view(vec![p], Some(&flagged), &c).is_empty());
}

#[test]
fn confirm_dialog_ids_are_capped_at_twelve() {
    assert_eq!(format_ids_for_confirm_dialog(&vec![]), "");
    assert_eq!(format_ids_for_confirm_dialog(&vec!["a".into(), "b".into()]), "a, b");
    let many: Vec<String> = (0..15).map(|i| format!("p{i}")).collect();
    assert_eq!(
        format_ids_for_confirm_dialog(&many),
        "p0, p1, p2, p3, p4, p5, p6, p7, p8, p9, p10, p11 … (+3 more)"
    );
}

#[test]
fn mismatch_ids_still_registered_are_sorted() {
    let reg = Registry {
        version: 1,
        packages: vec![
            sample_pkg("zeta", "Z", PackageKind::Bin, None),
            sample_pkg("alpha", "A", PackageKind::Bin, None),
        ],
    };
    let mut st = AppState::new(Config::with_defaults(None, None), reg);
    assert!(mismatch_ids_still_in_registry(&st).is_empty());
    st.aur_account_mismatch_ids = Some(vec!["zeta".into(), "gone".into(), "alpha".into()]);
    assert_eq!(mismatch_ids_still_in_registry(&st), vec!["alpha".to_string(), "zeta".to_string()]);
}

#[test]
fn apply_view_name_order_ignores_case_and_keeps_all() {
    let pkgs = vec![
        sample_pkg("Zeta", "z", PackageKind::Bin, None),
        sample_pkg("alpha", "a", PackageKind::Git, None),
        sample_pkg("Beta", "b", PackageKind::Other, None),
    ];
    let out = apply_home_package_list_view(pkgs, None, &HomePackageListState::default());
    assert_eq!(ids(&out), vec!["alpha", "Beta", "Zeta"]);
}
