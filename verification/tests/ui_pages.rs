use aur_pkgbuilder::i18n::{I18nHolder, UiLocale};
use aur_pkgbuilder::ui::connection::{
    format_unmatched_list, tool_row_ok, tool_row_subtitle, username_cleared_toast,
    username_saved_toast,
};
use aur_pkgbuilder::ui::package_editor::{field_title, non_empty};
use aur_pkgbuilder::ui::publish::describe_default;
use aur_pkgbuilder::ui::shell::{ellipsize_package, home_tab_title, sync_tab_title, version_tab_title};
use aur_pkgbuilder::ui::ssh_setup::{aur_username_saved_message, format_unmatched_ids_for_toast};
use aur_pkgbuilder::ui::validate::summarize;
use aur_pkgbuilder::workflow::package::{PackageDef, PackageKind};
use aur_pkgbuilder::workflow::preflight::ToolCheck;
use aur_pkgbuilder::workflow::validate::{CheckId, CheckReport};

fn pkg(id: &str) -> PackageDef {
    PackageDef {
        id: id.into(),
        title: id.into(),
        subtitle: String::new(),
        kind: PackageKind::Bin,
        pkgbuild_url: String::new(),
        icon_name: None,
        destination_dir: None,
        sync_subdir: None,
        pkgbuild_refreshed_at_unix: None,
        favorite: false,
    }
}

fn holder() -> I18nHolder {
    let en = vec![
        ("connection.unmatched_more".to_string(), "{head} and {more} more".to_string()),
        ("connection.tool_row.missing".to_string(), "missing — {hint}".to_string()),
        ("connection.tool_row.detail_hint".to_string(), "{detail}; {hint}".to_string()),
        ("connection.tool_row.purpose_path".to_string(), "{purpose} (via {via})".to_string()),
        ("connection.username_cleared_short".to_string(), "Cleared".to_string()),
        ("connection.username_cleared_with_packages".to_string(), "Cleared ({n})".to_string()),
        ("connection.username_saved_all".to_string(), "All {registered} of {aur}".to_string()),
        ("connection.username_saved_partial".to_string(), "{k} missing: {list}".to_string()),
        ("preflight.rows.git.purpose".to_string(), "version control".to_string()),
        ("publish.default_desc_saved".to_string(), "Saved: {template}".to_string()),
        ("publish.default_desc_builtin".to_string(), "Built-in: {template}".to_string()),
    ];
    I18nHolder::new(UiLocale::EnUs, en, Vec::new())
}

fn tool(name: &'static str, path: Option<&str>) -> ToolCheck {
    ToolCheck {
        name,
        purpose: "fallback purpose",
        install_hint: "pacman -S thing",
        path: path.map(|p| p.to_string()),
        resolved_via: None,
        satisfied_without_binary: false,
        detail: None,
    }
}

#[test]
fn shell_tab_titles() {
    assert_eq!(home_tab_title(0), "Home - (0 Packages)");
    assert_eq!(home_tab_title(1), "Home - (1 Package)");
    assert_eq!(home_tab_title(12), "Home - (12 Packages)");
    assert_eq!(version_tab_title("  "), "Version");
    assert_eq!(version_tab_title(" 1.2.3 "), "Version - 1.2.3");
    assert_eq!(sync_tab_title(None), "Sync");
    assert_eq!(sync_tab_title(Some(&pkg("short"))), "Sync - short");
}

#[test]
fn ellipsize_cuts_long_ids_at_27_bytes() {
    let exact = "a".repeat(28);
    assert_eq!(ellipsize_package(&pkg(&exact)), exact);
    let long = "b".repeat(40);
    assert_eq!(ellipsize_package(&pkg(&long)), format!("{}…", "b".repeat(27)));
}

#[test]
fn connection_unmatched_and_tool_rows() {
    let h = holder();
    let few: Vec<String> = vec!["a".into(), "b".into()];
    assert_eq!(format_unmatched_list(&h, &few), "a, b");
    let many: Vec<String> = (0..10).map(|i| format!("x{i}")).collect();
    assert_eq!(
        format_unmatched_list(&h, &many),
        "x0, x1, x2, x3, x4, x5, x6, x7 and 2 more"
    );
    let missing = tool("makepkg", None);
    assert!(!tool_row_ok(&missing));
    assert_eq!(tool_row_subtitle(&h, &missing), "missing — pacman -S thing");
    let mut with_detail = tool("makepkg", None);
    with_detail.detail = Some("probe failed".into());
    assert_eq!(tool_row_subtitle(&h, &with_detail), "probe failed; pacman -S thing");
    let found = tool("git", Some("/usr/bin/git"));
    assert!(tool_row_ok(&found));
    assert_eq!(tool_row_subtitle(&h, &found), "version control");
    let mut via = tool("devtools", Some("/usr/bin/pkgctl"));
    via.resolved_via = Some("pkgctl");
    assert_eq!(tool_row_subtitle(&h, &via), "fallback purpose (via pkgctl)");
    let mut group = tool("base-devel", None);
    group.satisfied_without_binary = true;
    group.detail = Some("12 members".into());
    assert_eq!(tool_row_subtitle(&h, &group), "12 members");
}

#[test]
fn connection_username_toasts() {
    let h = holder();
    assert_eq!(username_cleared_toast(&h, 0), "Cleared");
    assert_eq!(username_cleared_toast(&h, 3), "Cleared (3)");
    assert_eq!(username_saved_toast(&h, 2, 5, &vec![]), "All 2 of 5");
    assert_eq!(username_saved_toast(&h, 2, 5, &vec!["foo".into()]), "1 missing: foo");
}

#[test]
fn ssh_setup_username_message() {
    assert_eq!(
        aur_username_saved_message(3, 4, &vec![]),
        "Username saved. All 3 registered package(s) appear under this account (4 from AUR RPC, maintainer or co-maintainer)."
    );
    let many: Vec<String> = (0..9).map(|i| format!("p{i}")).collect();
    assert_eq!(format_unmatched_ids_for_toast(&many), "p0, p1, p2, p3, p4, p5, p6, p7 … (+1 more)");
    assert_eq!(
        aur_username_saved_message(3, 4, &vec!["a".into(), "b".into()]),
        "Username saved. 2 package(s) are not listed for this account on the AUR (maintainer/co-maintainer RPC): a, b"
    );
}

#[test]
fn validate_summary_counts_outcomes() {
    let reports = vec![
        CheckReport::pass(CheckId::BashSyntax),
        CheckReport::pass(CheckId::BashSyntax),
        CheckReport::fail(CheckId::BashSyntax, "x".into()),
        CheckReport::skipped(CheckId::BashSyntax, "y".into()),
    ];
    assert_eq!(summarize(&reports), "2 passed · 0 warn · 1 failed · 1 skipped");
    assert_eq!(summarize(&vec![]), "0 passed · 0 warn · 0 failed · 0 skipped");
}

#[test]
fn publish_and_editor_helpers() {
    let h = holder();
    assert_eq!(describe_default(&h, &Some("{pkg}: bump".into())), "Saved: {pkg}: bump");
    assert_eq!(describe_default(&h, &None), "Built-in: {pkg}: update");
    assert_eq!(field_title("Package id", true), "Package id *");
    assert_eq!(field_title("Icon", false), "Icon");
    assert_eq!(non_empty("  x  "), Some("x".to_string()));
    assert_eq!(non_empty("   "), None);
}
