use aur_pkgbuilder::workflow::package::{PackageDef, PackageKind};
use aur_pkgbuilder::workflow::sync::{
    classify_pkgbuild_http_status, destination_help_line, package_dir, pkgbuild_url_precheck,
    trimmed_http_pkgbuild_url, validate_destination_path_str, validate_sync_subdir,
    PkgbuildUrlProbeError,
};

fn sample_pkg(id: &str, destination_dir: Option<&str>, sync_subdir: Option<&str>) -> PackageDef {
    PackageDef {
        id: id.into(),
        title: "t".into(),
        subtitle: "s".into(),
        kind: PackageKind::Bin,
        pkgbuild_url: "https://example.invalid/PKGBUILD".into(),
        icon_name: None,
        destination_dir: destination_dir.map(String::from),
        sync_subdir: sync_subdir.map(String::from),
        pkgbuild_refreshed_at_unix: None,
        favorite: false,
    }
}

#[test]
fn package_dir_defaults_to_id() {
    let p = sample_pkg("foo", None, None);
    assert_eq!(package_dir(Some("/work"), &p), Some("/work/foo".to_string()));
}

#[test]
fn package_dir_uses_sync_subdir_when_no_destination() {
    let p = sample_pkg("foo", None, Some("group/pkg"));
    assert_eq!(
        package_dir(Some("/work"), &p),
        Some("/work/group/pkg".to_string())
    );
}

#[test]
fn package_dir_absolute_destination_ignores_work_dir() {
    let p = sample_pkg("foo", Some("/opt/mypkgs/foo"), Some("ignored/rel"));
    assert_eq!(
        package_dir(Some("/work"), &p),
        Some("/opt/mypkgs/foo".to_string())
    );
    assert_eq!(package_dir(None, &p), Some("/opt/mypkgs/foo".to_string()));
}

#[test]
fn package_dir_needs_work_dir_without_destination() {
    let p = sample_pkg("foo", None, None);
    assert_eq!(package_dir(None, &p), None);
}

#[test]
fn package_dir_edge_cases() {
    let bad_dest = sample_pkg("foo", Some("/opt/../x"), None);
    assert_eq!(package_dir(Some("/work"), &bad_dest), None);
    let blank_dest = sample_pkg("foo", Some("   "), Some("./x"));
    assert_eq!(package_dir(Some("/work/"), &blank_dest), Some("/work/foo".to_string()));
    let p = sample_pkg("foo", None, None);
    assert_eq!(package_dir(Some(""), &p), None);
}

#[test]
fn validate_rejects_parent_dir() {
    assert!(validate_sync_subdir("../escape").is_err());
}

#[test]
fn validate_accepts_nested() {
    assert!(validate_sync_subdir("a/b").is_ok());
}

#[test]
fn validate_sync_subdir_more_cases() {
    assert!(validate_sync_subdir("   ").is_ok());
    assert_eq!(
        validate_sync_subdir("/abs"),
        Err("Use a relative path under the working directory (no .. or leading /).")
    );
    assert!(validate_sync_subdir("./a").is_err());
    assert!(validate_sync_subdir("a/./b").is_ok());
}

#[test]
fn validate_destination_rejects_relative() {
    assert!(validate_destination_path_str("rel/path").is_err());
}

#[test]
fn validate_destination_accepts_absolute() {
    assert_eq!(
        validate_destination_path_str("  /tmp/my-pkg  ").unwrap(),
        "/tmp/my-pkg"
    );
}

#[test]
fn validate_destination_rejects_dot_dot_component() {
    assert!(validate_destination_path_str("/tmp/../etc").is_err());
}

#[test]
fn validate_destination_messages() {
    assert_eq!(
        validate_destination_path_str(" "),
        Err("Choose a folder (absolute path).")
    );
    assert_eq!(
        validate_destination_path_str("x"),
        Err("Destination must be an absolute path with normal path components (no ..).")
    );
}

#[test]
fn pkgbuild_url_precheck_rejects_empty_and_bad_scheme() {
    assert!(matches!(
        pkgbuild_url_precheck("").unwrap_err(),
        PkgbuildUrlProbeError::EmptyUrl
    ));
    assert!(matches!(
        pkgbuild_url_precheck("file:///x/PKGBUILD").unwrap_err(),
        PkgbuildUrlProbeError::InvalidScheme
    ));
}

#[test]
fn trimmed_url_accepts_http_and_https() {
    assert_eq!(
        trimmed_http_pkgbuild_url("  https://a/PKGBUILD ").unwrap(),
        "https://a/PKGBUILD"
    );
    assert!(pkgbuild_url_precheck("http://a").is_ok());
}

#[test]
fn http_status_classification() {
    assert!(matches!(
        classify_pkgbuild_http_status(404),
        Err(PkgbuildUrlProbeError::NotFound(404))
    ));
    assert!(matches!(
        classify_pkgbuild_http_status(500),
        Err(PkgbuildUrlProbeError::HttpError(500))
    ));
    assert!(classify_pkgbuild_http_status(200).is_ok());
    assert!(classify_pkgbuild_http_status(302).is_ok());
}

#[test]
fn destination_help_lines() {
    let ok = sample_pkg("foo", None, None);
    assert_eq!(destination_help_line(Some("/w"), &ok), "");
    let bad = sample_pkg("foo", Some("rel"), None);
    assert_eq!(
        destination_help_line(Some("/w"), &bad),
        "Invalid saved destination — browse to pick a folder again."
    );
    assert_eq!(destination_help_line(Some(""), &ok), "Default: /foo");
    assert_eq!(
        destination_help_line(None, &ok),
        "Set a working directory on Connection, or browse for an absolute folder."
    );
}

#[test]
fn probe_error_messages() {
    assert_eq!(
        PkgbuildUrlProbeError::InvalidScheme.message(),
        "PKGBUILD URL must start with http:// or https://"
    );
    assert_eq!(PkgbuildUrlProbeError::HttpError(500).message(), "PKGBUILD URL returned HTTP 500");
    assert!(PkgbuildUrlProbeError::NotFound(404).message().starts_with("There is no PKGBUILD at that URL yet (HTTP 404)."));
    assert_eq!(
        PkgbuildUrlProbeError::Request("timeout".into()).message(),
        "Could not reach PKGBUILD URL: timeout"
    );
}
