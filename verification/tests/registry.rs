use aur_pkgbuilder::workflow::package::{PackageDef, PackageKind};
use aur_pkgbuilder::workflow::registry::{default_packages, default_schema_version, Registry};

fn pkg(id: &str, title: &str) -> PackageDef {
    PackageDef {
        id: id.into(),
        title: title.into(),
        subtitle: String::new(),
        kind: PackageKind::Other,
        pkgbuild_url: String::new(),
        icon_name: None,
        destination_dir: None,
        sync_subdir: None,
        pkgbuild_refreshed_at_unix: None,
        favorite: false,
    }
}

#[test]
fn upsert_inserts_then_replaces() {
    let mut r = Registry::default();
    assert_eq!(r.version, 1);
    assert!(!r.upsert(pkg("a", "first")));
    assert!(!r.upsert(pkg("b", "b")));
    assert!(r.upsert(pkg("a", "second")));
    assert_eq!(r.packages.len(), 2);
    assert_eq!(r.packages[0].title, "second");
    assert_eq!(r.packages[1].id, "b");
}

#[test]
fn remove_drops_every_match() {
    let mut r = Registry { version: 1, packages: vec![pkg("a", "1"), pkg("b", "2"), pkg("a", "3")] };
    assert!(r.remove("a"));
    assert_eq!(r.packages.len(), 1);
    assert_eq!(r.packages[0].id, "b");
    assert!(!r.remove("zzz"));
    assert_eq!(r.packages.len(), 1);
}

#[test]
fn remove_undoes_upsert_of_new_id() {
    let mut r = Registry { version: 1, packages: vec![pkg("a", "1")] };
    r.upsert(pkg("new", "n"));
    r.remove("new");
    assert_eq!(r.packages.len(), 1);
    assert_eq!(r.packages[0].title, "1");
}

#[test]
fn load_prefers_jsonc_then_legacy_then_defaults() {
    let j = Registry { version: 7, packages: vec![] };
    let l = Registry { version: 8, packages: vec![] };
    assert_eq!(Registry::load(Some(j.clone()), Some(l.clone())).version, 7);
    assert_eq!(Registry::load(None, Some(l)).version, 8);
    let d = Registry::load(None, None);
    assert_eq!(d.version, default_schema_version());
    assert!(d.packages.is_empty());
    assert!(default_packages().is_empty());
}
