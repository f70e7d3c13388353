use aur_pkgbuilder::i18n::yaml::{
    crate_name_is_aur_pkgbuilder, flatten_yaml, parse_bundle, read_default_locale,
    read_fallbacks, YamlNode,
};
use aur_pkgbuilder::i18n::{merge_bundle, walk_fallback_chain, I18nHolder, UiLocale};

fn map(entries: Vec<(&str, YamlNode)>) -> YamlNode {
    YamlNode::Mapping(entries.into_iter().map(|(k, v)| (Some(k.to_string()), v)).collect())
}

fn s(v: &str) -> YamlNode {
    YamlNode::Str(v.to_string())
}

#[test]
fn crate_name_detects_aur_pkgbuilder_manifest() {
    let manifest = "[package]\nname = \"aur-pkgbuilder\"\nversion = \"0\"\n";
    assert!(crate_name_is_aur_pkgbuilder(manifest));
}

#[test]
fn crate_name_rejects_other_manifests() {
    assert!(crate_name_is_aur_pkgbuilder("# top\n[package] # pkg\n  name='aur-pkgbuilder'  # c\n"));
    assert!(!crate_name_is_aur_pkgbuilder("[package]\nname = \"other\"\n"));
    assert!(!crate_name_is_aur_pkgbuilder("[dependencies]\nname = \"aur-pkgbuilder\"\n"));
    assert!(!crate_name_is_aur_pkgbuilder(
        "[package]\nversion = \"1\"\n[dependencies]\nname = \"aur-pkgbuilder\"\n"
    ));
    assert!(!crate_name_is_aur_pkgbuilder("[package]\nname = \"aur-pkgbuilder\n"));
    assert!(!crate_name_is_aur_pkgbuilder(""));
}

#[test]
fn disk_overrides_embedded_for_en_us() {
    let embedded = map(vec![("app", map(vec![("window_title", s("Embedded"))]))]);
    let disk = map(vec![("app.window_title", s("FromDisk"))]);
    let merged = merge_bundle(parse_bundle(Some(&embedded)), parse_bundle(Some(&disk)));
    let h = I18nHolder::new(UiLocale::EnUs, merged, Vec::new());
    assert_eq!(h.translate("app.window_title"), "FromDisk");
}

#[test]
fn flatten_nested_and_scalar_leaves() {
    let doc = YamlNode::Mapping(vec![
        (Some("a".into()), map(vec![("b", s("x")), ("c", YamlNode::Bool(true))])),
        (Some("n".into()), YamlNode::Number("42".into())),
        (None, s("skipped")),
        (Some("seq".into()), YamlNode::Other),
    ]);
    let mut out = Vec::new();
    flatten_yaml("", &doc, &mut out);
    assert_eq!(
        out,
        vec![
            ("a.b".to_string(), "x".to_string()),
            ("a.c".to_string(), "true".to_string()),
            ("n".to_string(), "42".to_string()),
        ]
    );
    let mut pre = Vec::new();
    flatten_yaml("root", &s("v"), &mut pre);
    assert_eq!(pre, vec![("root".to_string(), "v".to_string())]);
    assert!(parse_bundle(None).is_empty());
}

#[test]
fn i18n_yml_fallbacks_and_default_locale() {
    let doc = map(vec![
        ("default_locale", s("de-DE")),
        (
            "fallbacks",
            map(vec![("de-CH", s("de-DE")), ("x", YamlNode::Bool(false)), ("de-AT", s("de-DE"))]),
        ),
    ]);
    let fb = read_fallbacks(Some(&doc));
    assert_eq!(
        fb,
        vec![
            ("de-CH".to_string(), "de-DE".to_string()),
            ("de-AT".to_string(), "de-DE".to_string()),
        ]
    );
    assert_eq!(walk_fallback_chain("de-AT".to_string(), &fb, "en-US"), "de-DE");
    assert_eq!(read_default_locale(Some(&doc)), Some("de-DE".to_string()));
    assert_eq!(read_default_locale(None), None);
    assert!(read_fallbacks(Some(&s("plain"))).is_empty());
}
