use aur_pkgbuilder::config::Config;
use aur_pkgbuilder::i18n::{
    is_valid_locale_tag, locale_from_tag, locale_storage_tag, locale_tag_from_env_value,
    merge_bundle, parse_locale_string, pick_raw_locale_string, resolve_locale,
    walk_fallback_chain, I18nHolder, UiLocale,
};

#[test]
fn tf_replaces_named_placeholders() {
    let en = vec![(
        "demo.greet".to_string(),
        "Hello {name}, count {n}".to_string(),
    )];
    let h = I18nHolder::new(UiLocale::EnUs, en, Vec::new());
    assert_eq!(
        h.translate_fmt("demo.greet", &[("name", "Ada"), ("n", "3")]),
        "Hello Ada, count 3"
    );
}

#[test]
fn german_falls_back_to_english_when_key_missing() {
    let en = vec![("only.en".to_string(), "english".to_string())];
    let de = Vec::new();
    let h = I18nHolder::new(UiLocale::DeDe, en, de);
    assert_eq!(h.translate("only.en"), "english");
}

#[test]
fn translate_prefers_active_then_key() {
    let en = vec![("k".to_string(), "en".to_string())];
    let de = vec![("k".to_string(), "de".to_string())];
    let h = I18nHolder::new(UiLocale::DeDe, en, de);
    assert_eq!(h.translate("k"), "de");
    assert_eq!(h.translate("missing.key"), "missing.key");
    let merged = merge_bundle(
        vec![("k".to_string(), "old".to_string())],
        vec![("k".to_string(), "new".to_string())],
    );
    let h2 = I18nHolder::new(UiLocale::EnUs, merged, Vec::new());
    assert_eq!(h2.translate("k"), "new");
}

#[test]
fn parse_locale_string_de() {
    assert_eq!(
        parse_locale_string("de_DE.UTF-8"),
        Some("de-DE".to_string())
    );
    assert_eq!(parse_locale_string("en_US.utf8"), Some("en-US".to_string()));
}

#[test]
fn parse_locale_string_other_shapes() {
    assert_eq!(parse_locale_string("  "), None);
    assert_eq!(parse_locale_string("C"), Some("c".to_string()));
    assert_eq!(parse_locale_string("sr_Latn_rs"), Some("sr-Latn-RS".to_string()));
    assert_eq!(parse_locale_string("a-b-c-d"), None);
}

#[test]
fn walk_fallback_chain_resolves_de_ch() {
    let fb = vec![("de-CH".to_string(), "de-DE".to_string())];
    assert_eq!(walk_fallback_chain("de-CH".to_string(), &fb, "en-US"), "de-DE");
}

#[test]
fn walk_fallback_chain_cycle_gives_default() {
    let fb = vec![
        ("a".to_string(), "b".to_string()),
        ("b".to_string(), "a".to_string()),
    ];
    assert_eq!(walk_fallback_chain("a".to_string(), &fb, "en-US"), "en-US");
    assert_eq!(walk_fallback_chain("z".to_string(), &fb, "en-US"), "z");
}

#[test]
fn locale_tags() {
    assert_eq!(locale_from_tag("DE-at"), UiLocale::DeDe);
    assert_eq!(locale_from_tag("en-US"), UiLocale::EnUs);
    assert_eq!(locale_from_tag("d"), UiLocale::EnUs);
    assert_eq!(locale_storage_tag(UiLocale::DeDe), "de-DE");
    assert!(is_valid_locale_tag("de-DE"));
    assert!(!is_valid_locale_tag("-de"));
    assert!(!is_valid_locale_tag("de--DE"));
    assert!(!is_valid_locale_tag("de_DE"));
    assert!(!is_valid_locale_tag("abcdefghijklmnopqrstu"));
    assert!(is_valid_locale_tag("abcdefghijklmnopqrst"));
}

#[test]
fn env_value_and_pick_raw() {
    assert_eq!(locale_tag_from_env_value("C:de_AT.UTF-8"), Some("de-AT".to_string()));
    assert_eq!(locale_tag_from_env_value("POSIX"), None);
    let mut cfg = Config::with_defaults(None, None);
    assert_eq!(pick_raw_locale_string(&cfg, "en-US", None), "en-US");
    assert_eq!(pick_raw_locale_string(&cfg, "en-US", Some("fr-FR".into())), "fr-FR");
    cfg.locale = Some(" de-DE ".into());
    assert_eq!(pick_raw_locale_string(&cfg, "en-US", Some("fr-FR".into())), "de-DE");
    cfg.locale = Some("bad tag".into());
    assert_eq!(pick_raw_locale_string(&cfg, "en-US", None), "en-US");
    let fb = vec![("de-CH".to_string(), "de-DE".to_string())];
    cfg.locale = Some("de-CH".into());
    assert_eq!(resolve_locale(&cfg, &fb, None, None), UiLocale::DeDe);
}

#[test]
fn switching_locale_keeps_bundles() {
    let en = vec![("k".to_string(), "en".to_string())];
    let de = vec![("k".to_string(), "de".to_string())];
    let mut h = I18nHolder::new(UiLocale::EnUs, en, de);
    assert_eq!(h.translate("k"), "en");
    h.set_active_locale(UiLocale::DeDe);
    assert_eq!(h.active_locale(), UiLocale::DeDe);
    assert_eq!(h.translate("k"), "de");
    h.set_active_locale(UiLocale::EnUs);
    assert_eq!(h.translate("k"), "en");
}

#[test]
fn stored_tag_resolves_back() {
    for l in [UiLocale::EnUs, UiLocale::DeDe] {
        let mut cfg = Config::with_defaults(None, None);
        cfg.locale = Some(locale_storage_tag(l).to_string());
        let env = Some(if l == UiLocale::EnUs { "de-DE" } else { "en-US" }.to_string());
        assert_eq!(resolve_locale(&cfg, &Vec::new(), Some("en-US".to_string()), env), l);
    }
}
