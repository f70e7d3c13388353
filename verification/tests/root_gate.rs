use aur_pkgbuilder::i18n::is_valid_locale_tag;
use aur_pkgbuilder::workflow::admin::{build_root_refusal, register_refuse_root, AdminError};

#[test]
fn root_is_refused_for_register_and_build() {
    assert!(matches!(register_refuse_root(true), Err(AdminError::RunningAsRoot)));
    assert!(register_refuse_root(false).is_ok());
    assert_eq!(build_root_refusal(true), Some("Refusing to build as root."));
    assert_eq!(build_root_refusal(false), None);
}

#[test]
fn locale_tags_take_letters_digits_and_inner_dashes() {
    assert!(is_valid_locale_tag("pt-BR") && is_valid_locale_tag("de") && is_valid_locale_tag("zh-Hant-7"));
    assert!(!is_valid_locale_tag("a_b") && !is_valid_locale_tag("a b") && !is_valid_locale_tag("a.b"));
    assert!(!is_valid_locale_tag("-de") && !is_valid_locale_tag("de-") && !is_valid_locale_tag("d--e"));
}
