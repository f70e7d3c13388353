use aur_pkgbuilder::i18n::{I18nHolder, UiLocale};
use aur_pkgbuilder::ui::pkgbuild_editor::{collect_quick, populate_quick, removed_preview_text};
use aur_pkgbuilder::workflow::pkgbuild_edit::{parse_quick_fields_checked, PkgbuildQuickFields};

fn blank_form() -> Vec<String> {
    vec![String::new(); 14]
}

#[test]
fn collect_trims_and_drops_empty_entries() {
    let mut form = blank_form();
    form[1] = "  hello-bin ".to_string();
    form[2] = "1.2.3".to_string();
    form[4] = "   ".to_string();
    let f = collect_quick(&form);
    assert_eq!(f.pkgname.as_deref(), Some("hello-bin"));
    assert_eq!(f.pkgver.as_deref(), Some("1.2.3"));
    assert_eq!(f.pkgdesc, None);
    assert_eq!(f.maintainer_comment, None);
    assert_eq!(f.source_tokens, None);
}

#[test]
fn populate_keeps_entries_of_unset_fields() {
    let mut form = blank_form();
    form[3] = "7".to_string();
    form[6] = "https://old.example".to_string();
    let fields = PkgbuildQuickFields {
        pkgname: Some("demo".to_string()),
        url: Some("https://new.example".to_string()),
        ..PkgbuildQuickFields::default()
    };
    let out = populate_quick(&form, &fields);
    assert_eq!(out[1], "demo");
    assert_eq!(out[3], "7");
    assert_eq!(out[6], "https://new.example");
    assert_eq!(out[0], "");
}

#[test]
fn parsed_pkgbuild_reads_back_through_the_form() {
    let text = "# Maintainer: Ada <ada@example.org>\npkgname=demo\npkgver=0.1\npkgrel=1\narch=('x86_64')\ndepends=('glibc' 'zlib')\n";
    let fields = parse_quick_fields_checked(text).expect("parses");
    let form = populate_quick(&blank_form(), &fields);
    let back = collect_quick(&form);
    assert_eq!(back, fields);
    assert_eq!(back.depends_tokens.as_deref(), Some("glibc zlib"));
}

#[test]
fn removed_preview_cuts_long_lists() {
    let h = I18nHolder::new(
        UiLocale::EnUs,
        vec![("pkgbuild_editor.diff_more_removed".to_string(), "… more removed".to_string())],
        Vec::new(),
    );
    let short = vec!["a".to_string(), "b".to_string()];
    assert_eq!(removed_preview_text(&h, &short), "a\nb");
    assert_eq!(removed_preview_text(&h, &Vec::new()), "");
    let long: Vec<String> = (0..130).map(|i| format!("l{i}")).collect();
    let text = removed_preview_text(&h, &long);
    let lines: Vec<&str> = text.lines().collect();
    assert_eq!(lines.len(), 121);
    assert_eq!(lines[119], "l119");
    assert_eq!(lines[120], "… more removed");
}
