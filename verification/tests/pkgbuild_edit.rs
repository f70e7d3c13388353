use aur_pkgbuilder::workflow::pkgbuild_edit::{
    merge_quick_fields, merge_quick_fields_checked, parse_quick_fields, parse_quick_fields_checked,
    starter_pkgbuild_for_register, PkgbuildQuickFields,
};

#[test]
fn merge_pkgver_replaces_in_place() {
    let src = "pkgname=foo\npkgver=1\npkgrel=1\n";
    let f = PkgbuildQuickFields {
        pkgver: Some("2".into()),
        ..Default::default()
    };
    let got = merge_quick_fields(src, &f);
    assert!(got.contains("pkgver=2"));
    assert!(got.contains("pkgname=foo"));
}

#[test]
fn merge_inserts_before_package() {
    let src = "pkgname=x\n\npackage() {\n  true\n}\n";
    let f = PkgbuildQuickFields {
        pkgrel: Some("3".into()),
        ..Default::default()
    };
    let got = merge_quick_fields(src, &f);
    assert!(got.contains("pkgrel=3"));
    let pos_rel = got.find("pkgrel=3").unwrap();
    let pos_pkg = got.find("package()").unwrap();
    assert!(pos_rel < pos_pkg);
}

#[test]
fn parse_depends_array() {
    let src = "depends=('glibc' 'shadow')\n";
    let p = parse_quick_fields(src);
    assert_eq!(p.depends_tokens.as_deref(), Some("glibc shadow"));
}

#[test]
fn parse_depends_keeps_spaces_inside_quotes() {
    let src = "depends=('foo bar' 'baz')\n";
    let p = parse_quick_fields(src);
    assert_eq!(p.depends_tokens.as_deref(), Some("foo bar baz"));
}

#[test]
fn parse_optdepends_array() {
    let src = "optdepends=('vim:for_editing' 'python-docutils')\n";
    let p = parse_quick_fields(src);
    assert_eq!(
        p.optdepends_tokens.as_deref(),
        Some("vim:for_editing python-docutils")
    );
}

#[test]
fn parse_multiline_optdepends() {
    let src = "optdepends=(\n    'paru: AUR helper'\n    'yay: other'\n)\n";
    let p = parse_quick_fields(src);
    assert_eq!(
        p.optdepends_tokens.as_deref(),
        Some("paru: AUR helper yay: other")
    );
}

#[test]
fn merge_multiline_optdepends_replaces_full_block() {
    let src = "pkgname=x\noptdepends=(\n  'vim: editing'\n)\npkgrel=1\n";
    let f = PkgbuildQuickFields {
        optdepends_tokens: Some("nano:editing".into()),
        ..Default::default()
    };
    let got = merge_quick_fields(src, &f);
    assert!(got.contains("optdepends=('nano:editing')"));
    assert!(!got.contains("'vim: editing'"));
    assert!(got.contains("pkgrel=1"));
}

#[test]
fn maintainer_round_trip() {
    let src = "#!/bin/bash\npkgname=a\n";
    let f = PkgbuildQuickFields {
        maintainer_comment: Some("Me <me@x>".into()),
        ..Default::default()
    };
    let got = merge_quick_fields(src, &f);
    assert!(got.contains("# Maintainer: Me <me@x>"));
    assert!(got.contains("#!/bin/bash"));
}

#[test]
fn starter_pkgbuild_contains_pkgbase_and_package() {
    let text = starter_pkgbuild_for_register("my-aur-pkg");
    assert!(text.contains("pkgname=my-aur-pkg"));
    assert!(text.contains("package()"));
}

#[test]
fn starter_pkgbuild_exact_text() {
    let text = starter_pkgbuild_for_register("demo-pkg");
    assert_eq!(
        text,
        "# Maintainer: TODO: Your Name <your.email@example.com>\npkgname=demo-pkg\npkgver=0\npkgrel=1\npkgdesc=\"TODO: short description for the AUR (edit this starter PKGBUILD)\"\narch=('any')\nlicense=('MIT')\n\npackage() {\n  true\n}\n"
    );
}

#[test]
fn merge_with_no_fields_keeps_text() {
    let src = "pkgname=foo\r\npkgver=1\n# c\n";
    let got = merge_quick_fields(src, &PkgbuildQuickFields::default());
    assert_eq!(got, src);
}

#[test]
fn merge_scalar_quotes_unsafe_value() {
    let src = "pkgname=foo\npkgdesc=old\n";
    let f = PkgbuildQuickFields {
        pkgdesc: Some("a \"quoted\" \\ thing".into()),
        ..Default::default()
    };
    let got = merge_quick_fields(src, &f);
    assert_eq!(
        got,
        "pkgname=foo\npkgdesc=\"a \\\"quoted\\\" \\\\ thing\"\n"
    );
}

#[test]
fn merge_empty_scalar_writes_empty_quotes() {
    let got = merge_quick_fields(
        "pkgrel=1\n",
        &PkgbuildQuickFields {
            pkgrel: Some("   ".into()),
            ..Default::default()
        },
    );
    assert_eq!(got, "pkgrel=\"\"\n");
}

#[test]
fn merge_array_escapes_single_quotes_and_empty_array() {
    let src = "depends=(a)\nconflicts=(x)\n";
    let f = PkgbuildQuickFields {
        depends_tokens: Some("it's".into()),
        conflicts_tokens: Some("  ".into()),
        ..Default::default()
    };
    let got = merge_quick_fields(src, &f);
    assert_eq!(got, "depends=('it'\\''s')\nconflicts=()\n");
}

#[test]
fn merge_drops_duplicate_assignments_and_keeps_indent() {
    let src = "  pkgver=1\npkgver=2\nbuild() {\n}\n";
    let f = PkgbuildQuickFields {
        pkgver: Some("3".into()),
        ..Default::default()
    };
    assert_eq!(merge_quick_fields(src, &f), "  pkgver=3\nbuild() {\n}\n");
}

#[test]
fn merge_appends_when_no_function() {
    let src = "pkgname=x";
    let f = PkgbuildQuickFields {
        url: Some("https://example.org".into()),
        ..Default::default()
    };
    assert_eq!(merge_quick_fields(src, &f), "pkgname=x\nurl=https://example.org\n");
}

#[test]
fn merge_maintainer_inserted_at_top_without_shebang() {
    let src = "pkgname=a\n";
    let f = PkgbuildQuickFields {
        maintainer_comment: Some("X".into()),
        ..Default::default()
    };
    assert_eq!(merge_quick_fields(src, &f), "# Maintainer: X\npkgname=a\n");
}

#[test]
fn merge_maintainer_replaces_first_and_drops_rest() {
    let src = " # Maintainer: A\n# Maintainer: B\npkgname=a\n";
    let f = PkgbuildQuickFields {
        maintainer_comment: Some("C".into()),
        ..Default::default()
    };
    assert_eq!(merge_quick_fields(src, &f), " # Maintainer: C\npkgname=a\n");
}

#[test]
fn merge_lone_quote_array_entry_is_refused() {
    let f = PkgbuildQuickFields {
        source_tokens: Some("' ok".into()),
        ..Default::default()
    };
    assert!(merge_quick_fields_checked("pkgname=a\n", &f).is_none());
}

#[test]
fn parse_reads_scalars_and_maintainer() {
    let src = "# Maintainer:  Jane <j@x>  \npkgname=\"foo\"\npkgver='1.2'\npkgrel=3 \n# pkgdesc=no\npkgdesc = \"not key\"\nurl=https://x\n";
    let p = parse_quick_fields(src);
    assert_eq!(p.maintainer_comment.as_deref(), Some("Jane <j@x>"));
    assert_eq!(p.pkgname.as_deref(), Some("foo"));
    assert_eq!(p.pkgver.as_deref(), Some("1.2"));
    assert_eq!(p.pkgrel.as_deref(), Some("3"));
    assert_eq!(p.pkgdesc.as_deref(), Some("not key"));
    assert_eq!(p.url.as_deref(), Some("https://x"));
}

#[test]
fn parse_later_assignment_wins_and_plus_equals_ignored() {
    let src = "pkgver=1\npkgver+=2\npkgver=3\n";
    let p = parse_quick_fields(src);
    assert_eq!(p.pkgver.as_deref(), Some("3"));
}

#[test]
fn parse_lone_quote_is_refused() {
    assert!(parse_quick_fields_checked("pkgver=\"\n").is_none());
    assert!(parse_quick_fields_checked("pkgver=x\n").is_some());
}

#[test]
fn parse_array_with_escaped_double_quote_and_parens_in_quotes() {
    let src = "arch=(\"x86_64\" 'a(b)'\n)\nsource=(\"a\\\"b\")\n";
    let p = parse_quick_fields(src);
    assert_eq!(p.arch_tokens.as_deref(), Some("x86_64 a(b)"));
    assert_eq!(p.source_tokens.as_deref(), Some("a\\\"b"));
}

#[test]
fn merge_then_parse_gives_back_pkgver() {
    let src = "pkgname=foo\npkgver=1\n";
    let f = PkgbuildQuickFields {
        pkgver: Some("2.0.1".into()),
        depends_tokens: Some("glibc zlib".into()),
        ..Default::default()
    };
    let merged = merge_quick_fields(src, &f);
    let back = parse_quick_fields(&merged);
    assert_eq!(back.pkgver.as_deref(), Some("2.0.1"));
    assert_eq!(back.depends_tokens.as_deref(), Some("glibc zlib"));
}

#[test]
fn scalar_round_trip_keeps_other_fields() {
    let src = "# Maintainer: Jo <jo@example.org>\npkgname=foo\n  pkgdesc='old text'\npkgver=1\narch=('x86_64')\n\npackage() {\n  true\n}\n";
    let before = parse_quick_fields(src);
    let f = PkgbuildQuickFields {
        pkgdesc: Some("A tool with spaces & $signs".into()),
        ..Default::default()
    };
    let merged = merge_quick_fields(src, &f);
    assert!(merged.contains("  pkgdesc=\"A tool with spaces & $signs\"\n"));
    let after = parse_quick_fields(&merged);
    assert_eq!(after.pkgdesc.as_deref(), Some("A tool with spaces & $signs"));
    let mut expected = before.clone();
    expected.pkgdesc = Some("A tool with spaces & $signs".into());
    assert_eq!(after, expected);
}

#[test]
fn scalar_round_trip_inserts_missing_url() {
    let src = "pkgname=foo\npkgver=1\n\nbuild() {\n  make\n}\n";
    let before = parse_quick_fields(src);
    assert_eq!(before.url, None);
    let f = PkgbuildQuickFields {
        url: Some("https://example.org/foo".into()),
        ..Default::default()
    };
    let merged = merge_quick_fields(src, &f);
    assert_eq!(
        merged,
        "pkgname=foo\npkgver=1\n\nurl=https://example.org/foo\nbuild() {\n  make\n}\n"
    );
    let after = parse_quick_fields(&merged);
    let mut expected = before.clone();
    expected.url = Some("https://example.org/foo".into());
    assert_eq!(after, expected);
}

#[test]
fn maintainer_round_trip_keeps_other_fields() {
    let src = "#!/bin/bash\n# Maintainer: Old <old@x>\npkgname=a\npkgver=1\n  # Maintainer: Older <o@x>\n";
    let before = parse_quick_fields(src);
    let f = PkgbuildQuickFields {
        maintainer_comment: Some("New Person <new@x>".into()),
        ..Default::default()
    };
    let merged = merge_quick_fields(src, &f);
    assert_eq!(
        merged,
        "#!/bin/bash\n# Maintainer: New Person <new@x>\npkgname=a\npkgver=1\n"
    );
    let after = parse_quick_fields(&merged);
    let mut expected = before.clone();
    expected.maintainer_comment = Some("New Person <new@x>".into());
    assert_eq!(after, expected);
}

#[test]
fn maintainer_inserted_after_shebang_reads_back() {
    let src = "#!/bin/bash\npkgname=a\n";
    let f = PkgbuildQuickFields {
        maintainer_comment: Some("Me <me@x>".into()),
        ..Default::default()
    };
    let merged = merge_quick_fields(src, &f);
    assert_eq!(merged, "#!/bin/bash\n# Maintainer: Me <me@x>\npkgname=a\n");
    let after = parse_quick_fields(&merged);
    assert_eq!(after.maintainer_comment.as_deref(), Some("Me <me@x>"));
    assert_eq!(after.pkgname.as_deref(), Some("a"));
}

#[test]
fn quick_fields_round_trip_all_kinds() {
    let src = "#!/bin/bash\n# Maintainer: Old <old@x>\npkgname=foo\npkgver=1\npkgrel=3\ndepends=('bash')\nsource=(\"foo.tar.gz\")\n\npackage() {\n  true\n}\n";
    let before = parse_quick_fields(src);
    let f = PkgbuildQuickFields {
        maintainer_comment: Some("New <new@x>".into()),
        pkgver: Some("2.0".into()),
        pkgdesc: Some("Fast & small".into()),
        url: Some("https://example.org".into()),
        depends_tokens: Some("glibc zlib>=1.2".into()),
        license_tokens: Some("MIT".into()),
        ..Default::default()
    };
    let merged = merge_quick_fields(src, &f);
    let after = parse_quick_fields(&merged);
    let mut expected = before.clone();
    expected.maintainer_comment = Some("New <new@x>".into());
    expected.pkgver = Some("2.0".into());
    expected.pkgdesc = Some("Fast & small".into());
    expected.url = Some("https://example.org".into());
    expected.depends_tokens = Some("glibc zlib>=1.2".into());
    expected.license_tokens = Some("MIT".into());
    assert_eq!(after, expected);
    assert_eq!(after.pkgrel.as_deref(), Some("3"));
    assert_eq!(after.source_tokens.as_deref(), Some("foo.tar.gz"));
}

#[test]
fn quick_fields_round_trip_with_multiline_arrays() {
    let src = "pkgname=foo\npkgver=1\ndepends=(\n  'glibc'\n  'zlib'\n)\noptdepends=(\n  'vim: editing'\n  'pkgver=9'\n)\n\nbuild() {\n  make\n}\n";
    let before = parse_quick_fields(src);
    assert_eq!(before.depends_tokens.as_deref(), Some("glibc zlib"));
    let f = PkgbuildQuickFields {
        pkgrel: Some("2".into()),
        depends_tokens: Some("glibc openssl".into()),
        ..Default::default()
    };
    let merged = merge_quick_fields(src, &f);
    assert_eq!(
        merged,
        "pkgname=foo\npkgver=1\ndepends=('glibc' 'openssl')\noptdepends=(\n  'vim: editing'\n  'pkgver=9'\n)\n\npkgrel=2\nbuild() {\n  make\n}\n"
    );
    let after = parse_quick_fields(&merged);
    let mut expected = before.clone();
    expected.pkgrel = Some("2".into());
    expected.depends_tokens = Some("glibc openssl".into());
    assert_eq!(after, expected);
}

#[test]
fn quick_fields_round_trip_unusual_values() {
    let src = "pkgname=foo\n";
    let f = PkgbuildQuickFields {
        pkgdesc: Some("'tis a tool".into()),
        url: Some("(see docs)".into()),
        depends_tokens: Some("a\"b c(d) e)".into()),
        ..Default::default()
    };
    let merged = merge_quick_fields(src, &f);
    let after = parse_quick_fields(&merged);
    assert_eq!(after.pkgname.as_deref(), Some("foo"));
    assert_eq!(after.pkgdesc.as_deref(), Some("'tis a tool"));
    assert_eq!(after.url.as_deref(), Some("(see docs)"));
    assert_eq!(after.depends_tokens.as_deref(), Some("a\"b c(d) e)"));
}

#[test]
fn merging_twice_changes_nothing_more() {
    let text = "# Maintainer: Old <o@example.org>\npkgname=demo\npkgver=0.1\npkgver=0.2\ndepends=(\n  'a'\n  'b'\n)\n\nbuild() {\n  make\n}\n";
    let fields = PkgbuildQuickFields {
        maintainer_comment: Some("Ada <ada@example.org>".to_string()),
        pkgver: Some("1.0".to_string()),
        depends_tokens: Some("glibc zlib".to_string()),
        url: Some("https://example.org".to_string()),
        ..PkgbuildQuickFields::default()
    };
    let once = merge_quick_fields(text, &fields);
    let twice = merge_quick_fields(&once, &fields);
    assert_eq!(twice, once);
    assert!(once.contains("pkgver=1.0\n"));
    assert!(!once.contains("pkgver=0.2"));
}

#[test]
fn round_trip_with_line_ending_in_carriage_return() {
    let src = "pkgname=foo\r";
    let before = parse_quick_fields(src);
    assert_eq!(before.pkgname.as_deref(), Some("foo"));
    let f = PkgbuildQuickFields {
        pkgver: Some("1".into()),
        ..Default::default()
    };
    let merged = merge_quick_fields(src, &f);
    assert_eq!(merged, "pkgname=foo\r\npkgver=1\n");
    let after = parse_quick_fields(&merged);
    let mut expected = before.clone();
    expected.pkgver = Some("1".into());
    assert_eq!(after, expected);
}

#[test]
fn round_trip_with_carriage_returns_before_newlines() {
    let src = "# Maintainer: A\r\r\npkgname=foo\r\r\npkgver=1\r\n\r\nbuild() {\r\n  make\r\n}\r\n";
    let before = parse_quick_fields(src);
    let f = PkgbuildQuickFields {
        maintainer_comment: Some("B <b@x>".into()),
        pkgver: Some("2".into()),
        depends_tokens: Some("glibc zlib".into()),
        ..Default::default()
    };
    let merged = merge_quick_fields(src, &f);
    let after = parse_quick_fields(&merged);
    let mut expected = before.clone();
    expected.maintainer_comment = Some("B <b@x>".into());
    expected.pkgver = Some("2".into());
    expected.depends_tokens = Some("glibc zlib".into());
    assert_eq!(after, expected);
}

#[test]
fn merging_twice_with_padded_values_changes_nothing() {
    let src = "pkgname=foo\npkgver=1\n\nbuild() {\n  make\n}\n";
    let f = PkgbuildQuickFields {
        pkgver: Some(" 2 ".into()),
        pkgdesc: Some("'quoted text'".into()),
        depends_tokens: Some("glibc  zlib".into()),
        ..Default::default()
    };
    let once = merge_quick_fields(src, &f);
    let twice = merge_quick_fields(&once, &f);
    assert_eq!(once, twice);
    let back = parse_quick_fields(&once);
    assert_eq!(back.pkgver.as_deref(), Some("2"));
    assert_eq!(back.depends_tokens.as_deref(), Some("glibc zlib"));
}

#[test]
fn merging_twice_with_padded_maintainer_changes_nothing() {
    let src = "#!/bin/bash\npkgname=foo\n";
    let f = PkgbuildQuickFields {
        maintainer_comment: Some("  Jo <jo@example.org> ".into()),
        ..Default::default()
    };
    let once = merge_quick_fields(src, &f);
    assert_eq!(once, "#!/bin/bash\n# Maintainer:   Jo <jo@example.org> \npkgname=foo\n");
    let twice = merge_quick_fields(&once, &f);
    assert_eq!(once, twice);
    let back = parse_quick_fields(&once);
    assert_eq!(back.maintainer_comment.as_deref(), Some("Jo <jo@example.org>"));
}
