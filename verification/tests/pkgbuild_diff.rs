use aur_pkgbuilder::workflow::pkgbuild_diff::{
    diff_or_note, diff_pkgbuild_lines, line_diff_from_changes, trim_diff_line_ending,
    unified_pkbuild_diff_local_vs_upstream, LineChange, LineChangeKind,
};

#[test]
fn single_line_replacement_tracks_insert_and_remove() {
    let d = diff_pkgbuild_lines("a\nb\nc", "a\nb\nC");
    assert_eq!(d.removed_lines, vec!["c".to_string()]);
    assert_eq!(d.inserted_lines, vec![2]);
}

#[test]
fn pure_insertion_appends_line_index() {
    let d = diff_pkgbuild_lines("a\n", "a\nb\n");
    assert!(d.removed_lines.is_empty());
    assert_eq!(d.inserted_lines, vec![1]);
}

#[test]
fn identical_buffers_empty_diff() {
    let s = "pkgbase=foo\npkgver=1\n";
    let d = diff_pkgbuild_lines(s, s);
    assert!(d.inserted_lines.is_empty());
    assert!(d.removed_lines.is_empty());
}

#[test]
fn unified_local_vs_upstream_shows_pkgver_change() {
    let local = "pkgname=foo\npkgver=1\npkgrel=1\n";
    let upstream = "pkgname=foo\npkgver=2\npkgrel=1\n";
    let u = unified_pkbuild_diff_local_vs_upstream(local, upstream);
    assert!(u.contains("-pkgver=1"));
    assert!(u.contains("+pkgver=2"));
    assert!(u.contains("PKGBUILD (local)"));
}

#[test]
fn identical_texts_give_the_note() {
    let u = unified_pkbuild_diff_local_vs_upstream("a\n", "a\n");
    assert_eq!(
        u,
        "(no line-level differences after normalization — files may differ only in line endings.)"
    );
    assert_eq!(diff_or_note(" x ".to_string()), " x ");
}

#[test]
fn line_diff_from_given_changes() {
    let changes = vec![
        LineChange { kind: LineChangeKind::Equal, value: "a\n".into(), new_index: Some(0) },
        LineChange { kind: LineChangeKind::Delete, value: "b\r\n".into(), new_index: None },
        LineChange { kind: LineChangeKind::Insert, value: "B\n".into(), new_index: Some(1) },
        LineChange { kind: LineChangeKind::Insert, value: "C\n".into(), new_index: None },
    ];
    let d = line_diff_from_changes(&changes);
    assert_eq!(d.inserted_lines, vec![1]);
    assert_eq!(d.removed_lines, vec!["b".to_string()]);
    assert_eq!(trim_diff_line_ending("x\n\n\r\r"), "x\n\n");
    assert_eq!(trim_diff_line_ending("x\r\n"), "x");
}
