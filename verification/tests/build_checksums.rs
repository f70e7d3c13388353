use aur_pkgbuilder::workflow::build::{
    checksum_arrays_equivalent, extract_checksum_array, normalize_checksum_text,
    slice_balanced_parens,
};

#[test]
fn equivalent_ignores_checksum_whitespace_and_quotes() {
    let before = "pkg=x\nsha256sums=( 'abc'  'def' )\n";
    let after = "pkg=x\nsha256sums=('abc' 'def')\n";
    assert!(checksum_arrays_equivalent(before, after));
}

#[test]
fn not_equivalent_when_hash_changes() {
    let before = "sha256sums=('aa')\n";
    let after = "sha256sums=('bb')\n";
    assert!(!checksum_arrays_equivalent(before, after));
}

#[test]
fn balanced_parens_multi_element() {
    let s = "x=( 'a' (sub) 'b')";
    let open = s.find('(').unwrap();
    assert_eq!(
        slice_balanced_parens(s, open).as_deref(),
        Some("( 'a' (sub) 'b')")
    );
}

#[test]
fn balanced_parens_unclosed_or_not_open() {
    assert_eq!(slice_balanced_parens("(a", 0), None);
    assert_eq!(slice_balanced_parens("a(b)", 0), None);
    assert_eq!(slice_balanced_parens("a(b)", 9), None);
}

#[test]
fn checksum_equivalence_edge_cases() {
    assert!(!checksum_arrays_equivalent("pkgname=x\n", "pkgname=x\n"));
    assert!(!checksum_arrays_equivalent("md5sums=('a')\n", "pkgname=x\n"));
    assert!(checksum_arrays_equivalent(
        "  b2sums = ('a')\n# sha256sums=('z')\n",
        "b2sums=(\n'a')\nb2sums=('a')\n"
    ));
}

#[test]
fn extract_and_normalize() {
    assert_eq!(
        extract_checksum_array("x\nsha512sums =  ( 'q' )  # c\n", "sha512sums").as_deref(),
        Some("( 'q' )")
    );
    assert_eq!(normalize_checksum_text(" a\tb\nc "), "abc");
}
