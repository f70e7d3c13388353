//! AUR account data: package summaries from the public RPC and their
//! conversion into registry entries.
//!
//! The HTTP requests (`by=maintainer`, `by=comaintainers`) run in the
//! application; it hands the decoded rows to [`merge_account_packages`].
use vstd::prelude::*;

use crate::text::{append_chars, chars_of, ends_with, ends_with_exec, eq_chars, string_of, trim, trim_bounds};
use crate::workflow::ssh_setup::{lemma_lex_irreflexive, lemma_lex_total, lemma_lex_transitive, lex_lt, lex_lt_exec};
use crate::workflow::package::{PackageDef, PackageKind};

verus! {

/// Failure talking to the AUR RPC.
#[derive(Debug)]
pub enum AurAccountError {
    /// The RPC reported an error.
    Rpc(String),
    /// Any other failure, by its message.
    Other(String),
}

/// Role of the queried user for a package.
#[derive(Debug, Clone, Copy, PartialEq, Eq, Structural)]
pub enum Role {
    Maintainer,
    CoMaintainer,
}

pub open spec fn role_label(r: Role) -> Seq<char> {
    match r {
        Role::Maintainer => "maintainer"@,
        Role::CoMaintainer => "co-maintainer"@,
    }
}

impl Role {
    pub fn label(self) -> (r: &'static str)
        ensures
            r@ == role_label(self),
    {
        match self {
            Role::Maintainer => "maintainer",
            Role::CoMaintainer => "co-maintainer",
        }
    }
}

/// One row of the AUR RPC search result.
#[derive(Debug, Clone)]
pub struct AurRpcPackage {
    pub name: String,
    pub version: String,
    pub description: Option<String>,
    pub maintainer: Option<String>,
    pub co_maintainers: Vec<String>,
    pub last_modified: i64,
    pub out_of_date: Option<i64>,
}

/// One package of the user, as the UI shows it.
#[derive(Debug, Clone)]
pub struct AurPackageSummary {
    pub name: String,
    pub version: String,
    pub description: Option<String>,
    pub maintainer: Option<String>,
    pub co_maintainers: Vec<String>,
    pub last_modified: i64,
    /// Unix timestamp of the user-flagged out-of-date mark, if any.
    pub out_of_date: Option<i64>,
    /// Role of the queried user for this package.
    pub role: Role,
}

/// Summary of an RPC row with the user's role.
pub open spec fn summary_of(raw: AurRpcPackage, role: Role) -> AurPackageSummary {
    AurPackageSummary {
        name: raw.name,
        version: raw.version,
        description: raw.description,
        maintainer: raw.maintainer,
        co_maintainers: raw.co_maintainers,
        last_modified: raw.last_modified,
        out_of_date: raw.out_of_date,
        role,
    }
}

/// Summary of an RPC row with the user's role.
pub fn into_summary(raw: AurRpcPackage, role: Role) -> (r: AurPackageSummary)
    ensures
        r == summary_of(raw, role),
{
    AurPackageSummary {
        name: raw.name,
        version: raw.version,
        description: raw.description,
        maintainer: raw.maintainer,
        co_maintainers: raw.co_maintainers,
        last_modified: raw.last_modified,
        out_of_date: raw.out_of_date,
        role,
    }
}

/// Kind guessed from the package name suffix.
pub open spec fn kind_of_name(name: Seq<char>) -> PackageKind {
    if ends_with(name, "-git"@) || ends_with(name, "-hg"@) || ends_with(name, "-svn"@) {
        PackageKind::Git
    } else if ends_with(name, "-bin"@) {
        PackageKind::Bin
    } else {
        PackageKind::Other
    }
}

/// Kind guessed from the package name suffix (`-git`/`-hg`/`-svn`, `-bin`).
pub fn infer_kind(name: &str) -> (r: PackageKind)
    ensures
        r == kind_of_name(name@),
{
    let n = chars_of(name);
    if ends_with_exec(&n, &chars_of("-git")) || ends_with_exec(&n, &chars_of("-hg"))
        || ends_with_exec(&n, &chars_of("-svn")) {
        PackageKind::Git
    } else if ends_with_exec(&n, &chars_of("-bin")) {
        PackageKind::Bin
    } else {
        PackageKind::Other
    }
}

/// AUR cgit URL that serves the current `PKGBUILD` of a package.
pub open spec fn aur_pkgbuild_url_of(name: Seq<char>) -> Seq<char> {
    "https://aur.archlinux.org/cgit/aur.git/plain/PKGBUILD?h="@ + name
}

/// AUR cgit URL that returns the current `PKGBUILD` for `pkgname`.
pub fn aur_pkgbuild_url(pkgname: &str) -> (r: String)
    ensures
        r@ == aur_pkgbuild_url_of(pkgname@),
{
    let mut v = chars_of("https://aur.archlinux.org/cgit/aur.git/plain/PKGBUILD?h=");
    append_chars(&mut v, &chars_of(pkgname));
    string_of(&v)
}

fn copy_string(s: &String) -> (r: String)
    ensures
        r@ == s@,
{
    string_of(&chars_of(s.as_str()))
}

/// Registry entry for an AUR package: id and title are the name, the
/// subtitle is the description (or a default), the PKGBUILD URL is the cgit
/// plain view, and the kind is guessed from the name.
pub fn to_package_def(summary: &AurPackageSummary) -> (r: PackageDef)
    ensures
        r.id@ == summary.name@,
        r.title@ == summary.name@,
        r.subtitle@ == (match summary.description {
            Some(d) => d@,
            None => "Imported from the AUR."@,
        }),
        r.kind == kind_of_name(summary.name@),
        r.pkgbuild_url@ == aur_pkgbuild_url_of(summary.name@),
        r.icon_name is None,
        r.destination_dir is None,
        r.sync_subdir is None,
        r.pkgbuild_refreshed_at_unix is None,
        !r.favorite,
{
    let subtitle = match &summary.description {
        Some(d) => copy_string(d),
        None => string_of(&chars_of("Imported from the AUR.")),
    };
    PackageDef {
        id: copy_string(&summary.name),
        title: copy_string(&summary.name),
        subtitle,
        kind: infer_kind(summary.name.as_str()),
        pkgbuild_url: aur_pkgbuild_url(summary.name.as_str()),
        icon_name: None,
        destination_dir: None,
        sync_subdir: None,
        pkgbuild_refreshed_at_unix: None,
        favorite: false,
    }
}


/// User-facing text of an AUR account error.
pub open spec fn aur_account_error_message(e: AurAccountError) -> Seq<char> {
    match e {
        AurAccountError::Rpc(m) => "AUR RPC error: "@ + m@,
        AurAccountError::Other(m) => m@,
    }
}

impl AurAccountError {
    /// User-facing text of the error.
    pub fn message(&self) -> (r: String)
        ensures
            r@ == aur_account_error_message(*self),
    {
        match self {
            AurAccountError::Rpc(m) => {
                let mut v = chars_of("AUR RPC error: ");
                append_chars(&mut v, &chars_of(m.as_str()));
                string_of(&v)
            },
            AurAccountError::Other(m) => copy_string(m),
        }
    }
}


/// The last row with this name.
pub open spec fn last_named(rows: Seq<AurRpcPackage>, n: Seq<char>) -> Option<AurRpcPackage>
    decreases rows.len(),
{
    if rows.len() == 0 {
        None
    } else if rows.last().name@ == n {
        Some(rows.last())
    } else {
        last_named(rows.drop_last(), n)
    }
}

/// The first row with this name.
pub open spec fn first_named(rows: Seq<AurRpcPackage>, n: Seq<char>) -> Option<AurRpcPackage>
    decreases rows.len(),
{
    if rows.len() == 0 {
        None
    } else {
        match first_named(rows.drop_last(), n) {
            Some(r) => Some(r),
            None => if rows.last().name@ == n {
                Some(rows.last())
            } else {
                None
            },
        }
    }
}

/// The summary kept for a package name: the last maintainer row, else the
/// first co-maintainer row.
pub open spec fn chosen_summary(m: Seq<AurRpcPackage>, c: Seq<AurRpcPackage>, n: Seq<char>) -> Option<
    AurPackageSummary,
> {
    match last_named(m, n) {
        Some(r) => Some(summary_of(r, Role::Maintainer)),
        None => match first_named(c, n) {
            Some(r) => Some(summary_of(r, Role::CoMaintainer)),
            None => None,
        },
    }
}

/// The summary carries the RPC row's fields unchanged, with `role` added.
pub open spec fn keeps_row(s: AurPackageSummary, raw: AurRpcPackage, role: Role) -> bool {
    &&& s.name == raw.name
    &&& s.version == raw.version
    &&& s.description == raw.description
    &&& s.maintainer == raw.maintainer
    &&& s.co_maintainers == raw.co_maintainers
    &&& s.last_modified == raw.last_modified
    &&& s.out_of_date == raw.out_of_date
    &&& s.role == role
}

/// A summary of an RPC row is that row with the user's role: name, version,
/// description, maintainer, co-maintainers, last change and out-of-date mark
/// all as the row has them.
pub proof fn law_summary_keeps_row(raw: AurRpcPackage, role: Role)
    ensures
        keeps_row(summary_of(raw, role), raw, role),
{
}

/// The last row with a name is one of the rows, and there is none exactly
/// when no row has the name.
proof fn lemma_last_named(rows: Seq<AurRpcPackage>, n: Seq<char>)
    ensures
        last_named(rows, n) matches Some(r) ==> exists|k: int|
            0 <= k < rows.len() && rows[k] == r && r.name@ == n && forall|j: int|
                k < j < rows.len() ==> (#[trigger] rows[j]).name@ != n,
        last_named(rows, n) is None <==> forall|k: int| 0 <= k < rows.len() ==> (#[trigger] rows[k]).name@ != n,
    decreases rows.len(),
{
    if rows.len() > 0 {
        lemma_last_named(rows.drop_last(), n);
        assert forall|k: int| 0 <= k < rows.len() - 1 implies rows.drop_last()[k] == rows[k] by {}
        if rows.last().name@ == n {
            assert(rows[rows.len() - 1] == rows.last());
        } else if let Some(r) = last_named(rows.drop_last(), n) {
            let d = rows.drop_last();
            let k = choose|k: int|
                0 <= k < d.len() && d[k] == r && r.name@ == n && forall|j: int|
                    k < j < d.len() ==> (#[trigger] d[j]).name@ != n;
            assert(rows[k] == r);
            assert forall|j: int| k < j < rows.len() implies (#[trigger] rows[j]).name@ != n by {
                if j < rows.len() - 1 {
                    assert(rows[j] == d[j]);
                }
            }
        }
    }
}

/// The first row with a name is one of the rows, and there is none exactly
/// when no row has the name.
proof fn lemma_first_named(rows: Seq<AurRpcPackage>, n: Seq<char>)
    ensures
        first_named(rows, n) matches Some(r) ==> exists|k: int|
            0 <= k < rows.len() && rows[k] == r && r.name@ == n && forall|j: int|
                0 <= j < k ==> (#[trigger] rows[j]).name@ != n,
        first_named(rows, n) is None <==> forall|k: int| 0 <= k < rows.len() ==> (#[trigger] rows[k]).name@ != n,
    decreases rows.len(),
{
    if rows.len() > 0 {
        lemma_first_named(rows.drop_last(), n);
        let d = rows.drop_last();
        assert forall|k: int| 0 <= k < rows.len() - 1 implies rows.drop_last()[k] == rows[k] by {}
        if let Some(r) = first_named(d, n) {
            let k = choose|k: int|
                0 <= k < d.len() && d[k] == r && r.name@ == n && forall|j: int|
                    0 <= j < k ==> (#[trigger] d[j]).name@ != n;
            assert(rows[k] == r);
            assert forall|j: int| 0 <= j < k implies (#[trigger] rows[j]).name@ != n by {
                assert(rows[j] == d[j]);
            }
        } else if rows.last().name@ == n {
            assert(rows[rows.len() - 1] == rows.last());
            assert forall|j: int| 0 <= j < rows.len() - 1 implies (#[trigger] rows[j]).name@ != n by {
                assert(rows[j] == d[j]);
            }
        }
    }
}

/// The merged list keeps RPC rows as they are: the summary for a name is a
/// row of that name from the maintainer answer, marked as maintained, or,
/// when the maintainer answer has no row of that name, a row of that name
/// from the co-maintainer answer, marked as co-maintained; every field of
/// the row (out-of-date mark included) is carried over. Of several maintainer
/// rows of a name the last is kept, of several co-maintainer rows the first.
/// A name has a summary
/// exactly when one of the answers has a row of that name.
pub proof fn law_merged_summary_is_row(m: Seq<AurRpcPackage>, c: Seq<AurRpcPackage>, n: Seq<char>)
    ensures
        chosen_summary(m, c, n) matches Some(s) ==> s.name@ == n && ((exists|k: int|
            0 <= k < m.len() && keeps_row(s, #[trigger] m[k], Role::Maintainer) && forall|j: int|
                k < j < m.len() ==> (#[trigger] m[j]).name@ != n) || ((forall|k: int|
            0 <= k < m.len() ==> (#[trigger] m[k]).name@ != n) && exists|k: int|
            0 <= k < c.len() && keeps_row(s, #[trigger] c[k], Role::CoMaintainer) && forall|j: int|
                0 <= j < k ==> (#[trigger] c[j]).name@ != n)),
        chosen_summary(m, c, n) is None <==> (forall|k: int| 0 <= k < m.len() ==> (#[trigger] m[k]).name@ != n)
            && (forall|k: int| 0 <= k < c.len() ==> (#[trigger] c[k]).name@ != n),
{
    lemma_last_named(m, n);
    lemma_first_named(c, n);
    match last_named(m, n) {
        Some(r) => {
            let k = choose|k: int|
                0 <= k < m.len() && m[k] == r && r.name@ == n && forall|j: int|
                    k < j < m.len() ==> (#[trigger] m[j]).name@ != n;
            assert(keeps_row(summary_of(r, Role::Maintainer), m[k], Role::Maintainer));
        },
        None => {
            match first_named(c, n) {
                Some(r) => {
                    let k = choose|k: int|
                        0 <= k < c.len() && c[k] == r && r.name@ == n && forall|j: int|
                            0 <= j < k ==> (#[trigger] c[j]).name@ != n;
                    assert(keeps_row(summary_of(r, Role::CoMaintainer), c[k], Role::CoMaintainer));
                },
                None => {},
            }
        },
    }
}

/// Strictly increasing names (pairwise).
pub open spec fn names_sorted(v: Seq<AurPackageSummary>) -> bool {
    forall|i: int, j: int| 0 <= i < j < v.len() ==> lex_lt(#[trigger] v[i].name@, #[trigger] v[j].name@)
}

/// Where a name goes in a sorted list: before the first name that is not
/// smaller; `found` when that name is equal.
fn place_name(out: &Vec<AurPackageSummary>, name: &[char]) -> (r: (usize, bool))
    requires
        names_sorted(out@),
    ensures
        r.0 <= out.len(),
        forall|j: int| 0 <= j < r.0 ==> lex_lt(#[trigger] out@[j].name@, name@),
        r.1 ==> r.0 < out.len() && out@[r.0 as int].name@ == name@,
        !r.1 ==> (r.0 == out.len() || lex_lt(name@, out@[r.0 as int].name@)),
{
    let mut k: usize = 0;
    while k < out.len() && lex_lt_exec(&chars_of(out[k].name.as_str()), name)
        invariant
            k <= out.len(),
            forall|j: int| 0 <= j < k ==> lex_lt(#[trigger] out@[j].name@, name@),
        decreases out.len() - k,
    {
        k += 1;
    }
    if k < out.len() {
        let found = eq_chars(&chars_of(out[k].name.as_str()), name);
        if !found {
            proof {
                lemma_lex_total(out@[k as int].name@, name@);
            }
        }
        (k, found)
    } else {
        (k, false)
    }
}

/// Inserting `s` at `k` keeps the names sorted.
proof fn lemma_insert_sorted(out: Seq<AurPackageSummary>, k: int, s: AurPackageSummary)
    requires
        names_sorted(out),
        0 <= k <= out.len(),
        forall|j: int| 0 <= j < k ==> lex_lt(#[trigger] out[j].name@, s.name@),
        k < out.len() ==> lex_lt(s.name@, out[k].name@),
    ensures
        names_sorted(out.insert(k, s)),
{
    let o2 = out.insert(k, s);
    assert forall|i: int, j: int| 0 <= i < j < o2.len() implies lex_lt(#[trigger] o2[i].name@, #[trigger] o2[j].name@) by {
        if j < k {
            assert(o2[i] == out[i] && o2[j] == out[j]);
        } else if j == k {
            assert(o2[i] == out[i] && o2[j] == s);
        } else if i == k {
            assert(o2[j] == out[j - 1]);
            if j - 1 > k {
                lemma_lex_transitive(s.name@, out[k].name@, out[j - 1].name@);
            }
        } else if i < k {
            assert(o2[i] == out[i] && o2[j] == out[j - 1]);
        } else {
            assert(o2[i] == out[i - 1] && o2[j] == out[j - 1]);
        }
    }
}

/// In a sorted list, names are distinct.
proof fn lemma_sorted_distinct(out: Seq<AurPackageSummary>, i: int, j: int)
    requires
        names_sorted(out),
        0 <= i < out.len(),
        0 <= j < out.len(),
        i != j,
    ensures
        out[i].name@ != out[j].name@,
{
    if i < j {
        assert(lex_lt(out[i].name@, out[j].name@));
        if out[i].name@ == out[j].name@ {
            lemma_lex_irreflexive(out[i].name@);
        }
    } else {
        assert(lex_lt(out[j].name@, out[i].name@));
        if out[i].name@ == out[j].name@ {
            lemma_lex_irreflexive(out[i].name@);
        }
    }
}

/// Some summary in the list has this name.
pub open spec fn has_name(v: Seq<AurPackageSummary>, n: Seq<char>) -> bool {
    exists|i: int| #![trigger v[i]] 0 <= i < v.len() && v[i].name@ == n
}

/// An index of a summary with this name, where there is one.
pub open spec fn index_of_name(v: Seq<AurPackageSummary>, n: Seq<char>) -> int {
    choose|i: int| #![trigger v[i]] 0 <= i < v.len() && v[i].name@ == n
}

/// The summary with this name, if the list has one.
pub open spec fn lookup(v: Seq<AurPackageSummary>, n: Seq<char>) -> Option<AurPackageSummary> {
    if has_name(v, n) {
        Some(v[index_of_name(v, n)])
    } else {
        None
    }
}

/// In a sorted list, the summary at an index is the one found by its name.
proof fn lemma_lookup_at(v: Seq<AurPackageSummary>, i: int)
    requires
        names_sorted(v),
        0 <= i < v.len(),
    ensures
        lookup(v, v[i].name@) == Some(v[i]),
{
    let n = v[i].name@;
    assert(has_name(v, n));
    let j = index_of_name(v, n);
    if j != i {
        lemma_sorted_distinct(v, i, j);
    }
}

/// Puts `s` into the sorted list: a summary of another name stays, one of the
/// same name is replaced only when `replace` holds.
fn put_summary(out: &mut Vec<AurPackageSummary>, s: AurPackageSummary, replace: bool)
    requires
        names_sorted(old(out)@),
    ensures
        names_sorted(final(out)@),
        forall|n: Seq<char>| #[trigger] lookup(final(out)@, n) == (if n == s.name@ && (replace
            || lookup(old(out)@, n) is None) {
            Some(s)
        } else {
            lookup(old(out)@, n)
        }),
{
    let ghost o = out@;
    let name = chars_of(s.name.as_str());
    let (k, found) = place_name(out, &name);
    if found {
        assert(o[k as int].name@ == s.name@);
        assert(has_name(o, s.name@));
        if replace {
            out.set(k, s);
            assert(names_sorted(out@)) by {
                assert forall|a: int, b: int| 0 <= a < b < out@.len() implies lex_lt(#[trigger] out@[a].name@, #[trigger] out@[b].name@) by {
                    assert(o[a].name@ == out@[a].name@);
                    assert(o[b].name@ == out@[b].name@);
                }
            }
            let ghost f = out@;
            assert forall|n: Seq<char>| #[trigger] lookup(f, n) == (if n == s.name@ && (replace
                || lookup(o, n) is None) {
                Some(s)
            } else {
                lookup(o, n)
            }) by {
                if n == s.name@ {
                    lemma_lookup_at(f, k as int);
                } else if has_name(f, n) {
                    let q = choose|q: int| #![trigger f[q]] 0 <= q < f.len() && f[q].name@ == n;
                    assert(f[q] == o[q]);
                    lemma_lookup_at(f, q);
                    lemma_lookup_at(o, q);
                } else if has_name(o, n) {
                    let q = choose|q: int| #![trigger o[q]] 0 <= q < o.len() && o[q].name@ == n;
                    assert(f[q] == o[q]);
                    assert(has_name(f, n));
                }
            }
        }
    } else {
        proof {
            lemma_insert_sorted(o, k as int, s);
        }
        out.insert(k, s);
        let ghost f = out@;
        assert(f == o.insert(k as int, s));
        assert(!has_name(o, s.name@)) by {
            if has_name(o, s.name@) {
                let q = choose|q: int| #![trigger o[q]] 0 <= q < o.len() && o[q].name@ == s.name@;
                if q < k {
                    assert(lex_lt(o[q].name@, name@));
                } else {
                    assert(lex_lt(name@, o[k as int].name@));
                    if q > k {
                        assert(lex_lt(o[k as int].name@, o[q].name@));
                        lemma_lex_transitive(name@, o[k as int].name@, o[q].name@);
                    }
                }
                lemma_lex_irreflexive(name@);
            }
        }
        assert forall|n: Seq<char>| #[trigger] lookup(f, n) == (if n == s.name@ && (replace
            || lookup(o, n) is None) {
            Some(s)
        } else {
            lookup(o, n)
        }) by {
            if n == s.name@ {
                assert(f[k as int] == s);
                lemma_lookup_at(f, k as int);
            } else if has_name(f, n) {
                let q = choose|q: int| #![trigger f[q]] 0 <= q < f.len() && f[q].name@ == n;
                lemma_lookup_at(f, q);
                if q < k {
                    assert(f[q] == o[q]);
                    lemma_lookup_at(o, q);
                } else {
                    assert(q != k);
                    assert(f[q] == o[q - 1]);
                    lemma_lookup_at(o, q - 1);
                }
            } else if has_name(o, n) {
                let q = choose|q: int| #![trigger o[q]] 0 <= q < o.len() && o[q].name@ == n;
                if q < k {
                    assert(f[q] == o[q]);
                } else {
                    assert(f[q + 1] == o[q]);
                }
                assert(has_name(f, n));
            }
        }
    }
}

/// The user's packages from the `by=maintainer` and `by=comaintainers` RPC
/// rows: one summary per name (the maintainer role wins over co-maintainer;
/// among maintainer rows the last one, among co-maintainer rows the first),
/// sorted by name.
pub fn merge_account_packages(maintainer: Vec<AurRpcPackage>, co: Vec<AurRpcPackage>) -> (r: Vec<
    AurPackageSummary,
>)
    ensures
        names_sorted(r@),
        forall|n: Seq<char>| #[trigger] lookup(r@, n) == chosen_summary(maintainer@, co@, n),
        forall|k: int|
            0 <= k < r@.len() ==> (exists|i: int|
                0 <= i < maintainer@.len() && keeps_row(#[trigger] r@[k], maintainer@[i], Role::Maintainer))
                || (exists|i: int|
                0 <= i < co@.len() && keeps_row(#[trigger] r@[k], co@[i], Role::CoMaintainer)),
{
    let ghost m0 = maintainer@;
    let ghost c0 = co@;
    let ghost none = Seq::<AurRpcPackage>::empty();
    let mut m = maintainer;
    let m_len = m.len();
    let mut out: Vec<AurPackageSummary> = Vec::new();
    let mut i: usize = 0;
    assert(m0.take(0) =~= none);
    while m.len() > 0
        invariant
            i + m.len() == m0.len(),
            m0.len() == m_len,
            m@ == m0.skip(i as int),
            names_sorted(out@),
            forall|n: Seq<char>| #[trigger] lookup(out@, n) == chosen_summary(m0.take(i as int), none, n),
        decreases m.len(),
    {
        let raw = m.remove(0);
        assert(raw == m0[i as int]);
        assert(m0.take(i as int + 1).drop_last() =~= m0.take(i as int));
        assert(m@ =~= m0.skip(i as int + 1));
        let ghost old_out = out@;
        let s = into_summary(raw, Role::Maintainer);
        put_summary(&mut out, s, true);
        assert forall|n: Seq<char>| #[trigger] lookup(out@, n) == chosen_summary(m0.take(i as int + 1), none, n) by {
            assert(lookup(old_out, n) == chosen_summary(m0.take(i as int), none, n));
        }
        i += 1;
    }
    assert(m0.take(i as int) =~= m0);
    let mut c = co;
    let c_len = c.len();
    let mut j: usize = 0;
    assert(c0.take(0) =~= none);
    assert forall|n: Seq<char>| #[trigger] lookup(out@, n) == chosen_summary(m0, c0.take(0), n) by {
        assert(lookup(out@, n) == chosen_summary(m0, none, n));
    }
    while c.len() > 0
        invariant
            j + c.len() == c0.len(),
            c0.len() == c_len,
            c@ == c0.skip(j as int),
            names_sorted(out@),
            forall|n: Seq<char>| #[trigger] lookup(out@, n) == chosen_summary(m0, c0.take(j as int), n),
        decreases c.len(),
    {
        let raw = c.remove(0);
        assert(raw == c0[j as int]);
        assert(c0.take(j as int + 1).drop_last() =~= c0.take(j as int));
        assert(c@ =~= c0.skip(j as int + 1));
        let ghost old_out = out@;
        let s = into_summary(raw, Role::CoMaintainer);
        put_summary(&mut out, s, false);
        assert forall|n: Seq<char>| #[trigger] lookup(out@, n) == chosen_summary(m0, c0.take(j as int + 1), n) by {
            assert(lookup(old_out, n) == chosen_summary(m0, c0.take(j as int), n));
        }
        j += 1;
    }
    assert(c0.take(j as int) =~= c0);
    proof {
        assert forall|k: int| 0 <= k < out@.len() implies (exists|i: int|
            0 <= i < m0.len() && keeps_row(#[trigger] out@[k], m0[i], Role::Maintainer)) || (exists|i: int|
            0 <= i < c0.len() && keeps_row(#[trigger] out@[k], c0[i], Role::CoMaintainer)) by {
            lemma_lookup_at(out@, k);
            law_merged_summary_is_row(m0, c0, out@[k].name@);
        }
    }
    out
}

/// The account query is refused before any request when the username is
/// blank after trimming.
pub fn account_query_precheck(username: &str) -> (r: Result<(), AurAccountError>)
    ensures
        r is Ok <==> trim(username@).len() > 0,
        r matches Err(e) ==> (e matches AurAccountError::Rpc(m) && m@ == "username is empty"@),
{
    let v = chars_of(username);
    let (a, b) = trim_bounds(&v);
    if a == b {
        Err(AurAccountError::Rpc(string_of(&chars_of("username is empty"))))
    } else {
        Ok(())
    }
}

/// The rows of one RPC answer, or the error it reports.
pub fn rpc_answer_rows(error: Option<String>, results: Vec<AurRpcPackage>) -> (r: Result<
    Vec<AurRpcPackage>,
    AurAccountError,
>)
    ensures
        match error {
            Some(e) => (r matches Err(AurAccountError::Rpc(m)) && m@ == e@),
            None => (r matches Ok(v) && v@ == results@),
        },
{
    match error {
        Some(e) => Err(AurAccountError::Rpc(e)),
        None => Ok(results),
    }
}

/// Some row has this name.
pub open spec fn has_row_named(rows: Seq<AurRpcPackage>, n: Seq<char>) -> bool {
    exists|i: int| 0 <= i < rows.len() && (#[trigger] rows[i]).name@ == n
}

proof fn lemma_named_some(rows: Seq<AurRpcPackage>, n: Seq<char>)
    ensures
        last_named(rows, n) is Some <==> has_row_named(rows, n),
        first_named(rows, n) is Some <==> has_row_named(rows, n),
        last_named(rows, n) matches Some(r) ==> r.name@ == n,
        first_named(rows, n) matches Some(r) ==> r.name@ == n,
    decreases rows.len(),
{
    if rows.len() > 0 {
        let d = rows.drop_last();
        lemma_named_some(d, n);
        if has_row_named(rows, n) {
            let i = choose|i: int| 0 <= i < rows.len() && (#[trigger] rows[i]).name@ == n;
            if i < rows.len() - 1 {
                assert(d[i] == rows[i]);
            }
        }
        if has_row_named(d, n) {
            let i = choose|i: int| 0 <= i < d.len() && (#[trigger] d[i]).name@ == n;
            assert(rows[i] == d[i]);
        }
    }
}

/// A package the user maintains is listed once, with the maintainer role,
/// whatever the co-maintainer rows say; a name from either query is listed,
/// and no other.
pub proof fn law_maintainer_role_wins(m: Seq<AurRpcPackage>, c: Seq<AurRpcPackage>, n: Seq<char>)
    ensures
        has_row_named(m, n) ==> (chosen_summary(m, c, n) matches Some(s) && s.role == Role::Maintainer
            && s.name@ == n),
        !has_row_named(m, n) && has_row_named(c, n) ==> (chosen_summary(m, c, n) matches Some(s) && s.role
            == Role::CoMaintainer && s.name@ == n),
        chosen_summary(m, c, n) is Some <==> has_row_named(m, n) || has_row_named(c, n),
{
    lemma_named_some(m, n);
    lemma_named_some(c, n);
}

} // verus!
