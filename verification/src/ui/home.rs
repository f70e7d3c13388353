//! Home page list: search, maintainer-mismatch filter and sort order of the
//! registry packages.
use vstd::prelude::*;

use crate::i18n::{fill_placeholders, translated, I18nHolder};
use crate::state::{in_registry, still_registered, AppState};
use crate::text::{
    append_chars, chars_of, contains, contains_exec, decimal, decimal_exec, eq_chars, join, join_exec, lemma_deep_chars,
    lowercase, opt_str, slice_vec, string_of, to_lowercase, trim, trim_bounds,
};
use crate::workflow::ssh_setup::{insert_sorted, sorted_strict, strings_of, strings_view};
use crate::workflow::package::{PackageDef, PackageKind};
use crate::workflow::ssh_setup::{
    lemma_lex_irreflexive, lemma_lex_total, lemma_lex_transitive, lex_lt, lex_lt_exec};

verus! {

/// Sort order of the Home package list.
#[derive(Debug, Clone, Copy, PartialEq, Eq, Default, Structural)]
pub enum HomePackageSort {
    /// Package id, A to Z (case-insensitive).
    #[default]
    NameAsc,
    /// Package id, Z to A (case-insensitive).
    NameDesc,
    /// Kind (binary, git, other), then id.
    Kind,
    /// Most recently refreshed PKGBUILD first; never refreshed last.
    RefreshNewest,
    /// Least recently refreshed PKGBUILD first; never refreshed last.
    RefreshOldest,
}

/// Sort variant of a combo row index; out of range gives the default.
pub open spec fn sort_of_index(i: int) -> HomePackageSort {
    if i == 1 {
        HomePackageSort::NameDesc
    } else if i == 2 {
        HomePackageSort::Kind
    } else if i == 3 {
        HomePackageSort::RefreshNewest
    } else if i == 4 {
        HomePackageSort::RefreshOldest
    } else {
        HomePackageSort::NameAsc
    }
}

/// Combo row index of a sort variant.
pub open spec fn sort_index(s: HomePackageSort) -> int {
    match s {
        HomePackageSort::NameAsc => 0,
        HomePackageSort::NameDesc => 1,
        HomePackageSort::Kind => 2,
        HomePackageSort::RefreshNewest => 3,
        HomePackageSort::RefreshOldest => 4,
    }
}

impl HomePackageSort {
    /// Sort variant of a combo row index (`NameAsc` when out of range).
    pub fn from_index(index: usize) -> (r: Self)
        ensures
            r == sort_of_index(index as int),
    {
        match index {
            1 => HomePackageSort::NameDesc,
            2 => HomePackageSort::Kind,
            3 => HomePackageSort::RefreshNewest,
            4 => HomePackageSort::RefreshOldest,
            _ => HomePackageSort::NameAsc,
        }
    }

    /// Combo row index of this variant.
    pub fn to_index(self) -> (r: usize)
        ensures
            r == sort_index(self),
    {
        match self {
            HomePackageSort::NameAsc => 0,
            HomePackageSort::NameDesc => 1,
            HomePackageSort::Kind => 2,
            HomePackageSort::RefreshNewest => 3,
            HomePackageSort::RefreshOldest => 4,
        }
    }
}

/// Maintainer-mismatch filter of the Home package list.
#[derive(Debug, Clone, Copy, PartialEq, Eq, Default, Structural)]
pub enum HomePackageFilter {
    /// No filter on the mismatch flag.
    #[default]
    All,
    /// Only packages flagged as mismatched.
    FlaggedOnly,
    /// Only packages not flagged.
    NotFlagged,
}

/// Filter variant of a combo row index; out of range gives the default.
pub open spec fn filter_of_index(i: int) -> HomePackageFilter {
    if i == 1 {
        HomePackageFilter::FlaggedOnly
    } else if i == 2 {
        HomePackageFilter::NotFlagged
    } else {
        HomePackageFilter::All
    }
}

/// Combo row index of a filter variant.
pub open spec fn filter_index(f: HomePackageFilter) -> int {
    match f {
        HomePackageFilter::All => 0,
        HomePackageFilter::FlaggedOnly => 1,
        HomePackageFilter::NotFlagged => 2,
    }
}

impl HomePackageFilter {
    /// Filter variant of a combo row index (`All` when out of range).
    pub fn from_index(index: usize) -> (r: Self)
        ensures
            r == filter_of_index(index as int),
    {
        match index {
            1 => HomePackageFilter::FlaggedOnly,
            2 => HomePackageFilter::NotFlagged,
            _ => HomePackageFilter::All,
        }
    }

    /// Combo row index of this variant.
    pub fn to_index(self) -> (r: usize)
        ensures
            r == filter_index(self),
    {
        match self {
            HomePackageFilter::All => 0,
            HomePackageFilter::FlaggedOnly => 1,
            HomePackageFilter::NotFlagged => 2,
        }
    }
}

/// A combo row index read back from a variant gives that variant.
pub proof fn law_home_index_round_trip(s: HomePackageSort, f: HomePackageFilter)
    ensures
        sort_of_index(sort_index(s)) == s,
        filter_of_index(filter_index(f)) == f,
        0 <= sort_index(s) < 5,
        0 <= filter_index(f) < 3,
{
}

/// Search text, sort and filter driving the Home package list.
#[derive(Debug, Clone, Default)]
pub struct HomePackageListState {
    /// Case-insensitive substring matched against id, title and subtitle.
    pub search: String,
    pub sort: HomePackageSort,
    pub filter: HomePackageFilter,
}

/// Rank of a kind in the `Kind` sort: binary, git, other.
pub open spec fn kind_rank_of(k: PackageKind) -> int {
    match k {
        PackageKind::Bin => 0,
        PackageKind::Git => 1,
        PackageKind::Other => 2,
    }
}

/// Rank of a kind in the `Kind` sort (lower first).
pub fn kind_rank(kind: PackageKind) -> (r: u8)
    ensures
        r == kind_rank_of(kind),
{
    match kind {
        PackageKind::Bin => 0,
        PackageKind::Git => 1,
        PackageKind::Other => 2,
    }
}

/// The package matches the search text: the trimmed query is empty, or its
/// lowercase form occurs in the lowercase id, title or subtitle.
pub open spec fn matches_search(p: PackageDef, query: Seq<char>) -> bool {
    let q = trim(query);
    ||| q.len() == 0
    ||| contains(lowercase(p.id@), lowercase(q))
    ||| contains(lowercase(p.title@), lowercase(q))
    ||| contains(lowercase(p.subtitle@), lowercase(q))
}

fn lower_chars(s: &str) -> (r: Vec<char>)
    ensures
        r@ == lowercase(s@),
{
    let l = to_lowercase(s);
    chars_of(l.as_str())
}

/// Whether `pkg` matches the search text (see [`matches_search`]).
pub fn package_matches_search(pkg: &PackageDef, query: &str) -> (r: bool)
    ensures
        r == matches_search(*pkg, query@),
{
    let v = chars_of(query);
    let (a, b) = trim_bounds(&v);
    if a == b {
        return true;
    }
    let q = string_of(&slice_vec(&v, a, b));
    let needle = lower_chars(q.as_str());
    contains_exec(&lower_chars(pkg.id.as_str()), &needle) || contains_exec(
        &lower_chars(pkg.title.as_str()),
        &needle,
    ) || contains_exec(&lower_chars(pkg.subtitle.as_str()), &needle)
}

/// The package id is in the mismatch list (nothing is flagged without one).
pub open spec fn is_flagged(p: PackageDef, ids: Option<Seq<String>>) -> bool {
    match ids {
        Some(s) => exists|i: int| #![trigger s[i]] 0 <= i < s.len() && s[i]@ == p.id@,
        None => false,
    }
}

/// The mismatch list, if any, as a sequence.
pub open spec fn ids_view(ids: Option<&Vec<String>>) -> Option<Seq<String>> {
    match ids {
        Some(v) => Some(v@),
        None => None,
    }
}

/// Whether `pkg` is in the AUR maintainer mismatch list.
pub fn is_pkg_flagged_mismatch(pkg: &PackageDef, mismatch_ids: Option<&Vec<String>>) -> (r: bool)
    ensures
        r == is_flagged(*pkg, ids_view(mismatch_ids)),
{
    match mismatch_ids {
        None => false,
        Some(v) => {
            let id = chars_of(pkg.id.as_str());
            let mut i: usize = 0;
            while i < v.len()
                invariant
                    i <= v.len(),
                    mismatch_ids == Some(v),
                    id@ == pkg.id@,
                    forall|j: int| 0 <= j < i ==> #[trigger] v@[j]@ != pkg.id@,
                decreases v.len() - i,
            {
                if crate::text::eq_chars(&chars_of(v[i].as_str()), &id) {
                    assert(v@[i as int]@ == pkg.id@);
                    let ghost sq = v@;
                    assert(sq[i as int]@ == pkg.id@);
                    assert(exists|k: int| #![trigger sq[k]] 0 <= k < sq.len() && sq[k]@ == pkg.id@);
                    assert(is_flagged(*pkg, Some(sq)));
                    assert(ids_view(mismatch_ids) == Some(sq));
                    return true;
                }
                i += 1;
            }
            false
        },
    }
}

/// The filter lets a package with this flag through.
pub open spec fn filter_passes(f: HomePackageFilter, flagged: bool) -> bool {
    match f {
        HomePackageFilter::All => true,
        HomePackageFilter::FlaggedOnly => flagged,
        HomePackageFilter::NotFlagged => !flagged,
    }
}

/// Refresh time of a package, or `d` when it was never refreshed.
pub open spec fn refreshed_or(p: PackageDef, d: i64) -> int {
    match p.pkgbuild_refreshed_at_unix {
        Some(t) => t as int,
        None => d as int,
    }
}

/// First component of the sort key: kind rank, or refresh time (negated for
/// newest first; never refreshed sorts last either way).
pub open spec fn primary_key(s: HomePackageSort, p: PackageDef) -> int {
    match s {
        HomePackageSort::Kind => kind_rank_of(p.kind),
        HomePackageSort::RefreshNewest => -refreshed_or(p, i64::MIN),
        HomePackageSort::RefreshOldest => refreshed_or(p, i64::MAX),
        _ => 0,
    }
}

/// Sort key of a package: primary component, then the lowercase id.
pub open spec fn sort_key(s: HomePackageSort, p: PackageDef) -> (int, Seq<char>) {
    (primary_key(s, p), lowercase(p.id@))
}

/// Strict order on sort keys: primary component ascending, then the id
/// (descending for `NameDesc`, ascending otherwise).
pub open spec fn key_before(s: HomePackageSort, a: (int, Seq<char>), b: (int, Seq<char>)) -> bool {
    if a.0 != b.0 {
        a.0 < b.0
    } else if s is NameDesc {
        lex_lt(b.1, a.1)
    } else {
        lex_lt(a.1, b.1)
    }
}

/// `a` goes strictly before `b` in the sort.
pub open spec fn comes_before(s: HomePackageSort, a: PackageDef, b: PackageDef) -> bool {
    key_before(s, sort_key(s, a), sort_key(s, b))
}

/// The key order is a strict total order on keys.
pub proof fn lemma_key_order(s: HomePackageSort, a: (int, Seq<char>), b: (int, Seq<char>), c: (int, Seq<char>))
    ensures
        !key_before(s, a, a),
        key_before(s, a, b) && key_before(s, b, c) ==> key_before(s, a, c),
        a != b ==> key_before(s, a, b) || key_before(s, b, a),
{
    lemma_lex_irreflexive(a.1);
    if key_before(s, a, b) && key_before(s, b, c) && a.0 == b.0 && b.0 == c.0 {
        if s is NameDesc {
            lemma_lex_transitive(c.1, b.1, a.1);
        } else {
            lemma_lex_transitive(a.1, b.1, c.1);
        }
    }
    if a != b && a.0 == b.0 {
        assert(a.1 != b.1);
        lemma_lex_total(a.1, b.1);
    }
}

/// No later element goes strictly before an earlier one.
pub open spec fn sorted_by(s: HomePackageSort, v: Seq<PackageDef>) -> bool {
    forall|i: int, j: int| 0 <= i < j < v.len() ==> !comes_before(s, #[trigger] v[j], #[trigger] v[i])
}

/// The elements with sort key `k`, in their order in `v`.
pub open spec fn class_of(v: Seq<PackageDef>, s: HomePackageSort, k: (int, Seq<char>)) -> Seq<PackageDef>
    decreases v.len(),
{
    if v.len() == 0 {
        Seq::empty()
    } else if sort_key(s, v.last()) == k {
        class_of(v.drop_last(), s, k).push(v.last())
    } else {
        class_of(v.drop_last(), s, k)
    }
}

/// Taking a key class distributes over concatenation.
pub proof fn lemma_class_concat(a: Seq<PackageDef>, b: Seq<PackageDef>, s: HomePackageSort, k: (int, Seq<char>))
    ensures
        class_of(a + b, s, k) == class_of(a, s, k) + class_of(b, s, k),
    decreases b.len(),
{
    if b.len() == 0 {
        assert(a + b =~= a);
        assert(class_of(b, s, k) =~= Seq::<PackageDef>::empty());
    } else {
        lemma_class_concat(a, b.drop_last(), s, k);
        assert((a + b).drop_last() =~= a + b.drop_last());
        assert((a + b).last() == b.last());
        if sort_key(s, b.last()) == k {
            assert(class_of(a, s, k) + class_of(b, s, k) =~= (class_of(a, s, k) + class_of(b.drop_last(), s, k)).push(b.last()));
        }
    }
}

/// A sequence without key `k` has an empty class for it.
pub proof fn lemma_class_absent(v: Seq<PackageDef>, s: HomePackageSort, k: (int, Seq<char>))
    requires
        forall|i: int| 0 <= i < v.len() ==> sort_key(s, #[trigger] v[i]) != k,
    ensures
        class_of(v, s, k) == Seq::<PackageDef>::empty(),
    decreases v.len(),
{
    if v.len() > 0 {
        lemma_class_absent(v.drop_last(), s, k);
        assert(sort_key(s, v[v.len() - 1]) != k);
    }
}

/// Whether `a` goes strictly before `b` (see [`comes_before`]).
fn comes_before_exec(s: HomePackageSort, a: &PackageDef, b: &PackageDef) -> (r: bool)
    ensures
        r == comes_before(s, *a, *b),
{
    let (same, less) = match s {
        HomePackageSort::Kind => {
            let ra = kind_rank(a.kind);
            let rb = kind_rank(b.kind);
            (ra == rb, ra < rb)
        },
        HomePackageSort::RefreshNewest => {
            let ta = match a.pkgbuild_refreshed_at_unix {
                Some(t) => t,
                None => i64::MIN,
            };
            let tb = match b.pkgbuild_refreshed_at_unix {
                Some(t) => t,
                None => i64::MIN,
            };
            (ta == tb, ta > tb)
        },
        HomePackageSort::RefreshOldest => {
            let ta = match a.pkgbuild_refreshed_at_unix {
                Some(t) => t,
                None => i64::MAX,
            };
            let tb = match b.pkgbuild_refreshed_at_unix {
                Some(t) => t,
                None => i64::MAX,
            };
            (ta == tb, ta < tb)
        },
        _ => (true, false),
    };
    if !same {
        return less;
    }
    let na = lower_chars(a.id.as_str());
    let nb = lower_chars(b.id.as_str());
    match s {
        HomePackageSort::NameDesc => lex_lt_exec(&nb, &na),
        _ => lex_lt_exec(&na, &nb),
    }
}

/// Inserts `p` after every element that does not go strictly after it: the
/// list stays sorted and `p` joins the end of its key class.
fn insert_stable(out: &mut Vec<PackageDef>, p: PackageDef, s: HomePackageSort)
    requires
        sorted_by(s, old(out)@),
    ensures
        sorted_by(s, final(out)@),
        forall|k: (int, Seq<char>)| #[trigger] class_of(final(out)@, s, k) == (if sort_key(s, p) == k {
            class_of(old(out)@, s, k).push(p)
        } else {
            class_of(old(out)@, s, k)
        }),
{
    let ghost o = out@;
    let mut j: usize = 0;
    while j < out.len() && !comes_before_exec(s, &p, &out[j])
        invariant
            j <= out.len(),
            out@ == o,
            forall|i: int| 0 <= i < j ==> !comes_before(s, p, #[trigger] o[i]),
        decreases out.len() - j,
    {
        j += 1;
    }
    let ghost pk = sort_key(s, p);
    assert forall|i: int| j <= i < o.len() implies comes_before(s, p, #[trigger] o[i]) by {
        assert(comes_before(s, p, o[j as int]));
        if i > j {
            assert(!comes_before(s, o[i], o[j as int]));
            lemma_key_order(s, sort_key(s, o[j as int]), sort_key(s, o[i]), pk);
            lemma_key_order(s, pk, sort_key(s, o[j as int]), sort_key(s, o[i]));
        }
    }
    out.insert(j, p);
    let ghost f = out@;
    assert(f == o.insert(j as int, p));
    assert forall|a: int, b: int| 0 <= a < b < f.len() implies !comes_before(s, #[trigger] f[b], #[trigger] f[a]) by {
        if b < j {
            assert(f[a] == o[a] && f[b] == o[b]);
        } else if b == j {
            assert(f[a] == o[a] && f[b] == p);
        } else if a == j {
            assert(f[b] == o[b - 1]);
            lemma_key_order(s, pk, sort_key(s, o[b - 1]), pk);
        } else if a < j {
            assert(f[a] == o[a] && f[b] == o[b - 1]);
        } else {
            assert(f[a] == o[a - 1] && f[b] == o[b - 1]);
        }
    }
    let ghost pre = o.subrange(0, j as int);
    let ghost post = o.subrange(j as int, o.len() as int);
    assert(o =~= pre + post);
    assert(f =~= pre + seq![p] + post);
    assert forall|k: (int, Seq<char>)| #[trigger] class_of(f, s, k) == (if pk == k {
        class_of(o, s, k).push(p)
    } else {
        class_of(o, s, k)
    }) by {
        lemma_class_concat(pre, post, s, k);
        lemma_class_concat(pre + seq![p], post, s, k);
        lemma_class_concat(pre, seq![p], s, k);
        assert(seq![p].drop_last() =~= Seq::<PackageDef>::empty());
        assert(seq![p].last() == p);
        assert(class_of(Seq::<PackageDef>::empty(), s, k) == Seq::<PackageDef>::empty());
        if pk == k {
            assert forall|i: int| 0 <= i < post.len() implies sort_key(s, #[trigger] post[i]) != k by {
                assert(post[i] == o[j + i]);
                assert(comes_before(s, p, o[j + i]));
                lemma_key_order(s, pk, pk, pk);
            }
            lemma_class_absent(post, s, k);
            assert(class_of(o, s, k) =~= class_of(pre, s, k));
            assert(class_of(f, s, k) =~= class_of(pre, s, k).push(p));
        } else {
            assert(class_of(seq![p], s, k) =~= Seq::<PackageDef>::empty());
            assert(class_of(f, s, k) =~= class_of(o, s, k));
        }
    }
}

/// The package passes the search and the mismatch filter.
pub open spec fn list_keeps(p: PackageDef, ids: Option<Seq<String>>, search: Seq<char>, f: HomePackageFilter) -> bool {
    matches_search(p, search) && filter_passes(f, is_flagged(p, ids))
}

/// The packages that pass the search and the filter, in registry order.
pub open spec fn kept_of(
    ps: Seq<PackageDef>,
    ids: Option<Seq<String>>,
    search: Seq<char>,
    f: HomePackageFilter,
) -> Seq<PackageDef>
    decreases ps.len(),
{
    if ps.len() == 0 {
        Seq::empty()
    } else if list_keeps(ps.last(), ids, search, f) {
        kept_of(ps.drop_last(), ids, search, f).push(ps.last())
    } else {
        kept_of(ps.drop_last(), ids, search, f)
    }
}

/// The Home list in display order: the packages that match the search text
/// and pass the mismatch filter, stably sorted by the chosen order (equal
/// keys keep their registry order).
///
/// The result is sorted, and for every sort key it holds exactly the kept
/// packages with that key, in registry order; these two facts determine it.
pub fn apply_home_package_list_view(
    packages: Vec<PackageDef>,
    mismatch_ids: Option<&Vec<String>>,
    controls: &HomePackageListState,
) -> (r: Vec<PackageDef>)
    ensures
        sorted_by(controls.sort, r@),
        forall|k: (int, Seq<char>)| #[trigger] class_of(r@, controls.sort, k) == class_of(
            kept_of(packages@, ids_view(mismatch_ids), controls.search@, controls.filter),
            controls.sort,
            k,
        ),
{
    let ghost p0 = packages@;
    let ghost ids = ids_view(mismatch_ids);
    let s = controls.sort;
    let mut rest = packages;
    let n = rest.len();
    let mut kept: Vec<PackageDef> = Vec::new();
    let mut i: usize = 0;
    assert(p0.take(0) =~= Seq::<PackageDef>::empty());
    while rest.len() > 0
        invariant
            i + rest.len() == p0.len(),
            p0.len() == n,
            rest@ == p0.skip(i as int),
            kept@ == kept_of(p0.take(i as int), ids, controls.search@, controls.filter),
            ids == ids_view(mismatch_ids),
        decreases rest.len(),
    {
        let p = rest.remove(0);
        assert(p == p0[i as int]);
        assert(p0.take(i as int + 1).drop_last() =~= p0.take(i as int));
        assert(p0.take(i as int + 1).last() == p);
        assert(rest@ =~= p0.skip(i as int + 1));
        let matched = package_matches_search(&p, controls.search.as_str());
        let flagged = is_pkg_flagged_mismatch(&p, mismatch_ids);
        let passes = match controls.filter {
            HomePackageFilter::All => true,
            HomePackageFilter::FlaggedOnly => flagged,
            HomePackageFilter::NotFlagged => !flagged,
        };
        if matched && passes {
            kept.push(p);
        }
        i += 1;
    }
    assert(p0.take(i as int) =~= p0);
    let ghost k0 = kept@;
    let m = kept.len();
    let mut out: Vec<PackageDef> = Vec::new();
    let mut j: usize = 0;
    assert(k0.take(0) =~= Seq::<PackageDef>::empty());
    while kept.len() > 0
        invariant
            j + kept.len() == k0.len(),
            k0.len() == m,
            kept@ == k0.skip(j as int),
            sorted_by(s, out@),
            forall|k: (int, Seq<char>)| #[trigger] class_of(out@, s, k) == class_of(k0.take(j as int), s, k),
        decreases kept.len(),
    {
        let p = kept.remove(0);
        assert(p == k0[j as int]);
        assert(k0.take(j as int + 1).drop_last() =~= k0.take(j as int));
        assert(k0.take(j as int + 1).last() == p);
        assert(kept@ =~= k0.skip(j as int + 1));
        let ghost before = out@;
        insert_stable(&mut out, p, s);
        assert forall|k: (int, Seq<char>)| #[trigger] class_of(out@, s, k) == class_of(k0.take(j as int + 1), s, k) by {
            assert(class_of(before, s, k) == class_of(k0.take(j as int), s, k));
        }
        j += 1;
    }
    assert(k0.take(j as int) =~= k0);
    out
}

/// Text of `key` in the holder's active locale (see [`translated`]).
pub open spec fn tr(h: I18nHolder, key: Seq<char>) -> Seq<char> {
    translated(h.active, h.en_view(), h.de_view(), key)
}

/// `now - ts`, saturated to the `i64` range.
pub open spec fn age_of(now: i64, ts: i64) -> int {
    let d = now as int - ts as int;
    if d > i64::MAX as int {
        i64::MAX as int
    } else if d < i64::MIN as int {
        i64::MIN as int
    } else {
        d
    }
}

/// Relative phrase for an age in seconds; from a week on, the local date.
pub open spec fn age_detail(h: I18nHolder, age: int, local_date: Option<Seq<char>>) -> Seq<char> {
    if age < 60 {
        tr(h, "home.last_updated.just_now"@)
    } else if age < 3600 {
        fill_placeholders(tr(h, "home.last_updated.min_ago"@), seq![("n"@, decimal((age / 60) as nat))])
    } else if age < 86400 {
        fill_placeholders(tr(h, "home.last_updated.hours_ago"@), seq![("n"@, decimal((age / 3600) as nat))])
    } else if age < 7 * 86400 {
        fill_placeholders(tr(h, "home.last_updated.days_ago"@), seq![("n"@, decimal((age / 86400) as nat))])
    } else {
        match local_date {
            Some(g) => g,
            None => tr(h, "home.last_updated.unknown_date"@),
        }
    }
}

/// Second line of a Home package row.
pub open spec fn last_updated_line(
    h: I18nHolder,
    refreshed: Option<i64>,
    now: i64,
    local_date: Option<Seq<char>>,
) -> Seq<char> {
    match refreshed {
        None => tr(h, "home.last_updated.never"@),
        Some(ts) => fill_placeholders(
            tr(h, "home.last_updated.prefix"@),
            seq![("detail"@, age_detail(h, age_of(now, ts), local_date))],
        ),
    }
}

fn fmt_number(h: &I18nHolder, key: &str, n: u64) -> (r: String)
    ensures
        r@ == fill_placeholders(tr(*h, key@), seq![("n"@, decimal(n as nat))]),
{
    let v = string_of(&decimal_exec(n));
    let pairs = [("n", v.as_str())];
    let r = h.translate_fmt(key, &pairs);
    assert(crate::i18n::str_pairs_view(pairs@) =~= seq![("n"@, decimal(n as nat))]);
    r
}

/// When the PKGBUILD of a Home row was last synced or reloaded: "never", or
/// a relative phrase (just now, minutes, hours, days) inside the prefix
/// template. From a week on the phrase is `local_date`, the refresh time as
/// the application formats it in the local time zone (`None` when it could
/// not).
pub fn home_pkg_last_updated_line(
    h: &I18nHolder,
    refreshed: Option<i64>,
    now_unix: i64,
    local_date: Option<String>,
) -> (r: String)
    ensures
        r@ == last_updated_line(*h, refreshed, now_unix, opt_str(local_date)),
{
    match refreshed {
        None => h.translate("home.last_updated.never"),
        Some(ts) => {
            let d: i128 = now_unix as i128 - ts as i128;
            let age: i64 = if d > i64::MAX as i128 {
                i64::MAX
            } else if d < i64::MIN as i128 {
                i64::MIN
            } else {
                d as i64
            };
            assert(age == age_of(now_unix, ts));
            let detail = if age < 60 {
                h.translate("home.last_updated.just_now")
            } else if age < 3600 {
                fmt_number(h, "home.last_updated.min_ago", (age / 60) as u64)
            } else if age < 86400 {
                fmt_number(h, "home.last_updated.hours_ago", (age / 3600) as u64)
            } else if age < 7 * 86400 {
                fmt_number(h, "home.last_updated.days_ago", (age / 86400) as u64)
            } else {
                match local_date {
                    Some(g) => g,
                    None => h.translate("home.last_updated.unknown_date"),
                }
            };
            let pairs = [("detail", detail.as_str())];
            let r = h.translate_fmt("home.last_updated.prefix", &pairs);
            assert(crate::i18n::str_pairs_view(pairs@) =~= seq![("detail"@, detail@)]);
            r
        },
    }
}

/// At most `max` ids joined by `", "`; when there are more, the first `max`
/// followed by a count of the rest.
pub open spec fn capped_ids_text(ids: Seq<Seq<char>>, max: int) -> Seq<char> {
    if ids.len() <= max {
        join(ids, ", "@)
    } else {
        join(ids.take(max), ", "@) + " … (+"@ + decimal((ids.len() - max) as nat) + " more)"@
    }
}

/// The first `n` ids, joined by `", "`.
pub(crate) fn join_first_ids(ids: &Vec<String>, n: usize) -> (r: Vec<char>)
    requires
        n <= ids.len(),
    ensures
        r@ == join(strings_view(ids@).take(n as int), ", "@),
{
    let ghost sv = strings_view(ids@);
    let mut parts: Vec<Vec<char>> = Vec::new();
    let mut i: usize = 0;
    while i < n
        invariant
            i <= n <= ids.len(),
            sv == strings_view(ids@),
            parts.len() == i,
            parts.deep_view() =~= sv.take(i as int),
        decreases n - i,
    {
        let c = chars_of(ids[i].as_str());
        proof {
            lemma_deep_chars(&c);
        }
        let ghost old_parts = parts@;
        parts.push(c);
        assert(parts.deep_view() =~= sv.take(i as int + 1)) by {
            assert forall|k: int| 0 <= k < i + 1 implies parts.deep_view()[k] == sv.take(i as int + 1)[k] by {
                if k < i {
                    assert(parts@[k] == old_parts[k]);
                }
            }
        }
        i += 1;
    }
    join_exec(&parts, &chars_of(", "))
}

/// Ids for a message (see [`capped_ids_text`]).
pub(crate) fn capped_ids(ids: &Vec<String>, max: usize) -> (r: String)
    ensures
        r@ == capped_ids_text(strings_view(ids@), max as int),
{
    let ghost sv = strings_view(ids@);
    if ids.len() <= max {
        let v = join_first_ids(ids, ids.len());
        assert(sv.take(ids.len() as int) =~= sv);
        string_of(&v)
    } else {
        let mut out = join_first_ids(ids, max);
        append_chars(&mut out, &chars_of(" … (+"));
        append_chars(&mut out, &decimal_exec((ids.len() - max) as u64));
        append_chars(&mut out, &chars_of(" more)"));
        string_of(&out)
    }
}

/// Package ids for a confirmation dialog: empty for none, else at most
/// twelve (see [`capped_ids_text`]).
pub fn format_ids_for_confirm_dialog(ids: &Vec<String>) -> (r: String)
    ensures
        r@ == (if ids.len() == 0 {
            Seq::empty()
        } else {
            capped_ids_text(strings_view(ids@), 12)
        }),
{
    if ids.len() == 0 {
        return string_of(&Vec::new());
    }
    capped_ids(ids, 12)
}

/// Whether some registry package has this id.
fn registered(ps: &Vec<PackageDef>, id: &[char]) -> (r: bool)
    ensures
        r == in_registry(ps@, id@),
{
    let mut k: usize = 0;
    while k < ps.len()
        invariant
            k <= ps.len(),
            forall|j: int| 0 <= j < k ==> (#[trigger] ps@[j]).id@ != id@,
        decreases ps.len() - k,
    {
        if eq_chars(&chars_of(ps[k].id.as_str()), id) {
            assert(ps@[k as int].id@ == id@);
            return true;
        }
        k += 1;
    }
    false
}

/// The flagged ids (no id twice) that still name a registry package, sorted.
pub open spec fn flagged_registered(st: AppState) -> Set<Seq<char>> {
    match st.aur_account_mismatch_ids {
        Some(v) => still_registered(strings_view(v@), st.registry.packages@).to_set(),
        None => Set::empty(),
    }
}

/// Package ids flagged by the last AUR account check that are still in the
/// registry, sorted, without repeats.
pub fn mismatch_ids_still_in_registry(state: &AppState) -> (r: Vec<String>)
    ensures
        sorted_strict(strings_view(r@)),
        strings_view(r@).to_set() == flagged_registered(*state),
{
    let mut out: Vec<Vec<char>> = Vec::new();
    match &state.aur_account_mismatch_ids {
        None => {
            assert(out.deep_view().to_set() =~= Set::<Seq<char>>::empty());
        },
        Some(mism) => {
            let ghost ids = strings_view(mism@);
            let ghost ps = state.registry.packages@;
            let mut i: usize = 0;
            assert(ids.take(0) =~= Seq::<Seq<char>>::empty());
            assert(out.deep_view().to_set() =~= Set::<Seq<char>>::empty());
            while i < mism.len()
                invariant
                    i <= mism.len(),
                    ids == strings_view(mism@),
                    ps == state.registry.packages@,
                    sorted_strict(out.deep_view()),
                    out.deep_view().to_set() == still_registered(ids.take(i as int), ps).to_set(),
                decreases mism.len() - i,
            {
                let id = chars_of(mism[i].as_str());
                assert(ids.take(i as int + 1).drop_last() =~= ids.take(i as int));
                assert(ids.take(i as int + 1).last() == id@);
                let ghost prev = still_registered(ids.take(i as int), ps);
                if registered(&state.registry.packages, &id) {
                    insert_sorted(&mut out, id);
                    proof {
                        prev.lemma_push_to_set_commute(ids[i as int]);
                    }
                }
                i += 1;
            }
            assert(ids.take(i as int) =~= ids);
        },
    }
    let r = strings_of(&out);
    r
}

/// A key's class is non-empty exactly when some element has that key.
proof fn lemma_class_nonempty(v: Seq<PackageDef>, s: HomePackageSort, k: (int, Seq<char>))
    ensures
        class_of(v, s, k).len() > 0 <==> exists|i: int| 0 <= i < v.len() && sort_key(s, #[trigger] v[i]) == k,
    decreases v.len(),
{
    if v.len() > 0 {
        lemma_class_nonempty(v.drop_last(), s, k);
        if exists|i: int| 0 <= i < v.len() && sort_key(s, #[trigger] v[i]) == k {
            let i = choose|i: int| 0 <= i < v.len() && sort_key(s, #[trigger] v[i]) == k;
            if i < v.len() - 1 {
                assert(v.drop_last()[i] == v[i]);
            }
        }
        if exists|i: int| 0 <= i < v.len() - 1 && sort_key(s, #[trigger] v.drop_last()[i]) == k {
            let i = choose|i: int| 0 <= i < v.len() - 1 && sort_key(s, #[trigger] v.drop_last()[i]) == k;
            assert(v[i] == v.drop_last()[i]);
        }
    }
}

/// Dropping the last element drops it from its class only.
proof fn lemma_class_drop_last(v: Seq<PackageDef>, s: HomePackageSort, k: (int, Seq<char>))
    requires
        v.len() > 0,
    ensures
        class_of(v.drop_last(), s, k) == (if sort_key(s, v.last()) == k {
            class_of(v, s, k).drop_last()
        } else {
            class_of(v, s, k)
        }),
{
    if sort_key(s, v.last()) == k {
        assert(class_of(v, s, k).drop_last() =~= class_of(v.drop_last(), s, k));
    }
}

/// Two sorted lists with the same elements in each key class are equal: the
/// Home view's contract determines its result.
pub proof fn law_home_view_determined(s: HomePackageSort, a: Seq<PackageDef>, b: Seq<PackageDef>)
    requires
        sorted_by(s, a),
        sorted_by(s, b),
        forall|k: (int, Seq<char>)| #[trigger] class_of(a, s, k) == class_of(b, s, k),
    ensures
        a == b,
    decreases a.len() + b.len(),
{
    if a.len() == 0 && b.len() == 0 {
        assert(a =~= b);
    } else if a.len() == 0 {
        let kb = sort_key(s, b.last());
        lemma_class_nonempty(b, s, kb);
        lemma_class_nonempty(a, s, kb);
        assert(class_of(a, s, kb) == class_of(b, s, kb));
        assert(sort_key(s, b[b.len() - 1]) == kb);
    } else if b.len() == 0 {
        let ka = sort_key(s, a.last());
        lemma_class_nonempty(a, s, ka);
        lemma_class_nonempty(b, s, ka);
        assert(class_of(a, s, ka) == class_of(b, s, ka));
        assert(sort_key(s, a[a.len() - 1]) == ka);
    } else {
        let ka = sort_key(s, a.last());
        let kb = sort_key(s, b.last());
        // Both lists share the key of the other's last element.
        lemma_class_nonempty(a, s, kb);
        lemma_class_nonempty(b, s, kb);
        lemma_class_nonempty(a, s, ka);
        lemma_class_nonempty(b, s, ka);
        assert(class_of(a, s, ka) == class_of(b, s, ka));
        assert(class_of(a, s, kb) == class_of(b, s, kb));
        assert(sort_key(s, a[a.len() - 1]) == ka);
        assert(sort_key(s, b[b.len() - 1]) == kb);
        let ia = choose|i: int| 0 <= i < a.len() && sort_key(s, #[trigger] a[i]) == kb;
        let ib = choose|i: int| 0 <= i < b.len() && sort_key(s, #[trigger] b[i]) == ka;
        // The last keys are maximal in each list, so they are equal.
        if ia < a.len() - 1 {
            assert(!comes_before(s, a[a.len() - 1], a[ia]));
        }
        if ib < b.len() - 1 {
            assert(!comes_before(s, b[b.len() - 1], b[ib]));
        }
        lemma_key_order(s, ka, kb, ka);
        lemma_key_order(s, kb, ka, kb);
        assert(ka == kb);
        // The last elements are the last of that class.
        assert(class_of(a, s, ka).last() == a.last());
        assert(class_of(b, s, ka).last() == b.last());
        assert(a.last() == b.last());
        let a2 = a.drop_last();
        let b2 = b.drop_last();
        assert forall|k: (int, Seq<char>)| #[trigger] class_of(a2, s, k) == class_of(b2, s, k) by {
            lemma_class_drop_last(a, s, k);
            lemma_class_drop_last(b, s, k);
            assert(class_of(a, s, k) == class_of(b, s, k));
        }
        assert forall|i: int, j: int| 0 <= i < j < a2.len() implies !comes_before(s, #[trigger] a2[j], #[trigger] a2[i]) by {
            assert(a2[i] == a[i] && a2[j] == a[j]);
        }
        assert forall|i: int, j: int| 0 <= i < j < b2.len() implies !comes_before(s, #[trigger] b2[j], #[trigger] b2[i]) by {
            assert(b2[i] == b[i] && b2[j] == b[j]);
        }
        law_home_view_determined(s, a2, b2);
        assert(a =~= a2.push(a.last()));
        assert(b =~= b2.push(b.last()));
    }
}

/// Members of a class are members of the list, with that key.
proof fn lemma_class_members(v: Seq<PackageDef>, s: HomePackageSort, k: (int, Seq<char>), x: PackageDef)
    requires
        class_of(v, s, k).contains(x),
    ensures
        v.contains(x),
        sort_key(s, x) == k,
    decreases v.len(),
{
    if v.len() > 0 {
        let c = class_of(v, s, k);
        let j = choose|j: int| 0 <= j < c.len() && c[j] == x;
        if sort_key(s, v.last()) == k && j == c.len() - 1 {
            assert(v[v.len() - 1] == x);
        } else {
            if sort_key(s, v.last()) == k {
                assert(class_of(v.drop_last(), s, k)[j] == x);
            }
            lemma_class_members(v.drop_last(), s, k, x);
            let i = choose|i: int| 0 <= i < v.len() - 1 && v.drop_last()[i] == x;
            assert(v[i] == x);
        }
    }
}

/// Every element is in the class of its own key.
proof fn lemma_in_own_class(v: Seq<PackageDef>, s: HomePackageSort, i: int)
    requires
        0 <= i < v.len(),
    ensures
        class_of(v, s, sort_key(s, v[i])).contains(v[i]),
    decreases v.len(),
{
    let k = sort_key(s, v[i]);
    if i == v.len() - 1 {
        assert(class_of(v, s, k)[class_of(v, s, k).len() - 1] == v[i]);
    } else {
        lemma_in_own_class(v.drop_last(), s, i);
        assert(v.drop_last()[i] == v[i]);
        let c0 = class_of(v.drop_last(), s, k);
        let j = choose|j: int| 0 <= j < c0.len() && c0[j] == v[i];
        if sort_key(s, v.last()) == k {
            assert(class_of(v, s, k)[j] == v[i]);
        }
    }
}

/// Kept packages pass the search and the filter.
proof fn lemma_kept_members(
    ps: Seq<PackageDef>,
    ids: Option<Seq<String>>,
    search: Seq<char>,
    f: HomePackageFilter,
    x: PackageDef,
)
    requires
        kept_of(ps, ids, search, f).contains(x),
    ensures
        list_keeps(x, ids, search, f),
    decreases ps.len(),
{
    if ps.len() > 0 {
        let c = kept_of(ps, ids, search, f);
        let j = choose|j: int| 0 <= j < c.len() && c[j] == x;
        if list_keeps(ps.last(), ids, search, f) && j == c.len() - 1 {
        } else {
            if list_keeps(ps.last(), ids, search, f) {
                assert(kept_of(ps.drop_last(), ids, search, f)[j] == x);
            }
            lemma_kept_members(ps.drop_last(), ids, search, f, x);
        }
    }
}

/// A list whose packages all pass keeps all of them.
proof fn lemma_kept_all(v: Seq<PackageDef>, ids: Option<Seq<String>>, search: Seq<char>, f: HomePackageFilter)
    requires
        forall|i: int| 0 <= i < v.len() ==> list_keeps(#[trigger] v[i], ids, search, f),
    ensures
        kept_of(v, ids, search, f) == v,
    decreases v.len(),
{
    if v.len() > 0 {
        assert forall|i: int| 0 <= i < v.len() - 1 implies list_keeps(#[trigger] v.drop_last()[i], ids, search, f) by {
            assert(v.drop_last()[i] == v[i]);
        }
        lemma_kept_all(v.drop_last(), ids, search, f);
        assert(list_keeps(v[v.len() - 1], ids, search, f));
        assert(v =~= v.drop_last().push(v.last()));
    }
}

/// Applying the Home view to its own result changes nothing.
pub proof fn law_home_view_idempotent(
    s: HomePackageSort,
    ids: Option<Seq<String>>,
    search: Seq<char>,
    f: HomePackageFilter,
    ps: Seq<PackageDef>,
    r: Seq<PackageDef>,
    r2: Seq<PackageDef>,
)
    requires
        sorted_by(s, r),
        forall|k: (int, Seq<char>)| #[trigger] class_of(r, s, k) == class_of(kept_of(ps, ids, search, f), s, k),
        sorted_by(s, r2),
        forall|k: (int, Seq<char>)| #[trigger] class_of(r2, s, k) == class_of(kept_of(r, ids, search, f), s, k),
    ensures
        r2 == r,
{
    assert forall|i: int| 0 <= i < r.len() implies list_keeps(#[trigger] r[i], ids, search, f) by {
        let k = sort_key(s, r[i]);
        lemma_in_own_class(r, s, i);
        assert(class_of(r, s, k) == class_of(kept_of(ps, ids, search, f), s, k));
        lemma_class_members(kept_of(ps, ids, search, f), s, k, r[i]);
        lemma_kept_members(ps, ids, search, f, r[i]);
    }
    lemma_kept_all(r, ids, search, f);
    assert forall|k: (int, Seq<char>)| #[trigger] class_of(r2, s, k) == class_of(r, s, k) by {
        assert(class_of(r2, s, k) == class_of(kept_of(r, ids, search, f), s, k));
    }
    law_home_view_determined(s, r2, r);
}


/// A package occurs in a list as often as in its key class.
proof fn lemma_count_in_class(v: Seq<PackageDef>, s: HomePackageSort, x: PackageDef)
    ensures
        v.to_multiset().count(x) == class_of(v, s, sort_key(s, x)).to_multiset().count(x),
    decreases v.len(),
{
    broadcast use vstd::seq_lib::group_to_multiset_ensures;

    let c = class_of(v, s, sort_key(s, x));
    if v.len() == 0 {
        assert(c =~= Seq::<PackageDef>::empty());
        assert(v =~= Seq::<PackageDef>::empty());
    } else {
        let d = v.drop_last();
        lemma_count_in_class(d, s, x);
        assert(v =~= d.push(v.last()));
        assert(v.to_multiset() =~= d.to_multiset().insert(v.last()));
        let cd = class_of(d, s, sort_key(s, x));
        if sort_key(s, v.last()) == sort_key(s, x) {
            assert(c.to_multiset() =~= cd.to_multiset().insert(v.last()));
        } else {
            assert(v.last() != x);
        }
    }
}

/// The Home list holds the kept packages, each as often as it is kept, in
/// sorted order; sorted by name A to Z, the lowercase ids never decrease.
pub proof fn law_home_view_permutation(s: HomePackageSort, v: Seq<PackageDef>, kept: Seq<PackageDef>)
    requires
        sorted_by(s, v),
        forall|k: (int, Seq<char>)| #[trigger] class_of(v, s, k) == class_of(kept, s, k),
    ensures
        v.to_multiset() == kept.to_multiset(),
        s is NameAsc ==> forall|i: int, j: int|
            0 <= i < j < v.len() ==> !lex_lt(lowercase(v[j].id@), lowercase(v[i].id@)),
{
    assert forall|x: PackageDef| v.to_multiset().count(x) == kept.to_multiset().count(x) by {
        lemma_count_in_class(v, s, x);
        lemma_count_in_class(kept, s, x);
        assert(class_of(v, s, sort_key(s, x)) == class_of(kept, s, sort_key(s, x)));
    }
    assert(v.to_multiset() =~= kept.to_multiset());
    if s is NameAsc {
        assert forall|i: int, j: int| 0 <= i < j < v.len() implies !lex_lt(
            lowercase(v[j].id@),
            lowercase(v[i].id@),
        ) by {
            assert(!comes_before(s, v[j], v[i]));
        }
    }
}

} // verus!
