//! Catalog of [`PackageDef`]s the app knows how to build.
//!
//! The catalog is persisted as JSONC by the application; here live the
//! in-memory operations: add-or-replace by id, remove by id, and the
//! first-run default.
use vstd::prelude::*;

use crate::text::{chars_of, eq_chars};
use crate::workflow::package::PackageDef;

verus! {

/// Schema version written with the catalog.
pub const SCHEMA_VERSION: u32 = 1;

/// Persisted catalog of packages.
#[derive(Debug, Clone)]
pub struct Registry {
    pub version: u32,
    pub packages: Vec<PackageDef>,
}

/// Schema version of a catalog that does not state one.
pub fn default_schema_version() -> (r: u32)
    ensures
        r == SCHEMA_VERSION,
{
    SCHEMA_VERSION
}

/// Built-in package set for a first run: intentionally empty, users register
/// their own packages.
pub fn default_packages() -> (r: Vec<PackageDef>)
    ensures
        r@.len() == 0,
{
    Vec::new()
}

/// Index of the first package with this id.
pub open spec fn find_id(ps: Seq<PackageDef>, id: Seq<char>) -> Option<int>
    decreases ps.len(),
{
    if ps.len() == 0 {
        None
    } else if ps[0].id@ == id {
        Some(0)
    } else {
        match find_id(ps.drop_first(), id) {
            Some(i) => Some(i + 1),
            None => None,
        }
    }
}

/// Whether some package has this id.
pub open spec fn has_id(ps: Seq<PackageDef>, id: Seq<char>) -> bool {
    exists|i: int| 0 <= i < ps.len() && (#[trigger] ps[i]).id@ == id
}

/// The packages whose id differs from `id`, in order.
pub open spec fn without_id(ps: Seq<PackageDef>, id: Seq<char>) -> Seq<PackageDef>
    decreases ps.len(),
{
    if ps.len() == 0 {
        seq![]
    } else {
        let rest = without_id(ps.drop_last(), id);
        if ps.last().id@ == id {
            rest
        } else {
            rest.push(ps.last())
        }
    }
}

/// Package list after an add-or-replace of `pkg`.
pub open spec fn upserted(ps: Seq<PackageDef>, pkg: PackageDef) -> Seq<PackageDef> {
    match find_id(ps, pkg.id@) {
        Some(i) => ps.update(i, pkg),
        None => ps.push(pkg),
    }
}

pub proof fn lemma_find_id(ps: Seq<PackageDef>, id: Seq<char>)
    ensures
        find_id(ps, id) matches Some(i) ==> 0 <= i < ps.len() && ps[i].id@ == id && forall|j: int|
            0 <= j < i ==> ps[j].id@ != id,
        find_id(ps, id) is None ==> !has_id(ps, id),
    decreases ps.len(),
{
    if ps.len() > 0 && ps[0].id@ != id {
        lemma_find_id(ps.drop_first(), id);
        assert forall|j: int| 1 <= j < ps.len() implies ps[j] == ps.drop_first()[j - 1] by {}
        if find_id(ps, id) is None {
            assert forall|j: int| 0 <= j < ps.len() implies (#[trigger] ps[j]).id@ != id by {
                if j > 0 {
                    assert(ps[j] == ps.drop_first()[j - 1]);
                }
            }
        }
    }
}

pub proof fn lemma_find_id_unique(ps: Seq<PackageDef>, id: Seq<char>, i: int)
    requires
        0 <= i < ps.len(),
        ps[i].id@ == id,
        forall|j: int| 0 <= j < i ==> ps[j].id@ != id,
    ensures
        find_id(ps, id) == Some(i),
    decreases ps.len(),
{
    if i > 0 {
        assert forall|j: int| 0 <= j < i - 1 implies ps.drop_first()[j].id@ != id by {
            assert(ps.drop_first()[j] == ps[j + 1]);
        }
        lemma_find_id_unique(ps.drop_first(), id, i - 1);
    }
}

fn same_id(p: &PackageDef, id: &[char]) -> (r: bool)
    ensures
        r == (p.id@ == id@),
{
    eq_chars(&chars_of(p.id.as_str()), id)
}

impl Registry {
    /// Chooses the catalog to use: the `packages.jsonc` contents when they were
    /// read and parsed, else the legacy `packages.json` ones, else the defaults.
    pub fn load(jsonc: Option<Registry>, legacy: Option<Registry>) -> (r: Registry)
        ensures
            match (jsonc, legacy) {
                (Some(j), _) => r == j,
                (None, Some(l)) => r == l,
                (None, None) => r.version == SCHEMA_VERSION && r.packages@.len() == 0,
            },
    {
        match jsonc {
            Some(j) => j,
            None => match legacy {
                Some(l) => l,
                None => Self::defaults(),
            },
        }
    }

    /// Add or replace a package by `id`. Returns `true` if an existing entry
    /// was overwritten (the first one with that id).
    pub fn upsert(&mut self, pkg: PackageDef) -> (replaced: bool)
        ensures
            final(self).version == old(self).version,
            final(self).packages@ == upserted(old(self).packages@, pkg),
            replaced == has_id(old(self).packages@, pkg.id@),
    {
        let id = chars_of(pkg.id.as_str());
        let ghost ps = self.packages@;
        proof {
            lemma_find_id(ps, pkg.id@);
        }
        let mut i: usize = 0;
        while i < self.packages.len()
            invariant
                i <= self.packages.len(),
                self.packages@ == ps,
                ps == old(self).packages@,
                self.version == old(self).version,
                id@ == pkg.id@,
                forall|j: int| 0 <= j < i ==> ps[j].id@ != pkg.id@,
            decreases self.packages.len() - i,
        {
            if same_id(&self.packages[i], &id) {
                proof {
                    lemma_find_id_unique(ps, pkg.id@, i as int);
                }
                self.packages.set(i, pkg);
                return true;
            }
            i += 1;
        }
        assert(!has_id(ps, pkg.id@));
        self.packages.push(pkg);
        false
    }

    /// Remove every package with this id. Returns `true` if something was removed.
    pub fn remove(&mut self, id: &str) -> (removed: bool)
        ensures
            final(self).version == old(self).version,
            final(self).packages@ == without_id(old(self).packages@, id@),
            removed == has_id(old(self).packages@, id@),
    {
        let idv = chars_of(id);
        let ghost ps = self.packages@;
        let n0 = self.packages.len();
        assert(ps.len() == n0);
        let mut i: usize = 0;
        let mut k: usize = 0;
        let mut removed = false;
        assert(ps.take(0) =~= Seq::<PackageDef>::empty());
        assert(self.packages@ =~= without_id(ps.take(0), id@) + ps.skip(0));
        while i < self.packages.len()
            invariant
                k <= ps.len(),
                ps.len() <= usize::MAX,
                ps == old(self).packages@,
                self.version == old(self).version,
                idv@ == id@,
                i == without_id(ps.take(k as int), id@).len(),
                self.packages@ == without_id(ps.take(k as int), id@) + ps.skip(k as int),
                removed == has_id(ps.take(k as int), id@),
            decreases self.packages.len() - i,
        {
            let ghost w = without_id(ps.take(k as int), id@);
            assert(k < ps.len()) by {
                assert(self.packages@.len() == w.len() + ps.skip(k as int).len());
            }
            assert(ps.take(k as int + 1).drop_last() =~= ps.take(k as int));
            assert(self.packages@[i as int] == ps[k as int]);
            assert(ps.take(k as int + 1).last() == ps[k as int]);
            assert(ps.skip(k as int).drop_first() =~= ps.skip(k as int + 1));
            if same_id(&self.packages[i], &idv) {
                self.packages.remove(i);
                assert(self.packages@ =~= w + ps.skip(k as int + 1));
                assert(has_id(ps.take(k as int + 1), id@)) by {
                    assert(ps.take(k as int + 1)[k as int] == ps[k as int]);
                }
                removed = true;
            } else {
                assert(self.packages@ =~= w.push(ps[k as int]) + ps.skip(k as int + 1));
                i += 1;
                assert(removed == has_id(ps.take(k as int + 1), id@)) by {
                    if has_id(ps.take(k as int + 1), id@) {
                        let j = choose|j: int|
                            0 <= j < k + 1 && (#[trigger] ps.take(k as int + 1)[j]).id@ == id@;
                        assert(j < k);
                        assert(ps.take(k as int)[j] == ps[j]);
                    }
                    if has_id(ps.take(k as int), id@) {
                        let j = choose|j: int|
                            0 <= j < k && (#[trigger] ps.take(k as int)[j]).id@ == id@;
                        assert(ps.take(k as int + 1)[j] == ps[j]);
                    }
                }
            }
            k += 1;
        }
        assert(k == ps.len()) by {
            if k < ps.len() {
                assert(self.packages@.len() > i);
            }
        }
        assert(ps.take(k as int) =~= ps);
        assert(ps.skip(k as int) =~= Seq::<PackageDef>::empty());
        assert(self.packages@ =~= without_id(ps, id@));
        removed
    }

    fn defaults() -> (r: Registry)
        ensures
            r.version == SCHEMA_VERSION,
            r.packages@.len() == 0,
    {
        Registry { version: SCHEMA_VERSION, packages: default_packages() }
    }
}

impl Default for Registry {
    fn default() -> (r: Registry)
        ensures
            r.version == SCHEMA_VERSION,
            r.packages@.len() == 0,
    {
        Self::defaults()
    }
}


pub proof fn lemma_without_id_absent(ps: Seq<PackageDef>, id: Seq<char>)
    requires
        !has_id(ps, id),
    ensures
        without_id(ps, id) == ps,
    decreases ps.len(),
{
    if ps.len() > 0 {
        assert(!has_id(ps.drop_last(), id)) by {
            if has_id(ps.drop_last(), id) {
                let j = choose|j: int| 0 <= j < ps.drop_last().len() && (#[trigger] ps.drop_last()[j]).id@ == id;
                assert(ps[j] == ps.drop_last()[j]);
            }
        }
        lemma_without_id_absent(ps.drop_last(), id);
        assert(ps.last() == ps[ps.len() - 1]);
        assert(ps.drop_last().push(ps.last()) =~= ps);
    }
}

/// After removing an id, no package has that id.
pub proof fn lemma_removed_id_is_gone(ps: Seq<PackageDef>, id: Seq<char>)
    ensures
        !has_id(without_id(ps, id), id),
    decreases ps.len(),
{
    if ps.len() > 0 {
        lemma_removed_id_is_gone(ps.drop_last(), id);
        let rest = without_id(ps.drop_last(), id);
        if ps.last().id@ != id {
            assert forall|j: int| 0 <= j < rest.push(ps.last()).len() implies (#[trigger] rest.push(
                ps.last(),
            )[j]).id@ != id by {
                if j < rest.len() {
                    assert(rest.push(ps.last())[j] == rest[j]);
                }
            }
        }
    }
}

/// A package added or replaced by `upsert` is the one found under its id.
pub proof fn law_upsert_then_find(ps: Seq<PackageDef>, pkg: PackageDef)
    ensures
        find_id(upserted(ps, pkg), pkg.id@) matches Some(i) && upserted(ps, pkg)[i] == pkg,
        upserted(ps, pkg).len() == ps.len() + (if has_id(ps, pkg.id@) {
            0int
        } else {
            1int
        }),
{
    lemma_find_id(ps, pkg.id@);
    let u = upserted(ps, pkg);
    match find_id(ps, pkg.id@) {
        Some(i) => {
            assert forall|j: int| 0 <= j < i implies u[j].id@ != pkg.id@ by {
                assert(u[j] == ps[j]);
            }
            lemma_find_id_unique(u, pkg.id@, i);
            assert(has_id(ps, pkg.id@)) by {
                assert(ps[i].id@ == pkg.id@);
            }
        },
        None => {
            assert forall|j: int| 0 <= j < ps.len() implies u[j].id@ != pkg.id@ by {
                assert(u[j] == ps[j]);
            }
            lemma_find_id_unique(u, pkg.id@, ps.len() as int);
        },
    }
}

/// Replacing a package by the same value again changes nothing.
pub proof fn law_upsert_idempotent(ps: Seq<PackageDef>, pkg: PackageDef)
    ensures
        upserted(upserted(ps, pkg), pkg) == upserted(ps, pkg),
{
    law_upsert_then_find(ps, pkg);
    let u = upserted(ps, pkg);
    lemma_find_id(u, pkg.id@);
    if let Some(i) = find_id(u, pkg.id@) {
        assert(u[i] == pkg);
        assert(u.update(i, pkg) =~= u);
    }
}

/// Removing an id leaves no package with it, and keeps the others in order.
pub proof fn law_remove_drops_only_that_id(ps: Seq<PackageDef>, id: Seq<char>)
    ensures
        !has_id(without_id(ps, id), id),
        !has_id(ps, id) ==> without_id(ps, id) == ps,
{
    lemma_removed_id_is_gone(ps, id);
    if !has_id(ps, id) {
        lemma_without_id_absent(ps, id);
    }
}

/// Adding a package under a new id and removing that id again restores the
/// catalog.
pub proof fn law_remove_undoes_new_upsert(ps: Seq<PackageDef>, pkg: PackageDef)
    requires
        !has_id(ps, pkg.id@),
    ensures
        without_id(upserted(ps, pkg), pkg.id@) == ps,
{
    lemma_find_id(ps, pkg.id@);
    let u = upserted(ps, pkg);
    assert(u == ps.push(pkg));
    assert(u.drop_last() =~= ps);
    assert(u.last() == pkg);
    lemma_without_id_absent(ps, pkg.id@);
}

} // verus!
