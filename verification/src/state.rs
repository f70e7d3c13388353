//! UI-shared application state.
//!
//! The application keeps one [`AppState`] for the GTK main thread; here are
//! its contents and the operations on them.
use vstd::prelude::*;

use crate::config::Config;
use crate::text::{chars_of, eq_chars};
use crate::workflow::package::PackageDef;
use crate::workflow::registry::Registry;
use crate::workflow::ssh_setup::{strings_view, SshAgentEnv};

verus! {

/// UI-shared mutable state.
#[derive(Debug)]
pub struct AppState {
    pub config: Config,
    pub registry: Registry,
    pub package: Option<PackageDef>,
    pub pkgbuild_path: Option<String>,
    pub ssh_ok: bool,
    /// Registry ids the last successful AUR account check did not list for the
    /// configured user (no id occurs twice); `None` when no check succeeded.
    pub aur_account_mismatch_ids: Option<Vec<String>>,
    /// `ssh-agent` session started by this app when `ssh-add` had no socket.
    pub ssh_agent_session: Option<SshAgentEnv>,
}

/// No string occurs twice.
pub open spec fn distinct_strings(v: Seq<Seq<char>>) -> bool {
    forall|i: int, j: int| 0 <= i < j < v.len() ==> v[i] != v[j]
}

/// `id` is the id of some registry package.
pub open spec fn in_registry(ps: Seq<PackageDef>, id: Seq<char>) -> bool {
    exists|k: int| 0 <= k < ps.len() && (#[trigger] ps[k]).id@ == id
}

/// The ids still present in the registry, in order.
pub open spec fn still_registered(ids: Seq<Seq<char>>, ps: Seq<PackageDef>) -> Seq<Seq<char>>
    decreases ids.len(),
{
    if ids.len() == 0 {
        seq![]
    } else if in_registry(ps, ids.last()) {
        still_registered(ids.drop_last(), ps).push(ids.last())
    } else {
        still_registered(ids.drop_last(), ps)
    }
}

pub proof fn lemma_still_registered(ids: Seq<Seq<char>>, ps: Seq<PackageDef>)
    ensures
        forall|x: Seq<char>| #[trigger] still_registered(ids, ps).contains(x) ==> ids.contains(x),
        distinct_strings(ids) ==> distinct_strings(still_registered(ids, ps)),
    decreases ids.len(),
{
    if ids.len() > 0 {
        let d = ids.drop_last();
        lemma_still_registered(d, ps);
        let sd = still_registered(d, ps);
        assert forall|x: Seq<char>| #[trigger] still_registered(ids, ps).contains(x) implies ids.contains(x) by {
            if sd.contains(x) {
                let j = choose|j: int| 0 <= j < sd.len() && sd[j] == x;
                assert(d.contains(x));
                let k = choose|k: int| 0 <= k < d.len() && d[k] == x;
                assert(ids[k] == x);
            } else {
                assert(ids[ids.len() - 1] == x);
            }
        }
        if distinct_strings(ids) && in_registry(ps, ids.last()) {
            assert(distinct_strings(d)) by {
                assert forall|i: int, j: int| 0 <= i < j < d.len() implies d[i] != d[j] by {
                    assert(d[i] == ids[i] && d[j] == ids[j]);
                }
            }
            assert(!sd.contains(ids.last())) by {
                if sd.contains(ids.last()) {
                    assert(d.contains(ids.last()));
                    let k = choose|k: int| 0 <= k < d.len() && d[k] == ids.last();
                    assert(ids[k] == ids[ids.len() - 1]);
                }
            }
            let r = sd.push(ids.last());
            assert forall|i: int, j: int| 0 <= i < j < r.len() implies r[i] != r[j] by {
                if j == r.len() - 1 {
                    assert(r[i] == sd[i]);
                    assert(sd.contains(sd[i]));
                } else {
                    assert(r[i] == sd[i] && r[j] == sd[j]);
                }
            }
        } else if distinct_strings(ids) {
            assert forall|i: int, j: int| 0 <= i < j < d.len() implies d[i] != d[j] by {
                assert(d[i] == ids[i] && d[j] == ids[j]);
            }
        }
    }
}

impl AppState {
    /// Mismatch ids hold no duplicates.
    pub open spec fn wf(&self) -> bool {
        self.aur_account_mismatch_ids matches Some(v) ==> distinct_strings(strings_view(v@))
    }

    /// Fresh state for the given settings and catalog.
    pub fn new(config: Config, registry: Registry) -> (r: AppState)
        ensures
            r.config == config,
            r.registry == registry,
            r.package is None,
            r.pkgbuild_path is None,
            !r.ssh_ok,
            r.aur_account_mismatch_ids is None,
            r.ssh_agent_session is None,
            r.wf(),
    {
        AppState {
            config,
            registry,
            package: None,
            pkgbuild_path: None,
            ssh_ok: false,
            aur_account_mismatch_ids: None,
            ssh_agent_session: None,
        }
    }

    /// Drops mismatch markers of packages no longer in the registry.
    pub fn prune_aur_account_mismatch_ids(&mut self)
        requires
            old(self).wf(),
        ensures
            final(self).wf(),
            final(self).config == old(self).config,
            final(self).registry == old(self).registry,
            final(self).package == old(self).package,
            final(self).pkgbuild_path == old(self).pkgbuild_path,
            final(self).ssh_ok == old(self).ssh_ok,
            final(self).ssh_agent_session == old(self).ssh_agent_session,
            match old(self).aur_account_mismatch_ids {
                None => final(self).aur_account_mismatch_ids is None,
                Some(v) => final(self).aur_account_mismatch_ids matches Some(w) && strings_view(w@)
                    == still_registered(strings_view(v@), old(self).registry.packages@),
            },
    {
        let ids = match self.aur_account_mismatch_ids.take() {
            None => return,
            Some(v) => v,
        };
        let ghost ps = self.registry.packages@;
        let ghost iv = strings_view(ids@);
        let mut kept: Vec<String> = Vec::new();
        let mut i: usize = 0;
        assert(iv.take(0) =~= Seq::<Seq<char>>::empty());
        assert(strings_view(kept@) =~= Seq::<Seq<char>>::empty());
        while i < ids.len()
            invariant
                i <= ids.len(),
                ps == self.registry.packages@,
                iv == strings_view(ids@),
                strings_view(kept@) == still_registered(iv.take(i as int), ps),
            decreases ids.len() - i,
        {
            assert(iv.take(i as int + 1).drop_last() =~= iv.take(i as int));
            assert(iv.take(i as int + 1).last() == ids@[i as int]@);
            let id = chars_of(ids[i].as_str());
            let mut found = false;
            let mut k: usize = 0;
            while k < self.registry.packages.len()
                invariant
                    k <= self.registry.packages.len(),
                    ps == self.registry.packages@,
                    id@ == ids@[i as int]@,
                    found == exists|m: int| 0 <= m < k && (#[trigger] ps[m]).id@ == id@,
                decreases self.registry.packages.len() - k,
            {
                if eq_chars(&chars_of(self.registry.packages[k].id.as_str()), &id) {
                    found = true;
                }
                k += 1;
            }
            if found {
                let ghost kv = strings_view(kept@);
                kept.push(crate::text::string_of(&id));
                assert(strings_view(kept@) =~= kv.push(id@));
            }
            i += 1;
        }
        assert(iv.take(ids.len() as int) =~= iv);
        proof {
            lemma_still_registered(iv, ps);
        }
        self.aur_account_mismatch_ids = Some(kept);
    }

    /// The currently selected package (screens past the home page need one).
    pub fn package(&self) -> (r: &PackageDef)
        requires
            self.package is Some,
        ensures
            *r == self.package->0,
    {
        self.package.as_ref().unwrap()
    }
}


/// Pruning twice against the same registry prunes nothing more.
pub proof fn law_prune_idempotent(ids: Seq<Seq<char>>, ps: Seq<PackageDef>)
    ensures
        still_registered(still_registered(ids, ps), ps) == still_registered(ids, ps),
    decreases ids.len(),
{
    if ids.len() > 0 {
        law_prune_idempotent(ids.drop_last(), ps);
        let s = still_registered(ids.drop_last(), ps);
        if in_registry(ps, ids.last()) {
            assert(s.push(ids.last()).drop_last() =~= s);
            assert(s.push(ids.last()).last() == ids.last());
        }
    }
}

/// First launch: no saved AUR username and no registered package mean the
/// import flow was never completed, so onboarding is shown.
pub fn needs_onboarding(state: &AppState) -> (r: bool)
    ensures
        r == (state.config.aur_username is None && state.registry.packages.len() == 0),
{
    state.config.aur_username.is_none() && state.registry.packages.len() == 0
}

} // verus!
