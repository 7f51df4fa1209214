//! Deterministic feature composition and replaceable-service resolution.

use vstd::prelude::*;
use crate::text::push_text;
use crate::extension::{
    copy_features, feature_ids, insert_feature, service_ids, FeatureId, FeatureManifest, ServiceId,
};

verus! {

/* ---------------------------------------------------------------------------------------- */
/* Identifier lists                                                                         */
/* ---------------------------------------------------------------------------------------- */

/// Whether `id` occurs in a list of feature identifiers.
pub fn contains_feature(v: &[FeatureId], id: &FeatureId) -> (b: bool)
    ensures
        b == feature_ids(v@).contains(id@),
{
    let mut i: usize = 0;
    while i < v.len()
        invariant
            0 <= i <= v@.len(),
            forall|j: int| 0 <= j < i ==> (#[trigger] v@[j])@ != id@,
        decreases v@.len() - i,
    {
        if v[i].same(id) {
            assert(feature_ids(v@)[i as int] == id@);
            return true;
        }
        i = i + 1;
    }
    proof {
        if feature_ids(v@).contains(id@) {
            let k = choose|k: int| 0 <= k < feature_ids(v@).len() && feature_ids(v@)[k] == id@;
            assert(v@[k]@ == id@);
        }
    }
    false
}

/// Removes `id` from a duplicate-free identifier list.
pub fn remove_feature(v: &mut Vec<FeatureId>, id: &FeatureId)
    requires
        feature_ids(old(v)@).no_duplicates(),
    ensures
        feature_ids(final(v)@).no_duplicates(),
        feature_ids(final(v)@).to_set() == feature_ids(old(v)@).to_set().remove(id@),
        final(v)@.len() <= old(v)@.len(),
{
    let mut i: usize = 0;
    while i < v.len()
        invariant
            0 <= i <= v@.len(),
            v@ == old(v)@,
            feature_ids(old(v)@).no_duplicates(),
            forall|j: int| 0 <= j < i ==> (#[trigger] v@[j])@ != id@,
        decreases v@.len() - i,
    {
        if v[i].same(id) {
            let ghost before = v@;
            v.remove(i);
            proof {
                assert(feature_ids(v@) =~= feature_ids(before).subrange(0, i as int).add(
                    feature_ids(before).subrange(i + 1, before.len() as int)));
                assert forall|a: int, b: int| 0 <= a < feature_ids(v@).len() && 0 <= b < feature_ids(v@).len() && a != b
                    implies feature_ids(v@)[a] != feature_ids(v@)[b] by {
                    let fa = if a < i { a } else { a + 1 };
                    let fb = if b < i { b } else { b + 1 };
                    assert(feature_ids(before)[fa] == feature_ids(v@)[a]);
                    assert(feature_ids(before)[fb] == feature_ids(v@)[b]);
                }
                assert(feature_ids(v@).to_set() =~= feature_ids(before).to_set().remove(id@)) by {
                    assert forall|x: Seq<char>| feature_ids(v@).to_set().contains(x)
                        implies feature_ids(before).to_set().remove(id@).contains(x) by {
                        let k = choose|k: int| 0 <= k < feature_ids(v@).len() && feature_ids(v@)[k] == x;
                        let fk = if k < i { k } else { k + 1 };
                        assert(feature_ids(before)[fk] == x);
                        assert(fk != i);
                        assert(feature_ids(before)[i as int] == id@);
                    }
                    assert forall|x: Seq<char>| feature_ids(before).to_set().remove(id@).contains(x)
                        implies feature_ids(v@).to_set().contains(x) by {
                        let k = choose|k: int| 0 <= k < feature_ids(before).len() && feature_ids(before)[k] == x;
                        assert(k != i);
                        if k < i {
                            assert(feature_ids(v@)[k] == x);
                        } else {
                            assert(feature_ids(v@)[k - 1] == x);
                        }
                    }
                }
            }
            return;
        }
        i = i + 1;
    }
    proof {
        assert(feature_ids(v@).to_set() =~= feature_ids(old(v)@).to_set().remove(id@)) by {
            assert forall|x: Seq<char>| feature_ids(v@).to_set().contains(x) implies x != id@ by {
                let k = choose|k: int| 0 <= k < feature_ids(v@).len() && feature_ids(v@)[k] == x;
                assert(v@[k]@ == x);
            }
        }
    }
}

/* ---------------------------------------------------------------------------------------- */
/* Registry                                                                                 */
/* ---------------------------------------------------------------------------------------- */

/// The identifiers of a sequence of manifests.
pub open spec fn manifest_ids(ms: Seq<FeatureManifest>) -> Seq<Seq<char>> {
    ms.map_values(|m: FeatureManifest| m.spec_id())
}

/// Whether feature `k` is registered.
pub open spec fn registered(ms: Seq<FeatureManifest>, k: Seq<char>) -> bool {
    manifest_ids(ms).contains(k)
}

/// The manifest registered for `k` (meaningful when `k` is registered).
pub open spec fn manifest_of(ms: Seq<FeatureManifest>, k: Seq<char>) -> FeatureManifest {
    ms[choose|i: int| 0 <= i < ms.len() && ms[i].spec_id() == k]
}

/// Manifests with distinct identifiers and well-formed edge lists.
pub open spec fn manifests_wf(ms: Seq<FeatureManifest>) -> bool {
    &&& manifest_ids(ms).no_duplicates()
    &&& forall|i: int| 0 <= i < ms.len() ==> (#[trigger] ms[i]).wf()
}

/// With distinct identifiers, the manifest of `ms[i]`'s identifier is `ms[i]`.
pub proof fn lemma_manifest_of(ms: Seq<FeatureManifest>, i: int)
    requires
        manifests_wf(ms),
        0 <= i < ms.len(),
    ensures
        manifest_of(ms, ms[i].spec_id()) == ms[i],
        registered(ms, ms[i].spec_id()),
{
    let k = ms[i].spec_id();
    assert(manifest_ids(ms)[i] == k);
    let j = choose|j: int| 0 <= j < ms.len() && ms[j].spec_id() == k;
    assert(manifest_ids(ms)[j] == k);
}

/// Finds the registry index of a feature.
fn find_manifest(ms: &Vec<FeatureManifest>, id: &FeatureId) -> (r: Option<usize>)
    requires
        manifests_wf(ms@),
    ensures
        r matches Some(i) ==> i < ms@.len() && ms@[i as int].spec_id() == id@ && manifest_of(ms@, id@) == ms@[i as int],
        r is None <==> !registered(ms@, id@),
{
    let mut i: usize = 0;
    while i < ms.len()
        invariant
            0 <= i <= ms@.len(),
            manifests_wf(ms@),
            forall|j: int| 0 <= j < i ==> (#[trigger] ms@[j]).spec_id() != id@,
        decreases ms@.len() - i,
    {
        if ms[i].id().same(id) {
            proof {
                lemma_manifest_of(ms@, i as int);
            }
            return Some(i);
        }
        i = i + 1;
    }
    proof {
        if registered(ms@, id@) {
            let k = choose|k: int| 0 <= k < manifest_ids(ms@).len() && manifest_ids(ms@)[k] == id@;
            assert(ms@[k].spec_id() == id@);
        }
    }
    None
}

/// Registry of all feature manifests known to the current application build.
#[derive(Debug)]
pub struct FeatureRegistry {
    manifests: Vec<FeatureManifest>,
}

/// Registration-time errors that indicate a malformed build or catalogue.
#[derive(Clone, Debug, PartialEq, Eq)]
pub enum RegistrationError {
    /// A stable feature identifier may only be registered once.
    DuplicateFeature(FeatureId),
}

impl FeatureRegistry {
    /// The registered manifests.
    pub closed spec fn spec_manifests(&self) -> Seq<FeatureManifest> {
        self.manifests@
    }

    /// The registry invariant.
    pub open spec fn wf(&self) -> bool {
        manifests_wf(self.spec_manifests())
    }

    /// Creates an empty registry.
    pub fn new() -> (r: Self)
        ensures
            r.wf(),
            r.spec_manifests().len() == 0,
    {
        let r = FeatureRegistry { manifests: Vec::new() };
        assert(manifest_ids(r.manifests@) =~= Seq::<Seq<char>>::empty());
        r
    }

    /// Registers one feature manifest; an identifier may be registered once.
    pub fn register(&mut self, manifest: FeatureManifest) -> (r: Result<(), RegistrationError>)
        requires
            old(self).wf(),
            manifest.wf(),
        ensures
            final(self).wf(),
            registered(old(self).spec_manifests(), manifest.spec_id()) ==> (r matches Err(RegistrationError::DuplicateFeature(id))
                && id@ == manifest.spec_id() && final(self).spec_manifests() == old(self).spec_manifests()),
            !registered(old(self).spec_manifests(), manifest.spec_id()) ==> {
                &&& r is Ok
                &&& manifest_ids(final(self).spec_manifests()).to_set()
                    == manifest_ids(old(self).spec_manifests()).to_set().insert(manifest.spec_id())
                &&& manifest_of(final(self).spec_manifests(), manifest.spec_id()) == manifest
                &&& forall|k: Seq<char>| #[trigger] registered(old(self).spec_manifests(), k)
                    ==> manifest_of(final(self).spec_manifests(), k) == manifest_of(old(self).spec_manifests(), k)
            },
    {
        if let Some(_) = find_manifest(&self.manifests, manifest.id()) {
            return Err(RegistrationError::DuplicateFeature(manifest.id().duplicate()));
        }
        let mut i: usize = 0;
        while i < self.manifests.len()
            invariant
                0 <= i <= self.manifests@.len(),
                self.manifests@ == old(self).manifests@,
            decreases self.manifests@.len() - i,
        {
            if manifest.id().precedes(self.manifests[i].id()) {
                break;
            }
            i = i + 1;
        }
        let ghost before = self.manifests@;
        let ghost key = manifest.spec_id();
        self.manifests.insert(i, manifest);
        proof {
            let after = self.manifests@;
            assert(manifest_ids(after) =~= manifest_ids(before).subrange(0, i as int).push(key).add(
                manifest_ids(before).subrange(i as int, before.len() as int)));
            assert forall|a: int, b: int| 0 <= a < manifest_ids(after).len() && 0 <= b < manifest_ids(after).len() && a != b
                implies manifest_ids(after)[a] != manifest_ids(after)[b] by {
                if a != i && b != i {
                    let fa = if a < i { a } else { a - 1 };
                    let fb = if b < i { b } else { b - 1 };
                    assert(manifest_ids(before)[fa] == manifest_ids(after)[a]);
                    assert(manifest_ids(before)[fb] == manifest_ids(after)[b]);
                } else if a == i {
                    let fb = if b < i { b } else { b - 1 };
                    assert(manifest_ids(before)[fb] == manifest_ids(after)[b]);
                } else {
                    let fa = if a < i { a } else { a - 1 };
                    assert(manifest_ids(before)[fa] == manifest_ids(after)[a]);
                }
            }
            assert forall|j: int| 0 <= j < after.len() implies (#[trigger] after[j]).wf() by {
                if j < i {
                    assert(after[j] == before[j]);
                } else if j > i {
                    assert(after[j] == before[j - 1]);
                }
            }
            assert(manifest_ids(after).to_set() =~= manifest_ids(before).to_set().insert(key)) by {
                assert forall|x: Seq<char>| manifest_ids(after).to_set().contains(x)
                    implies manifest_ids(before).to_set().insert(key).contains(x) by {
                    let k = choose|k: int| 0 <= k < manifest_ids(after).len() && manifest_ids(after)[k] == x;
                    if k < i {
                        assert(manifest_ids(before)[k] == x);
                    } else if k > i {
                        assert(manifest_ids(before)[k - 1] == x);
                    }
                }
                assert forall|x: Seq<char>| manifest_ids(before).to_set().insert(key).contains(x)
                    implies manifest_ids(after).to_set().contains(x) by {
                    if x == key {
                        assert(manifest_ids(after)[i as int] == x);
                    } else {
                        let k = choose|k: int| 0 <= k < manifest_ids(before).len() && manifest_ids(before)[k] == x;
                        if k < i {
                            assert(manifest_ids(after)[k] == x);
                        } else {
                            assert(manifest_ids(after)[k + 1] == x);
                        }
                    }
                }
            }
            lemma_manifest_of(after, i as int);
            assert forall|k: Seq<char>| #[trigger] registered(before, k) implies manifest_of(after, k) == manifest_of(before, k) by {
                let j = choose|j: int| 0 <= j < manifest_ids(before).len() && manifest_ids(before)[j] == k;
                lemma_manifest_of(before, j);
                let aj = if j < i { j } else { j + 1 };
                assert(after[aj] == before[j]);
                lemma_manifest_of(after, aj);
            }
        }
        Ok(())
    }

    /// Returns a registered feature manifest.
    pub fn manifest(&self, id: &FeatureId) -> (r: Option<&FeatureManifest>)
        requires
            self.wf(),
        ensures
            registered(self.spec_manifests(), id@) ==> r == Some(&manifest_of(self.spec_manifests(), id@)),
            !registered(self.spec_manifests(), id@) ==> r is None,
    {
        match find_manifest(&self.manifests, id) {
            Some(i) => Some(&self.manifests[i]),
            None => None,
        }
    }
}

impl Default for FeatureRegistry {
    fn default() -> (r: Self)
        ensures
            r.wf(),
            r.spec_manifests().len() == 0,
    {
        FeatureRegistry::new()
    }
}

/* ---------------------------------------------------------------------------------------- */
/* Selection and result                                                                     */
/* ---------------------------------------------------------------------------------------- */

/// The (service, provider) views of a provider binding list.
pub open spec fn pair_keys(pv: Seq<(ServiceId, FeatureId)>) -> Seq<Seq<char>> {
    pv.map_values(|p: (ServiceId, FeatureId)| p.0@)
}

/// The position of a binding of service `s` (meaningful when `s` is bound).
pub open spec fn binding_index(pv: Seq<(ServiceId, FeatureId)>, s: Seq<char>) -> int {
    choose|i: int| 0 <= i < pv.len() && pv[i].0@ == s
}

/// The provider bound to service `s`, if any.
pub open spec fn provider_of(pv: Seq<(ServiceId, FeatureId)>, s: Seq<char>) -> Option<Seq<char>> {
    if pair_keys(pv).contains(s) {
        Some(pv[binding_index(pv, s)].1@)
    } else {
        None
    }
}

/// With distinct services, the provider of `pv[i]`'s service is `pv[i]`'s provider.
pub proof fn lemma_provider_of(pv: Seq<(ServiceId, FeatureId)>, i: int)
    requires
        pair_keys(pv).no_duplicates(),
        0 <= i < pv.len(),
    ensures
        provider_of(pv, pv[i].0@) == Some(pv[i].1@),
{
    let s = pv[i].0@;
    assert(pair_keys(pv)[i] == s);
    let j = binding_index(pv, s);
    assert(pair_keys(pv)[j] == s);
    assert(j == i);
}

/// Finds the binding of a service.
fn find_provider(pv: &Vec<(ServiceId, FeatureId)>, service: &ServiceId) -> (r: Option<usize>)
    requires
        pair_keys(pv@).no_duplicates(),
    ensures
        r matches Some(i) ==> i < pv@.len() && pv@[i as int].0@ == service@ && provider_of(pv@, service@) == Some(pv@[i as int].1@),
        r is None <==> provider_of(pv@, service@) is None,
{
    let mut i: usize = 0;
    while i < pv.len()
        invariant
            0 <= i <= pv@.len(),
            pair_keys(pv@).no_duplicates(),
            forall|j: int| 0 <= j < i ==> (#[trigger] pv@[j]).0@ != service@,
        decreases pv@.len() - i,
    {
        if pv[i].0.same(service) {
            proof {
                lemma_provider_of(pv@, i as int);
            }
            return Some(i);
        }
        i = i + 1;
    }
    proof {
        if pair_keys(pv@).contains(service@) {
            let k = choose|k: int| 0 <= k < pair_keys(pv@).len() && pair_keys(pv@)[k] == service@;
            assert(pv@[k].0@ == service@);
        }
    }
    None
}

/// Copies a provider binding list.
fn copy_bindings(pv: &Vec<(ServiceId, FeatureId)>) -> (r: Vec<(ServiceId, FeatureId)>)
    ensures
        r@.len() == pv@.len(),
        forall|i: int| 0 <= i < pv@.len() ==> (#[trigger] r@[i]).0@ == pv@[i].0@ && r@[i].1@ == pv@[i].1@,
        pair_keys(r@) == pair_keys(pv@),
{
    let mut out: Vec<(ServiceId, FeatureId)> = Vec::new();
    let mut i: usize = 0;
    while i < pv.len()
        invariant
            0 <= i <= pv@.len(),
            out@.len() == i,
            forall|j: int| 0 <= j < i ==> (#[trigger] out@[j]).0@ == pv@[j].0@ && out@[j].1@ == pv@[j].1@,
        decreases pv@.len() - i,
    {
        out.push((pv[i].0.duplicate(), pv[i].1.duplicate()));
        i = i + 1;
    }
    assert(pair_keys(out@) =~= pair_keys(pv@));
    out
}

/// Binds `service` to `provider`, replacing an earlier binding of the same service.
fn bind_provider(pv: &mut Vec<(ServiceId, FeatureId)>, service: ServiceId, provider: FeatureId)
    requires
        pair_keys(old(pv)@).no_duplicates(),
    ensures
        pair_keys(final(pv)@).no_duplicates(),
        pair_keys(final(pv)@).to_set() == pair_keys(old(pv)@).to_set().insert(service@),
        provider_of(final(pv)@, service@) == Some(provider@),
        forall|t: Seq<char>| t != service@ ==> #[trigger] provider_of(final(pv)@, t) == provider_of(old(pv)@, t),
        forall|i: int| 0 <= i < final(pv)@.len() ==> ((#[trigger] final(pv)@[i]).1@ == provider@ && final(pv)@[i].0@ == service@)
            || exists|j: int| 0 <= j < old(pv)@.len() && old(pv)@[j].1@ == final(pv)@[i].1@ && old(pv)@[j].0@ == final(pv)@[i].0@,
{
    let ghost before = pv@;
    let ghost sv = service@;
    let ghost p = provider@;
    match find_provider(pv, &service) {
        Some(i) => {
            pv.set(i, (service, provider));
            proof {
                let after = pv@;
                assert(pair_keys(after) =~= pair_keys(before));
                lemma_provider_of(after, i as int);
                assert forall|t: Seq<char>| t != sv implies #[trigger] provider_of(after, t) == provider_of(before, t) by {
                    if pair_keys(before).contains(t) {
                        let j = choose|j: int| 0 <= j < pair_keys(before).len() && pair_keys(before)[j] == t;
                        lemma_provider_of(before, j);
                        assert(j != i);
                        assert(after[j] == before[j]);
                        lemma_provider_of(after, j);
                    } else {
                        assert(!pair_keys(after).contains(t));
                    }
                }
                assert forall|k: int| 0 <= k < after.len() implies ((#[trigger] after[k]).1@ == p && after[k].0@ == sv)
                    || exists|j: int| 0 <= j < before.len() && before[j].1@ == after[k].1@ && before[j].0@ == after[k].0@ by {
                    if k != i {
                        assert(before[k] == after[k]);
                    }
                }
            }
        },
        None => {
            let mut i: usize = 0;
            while i < pv.len()
                invariant
                    0 <= i <= pv@.len(),
                    pv@ == before,
                decreases pv@.len() - i,
            {
                if service.precedes(&pv[i].0) {
                    break;
                }
                i = i + 1;
            }
            pv.insert(i, (service, provider));
            proof {
                let after = pv@;
                let n = before.len() as int;
                let ii = i as int;
                assert(after.len() == n + 1);
                assert forall|k: int| 0 <= k < ii implies #[trigger] after[k] == before[k] by {}
                assert forall|k: int| ii < k <= n implies #[trigger] after[k] == before[k - 1] by {}
                assert(after[ii].0@ == sv && after[ii].1@ == p);
                assert(forall|k: int| 0 <= k < n ==> !(#[trigger] pair_keys(before)[k] == sv)) by {
                    assert(!pair_keys(before).contains(sv));
                }
                assert forall|a: int, b: int| 0 <= a < pair_keys(after).len() && 0 <= b < pair_keys(after).len() && a != b
                    implies pair_keys(after)[a] != pair_keys(after)[b] by {
                    let ka = if a < ii { a } else { a - 1 };
                    let kb = if b < ii { b } else { b - 1 };
                    if a != ii && b != ii {
                        assert(pair_keys(after)[a] == pair_keys(before)[ka]);
                        assert(pair_keys(after)[b] == pair_keys(before)[kb]);
                    } else if a == ii {
                        assert(pair_keys(after)[b] == pair_keys(before)[kb]);
                    } else {
                        assert(pair_keys(after)[a] == pair_keys(before)[ka]);
                    }
                }
                assert(pair_keys(after).to_set() =~= pair_keys(before).to_set().insert(sv)) by {
                    assert forall|x: Seq<char>| pair_keys(after).to_set().contains(x)
                        implies pair_keys(before).to_set().insert(sv).contains(x) by {
                        let k = choose|k: int| 0 <= k < pair_keys(after).len() && pair_keys(after)[k] == x;
                        if k < ii {
                            assert(pair_keys(before)[k] == x);
                        } else if k > ii {
                            assert(pair_keys(before)[k - 1] == x);
                        }
                    }
                    assert forall|x: Seq<char>| pair_keys(before).to_set().insert(sv).contains(x)
                        implies pair_keys(after).to_set().contains(x) by {
                        if x == sv {
                            assert(pair_keys(after)[ii] == x);
                        } else {
                            let k = choose|k: int| 0 <= k < pair_keys(before).len() && pair_keys(before)[k] == x;
                            if k < ii {
                                assert(pair_keys(after)[k] == x);
                            } else {
                                assert(pair_keys(after)[k + 1] == x);
                            }
                        }
                    }
                }
                lemma_provider_of(after, ii);
                assert forall|t: Seq<char>| t != sv implies #[trigger] provider_of(after, t) == provider_of(before, t) by {
                    if pair_keys(before).contains(t) {
                        let j = choose|j: int| 0 <= j < pair_keys(before).len() && pair_keys(before)[j] == t;
                        lemma_provider_of(before, j);
                        let jj = if j < ii { j } else { j + 1 };
                        assert(after[jj] == before[j]);
                        lemma_provider_of(after, jj);
                    } else {
                        if pair_keys(after).contains(t) {
                            let k = choose|k: int| 0 <= k < pair_keys(after).len() && pair_keys(after)[k] == t;
                            if k < ii {
                                assert(pair_keys(before)[k] == t);
                            } else if k > ii {
                                assert(pair_keys(before)[k - 1] == t);
                            }
                        }
                    }
                }
                assert forall|k: int| 0 <= k < after.len() implies ((#[trigger] after[k]).1@ == p && after[k].0@ == sv)
                    || exists|j: int| 0 <= j < before.len() && before[j].1@ == after[k].1@ && before[j].0@ == after[k].0@ by {
                    if k < ii {
                        assert(before[k] == after[k]);
                    } else if k > ii {
                        assert(before[k - 1] == after[k]);
                    }
                }
            }
        },
    }
}

/// User and product-profile choices applied to the registered feature graph.
#[derive(Debug)]
pub struct FeatureSelection {
    enabled: Vec<FeatureId>,
    disabled: Vec<FeatureId>,
    preferred_providers: Vec<(ServiceId, FeatureId)>,
}

impl FeatureSelection {
    /// Explicitly enabled features.
    pub closed spec fn spec_enabled(&self) -> Seq<Seq<char>> {
        feature_ids(self.enabled@)
    }

    /// Explicitly disabled features.
    pub closed spec fn spec_disabled(&self) -> Seq<Seq<char>> {
        feature_ids(self.disabled@)
    }

    /// Preferred provider bindings.
    pub closed spec fn spec_preferred(&self) -> Seq<(ServiceId, FeatureId)> {
        self.preferred_providers@
    }

    /// Each list holds an identifier once, and no feature is both enabled and disabled.
    pub open spec fn wf(&self) -> bool {
        &&& self.spec_enabled().no_duplicates()
        &&& self.spec_disabled().no_duplicates()
        &&& pair_keys(self.spec_preferred()).no_duplicates()
        &&& forall|k: Seq<char>| #[trigger] self.spec_enabled().contains(k) ==> !self.spec_disabled().contains(k)
    }

    /// Creates an empty selection, meaning "use product defaults".
    pub fn new() -> (s: Self)
        ensures
            s.wf(),
            s.spec_enabled().len() == 0,
            s.spec_disabled().len() == 0,
            s.spec_preferred().len() == 0,
    {
        let s = FeatureSelection { enabled: Vec::new(), disabled: Vec::new(), preferred_providers: Vec::new() };
        assert(s.spec_enabled() =~= Seq::<Seq<char>>::empty());
        assert(s.spec_disabled() =~= Seq::<Seq<char>>::empty());
        assert(pair_keys(s.spec_preferred()) =~= Seq::<Seq<char>>::empty());
        s
    }

    /// Explicitly enables a feature (and withdraws an explicit disable of it).
    pub fn enable(&mut self, id: FeatureId)
        requires
            old(self).wf(),
        ensures
            final(self).wf(),
            final(self).spec_enabled().to_set() == old(self).spec_enabled().to_set().insert(id@),
            final(self).spec_disabled().to_set() == old(self).spec_disabled().to_set().remove(id@),
            final(self).spec_preferred() == old(self).spec_preferred(),
    {
        remove_feature(&mut self.disabled, &id);
        insert_feature(&mut self.enabled, id);
        proof {
            assert forall|k: Seq<char>| #[trigger] self.spec_enabled().contains(k) implies !self.spec_disabled().contains(k) by {
                assert(self.spec_enabled().to_set().contains(k));
                if self.spec_disabled().contains(k) {
                    assert(self.spec_disabled().to_set().contains(k));
                }
            }
        }
    }

    /// Explicitly disables a feature (and withdraws an explicit enable of it).
    pub fn disable(&mut self, id: FeatureId)
        requires
            old(self).wf(),
        ensures
            final(self).wf(),
            final(self).spec_disabled().to_set() == old(self).spec_disabled().to_set().insert(id@),
            final(self).spec_enabled().to_set() == old(self).spec_enabled().to_set().remove(id@),
            final(self).spec_preferred() == old(self).spec_preferred(),
    {
        remove_feature(&mut self.enabled, &id);
        insert_feature(&mut self.disabled, id);
        proof {
            assert forall|k: Seq<char>| #[trigger] self.spec_enabled().contains(k) implies !self.spec_disabled().contains(k) by {
                assert(self.spec_enabled().to_set().contains(k));
                if self.spec_disabled().contains(k) {
                    assert(self.spec_disabled().to_set().contains(k));
                }
            }
        }
    }

    /// Selects one feature as the provider for a replaceable service slot.
    pub fn prefer_provider(&mut self, service: ServiceId, provider: FeatureId)
        requires
            old(self).wf(),
        ensures
            final(self).wf(),
            provider_of(final(self).spec_preferred(), service@) == Some(provider@),
            forall|t: Seq<char>| t != service@ ==> #[trigger] provider_of(final(self).spec_preferred(), t)
                == provider_of(old(self).spec_preferred(), t),
            final(self).spec_enabled() == old(self).spec_enabled(),
            final(self).spec_disabled() == old(self).spec_disabled(),
    {
        bind_provider(&mut self.preferred_providers, service, provider);
    }
}

impl Default for FeatureSelection {
    fn default() -> (s: Self)
        ensures
            s.wf(),
            s.spec_enabled().len() == 0,
            s.spec_disabled().len() == 0,
            s.spec_preferred().len() == 0,
    {
        FeatureSelection::new()
    }
}

/// Composition error returned before any feature activation occurs.
#[derive(Clone, Debug, PartialEq, Eq)]
pub enum ResolveError {
    UnknownFeature(FeatureId),
    MissingDependency { feature: FeatureId, dependency: FeatureId },
    DependencyDisabled { feature: FeatureId, dependency: FeatureId },
    UnknownConflictTarget { feature: FeatureId, conflict: FeatureId },
    Conflict { first: FeatureId, second: FeatureId },
    PreferredProviderDisabled { service: ServiceId, provider: FeatureId },
    PreferredProviderDoesNotProvide { service: ServiceId, provider: FeatureId },
    MissingService { feature: FeatureId, service: ServiceId },
    AmbiguousService { service: ServiceId, providers: Vec<FeatureId> },
    DependencyCycle(Vec<FeatureId>),
}

/// One feature id as `{:?}` shows it: `FeatureId("…")` (identifiers need no escaping).
pub open spec fn debug_feature_item(id: Seq<char>) -> Seq<char> {
    "FeatureId(\""@ + id + "\")"@
}

/// Feature ids as `{:?}` lists them inside the brackets, separated by `, `.
pub open spec fn debug_feature_items(ids: Seq<Seq<char>>) -> Seq<char>
    decreases ids.len(),
{
    if ids.len() == 0 {
        Seq::empty()
    } else if ids.len() == 1 {
        debug_feature_item(ids[0])
    } else {
        debug_feature_items(ids.drop_last()) + ", "@ + debug_feature_item(ids.last())
    }
}

/// A list of feature ids as `{:?}` shows it.
pub open spec fn debug_feature_list(ids: Seq<Seq<char>>) -> Seq<char> {
    "["@ + debug_feature_items(ids) + "]"@
}

/// The diagnostic text of a resolution error.
pub open spec fn resolve_error_text(e: ResolveError) -> Seq<char> {
    match e {
        ResolveError::UnknownFeature(id) => "unknown feature "@ + id@,
        ResolveError::MissingDependency { feature, dependency } =>
            "feature "@ + feature@ + " depends on unregistered feature "@ + dependency@,
        ResolveError::DependencyDisabled { feature, dependency } =>
            "feature "@ + feature@ + " requires explicitly disabled feature "@ + dependency@,
        ResolveError::UnknownConflictTarget { feature, conflict } =>
            "feature "@ + feature@ + " conflicts with unregistered feature "@ + conflict@,
        ResolveError::Conflict { first, second } => "features "@ + first@ + " and "@ + second@ + " cannot both be active"@,
        ResolveError::PreferredProviderDisabled { service, provider } =>
            "preferred provider "@ + provider@ + " for service "@ + service@ + " is explicitly disabled"@,
        ResolveError::PreferredProviderDoesNotProvide { service, provider } =>
            "feature "@ + provider@ + " was selected for service "@ + service@ + " but does not provide it"@,
        ResolveError::MissingService { feature, service } =>
            "feature "@ + feature@ + " requires service "@ + service@ + " with no active provider"@,
        ResolveError::AmbiguousService { service, providers } =>
            "service "@ + service@ + " has multiple active providers and no preference: "@ + debug_feature_list(feature_ids(providers@)),
        ResolveError::DependencyCycle(cycle) =>
            "feature activation contains a dependency cycle: "@ + debug_feature_list(feature_ids(cycle@)),
    }
}

/// Appends feature ids as `{:?}` lists them.
fn push_feature_list(m: &mut String, ids: &[FeatureId])
    ensures
        final(m)@ == old(m)@ + debug_feature_list(feature_ids(ids@)),
{
    let ghost start = m@;
    push_text(m, "[");
    let mut i: usize = 0;
    while i < ids.len()
        invariant
            0 <= i <= ids@.len(),
            m@ == start + "["@ + debug_feature_items(feature_ids(ids@.subrange(0, i as int))),
        decreases ids@.len() - i,
    {
        let ghost before = m@;
        if i > 0 {
            push_text(m, ", ");
        }
        push_text(m, "FeatureId(\"");
        push_text(m, ids[i].as_str());
        push_text(m, "\")");
        proof {
            let prefix = feature_ids(ids@.subrange(0, i as int + 1));
            assert(prefix.drop_last() =~= feature_ids(ids@.subrange(0, i as int)));
            assert(prefix.last() == ids@[i as int]@);
            if i == 0 {
                assert(prefix.len() == 1);
                assert(prefix[0] == ids@[0]@);
                assert(feature_ids(ids@.subrange(0, 0)) =~= Seq::<Seq<char>>::empty());
            }
            assert(m@ =~= start + "["@ + debug_feature_items(prefix));
        }
        i = i + 1;
    }
    push_text(m, "]");
    proof {
        assert(ids@.subrange(0, ids@.len() as int) =~= ids@);
        assert(m@ =~= start + debug_feature_list(feature_ids(ids@)));
    }
}

impl ResolveError {
    /// The diagnostic text of the error.
    pub fn message(&self) -> (m: String)
        ensures
            m@ == resolve_error_text(*self),
    {
        let mut m = String::new();
        match self {
            ResolveError::UnknownFeature(id) => {
                push_text(&mut m, "unknown feature ");
                push_text(&mut m, id.as_str());
            },
            ResolveError::MissingDependency { feature, dependency } => {
                push_text(&mut m, "feature ");
                push_text(&mut m, feature.as_str());
                push_text(&mut m, " depends on unregistered feature ");
                push_text(&mut m, dependency.as_str());
            },
            ResolveError::DependencyDisabled { feature, dependency } => {
                push_text(&mut m, "feature ");
                push_text(&mut m, feature.as_str());
                push_text(&mut m, " requires explicitly disabled feature ");
                push_text(&mut m, dependency.as_str());
            },
            ResolveError::UnknownConflictTarget { feature, conflict } => {
                push_text(&mut m, "feature ");
                push_text(&mut m, feature.as_str());
                push_text(&mut m, " conflicts with unregistered feature ");
                push_text(&mut m, conflict.as_str());
            },
            ResolveError::Conflict { first, second } => {
                push_text(&mut m, "features ");
                push_text(&mut m, first.as_str());
                push_text(&mut m, " and ");
                push_text(&mut m, second.as_str());
                push_text(&mut m, " cannot both be active");
            },
            ResolveError::PreferredProviderDisabled { service, provider } => {
                push_text(&mut m, "preferred provider ");
                push_text(&mut m, provider.as_str());
                push_text(&mut m, " for service ");
                push_text(&mut m, service.as_str());
                push_text(&mut m, " is explicitly disabled");
            },
            ResolveError::PreferredProviderDoesNotProvide { service, provider } => {
                push_text(&mut m, "feature ");
                push_text(&mut m, provider.as_str());
                push_text(&mut m, " was selected for service ");
                push_text(&mut m, service.as_str());
                push_text(&mut m, " but does not provide it");
            },
            ResolveError::MissingService { feature, service } => {
                push_text(&mut m, "feature ");
                push_text(&mut m, feature.as_str());
                push_text(&mut m, " requires service ");
                push_text(&mut m, service.as_str());
                push_text(&mut m, " with no active provider");
            },
            ResolveError::AmbiguousService { service, providers } => {
                push_text(&mut m, "service ");
                push_text(&mut m, service.as_str());
                push_text(&mut m, " has multiple active providers and no preference: ");
                push_feature_list(&mut m, providers.as_slice());
            },
            ResolveError::DependencyCycle(cycle) => {
                push_text(&mut m, "feature activation contains a dependency cycle: ");
                push_feature_list(&mut m, cycle.as_slice());
            },
        }
        proof {
            assert(m@ =~= resolve_error_text(*self));
        }
        m
    }
}

/// Fully validated activation plan for one product profile.
#[derive(Debug)]
pub struct ResolvedFeatures {
    enabled: Vec<FeatureId>,
    providers: Vec<(ServiceId, FeatureId)>,
    activation_order: Vec<FeatureId>,
}

impl ResolvedFeatures {
    /// Each service is bound once.
    #[verifier::type_invariant]
    spec fn bindings_unique(&self) -> bool {
        pair_keys(self.providers@).no_duplicates()
    }

    /// Active features.
    pub closed spec fn spec_enabled(&self) -> Seq<Seq<char>> {
        feature_ids(self.enabled@)
    }

    /// Service bindings.
    pub closed spec fn spec_providers(&self) -> Seq<(ServiceId, FeatureId)> {
        self.providers@
    }

    /// Activation order.
    pub closed spec fn spec_order(&self) -> Seq<Seq<char>> {
        feature_ids(self.activation_order@)
    }

    /// Returns whether a feature is active.
    pub fn is_enabled(&self, id: &FeatureId) -> (b: bool)
        ensures
            b == self.spec_enabled().contains(id@),
    {
        contains_feature(self.enabled.as_slice(), id)
    }

    /// Returns the bound provider for a replaceable service, when one was needed or selected.
    pub fn provider(&self, service: &ServiceId) -> (r: Option<&FeatureId>)
        ensures
            match provider_of(self.spec_providers(), service@) {
                Some(p) => r matches Some(f) && f@ == p,
                None => r is None,
            },
    {
        proof {
            use_type_invariant(self);
        }
        match find_provider(&self.providers, service) {
            Some(i) => Some(&self.providers[i].1),
            None => None,
        }
    }

    /// Provider- and dependency-before-consumer activation order.
    pub fn activation_order(&self) -> (o: &[FeatureId])
        ensures
            feature_ids(o@) == self.spec_order(),
    {
        self.activation_order.as_slice()
    }

    /// A copy of this plan.
    pub fn duplicate(&self) -> (r: Self)
        ensures
            r.spec_enabled() == self.spec_enabled(),
            r.spec_order() == self.spec_order(),
            pair_keys(r.spec_providers()) == pair_keys(self.spec_providers()),
            forall|s: Seq<char>| #[trigger] provider_of(r.spec_providers(), s) == provider_of(self.spec_providers(), s),
    {
        proof {
            use_type_invariant(self);
        }
        let providers = copy_bindings(&self.providers);
        proof {
            assert forall|s: Seq<char>| #[trigger] provider_of(providers@, s) == provider_of(self.providers@, s) by {
                if pair_keys(self.providers@).contains(s) {
                    let i = binding_index(self.providers@, s);
                    lemma_provider_of(self.providers@, i);
                    lemma_provider_of(providers@, i);
                }
            }
        }
        ResolvedFeatures {
            enabled: copy_features(self.enabled.as_slice()),
            providers,
            activation_order: copy_features(self.activation_order.as_slice()),
        }
    }

    /// Number of active features.
    pub fn len(&self) -> (n: usize)
        ensures
            n == self.spec_enabled().len(),
    {
        self.enabled.len()
    }

    /// Returns whether no features are active.
    pub fn is_empty(&self) -> (b: bool)
        ensures
            b == (self.spec_enabled().len() == 0),
    {
        self.enabled.len() == 0
    }
}

/* ---------------------------------------------------------------------------------------- */
/* Activation order                                                                         */
/* ---------------------------------------------------------------------------------------- */

/// `b` must be active before the feature with manifest `m`: an enabled dependency, or the
/// provider bound to one of its required services (other than itself).
pub open spec fn prereq_of(m: FeatureManifest, en: Seq<Seq<char>>, pv: Seq<(ServiceId, FeatureId)>, b: Seq<char>) -> bool {
    ||| (m.spec_dependencies().contains(b) && en.contains(b))
    ||| (exists|s: Seq<char>| #[trigger] m.spec_requires().contains(s) && provider_of(pv, s) == Some(b) && b != m.spec_id())
}

/// `b` must be active before feature `a`.
pub open spec fn prerequisite(ms: Seq<FeatureManifest>, en: Seq<Seq<char>>, pv: Seq<(ServiceId, FeatureId)>, a: Seq<char>, b: Seq<char>) -> bool {
    prereq_of(manifest_of(ms, a), en, pv, b)
}

/// Every prerequisite of each feature in `order` occurs earlier in `order`.
pub open spec fn topological(ms: Seq<FeatureManifest>, en: Seq<Seq<char>>, pv: Seq<(ServiceId, FeatureId)>, order: Seq<Seq<char>>) -> bool {
    forall|k: int, b: Seq<char>| 0 <= k < order.len() && #[trigger] prerequisite(ms, en, pv, order[k], b)
        ==> exists|j: int| 0 <= j < k && order[j] == b
}

/// `c` is a closed chain of prerequisites: each element needs the next, and it ends where it
/// starts.
pub open spec fn is_cycle(ms: Seq<FeatureManifest>, en: Seq<Seq<char>>, pv: Seq<(ServiceId, FeatureId)>, c: Seq<Seq<char>>) -> bool {
    &&& c.len() >= 2
    &&& c[0] == c[c.len() - 1]
    &&& forall|k: int| 0 <= k < c.len() - 1 ==> #[trigger] prerequisite(ms, en, pv, c[k], c[k + 1])
}

/// The activation graph is complete: enabled features are registered and each required
/// service is bound to an enabled provider.
pub open spec fn graph_ready(ms: Seq<FeatureManifest>, en: Seq<Seq<char>>, pv: Seq<(ServiceId, FeatureId)>) -> bool {
    &&& manifests_wf(ms)
    &&& pair_keys(pv).no_duplicates()
    &&& en.no_duplicates()
    &&& forall|a: Seq<char>| #[trigger] en.contains(a) ==> registered(ms, a)
    &&& forall|a: Seq<char>, s: Seq<char>| #[trigger] en.contains(a) && #[trigger] manifest_of(ms, a).spec_requires().contains(s)
        ==> provider_of(pv, s) is Some && en.contains(provider_of(pv, s).unwrap())
}

/// Depth-first search state: 0 unvisited, 1 on the stack, 2 placed in the order.
pub open spec fn dfs_inv(
    ms: Seq<FeatureManifest>,
    en: Seq<Seq<char>>,
    pv: Seq<(ServiceId, FeatureId)>,
    state: Seq<u8>,
    stack: Seq<Seq<char>>,
    order: Seq<Seq<char>>,
) -> bool {
    &&& state.len() == ms.len()
    &&& forall|i: int| 0 <= i < ms.len() ==> {
        &&& #[trigger] state[i] <= 2
        &&& (state[i] == 2 <==> order.contains(ms[i].spec_id()))
        &&& (state[i] == 1 <==> stack.contains(ms[i].spec_id()))
    }
    &&& order.no_duplicates()
    &&& stack.no_duplicates()
    &&& forall|x: Seq<char>| #[trigger] order.contains(x) ==> en.contains(x)
    &&& forall|x: Seq<char>| #[trigger] stack.contains(x) ==> en.contains(x)
    &&& topological(ms, en, pv, order)
    &&& forall|k: int| 0 <= k < stack.len() - 1 ==> #[trigger] prerequisite(ms, en, pv, stack[k], stack[k + 1])
}

/// Number of unvisited nodes.
pub open spec fn count_unvisited(s: Seq<u8>) -> nat
    decreases s.len(),
{
    if s.len() == 0 {
        0
    } else {
        count_unvisited(s.drop_last()) + (if s.last() == 0 { 1nat } else { 0nat })
    }
}

proof fn lemma_count_mono(a: Seq<u8>, b: Seq<u8>)
    requires
        a.len() == b.len(),
        forall|i: int| 0 <= i < a.len() && #[trigger] b[i] == 0 ==> a[i] == 0,
    ensures
        count_unvisited(b) <= count_unvisited(a),
    decreases a.len(),
{
    if a.len() > 0 {
        assert forall|i: int| 0 <= i < a.len() - 1 && #[trigger] b.drop_last()[i] == 0 implies a.drop_last()[i] == 0 by {
            assert(b[i] == 0);
        }
        lemma_count_mono(a.drop_last(), b.drop_last());
        assert(b.last() == 0 ==> a.last() == 0) by {
            if b.last() == 0 {
                assert(b[b.len() - 1] == 0);
            }
        }
    }
}

proof fn lemma_count_mark(a: Seq<u8>, i: int, v: u8)
    requires
        0 <= i < a.len(),
        a[i] == 0,
        v != 0,
    ensures
        count_unvisited(a.update(i, v)) + 1 == count_unvisited(a),
    decreases a.len(),
{
    if i == a.len() - 1 {
        assert(a.update(i, v).drop_last() =~= a.drop_last());
    } else {
        assert(a.update(i, v).drop_last() =~= a.drop_last().update(i, v));
        lemma_count_mark(a.drop_last(), i, v);
    }
}

proof fn lemma_insert_contains(before: Seq<Seq<char>>, after: Seq<Seq<char>>, x: Seq<char>, b: Seq<char>)
    requires
        after.to_set() == before.to_set().insert(x),
    ensures
        after.contains(b) <==> (before.contains(b) || b == x),
{
    assert(after.to_set().contains(b) == after.contains(b));
    assert(before.to_set().contains(b) == before.contains(b));
}

/// The prerequisites of the feature with manifest `m`, each once.
fn prerequisites(m: &FeatureManifest, enabled: &Vec<FeatureId>, providers: &Vec<(ServiceId, FeatureId)>) -> (r: Vec<FeatureId>)
    requires
        m.wf(),
        pair_keys(providers@).no_duplicates(),
        forall|s: Seq<char>| #[trigger] m.spec_requires().contains(s) ==> provider_of(providers@, s) is Some,
    ensures
        feature_ids(r@).no_duplicates(),
        forall|b: Seq<char>| #[trigger] feature_ids(r@).contains(b) <==> prereq_of(*m, feature_ids(enabled@), providers@, b),
{
    let ghost en = feature_ids(enabled@);
    let ghost pv = providers@;
    let mut out: Vec<FeatureId> = Vec::new();
    assert(feature_ids(out@) =~= Seq::<Seq<char>>::empty());
    let deps = m.dependencies();
    let mut i: usize = 0;
    while i < deps.len()
        invariant
            0 <= i <= deps@.len(),
            feature_ids(deps@) == m.spec_dependencies(),
            en == feature_ids(enabled@),
            feature_ids(out@).no_duplicates(),
            forall|b: Seq<char>| #[trigger] feature_ids(out@).contains(b) <==>
                (exists|k: int| 0 <= k < i && feature_ids(deps@)[k] == b) && en.contains(b),
        decreases deps@.len() - i,
    {
        let ghost d = feature_ids(deps@)[i as int];
        assert(d == deps@[i as int]@);
        if contains_feature(enabled.as_slice(), &deps[i]) {
            let ghost before = feature_ids(out@);
            insert_feature(&mut out, deps[i].duplicate());
            proof {
                assert forall|b: Seq<char>| #[trigger] feature_ids(out@).contains(b) <==>
                    (exists|k: int| 0 <= k < i + 1 && feature_ids(deps@)[k] == b) && en.contains(b) by {
                    lemma_insert_contains(before, feature_ids(out@), d, b);
                    if exists|k: int| 0 <= k < i + 1 && feature_ids(deps@)[k] == b {
                        let k = choose|k: int| 0 <= k < i + 1 && feature_ids(deps@)[k] == b;
                        if k < i {
                            assert(exists|k2: int| 0 <= k2 < i && feature_ids(deps@)[k2] == b);
                        }
                    }
                    if before.contains(b) {
                        let k = choose|k: int| 0 <= k < i && feature_ids(deps@)[k] == b;
                        assert(0 <= k < i + 1 && feature_ids(deps@)[k] == b);
                    }
                }
            }
        } else {
            proof {
                assert forall|b: Seq<char>| #[trigger] feature_ids(out@).contains(b) <==>
                    (exists|k: int| 0 <= k < i + 1 && feature_ids(deps@)[k] == b) && en.contains(b) by {
                    if (exists|k: int| 0 <= k < i + 1 && feature_ids(deps@)[k] == b) && en.contains(b) {
                        let k = choose|k: int| 0 <= k < i + 1 && feature_ids(deps@)[k] == b;
                        if k < i {
                            assert(exists|k2: int| 0 <= k2 < i && feature_ids(deps@)[k2] == b);
                        }
                    }
                    if feature_ids(out@).contains(b) {
                        let k = choose|k: int| 0 <= k < i && feature_ids(deps@)[k] == b;
                        assert(0 <= k < i + 1 && feature_ids(deps@)[k] == b);
                    }
                }
            }
        }
        i = i + 1;
    }
    let reqs = m.required_services();
    let mut j: usize = 0;
    while j < reqs.len()
        invariant
            0 <= j <= reqs@.len(),
            feature_ids(deps@) == m.spec_dependencies(),
            service_ids(reqs@) == m.spec_requires(),
            pair_keys(providers@).no_duplicates(),
            pv == providers@,
            en == feature_ids(enabled@),
            forall|s: Seq<char>| #[trigger] m.spec_requires().contains(s) ==> provider_of(providers@, s) is Some,
            feature_ids(out@).no_duplicates(),
            forall|b: Seq<char>| #[trigger] feature_ids(out@).contains(b) <==>
                ((m.spec_dependencies().contains(b) && en.contains(b))
                || (exists|k: int| 0 <= k < j && provider_of(pv, service_ids(reqs@)[k]) == Some(b) && b != m.spec_id())),
        decreases reqs@.len() - j,
    {
        proof {
            assert(service_ids(reqs@)[j as int] == reqs@[j as int]@);
            assert(m.spec_requires().contains(reqs@[j as int]@));
        }
        let pi = match find_provider(providers, &reqs[j]) {
            Some(pi) => pi,
            None => {
                proof {
                    assert(false);
                }
                return out;
            },
        };
        let provider = &providers[pi].1;
        if !provider.same(m.id()) {
            let ghost before = feature_ids(out@);
            insert_feature(&mut out, provider.duplicate());
            proof {
                assert forall|b: Seq<char>| #[trigger] feature_ids(out@).contains(b) <==>
                    ((m.spec_dependencies().contains(b) && en.contains(b))
                    || (exists|k: int| 0 <= k < j + 1 && provider_of(pv, service_ids(reqs@)[k]) == Some(b) && b != m.spec_id())) by {
                    lemma_insert_contains(before, feature_ids(out@), provider@, b);
                    if (exists|k: int| 0 <= k < j + 1 && provider_of(pv, service_ids(reqs@)[k]) == Some(b) && b != m.spec_id()) {
                        let k = choose|k: int| 0 <= k < j + 1 && provider_of(pv, service_ids(reqs@)[k]) == Some(b) && b != m.spec_id();
                        if k < j {
                            assert(before.contains(b));
                        }
                    }
                }
            }
        } else {
            proof {
                assert forall|b: Seq<char>| #[trigger] feature_ids(out@).contains(b) <==>
                    ((m.spec_dependencies().contains(b) && en.contains(b))
                    || (exists|k: int| 0 <= k < j + 1 && provider_of(pv, service_ids(reqs@)[k]) == Some(b) && b != m.spec_id())) by {
                    if (exists|k: int| 0 <= k < j + 1 && provider_of(pv, service_ids(reqs@)[k]) == Some(b) && b != m.spec_id()) {
                        let k = choose|k: int| 0 <= k < j + 1 && provider_of(pv, service_ids(reqs@)[k]) == Some(b) && b != m.spec_id();
                        if k == j {
                            assert(b == m.spec_id());
                        }
                    }
                }
            }
        }
        j = j + 1;
    }
    proof {
        assert forall|b: Seq<char>| #[trigger] feature_ids(out@).contains(b) <==> prereq_of(*m, en, pv, b) by {
            if exists|s: Seq<char>| #[trigger] m.spec_requires().contains(s) && provider_of(pv, s) == Some(b) && b != m.spec_id() {
                let s = choose|s: Seq<char>| #[trigger] m.spec_requires().contains(s) && provider_of(pv, s) == Some(b) && b != m.spec_id();
                let k = choose|k: int| 0 <= k < service_ids(reqs@).len() && service_ids(reqs@)[k] == s;
                assert(provider_of(pv, service_ids(reqs@)[k]) == Some(b));
            }
            if exists|k: int| 0 <= k < reqs@.len() && provider_of(pv, service_ids(reqs@)[k]) == Some(b) && b != m.spec_id() {
                let k = choose|k: int| 0 <= k < reqs@.len() && provider_of(pv, service_ids(reqs@)[k]) == Some(b) && b != m.spec_id();
                assert(m.spec_requires().contains(service_ids(reqs@)[k]));
            }
        }
    }
    out
}

/// Places feature `ms[idx]` and, first, everything it needs into `order`, depth first in
/// identifier order; reports a prerequisite cycle when it meets a feature already on `stack`.
fn visit(
    ms: &Vec<FeatureManifest>,
    enabled: &Vec<FeatureId>,
    providers: &Vec<(ServiceId, FeatureId)>,
    idx: usize,
    state: &mut Vec<u8>,
    stack: &mut Vec<FeatureId>,
    order: &mut Vec<FeatureId>,
) -> (r: Result<(), ResolveError>)
    requires
        graph_ready(ms@, feature_ids(enabled@), providers@),
        dfs_inv(ms@, feature_ids(enabled@), providers@, old(state)@, feature_ids(old(stack)@), feature_ids(old(order)@)),
        idx < ms@.len(),
        feature_ids(enabled@).contains(ms@[idx as int].spec_id()),
        old(stack)@.len() > 0 ==> prerequisite(ms@, feature_ids(enabled@), providers@,
            feature_ids(old(stack)@)[old(stack)@.len() - 1], ms@[idx as int].spec_id()),
    ensures
        r is Ok ==> {
            &&& dfs_inv(ms@, feature_ids(enabled@), providers@, final(state)@, feature_ids(final(stack)@), feature_ids(final(order)@))
            &&& feature_ids(final(stack)@) == feature_ids(old(stack)@)
            &&& final(state)@[idx as int] == 2
            &&& feature_ids(old(order)@).len() <= feature_ids(final(order)@).len()
            &&& feature_ids(final(order)@).subrange(0, old(order)@.len() as int) == feature_ids(old(order)@)
            &&& forall|i: int| 0 <= i < final(state)@.len() && #[trigger] final(state)@[i] == 0 ==> old(state)@[i] == 0
        },
        r matches Err(e) ==> (e matches ResolveError::DependencyCycle(c) && is_cycle(ms@, feature_ids(enabled@), providers@, feature_ids(c@))),
    decreases count_unvisited(old(state)@),
{
    let ghost en = feature_ids(enabled@);
    let ghost pv = providers@;
    let ghost m = ms@;
    let mark = state[idx];
    proof {
        lemma_manifest_of(m, idx as int);
    }
    if mark == 2 {
        return Ok(());
    }
    let id = ms[idx].id();
    if mark == 1 {
        let ghost st = feature_ids(stack@);
        assert(st.contains(id@));
        let mut pos: usize = stack.len();
        let mut scan: usize = 0;
        while scan < stack.len()
            invariant
                0 <= scan <= stack@.len(),
                st == feature_ids(stack@),
                st.contains(id@),
                pos <= stack@.len(),
                pos < stack@.len() ==> stack@[pos as int]@ == id@,
                pos == stack@.len() ==> forall|q: int| 0 <= q < scan ==> (#[trigger] stack@[q])@ != id@,
            decreases stack@.len() - scan,
        {
            if pos == stack.len() && stack[scan].same(id) {
                pos = scan;
            }
            scan = scan + 1;
        }
        proof {
            if pos == stack@.len() {
                let q = choose|q: int| 0 <= q < st.len() && st[q] == id@;
                assert(stack@[q]@ == id@);
            }
        }
        let p = pos;
        let mut cycle: Vec<FeatureId> = Vec::new();
        let mut q: usize = p;
        while q < stack.len()
            invariant
                p <= q <= stack@.len(),
                p < stack@.len(),
                cycle@.len() == q - p,
                forall|t: int| 0 <= t < q - p ==> (#[trigger] cycle@[t])@ == stack@[p + t]@,
            decreases stack@.len() - q,
        {
            cycle.push(stack[q].duplicate());
            q = q + 1;
        }
        cycle.push(id.duplicate());
        proof {
            let c = feature_ids(cycle@);
            let n = stack@.len();
            assert(c.len() == n - p + 1);
            assert(c[0] == st[p as int]);
            assert(st[p as int] == id@);
            assert(c[c.len() - 1] == id@);
            assert forall|k: int| 0 <= k < c.len() - 1 implies #[trigger] prerequisite(m, en, pv, c[k], c[k + 1]) by {
                if k < c.len() - 2 {
                    assert(c[k] == st[p + k]);
                    assert(c[k + 1] == st[p + k + 1]);
                    assert(prerequisite(m, en, pv, st[p + k], st[p + k + 1]));
                } else {
                    assert(c[k] == st[n - 1]);
                    assert(c[k + 1] == id@);
                }
            }
        }
        return Err(ResolveError::DependencyCycle(cycle));
    }
    let ghost entry_state = state@;
    let ghost entry_stack = feature_ids(stack@);
    let ghost entry_order = feature_ids(order@);
    state.set(idx, 1);
    stack.push(id.duplicate());
    proof {
        let st = feature_ids(stack@);
        assert(st =~= entry_stack.push(id@));
        assert(!entry_stack.contains(id@));
        lemma_count_mark(entry_state, idx as int, 1);
        assert forall|i: int| 0 <= i < m.len() implies {
            &&& #[trigger] state@[i] <= 2
            &&& (state@[i] == 2 <==> feature_ids(order@).contains(m[i].spec_id()))
            &&& (state@[i] == 1 <==> st.contains(m[i].spec_id()))
        } by {
            if i != idx {
                assert(m[i].spec_id() != id@) by {
                    assert(manifest_ids(m)[i] == m[i].spec_id());
                    assert(manifest_ids(m)[idx as int] == id@);
                }
                assert(st.contains(m[i].spec_id()) <==> entry_stack.contains(m[i].spec_id())) by {
                    if st.contains(m[i].spec_id()) {
                        let k = choose|k: int| 0 <= k < st.len() && st[k] == m[i].spec_id();
                        assert(k < entry_stack.len());
                        assert(entry_stack[k] == m[i].spec_id());
                    }
                    if entry_stack.contains(m[i].spec_id()) {
                        let k = choose|k: int| 0 <= k < entry_stack.len() && entry_stack[k] == m[i].spec_id();
                        assert(st[k] == m[i].spec_id());
                    }
                }
            } else {
                assert(st[st.len() - 1] == id@);
                assert(!entry_order.contains(id@));
            }
        }
        assert forall|x: Seq<char>| #[trigger] st.contains(x) implies en.contains(x) by {
            let k = choose|k: int| 0 <= k < st.len() && st[k] == x;
            if k < entry_stack.len() {
                assert(entry_stack[k] == x);
                assert(entry_stack.contains(x));
            } else {
                assert(st[k] == id@);
            }
        }
        assert forall|a: int, b: int| 0 <= a < st.len() && 0 <= b < st.len() && a != b implies st[a] != st[b] by {
            if a < entry_stack.len() && b < entry_stack.len() {
                assert(entry_stack[a] == st[a]);
                assert(entry_stack[b] == st[b]);
            } else if a < entry_stack.len() {
                assert(entry_stack[a] == st[a]);
            } else {
                assert(entry_stack[b] == st[b]);
            }
        }
        assert forall|k: int| 0 <= k < st.len() - 1 implies #[trigger] prerequisite(m, en, pv, st[k], st[k + 1]) by {
            if k < entry_stack.len() - 1 {
                assert(st[k] == entry_stack[k]);
                assert(st[k + 1] == entry_stack[k + 1]);
            } else {
                assert(st[k] == entry_stack[entry_stack.len() - 1]);
                assert(st[k + 1] == id@);
            }
        }
    }
    let ghost mark_state = state@;
    let ghost pushed_stack = feature_ids(stack@);
    let prereqs = prerequisites(&ms[idx], enabled, providers);
    let mut k: usize = 0;
    while k < prereqs.len()
        invariant
            en == feature_ids(enabled@),
            pv == providers@,
            m == ms@,
            graph_ready(m, en, pv),
            idx < m.len(),
            id@ == m[idx as int].spec_id(),
            manifest_of(m, id@) == m[idx as int],
            en.contains(id@),
            dfs_inv(m, en, pv, state@, feature_ids(stack@), feature_ids(order@)),
            feature_ids(stack@) == pushed_stack,
            pushed_stack.len() > 0,
            pushed_stack[pushed_stack.len() - 1] == id@,
            pushed_stack == entry_stack.push(id@),
            mark_state.len() == entry_state.len(),
            entry_state.len() == m.len(),
            entry_state == old(state)@,
            count_unvisited(mark_state) + 1 == count_unvisited(entry_state),
            mark_state == entry_state.update(idx as int, 1),
            state@[idx as int] == 1,
            forall|i: int| 0 <= i < state@.len() && #[trigger] state@[i] == 0 ==> mark_state[i] == 0,
            entry_order.len() <= feature_ids(order@).len(),
            feature_ids(order@).subrange(0, entry_order.len() as int) == entry_order,
            0 <= k <= prereqs@.len(),
            feature_ids(prereqs@).no_duplicates(),
            forall|b: Seq<char>| #[trigger] feature_ids(prereqs@).contains(b) <==> prereq_of(m[idx as int], en, pv, b),
            forall|t: int| 0 <= t < k ==> feature_ids(order@).contains(#[trigger] feature_ids(prereqs@)[t]),
        decreases prereqs@.len() - k,
    {
        let b = &prereqs[k];
        proof {
            assert(feature_ids(prereqs@)[k as int] == b@);
            assert(feature_ids(prereqs@).contains(b@));
            assert(prereq_of(m[idx as int], en, pv, b@));
            if m[idx as int].spec_dependencies().contains(b@) && en.contains(b@) {
            } else {
                let s = choose|s: Seq<char>| #[trigger] m[idx as int].spec_requires().contains(s) && provider_of(pv, s) == Some(b@) && b@ != m[idx as int].spec_id();
                assert(manifest_of(m, id@).spec_requires().contains(s));
            }
            assert(en.contains(b@));
        }
        let bi = match find_manifest(ms, b) {
            Some(bi) => bi,
            None => {
                proof {
                    assert(false);
                }
                return Ok(());
            },
        };
        proof {
            lemma_count_mono(mark_state, state@);
            assert(count_unvisited(state@) < count_unvisited(entry_state));
        }
        let ghost before_state = state@;
        let ghost before_order = feature_ids(order@);
        match visit(ms, enabled, providers, bi, state, stack, order) {
            Err(e) => {
                return Err(e);
            },
            Ok(()) => {},
        }
        proof {
            let o = feature_ids(order@);
            assert forall|i: int| 0 <= i < state@.len() && #[trigger] state@[i] == 0 implies mark_state[i] == 0 by {
                assert(before_state[i] == 0);
            }
            assert(o.subrange(0, entry_order.len() as int) =~= entry_order) by {
                assert(o.subrange(0, before_order.len() as int) == before_order);
                assert forall|t: int| 0 <= t < entry_order.len() implies o.subrange(0, entry_order.len() as int)[t] == entry_order[t] by {
                    assert(o[t] == o.subrange(0, before_order.len() as int)[t]);
                    assert(before_order[t] == before_order.subrange(0, entry_order.len() as int)[t]);
                }
            }
            assert forall|t: int| 0 <= t < k + 1 implies o.contains(#[trigger] feature_ids(prereqs@)[t]) by {
                if t < k {
                    let j = choose|j: int| 0 <= j < before_order.len() && before_order[j] == feature_ids(prereqs@)[t];
                    assert(o[j] == o.subrange(0, before_order.len() as int)[j]);
                } else {
                    assert(m[bi as int].spec_id() == b@);
                    assert(state@[bi as int] == 2);
                }
            }
        }
        k = k + 1;
    }
    let ghost before_push = feature_ids(order@);
    stack.pop();
    state.set(idx, 2);
    order.push(id.duplicate());
    proof {
        let st = feature_ids(stack@);
        let o = feature_ids(order@);
        assert(st =~= entry_stack) by {
            assert(pushed_stack.drop_last() =~= entry_stack);
        }
        assert(o =~= before_push.push(id@));
        assert(!before_push.contains(id@)) by {
            if before_push.contains(id@) {
                assert(manifest_ids(m)[idx as int] == id@);
            }
        }
        assert forall|i: int| 0 <= i < m.len() implies {
            &&& #[trigger] state@[i] <= 2
            &&& (state@[i] == 2 <==> o.contains(m[i].spec_id()))
            &&& (state@[i] == 1 <==> st.contains(m[i].spec_id()))
        } by {
            if i != idx {
                assert(m[i].spec_id() != id@) by {
                    assert(manifest_ids(m)[i] == m[i].spec_id());
                    assert(manifest_ids(m)[idx as int] == id@);
                }
                assert(o.contains(m[i].spec_id()) <==> before_push.contains(m[i].spec_id())) by {
                    if o.contains(m[i].spec_id()) {
                        let j = choose|j: int| 0 <= j < o.len() && o[j] == m[i].spec_id();
                        assert(j < before_push.len());
                        assert(before_push[j] == m[i].spec_id());
                    }
                    if before_push.contains(m[i].spec_id()) {
                        let j = choose|j: int| 0 <= j < before_push.len() && before_push[j] == m[i].spec_id();
                        assert(o[j] == m[i].spec_id());
                    }
                }
                assert(pushed_stack.contains(m[i].spec_id()) <==> st.contains(m[i].spec_id())) by {
                    if pushed_stack.contains(m[i].spec_id()) {
                        let j = choose|j: int| 0 <= j < pushed_stack.len() && pushed_stack[j] == m[i].spec_id();
                        assert(j < st.len());
                        assert(st[j] == m[i].spec_id());
                    }
                    if st.contains(m[i].spec_id()) {
                        let j = choose|j: int| 0 <= j < st.len() && st[j] == m[i].spec_id();
                        assert(pushed_stack[j] == m[i].spec_id());
                    }
                }
            } else {
                assert(o[o.len() - 1] == id@);
                assert(!entry_stack.contains(id@));
            }
        }
        assert forall|x: Seq<char>| #[trigger] o.contains(x) implies en.contains(x) by {
            let j = choose|j: int| 0 <= j < o.len() && o[j] == x;
            if j < before_push.len() {
                assert(before_push[j] == x);
                assert(before_push.contains(x));
            } else {
                assert(o[j] == id@);
            }
        }
        assert forall|a: int, b: int| 0 <= a < o.len() && 0 <= b < o.len() && a != b implies o[a] != o[b] by {
            if a < before_push.len() && b < before_push.len() {
                assert(before_push[a] == o[a]);
                assert(before_push[b] == o[b]);
            } else if a < before_push.len() {
                assert(before_push[a] == o[a]);
            } else {
                assert(before_push[b] == o[b]);
            }
        }
        assert forall|kk: int, b: Seq<char>| 0 <= kk < o.len() && #[trigger] prerequisite(m, en, pv, o[kk], b)
            implies exists|j: int| 0 <= j < kk && o[j] == b by {
            if kk < before_push.len() {
                assert(o[kk] == before_push[kk]);
                let j = choose|j: int| 0 <= j < kk && before_push[j] == b;
                assert(o[j] == b);
            } else {
                assert(o[kk] == id@);
                assert(feature_ids(prereqs@).contains(b));
                let t = choose|t: int| 0 <= t < feature_ids(prereqs@).len() && feature_ids(prereqs@)[t] == b;
                assert(before_push.contains(feature_ids(prereqs@)[t]));
                let j = choose|j: int| 0 <= j < before_push.len() && before_push[j] == b;
                assert(o[j] == b);
            }
        }
        assert forall|kk: int| 0 <= kk < st.len() - 1 implies #[trigger] prerequisite(m, en, pv, st[kk], st[kk + 1]) by {
            assert(st[kk] == pushed_stack[kk]);
            assert(st[kk + 1] == pushed_stack[kk + 1]);
        }
        assert forall|i: int| 0 <= i < state@.len() && #[trigger] state@[i] == 0 implies entry_state[i] == 0 by {
            if i != idx {
                assert(mark_state[i] == 0);
            }
        }
        assert(o.subrange(0, entry_order.len() as int) =~= entry_order) by {
            assert forall|t: int| 0 <= t < entry_order.len() implies o.subrange(0, entry_order.len() as int)[t] == entry_order[t] by {
                assert(o[t] == before_push[t]);
                assert(before_push[t] == before_push.subrange(0, entry_order.len() as int)[t]);
            }
        }
    }
    Ok(())
}

/// Orders every enabled feature after its prerequisites (depth first, in identifier order),
/// or reports a prerequisite cycle.
fn activation_order(ms: &Vec<FeatureManifest>, enabled: &Vec<FeatureId>, providers: &Vec<(ServiceId, FeatureId)>)
    -> (r: Result<Vec<FeatureId>, ResolveError>)
    requires
        graph_ready(ms@, feature_ids(enabled@), providers@),
    ensures
        r matches Ok(order) ==> {
            &&& feature_ids(order@).no_duplicates()
            &&& feature_ids(order@).to_set() == feature_ids(enabled@).to_set()
            &&& topological(ms@, feature_ids(enabled@), providers@, feature_ids(order@))
        },
        r matches Err(e) ==> (e matches ResolveError::DependencyCycle(c) && is_cycle(ms@, feature_ids(enabled@), providers@, feature_ids(c@))),
{
    let ghost en = feature_ids(enabled@);
    let ghost pv = providers@;
    let mut state: Vec<u8> = Vec::new();
    let mut z: usize = 0;
    while z < ms.len()
        invariant
            0 <= z <= ms@.len(),
            state@.len() == z,
            forall|i: int| 0 <= i < z ==> #[trigger] state@[i] == 0,
        decreases ms@.len() - z,
    {
        state.push(0);
        z = z + 1;
    }
    let mut stack: Vec<FeatureId> = Vec::new();
    let mut order: Vec<FeatureId> = Vec::new();
    proof {
        assert(feature_ids(stack@) =~= Seq::<Seq<char>>::empty());
        assert(feature_ids(order@) =~= Seq::<Seq<char>>::empty());
    }
    let mut i: usize = 0;
    while i < enabled.len()
        invariant
            en == feature_ids(enabled@),
            pv == providers@,
            graph_ready(ms@, en, pv),
            dfs_inv(ms@, en, pv, state@, feature_ids(stack@), feature_ids(order@)),
            stack@.len() == 0,
            0 <= i <= enabled@.len(),
            forall|j: int| 0 <= j < i ==> feature_ids(order@).contains(#[trigger] en[j]),
        decreases enabled@.len() - i,
    {
        proof {
            assert(en[i as int] == enabled@[i as int]@);
            assert(en.contains(en[i as int]));
        }
        let idx = match find_manifest(ms, &enabled[i]) {
            Some(idx) => idx,
            None => {
                proof {
                    assert(false);
                }
                return Ok(order);
            },
        };
        let ghost before = feature_ids(order@);
        match visit(ms, enabled, providers, idx, &mut state, &mut stack, &mut order) {
            Err(e) => {
                return Err(e);
            },
            Ok(()) => {},
        }
        proof {
            let o = feature_ids(order@);
            assert forall|j: int| 0 <= j < i + 1 implies o.contains(#[trigger] en[j]) by {
                if j < i {
                    let t = choose|t: int| 0 <= t < before.len() && before[t] == en[j];
                    assert(o[t] == o.subrange(0, before.len() as int)[t]);
                } else {
                    assert(state@[idx as int] == 2);
                }
            }
        }
        i = i + 1;
    }
    proof {
        let o = feature_ids(order@);
        assert(o.to_set() =~= en.to_set()) by {
            assert forall|x: Seq<char>| o.to_set().contains(x) implies en.to_set().contains(x) by {
                assert(o.contains(x));
            }
            assert forall|x: Seq<char>| en.to_set().contains(x) implies o.to_set().contains(x) by {
                let j = choose|j: int| 0 <= j < en.len() && en[j] == x;
                assert(o.contains(en[j]));
            }
        }
    }
    Ok(order)
}

/* ---------------------------------------------------------------------------------------- */
/* Closure, conflicts and services                                                          */
/* ---------------------------------------------------------------------------------------- */

/// Every dependency of `x` is in `en`.
pub open spec fn deps_closed(ms: Seq<FeatureManifest>, en: Seq<Seq<char>>, x: Seq<char>) -> bool {
    forall|d: Seq<char>| #[trigger] manifest_of(ms, x).spec_dependencies().contains(d) ==> en.contains(d)
}

/// `en` holds every feature of `start` and, with each feature it holds, that feature's
/// dependencies.
pub open spec fn closed_over(ms: Seq<FeatureManifest>, start: Seq<Seq<char>>, en: Seq<Seq<char>>) -> bool {
    &&& forall|x: Seq<char>| #[trigger] start.contains(x) ==> en.contains(x)
    &&& forall|x: Seq<char>| #[trigger] en.contains(x) ==> deps_closed(ms, en, x)
}

/// Every list closed over `start` holds `x`.
pub open spec fn forced_from(ms: Seq<FeatureManifest>, start: Seq<Seq<char>>, x: Seq<char>) -> bool {
    forall|en: Seq<Seq<char>>| #[trigger] closed_over(ms, start, en) ==> en.contains(x)
}

/// The features of `start` are forced from it.
proof fn lemma_forced_start(ms: Seq<FeatureManifest>, start: Seq<Seq<char>>, x: Seq<char>)
    requires
        start.contains(x),
    ensures
        forced_from(ms, start, x),
{
    assert forall|en: Seq<Seq<char>>| #[trigger] closed_over(ms, start, en) implies en.contains(x) by {}
}

/// A dependency of a feature forced from `start` is forced from `start` too.
proof fn lemma_forced_dependency(ms: Seq<FeatureManifest>, start: Seq<Seq<char>>, g: Seq<char>, x: Seq<char>)
    requires
        forced_from(ms, start, g),
        manifest_of(ms, g).spec_dependencies().contains(x),
    ensures
        forced_from(ms, start, x),
{
    assert forall|en: Seq<Seq<char>>| #[trigger] closed_over(ms, start, en) implies en.contains(x) by {
        assert(en.contains(g));
        assert(deps_closed(ms, en, g));
    }
}

/// A duplicate-free list of registered features is no longer than the registry.
proof fn lemma_enabled_bound(ms: Seq<FeatureManifest>, en: Seq<Seq<char>>)
    requires
        en.no_duplicates(),
        forall|x: Seq<char>| #[trigger] en.contains(x) ==> registered(ms, x),
    ensures
        en.len() <= ms.len(),
{
    en.unique_seq_to_set();
    manifest_ids(ms).lemma_cardinality_of_set();
    assert(en.to_set().subset_of(manifest_ids(ms).to_set())) by {
        assert forall|x: Seq<char>| en.to_set().contains(x) implies manifest_ids(ms).to_set().contains(x) by {
            assert(en.contains(x));
        }
    }
    vstd::set_lib::lemma_len_subset(en.to_set(), manifest_ids(ms).to_set());
}

/// Adds every dependency of the enabled features, transitively.
fn close_dependencies(ms: &Vec<FeatureManifest>, enabled: &mut Vec<FeatureId>, disabled: &Vec<FeatureId>) -> (r: Result<(), ResolveError>)
    requires
        manifests_wf(ms@),
        feature_ids(old(enabled)@).no_duplicates(),
        forall|x: Seq<char>| #[trigger] feature_ids(old(enabled)@).contains(x) ==> registered(ms@, x) && !feature_ids(disabled@).contains(x),
    ensures
        r is Ok ==> {
            let en = feature_ids(final(enabled)@);
            &&& en.no_duplicates()
            &&& forall|x: Seq<char>| #[trigger] feature_ids(old(enabled)@).contains(x) ==> en.contains(x)
            &&& forall|x: Seq<char>| #[trigger] en.contains(x) ==> registered(ms@, x) && !feature_ids(disabled@).contains(x)
            &&& forall|x: Seq<char>| #[trigger] en.contains(x) ==> deps_closed(ms@, en, x)
            &&& forall|x: Seq<char>| #[trigger] en.contains(x) ==> feature_ids(old(enabled)@).contains(x)
                || exists|g: Seq<char>| en.contains(g) && #[trigger] manifest_of(ms@, g).spec_dependencies().contains(x)
            &&& forall|x: Seq<char>| #[trigger] en.contains(x) ==> forced_from(ms@, feature_ids(old(enabled)@), x)
        },
        r matches Err(ResolveError::MissingDependency { feature, dependency }) ==> registered(ms@, feature@)
            && manifest_of(ms@, feature@).spec_dependencies().contains(dependency@) && !registered(ms@, dependency@)
            && forced_from(ms@, feature_ids(old(enabled)@), feature@),
        r matches Err(ResolveError::DependencyDisabled { feature, dependency }) ==> registered(ms@, feature@)
            && manifest_of(ms@, feature@).spec_dependencies().contains(dependency@) && feature_ids(disabled@).contains(dependency@)
            && forced_from(ms@, feature_ids(old(enabled)@), feature@),
        r matches Err(e) ==> e is MissingDependency || e is DependencyDisabled,
{
    let ghost start = feature_ids(enabled@);
    let ghost dis = feature_ids(disabled@);
    let mut pending: Vec<FeatureId> = copy_features(enabled.as_slice());
    proof {
        lemma_enabled_bound(ms@, start);
        assert forall|x: Seq<char>| #[trigger] start.contains(x) implies forced_from(ms@, start, x) by {
            lemma_forced_start(ms@, start, x);
        }
    }
    while pending.len() > 0
        invariant
            manifests_wf(ms@),
            start == feature_ids(old(enabled)@),
            dis == feature_ids(disabled@),
            feature_ids(enabled@).no_duplicates(),
            feature_ids(pending@).no_duplicates(),
            enabled@.len() <= ms@.len(),
            forall|x: Seq<char>| #[trigger] start.contains(x) ==> feature_ids(enabled@).contains(x),
            forall|x: Seq<char>| #[trigger] feature_ids(enabled@).contains(x) ==> registered(ms@, x) && !dis.contains(x),
            forall|x: Seq<char>| #[trigger] feature_ids(pending@).contains(x) ==> feature_ids(enabled@).contains(x),
            forall|x: Seq<char>| #[trigger] feature_ids(enabled@).contains(x) ==> feature_ids(pending@).contains(x)
                || deps_closed(ms@, feature_ids(enabled@), x),
            forall|x: Seq<char>| #[trigger] feature_ids(enabled@).contains(x) ==> start.contains(x)
                || exists|g: Seq<char>| feature_ids(enabled@).contains(g) && #[trigger] manifest_of(ms@, g).spec_dependencies().contains(x),
            forall|x: Seq<char>| #[trigger] feature_ids(enabled@).contains(x) ==> forced_from(ms@, start, x),
        decreases ms@.len() - enabled@.len(), pending@.len(),
    {
        let ghost en0 = feature_ids(enabled@);
        let ghost pend0 = feature_ids(pending@);
        let ghost len0 = enabled@.len();
        let id = match pending.pop() {
            Some(id) => id,
            None => {
                return Ok(());
            },
        };
        proof {
            assert(pend0 =~= feature_ids(pending@).push(id@));
            assert(pend0[pend0.len() - 1] == id@);
            assert(!feature_ids(pending@).contains(id@)) by {
                if feature_ids(pending@).contains(id@) {
                    let k = choose|k: int| 0 <= k < feature_ids(pending@).len() && feature_ids(pending@)[k] == id@;
                    assert(pend0[k] == id@);
                }
            }
            assert(feature_ids(pending@).no_duplicates()) by {
                assert forall|a: int, b: int| 0 <= a < feature_ids(pending@).len() && 0 <= b < feature_ids(pending@).len() && a != b
                    implies feature_ids(pending@)[a] != feature_ids(pending@)[b] by {
                    assert(pend0[a] == feature_ids(pending@)[a]);
                    assert(pend0[b] == feature_ids(pending@)[b]);
                }
            }
            assert forall|x: Seq<char>| #[trigger] feature_ids(pending@).contains(x) implies en0.contains(x) by {
                let k = choose|k: int| 0 <= k < feature_ids(pending@).len() && feature_ids(pending@)[k] == x;
                assert(pend0[k] == x);
                assert(pend0.contains(x));
            }
            assert(pend0.contains(id@));
        }
        let mi = match find_manifest(ms, &id) {
            Some(mi) => mi,
            None => {
                proof {
                    assert(false);
                }
                return Ok(());
            },
        };
        let deps = ms[mi].dependencies();
        let mut j: usize = 0;
        while j < deps.len()
            invariant
                manifests_wf(ms@),
                start == feature_ids(old(enabled)@),
                dis == feature_ids(disabled@),
                mi < ms@.len(),
                ms@[mi as int].spec_id() == id@,
                manifest_of(ms@, id@) == ms@[mi as int],
                feature_ids(deps@) == ms@[mi as int].spec_dependencies(),
                0 <= j <= deps@.len(),
                feature_ids(enabled@).no_duplicates(),
                feature_ids(pending@).no_duplicates(),
                enabled@.len() <= ms@.len(),
                feature_ids(enabled@).contains(id@),
                forall|x: Seq<char>| #[trigger] en0.contains(x) ==> feature_ids(enabled@).contains(x),
                forall|x: Seq<char>| #[trigger] start.contains(x) ==> feature_ids(enabled@).contains(x),
                forall|x: Seq<char>| #[trigger] feature_ids(enabled@).contains(x) ==> registered(ms@, x) && !dis.contains(x),
                forall|x: Seq<char>| #[trigger] feature_ids(pending@).contains(x) ==> feature_ids(enabled@).contains(x),
                forall|x: Seq<char>| #[trigger] feature_ids(enabled@).contains(x) ==> x == id@ || feature_ids(pending@).contains(x)
                    || deps_closed(ms@, feature_ids(enabled@), x),
                forall|x: Seq<char>| #[trigger] feature_ids(enabled@).contains(x) ==> start.contains(x)
                    || exists|g: Seq<char>| feature_ids(enabled@).contains(g) && #[trigger] manifest_of(ms@, g).spec_dependencies().contains(x),
                forall|x: Seq<char>| #[trigger] feature_ids(enabled@).contains(x) ==> forced_from(ms@, start, x),
                forall|t: int| 0 <= t < j ==> feature_ids(enabled@).contains(#[trigger] feature_ids(deps@)[t]),
                enabled@.len() > len0 || pending@.len() + 1 == pend0.len(),
                enabled@.len() >= len0,
            decreases deps@.len() - j,
        {
            let dep = &deps[j];
            proof {
                assert(feature_ids(deps@)[j as int] == dep@);
                assert(manifest_of(ms@, id@).spec_dependencies().contains(dep@));
            }
            if find_manifest(ms, dep).is_none() {
                return Err(ResolveError::MissingDependency { feature: id.duplicate(), dependency: dep.duplicate() });
            }
            if contains_feature(disabled.as_slice(), dep) {
                return Err(ResolveError::DependencyDisabled { feature: id.duplicate(), dependency: dep.duplicate() });
            }
            let ghost en1 = feature_ids(enabled@);
            let ghost pend1 = feature_ids(pending@);
            if insert_feature(enabled, dep.duplicate()) {
                pending.push(dep.duplicate());
                proof {
                    let en2 = feature_ids(enabled@);
                    let pend2 = feature_ids(pending@);
                    assert(pend2 =~= pend1.push(dep@));
                    assert forall|x: Seq<char>| #[trigger] en2.contains(x) <==> (en1.contains(x) || x == dep@) by {
                        lemma_insert_contains(en1, en2, dep@, x);
                    }
                    assert forall|x: Seq<char>| #[trigger] pend2.contains(x) <==> (pend1.contains(x) || x == dep@) by {
                        if pend2.contains(x) {
                            let k = choose|k: int| 0 <= k < pend2.len() && pend2[k] == x;
                            if k < pend1.len() {
                                assert(pend1[k] == x);
                            }
                        }
                        if pend1.contains(x) {
                            let k = choose|k: int| 0 <= k < pend1.len() && pend1[k] == x;
                            assert(pend2[k] == x);
                        }
                        if x == dep@ {
                            assert(pend2[pend1.len() as int] == x);
                        }
                    }
                    assert(pend2.no_duplicates()) by {
                        assert forall|a: int, b: int| 0 <= a < pend2.len() && 0 <= b < pend2.len() && a != b implies pend2[a] != pend2[b] by {
                            if a < pend1.len() && b < pend1.len() {
                                assert(pend1[a] == pend2[a]);
                                assert(pend1[b] == pend2[b]);
                            } else if a < pend1.len() {
                                assert(pend1[a] == pend2[a]);
                                assert(pend1.contains(pend2[a]));
                            } else {
                                assert(pend1[b] == pend2[b]);
                                assert(pend1.contains(pend2[b]));
                            }
                        }
                    }
                    assert forall|x: Seq<char>| #[trigger] en2.contains(x) implies x == id@ || pend2.contains(x)
                        || deps_closed(ms@, en2, x) by {
                        if en1.contains(x) && x != id@ && !pend1.contains(x) {
                            assert(deps_closed(ms@, en1, x));
                            assert forall|d: Seq<char>| #[trigger] manifest_of(ms@, x).spec_dependencies().contains(d) implies en2.contains(d) by {
                                assert(en1.contains(d));
                            }
                        }
                    }
                    assert forall|x: Seq<char>| #[trigger] en2.contains(x) implies start.contains(x)
                        || exists|g: Seq<char>| en2.contains(g) && #[trigger] manifest_of(ms@, g).spec_dependencies().contains(x) by {
                        if x == dep@ {
                            assert(en2.contains(id@));
                        } else if !start.contains(x) {
                            let g = choose|g: Seq<char>| en1.contains(g) && #[trigger] manifest_of(ms@, g).spec_dependencies().contains(x);
                            assert(en2.contains(g));
                        }
                    }
                    assert forall|x: Seq<char>| #[trigger] en2.contains(x) implies forced_from(ms@, start, x) by {
                        if x == dep@ {
                            lemma_forced_dependency(ms@, start, id@, dep@);
                        } else {
                            assert(en1.contains(x));
                        }
                    }
                    assert forall|t: int| 0 <= t < j + 1 implies en2.contains(#[trigger] feature_ids(deps@)[t]) by {
                        if t < j {
                            assert(en1.contains(feature_ids(deps@)[t]));
                        }
                    }
                    lemma_enabled_bound(ms@, en2);
                }
            } else {
                proof {
                    assert(feature_ids(enabled@).contains(dep@));
                }
            }
            j = j + 1;
        }
        proof {
            let en = feature_ids(enabled@);
            assert(deps_closed(ms@, en, id@)) by {
                assert forall|d: Seq<char>| #[trigger] manifest_of(ms@, id@).spec_dependencies().contains(d) implies en.contains(d) by {
                    let t = choose|t: int| 0 <= t < feature_ids(deps@).len() && feature_ids(deps@)[t] == d;
                    assert(en.contains(feature_ids(deps@)[t]));
                }
            }
        }
    }
    Ok(())
}

/// Refuses a plan in which an active feature conflicts with another active feature, or names
/// an unregistered conflict target.
fn validate_conflicts(ms: &Vec<FeatureManifest>, enabled: &Vec<FeatureId>) -> (r: Result<(), ResolveError>)
    requires
        manifests_wf(ms@),
        forall|x: Seq<char>| #[trigger] feature_ids(enabled@).contains(x) ==> registered(ms@, x),
    ensures
        r is Ok ==> forall|x: Seq<char>, c: Seq<char>| #[trigger] feature_ids(enabled@).contains(x)
            && #[trigger] manifest_of(ms@, x).spec_conflicts().contains(c) ==> registered(ms@, c) && !feature_ids(enabled@).contains(c),
        r matches Err(ResolveError::UnknownConflictTarget { feature, conflict }) ==> feature_ids(enabled@).contains(feature@)
            && manifest_of(ms@, feature@).spec_conflicts().contains(conflict@) && !registered(ms@, conflict@),
        r matches Err(ResolveError::Conflict { first, second }) ==> feature_ids(enabled@).contains(first@)
            && feature_ids(enabled@).contains(second@) && manifest_of(ms@, first@).spec_conflicts().contains(second@),
        r matches Err(e) ==> e is UnknownConflictTarget || e is Conflict,
{
    let ghost en = feature_ids(enabled@);
    let mut i: usize = 0;
    while i < enabled.len()
        invariant
            manifests_wf(ms@),
            en == feature_ids(enabled@),
            forall|x: Seq<char>| #[trigger] en.contains(x) ==> registered(ms@, x),
            0 <= i <= enabled@.len(),
            forall|t: int, c: Seq<char>| 0 <= t < i && #[trigger] manifest_of(ms@, en[t]).spec_conflicts().contains(c)
                ==> registered(ms@, c) && !en.contains(c),
        decreases enabled@.len() - i,
    {
        let id = &enabled[i];
        proof {
            assert(en[i as int] == id@);
            assert(en.contains(id@));
        }
        let mi = match find_manifest(ms, id) {
            Some(mi) => mi,
            None => {
                proof {
                    assert(false);
                }
                return Ok(());
            },
        };
        let conflicts = ms[mi].conflicts();
        let mut j: usize = 0;
        while j < conflicts.len()
            invariant
                manifests_wf(ms@),
                en == feature_ids(enabled@),
                0 <= i < enabled@.len(),
                en[i as int] == id@,
                en.contains(id@),
                mi < ms@.len(),
                manifest_of(ms@, id@) == ms@[mi as int],
                feature_ids(conflicts@) == ms@[mi as int].spec_conflicts(),
                0 <= j <= conflicts@.len(),
                forall|t: int| 0 <= t < j ==> registered(ms@, #[trigger] feature_ids(conflicts@)[t])
                    && !en.contains(feature_ids(conflicts@)[t]),
            decreases conflicts@.len() - j,
        {
            let conflict = &conflicts[j];
            proof {
                assert(feature_ids(conflicts@)[j as int] == conflict@);
            }
            if find_manifest(ms, conflict).is_none() {
                return Err(ResolveError::UnknownConflictTarget { feature: id.duplicate(), conflict: conflict.duplicate() });
            }
            if contains_feature(enabled.as_slice(), conflict) {
                return Err(ResolveError::Conflict { first: id.duplicate(), second: conflict.duplicate() });
            }
            j = j + 1;
        }
        proof {
            assert forall|t: int, c: Seq<char>| 0 <= t < i + 1 && #[trigger] manifest_of(ms@, en[t]).spec_conflicts().contains(c)
                implies registered(ms@, c) && !en.contains(c) by {
                if t == i {
                    let k = choose|k: int| 0 <= k < feature_ids(conflicts@).len() && feature_ids(conflicts@)[k] == c;
                    assert(registered(ms@, feature_ids(conflicts@)[k]));
                }
            }
        }
        i = i + 1;
    }
    proof {
        assert forall|x: Seq<char>, c: Seq<char>| #[trigger] en.contains(x) && #[trigger] manifest_of(ms@, x).spec_conflicts().contains(c)
            implies registered(ms@, c) && !en.contains(c) by {
            let t = choose|t: int| 0 <= t < en.len() && en[t] == x;
            assert(manifest_of(ms@, en[t]).spec_conflicts().contains(c));
        }
    }
    Ok(())
}

/// Every binding's provider is active and provides the bound service.
pub open spec fn bindings_sound(ms: Seq<FeatureManifest>, en: Seq<Seq<char>>, pv: Seq<(ServiceId, FeatureId)>) -> bool {
    forall|i: int| 0 <= i < pv.len() ==> en.contains(#[trigger] pv[i].1@)
        && manifest_of(ms, pv[i].1@).spec_provides().contains(pv[i].0@)
}

/// Each service bound without a preference is bound to its only active provider.
pub open spec fn bindings_unambiguous(
    ms: Seq<FeatureManifest>,
    en: Seq<Seq<char>>,
    pref: Seq<(ServiceId, FeatureId)>,
    pv: Seq<(ServiceId, FeatureId)>,
) -> bool {
    forall|s: Seq<char>, c: Seq<char>| provider_of(pref, s) is None && provider_of(pv, s) is Some && en.contains(c)
        && #[trigger] manifest_of(ms, c).spec_provides().contains(s) ==> provider_of(pv, s) == Some(c)
}

/// The active features that provide service `s`, in order.
fn service_candidates(ms: &Vec<FeatureManifest>, enabled: &Vec<FeatureId>, service: &ServiceId) -> (r: Vec<FeatureId>)
    requires
        manifests_wf(ms@),
        feature_ids(enabled@).no_duplicates(),
        forall|x: Seq<char>| #[trigger] feature_ids(enabled@).contains(x) ==> registered(ms@, x),
    ensures
        feature_ids(r@).no_duplicates(),
        forall|c: Seq<char>| #[trigger] feature_ids(r@).contains(c) <==> feature_ids(enabled@).contains(c)
            && manifest_of(ms@, c).spec_provides().contains(service@),
{
    let ghost en = feature_ids(enabled@);
    let mut out: Vec<FeatureId> = Vec::new();
    let mut i: usize = 0;
    proof {
        assert(feature_ids(out@) =~= Seq::<Seq<char>>::empty());
    }
    while i < enabled.len()
        invariant
            manifests_wf(ms@),
            en == feature_ids(enabled@),
            en.no_duplicates(),
            forall|x: Seq<char>| #[trigger] en.contains(x) ==> registered(ms@, x),
            0 <= i <= enabled@.len(),
            feature_ids(out@).no_duplicates(),
            forall|c: Seq<char>| #[trigger] feature_ids(out@).contains(c) <==> (exists|t: int| 0 <= t < i && en[t] == c)
                && manifest_of(ms@, c).spec_provides().contains(service@),
        decreases enabled@.len() - i,
    {
        let id = &enabled[i];
        proof {
            assert(en[i as int] == id@);
            assert(en.contains(id@));
        }
        let mi = match find_manifest(ms, id) {
            Some(mi) => mi,
            None => {
                proof {
                    assert(false);
                }
                return out;
            },
        };
        let ghost before = feature_ids(out@);
        if ms[mi].provides_service(service) {
            out.push(id.duplicate());
            proof {
                let after = feature_ids(out@);
                assert(after =~= before.push(id@));
                assert(!before.contains(id@)) by {
                    if before.contains(id@) {
                        let t = choose|t: int| 0 <= t < i && en[t] == id@;
                        assert(en[t] == en[i as int]);
                    }
                }
                assert(after.no_duplicates()) by {
                    assert forall|a: int, b: int| 0 <= a < after.len() && 0 <= b < after.len() && a != b implies after[a] != after[b] by {
                        if a < before.len() && b < before.len() {
                            assert(before[a] == after[a]);
                            assert(before[b] == after[b]);
                        } else if a < before.len() {
                            assert(before[a] == after[a]);
                            assert(before.contains(after[a]));
                        } else {
                            assert(before[b] == after[b]);
                            assert(before.contains(after[b]));
                        }
                    }
                }
                assert forall|c: Seq<char>| #[trigger] after.contains(c) <==> (exists|t: int| 0 <= t < i + 1 && en[t] == c)
                    && manifest_of(ms@, c).spec_provides().contains(service@) by {
                    if after.contains(c) {
                        let k = choose|k: int| 0 <= k < after.len() && after[k] == c;
                        if k < before.len() {
                            assert(before[k] == c);
                            assert(before.contains(c));
                        }
                    }
                    if (exists|t: int| 0 <= t < i + 1 && en[t] == c) && manifest_of(ms@, c).spec_provides().contains(service@) {
                        let t = choose|t: int| 0 <= t < i + 1 && en[t] == c;
                        if t < i {
                            assert(before.contains(c));
                            let k = choose|k: int| 0 <= k < before.len() && before[k] == c;
                            assert(after[k] == c);
                        } else {
                            assert(after[before.len() as int] == c);
                        }
                    }
                }
            }
        } else {
            proof {
                assert forall|c: Seq<char>| #[trigger] before.contains(c) <==> (exists|t: int| 0 <= t < i + 1 && en[t] == c)
                    && manifest_of(ms@, c).spec_provides().contains(service@) by {
                    if (exists|t: int| 0 <= t < i + 1 && en[t] == c) && manifest_of(ms@, c).spec_provides().contains(service@) {
                        let t = choose|t: int| 0 <= t < i + 1 && en[t] == c;
                        if t == i {
                            assert(c == id@);
                        }
                    }
                }
            }
        }
        i = i + 1;
    }
    proof {
        assert forall|c: Seq<char>| #[trigger] feature_ids(out@).contains(c) <==> en.contains(c)
            && manifest_of(ms@, c).spec_provides().contains(service@) by {
            if en.contains(c) {
                let t = choose|t: int| 0 <= t < en.len() && en[t] == c;
                assert(exists|t2: int| 0 <= t2 < enabled@.len() && en[t2] == c);
            }
        }
    }
    out
}

/// Binds every service that an active feature requires: the preferred provider when one was
/// chosen, else the only active provider.
#[verifier::rlimit(30)]
fn resolve_services(ms: &Vec<FeatureManifest>, enabled: &Vec<FeatureId>, preferred: &Vec<(ServiceId, FeatureId)>)
    -> (r: Result<Vec<(ServiceId, FeatureId)>, ResolveError>)
    requires
        manifests_wf(ms@),
        feature_ids(enabled@).no_duplicates(),
        forall|x: Seq<char>| #[trigger] feature_ids(enabled@).contains(x) ==> registered(ms@, x),
        pair_keys(preferred@).no_duplicates(),
        bindings_sound(ms@, feature_ids(enabled@), preferred@),
    ensures
        r matches Ok(pv) ==> {
            &&& pair_keys(pv@).no_duplicates()
            &&& bindings_sound(ms@, feature_ids(enabled@), pv@)
            &&& forall|x: Seq<char>, s: Seq<char>| #[trigger] feature_ids(enabled@).contains(x)
                && #[trigger] manifest_of(ms@, x).spec_requires().contains(s) ==> provider_of(pv@, s) is Some
            &&& forall|s: Seq<char>| #[trigger] provider_of(preferred@, s) is Some ==> provider_of(pv@, s) == provider_of(preferred@, s)
            &&& bindings_unambiguous(ms@, feature_ids(enabled@), preferred@, pv@)
        },
        r matches Err(ResolveError::MissingService { feature, service }) ==> {
            &&& feature_ids(enabled@).contains(feature@)
            &&& manifest_of(ms@, feature@).spec_requires().contains(service@)
            &&& provider_of(preferred@, service@) is None
            &&& forall|c: Seq<char>| #[trigger] feature_ids(enabled@).contains(c) ==> !manifest_of(ms@, c).spec_provides().contains(service@)
        },
        r matches Err(ResolveError::AmbiguousService { service, providers }) ==> {
            &&& provider_of(preferred@, service@) is None
            &&& feature_ids(providers@).no_duplicates()
            &&& providers@.len() >= 2
            &&& forall|c: Seq<char>| #[trigger] feature_ids(providers@).contains(c) <==> feature_ids(enabled@).contains(c)
                && manifest_of(ms@, c).spec_provides().contains(service@)
            &&& exists|f: Seq<char>| feature_ids(enabled@).contains(f) && #[trigger] manifest_of(ms@, f).spec_requires().contains(service@)
        },
        r matches Err(e) ==> e is MissingService || e is AmbiguousService,
{
    let ghost en = feature_ids(enabled@);
    let ghost pref = preferred@;
    let mut providers = copy_bindings(preferred);
    proof {
        assert forall|s: Seq<char>| #[trigger] provider_of(pref, s) is Some implies provider_of(providers@, s) == provider_of(pref, s) by {
            let i = binding_index(pref, s);
            lemma_provider_of(pref, i);
            lemma_provider_of(providers@, i);
        }
        assert forall|i: int| 0 <= i < providers@.len() implies en.contains(#[trigger] providers@[i].1@)
            && manifest_of(ms@, providers@[i].1@).spec_provides().contains(providers@[i].0@) by {
            assert(en.contains(pref[i].1@));
        }
        assert forall|s: Seq<char>| #[trigger] provider_of(providers@, s) is Some implies provider_of(pref, s) is Some by {
            assert(pair_keys(providers@).contains(s));
        }
    }
    let mut i: usize = 0;
    while i < enabled.len()
        invariant
            manifests_wf(ms@),
            en == feature_ids(enabled@),
            pref == preferred@,
            en.no_duplicates(),
            forall|x: Seq<char>| #[trigger] en.contains(x) ==> registered(ms@, x),
            pair_keys(pref).no_duplicates(),
            pair_keys(providers@).no_duplicates(),
            bindings_sound(ms@, en, providers@),
            forall|s: Seq<char>| #[trigger] provider_of(pref, s) is Some ==> provider_of(providers@, s) == provider_of(pref, s),
            forall|s: Seq<char>| #[trigger] provider_of(providers@, s) is None ==> provider_of(pref, s) is None,
            bindings_unambiguous(ms@, en, pref, providers@),
            0 <= i <= enabled@.len(),
            forall|t: int, s: Seq<char>| 0 <= t < i && #[trigger] manifest_of(ms@, en[t]).spec_requires().contains(s)
                ==> provider_of(providers@, s) is Some,
        decreases enabled@.len() - i,
    {
        let feature = &enabled[i];
        proof {
            assert(en[i as int] == feature@);
            assert(en.contains(feature@));
        }
        let mi = match find_manifest(ms, feature) {
            Some(mi) => mi,
            None => {
                proof {
                    assert(false);
                }
                return Ok(providers);
            },
        };
        let requires_list = ms[mi].required_services();
        let mut j: usize = 0;
        while j < requires_list.len()
            invariant
                manifests_wf(ms@),
                en == feature_ids(enabled@),
                pref == preferred@,
                en.no_duplicates(),
                forall|x: Seq<char>| #[trigger] en.contains(x) ==> registered(ms@, x),
                pair_keys(providers@).no_duplicates(),
                bindings_sound(ms@, en, providers@),
                forall|s: Seq<char>| #[trigger] provider_of(pref, s) is Some ==> provider_of(providers@, s) == provider_of(pref, s),
                forall|s: Seq<char>| #[trigger] provider_of(providers@, s) is None ==> provider_of(pref, s) is None,
                bindings_unambiguous(ms@, en, pref, providers@),
                0 <= i < enabled@.len(),
                en[i as int] == feature@,
                en.contains(feature@),
                mi < ms@.len(),
                manifest_of(ms@, feature@) == ms@[mi as int],
                service_ids(requires_list@) == ms@[mi as int].spec_requires(),
                0 <= j <= requires_list@.len(),
                forall|t: int, s: Seq<char>| 0 <= t < i && #[trigger] manifest_of(ms@, en[t]).spec_requires().contains(s)
                    ==> provider_of(providers@, s) is Some,
                forall|u: int| 0 <= u < j ==> provider_of(providers@, #[trigger] service_ids(requires_list@)[u]) is Some,
            decreases requires_list@.len() - j,
        {
            let service = &requires_list[j];
            proof {
                assert(service_ids(requires_list@)[j as int] == service@);
                assert(manifest_of(ms@, feature@).spec_requires().contains(service@));
            }
            if find_provider(&providers, service).is_some() {
                j = j + 1;
                continue;
            }
            let candidates = service_candidates(ms, enabled, service);
            if candidates.len() == 0 {
                proof {
                    assert forall|c: Seq<char>| #[trigger] en.contains(c) implies !manifest_of(ms@, c).spec_provides().contains(service@) by {
                        if manifest_of(ms@, c).spec_provides().contains(service@) {
                            assert(feature_ids(candidates@).contains(c));
                        }
                    }
                }
                return Err(ResolveError::MissingService { feature: feature.duplicate(), service: service.duplicate() });
            }
            if candidates.len() > 1 {
                proof {
                    assert(en.contains(feature@) && manifest_of(ms@, feature@).spec_requires().contains(service@));
                }
                return Err(ResolveError::AmbiguousService { service: service.duplicate(), providers: candidates });
            }
            let ghost before = providers@;
            proof {
                assert(feature_ids(candidates@)[0] == candidates@[0]@);
                assert(feature_ids(candidates@).contains(candidates@[0]@));
            }
            bind_provider(&mut providers, service.duplicate(), candidates[0].duplicate());
            proof {
                let after = providers@;
                let sv = service@;
                assert forall|s: Seq<char>| #[trigger] provider_of(pref, s) is Some implies provider_of(after, s) == provider_of(pref, s) by {
                    if s == sv {
                        assert(provider_of(before, sv) is None);
                    } else {
                        assert(provider_of(after, s) == provider_of(before, s));
                    }
                }
                assert forall|s: Seq<char>| #[trigger] provider_of(after, s) is None implies provider_of(pref, s) is None by {
                    if s != sv {
                        assert(provider_of(after, s) == provider_of(before, s));
                    }
                }
                assert forall|k: int| 0 <= k < after.len() implies en.contains(#[trigger] after[k].1@)
                    && manifest_of(ms@, after[k].1@).spec_provides().contains(after[k].0@) by {
                    if after[k].1@ == candidates@[0]@ && after[k].0@ == sv {
                    } else {
                        let jj = choose|jj: int| 0 <= jj < before.len() && before[jj].1@ == after[k].1@ && before[jj].0@ == after[k].0@;
                        assert(en.contains(before[jj].1@));
                    }
                }
                assert forall|t: int, s: Seq<char>| 0 <= t < i && #[trigger] manifest_of(ms@, en[t]).spec_requires().contains(s)
                    implies provider_of(after, s) is Some by {
                    if s != sv {
                        assert(provider_of(before, s) is Some);
                        assert(provider_of(after, s) == provider_of(before, s));
                    }
                }
                assert forall|s: Seq<char>, c: Seq<char>| provider_of(pref, s) is None && provider_of(after, s) is Some && en.contains(c)
                    && #[trigger] manifest_of(ms@, c).spec_provides().contains(s) implies provider_of(after, s) == Some(c) by {
                    if s == sv {
                        assert(feature_ids(candidates@).contains(c));
                        let k = choose|k: int| 0 <= k < feature_ids(candidates@).len() && feature_ids(candidates@)[k] == c;
                        assert(k == 0);
                    } else {
                        assert(provider_of(after, s) == provider_of(before, s));
                    }
                }
                assert forall|u: int| 0 <= u < j + 1 implies provider_of(after, #[trigger] service_ids(requires_list@)[u]) is Some by {
                    let s = service_ids(requires_list@)[u];
                    if s != sv {
                        assert(provider_of(before, s) is Some);
                        assert(provider_of(after, s) == provider_of(before, s));
                    }
                }
            }
            j = j + 1;
        }
        proof {
            assert forall|t: int, s: Seq<char>| 0 <= t < i + 1 && #[trigger] manifest_of(ms@, en[t]).spec_requires().contains(s)
                implies provider_of(providers@, s) is Some by {
                if t == i {
                    let u = choose|u: int| 0 <= u < service_ids(requires_list@).len() && service_ids(requires_list@)[u] == s;
                    assert(provider_of(providers@, service_ids(requires_list@)[u]) is Some);
                }
            }
        }
        i = i + 1;
    }
    proof {
        assert forall|x: Seq<char>, s: Seq<char>| #[trigger] en.contains(x) && #[trigger] manifest_of(ms@, x).spec_requires().contains(s)
            implies provider_of(providers@, s) is Some by {
            let t = choose|t: int| 0 <= t < en.len() && en[t] == x;
            assert(manifest_of(ms@, en[t]).spec_requires().contains(s));
        }
    }
    Ok(providers)
}

/* ---------------------------------------------------------------------------------------- */
/* Resolution                                                                               */
/* ---------------------------------------------------------------------------------------- */

proof fn lemma_remove_contains(before: Seq<Seq<char>>, after: Seq<Seq<char>>, x: Seq<char>, b: Seq<char>)
    requires
        after.to_set() == before.to_set().remove(x),
    ensures
        after.contains(b) <==> (before.contains(b) && b != x),
{
    assert(after.to_set().contains(b) == after.contains(b));
    assert(before.to_set().contains(b) == before.contains(b));
}

/// `x` is registered and enabled by default.
pub open spec fn default_on(ms: Seq<FeatureManifest>, x: Seq<char>) -> bool {
    registered(ms, x) && manifest_of(ms, x).spec_default()
}

/// `x` is some preferred binding's provider.
pub open spec fn preferred_provider(pref: Seq<(ServiceId, FeatureId)>, x: Seq<char>) -> bool {
    exists|i: int| 0 <= i < pref.len() && #[trigger] pref[i].1@ == x
}

/// `x` is active before dependency closure: enabled by default and not disabled, explicitly
/// enabled, or chosen as a preferred provider.
pub open spec fn initially_active(
    ms: Seq<FeatureManifest>,
    e: Seq<Seq<char>>,
    d: Seq<Seq<char>>,
    pref: Seq<(ServiceId, FeatureId)>,
    x: Seq<char>,
) -> bool {
    ||| (default_on(ms, x) && !d.contains(x))
    ||| e.contains(x)
    ||| preferred_provider(pref, x)
}

/// `a` cannot work without `b`: `b` is a dependency of `a`, or provides a service `a` requires.
pub open spec fn needs(ms: Seq<FeatureManifest>, a: Seq<char>, b: Seq<char>) -> bool {
    ||| manifest_of(ms, a).spec_dependencies().contains(b)
    ||| exists|s: Seq<char>| #[trigger] manifest_of(ms, a).spec_requires().contains(s) && manifest_of(ms, b).spec_provides().contains(s)
}

/// `en` holds every initially active feature and, with each feature it holds, that feature's
/// dependencies.
pub open spec fn active_closure(
    ms: Seq<FeatureManifest>,
    e: Seq<Seq<char>>,
    d: Seq<Seq<char>>,
    pref: Seq<(ServiceId, FeatureId)>,
    en: Seq<Seq<char>>,
) -> bool {
    &&& forall|x: Seq<char>| #[trigger] initially_active(ms, e, d, pref, x) ==> en.contains(x)
    &&& forall|x: Seq<char>| #[trigger] en.contains(x) ==> deps_closed(ms, en, x)
}

/// `x` is active in every active closure of the selection: no plan for it leaves `x` out.
pub open spec fn forced_active(
    ms: Seq<FeatureManifest>,
    e: Seq<Seq<char>>,
    d: Seq<Seq<char>>,
    pref: Seq<(ServiceId, FeatureId)>,
    x: Seq<char>,
) -> bool {
    forall|en: Seq<Seq<char>>| #[trigger] active_closure(ms, e, d, pref, en) ==> en.contains(x)
}

/// A feature forced from the initially active features is forced by the selection.
proof fn lemma_forced_active(
    ms: Seq<FeatureManifest>,
    e: Seq<Seq<char>>,
    d: Seq<Seq<char>>,
    pref: Seq<(ServiceId, FeatureId)>,
    init: Seq<Seq<char>>,
    x: Seq<char>,
)
    requires
        forall|y: Seq<char>| #[trigger] init.contains(y) <==> initially_active(ms, e, d, pref, y),
        forced_from(ms, init, x),
    ensures
        forced_active(ms, e, d, pref, x),
{
    assert forall|en: Seq<Seq<char>>| #[trigger] active_closure(ms, e, d, pref, en) implies en.contains(x) by {
        assert forall|y: Seq<char>| #[trigger] init.contains(y) implies en.contains(y) by {
            assert(initially_active(ms, e, d, pref, y));
        }
        assert(closed_over(ms, init, en));
    }
}

/// A resolved plan for selection (`e`, `d`, `pref`): its active set `en`, service bindings
/// `pv` and activation order `order`.
pub open spec fn plan_valid(
    ms: Seq<FeatureManifest>,
    e: Seq<Seq<char>>,
    d: Seq<Seq<char>>,
    pref: Seq<(ServiceId, FeatureId)>,
    en: Seq<Seq<char>>,
    pv: Seq<(ServiceId, FeatureId)>,
    order: Seq<Seq<char>>,
) -> bool {
    &&& en.no_duplicates()
    &&& forall|x: Seq<char>| #[trigger] en.contains(x) ==> registered(ms, x) && !d.contains(x)
    &&& forall|x: Seq<char>| #[trigger] initially_active(ms, e, d, pref, x) ==> en.contains(x)
    &&& forall|x: Seq<char>| #[trigger] en.contains(x) ==> deps_closed(ms, en, x)
    &&& forall|x: Seq<char>| #[trigger] en.contains(x) ==> initially_active(ms, e, d, pref, x)
        || exists|g: Seq<char>| en.contains(g) && #[trigger] manifest_of(ms, g).spec_dependencies().contains(x)
    &&& forall|x: Seq<char>, c: Seq<char>| #[trigger] en.contains(x) && #[trigger] manifest_of(ms, x).spec_conflicts().contains(c)
        ==> registered(ms, c) && !en.contains(c)
    &&& pair_keys(pv).no_duplicates()
    &&& bindings_sound(ms, en, pv)
    &&& forall|x: Seq<char>, s: Seq<char>| #[trigger] en.contains(x) && #[trigger] manifest_of(ms, x).spec_requires().contains(s)
        ==> provider_of(pv, s) is Some
    &&& forall|s: Seq<char>| #[trigger] provider_of(pref, s) is Some ==> provider_of(pv, s) == provider_of(pref, s)
    &&& bindings_unambiguous(ms, en, pref, pv)
    &&& order.no_duplicates()
    &&& order.to_set() == en.to_set()
    &&& topological(ms, en, pv, order)
}

/// The evidence each refusal carries about the registry and the selection.
pub open spec fn refusal_justified(
    ms: Seq<FeatureManifest>,
    e: Seq<Seq<char>>,
    d: Seq<Seq<char>>,
    pref: Seq<(ServiceId, FeatureId)>,
    err: ResolveError,
) -> bool {
    match err {
        ResolveError::UnknownFeature(x) => (e.contains(x@) || d.contains(x@) || preferred_provider(pref, x@)) && !registered(ms, x@),
        ResolveError::PreferredProviderDisabled { service, provider } => provider_of(pref, service@) == Some(provider@)
            && d.contains(provider@),
        ResolveError::PreferredProviderDoesNotProvide { service, provider } => provider_of(pref, service@) == Some(provider@)
            && registered(ms, provider@) && !manifest_of(ms, provider@).spec_provides().contains(service@),
        ResolveError::MissingDependency { feature, dependency } => registered(ms, feature@)
            && manifest_of(ms, feature@).spec_dependencies().contains(dependency@) && !registered(ms, dependency@)
            && forced_active(ms, e, d, pref, feature@),
        ResolveError::DependencyDisabled { feature, dependency } => registered(ms, feature@)
            && manifest_of(ms, feature@).spec_dependencies().contains(dependency@) && d.contains(dependency@)
            && forced_active(ms, e, d, pref, feature@),
        ResolveError::UnknownConflictTarget { feature, conflict } => registered(ms, feature@)
            && manifest_of(ms, feature@).spec_conflicts().contains(conflict@) && !registered(ms, conflict@)
            && forced_active(ms, e, d, pref, feature@),
        ResolveError::Conflict { first, second } => registered(ms, first@) && registered(ms, second@)
            && manifest_of(ms, first@).spec_conflicts().contains(second@)
            && forced_active(ms, e, d, pref, first@) && forced_active(ms, e, d, pref, second@),
        ResolveError::MissingService { feature, service } => registered(ms, feature@)
            && manifest_of(ms, feature@).spec_requires().contains(service@) && provider_of(pref, service@) is None
            && forced_active(ms, e, d, pref, feature@)
            && forall|c: Seq<char>| #[trigger] forced_active(ms, e, d, pref, c) ==> !manifest_of(ms, c).spec_provides().contains(service@),
        ResolveError::AmbiguousService { service, providers } => provider_of(pref, service@) is None
            && feature_ids(providers@).no_duplicates() && providers@.len() >= 2
            && (forall|c: Seq<char>| #[trigger] feature_ids(providers@).contains(c) <==> registered(ms, c)
                && forced_active(ms, e, d, pref, c) && manifest_of(ms, c).spec_provides().contains(service@))
            && exists|f: Seq<char>| forced_active(ms, e, d, pref, f) && #[trigger] manifest_of(ms, f).spec_requires().contains(service@),
        ResolveError::DependencyCycle(c) => {
            let cy = feature_ids(c@);
            &&& cy.len() >= 2
            &&& cy[0] == cy[cy.len() - 1]
            &&& forall|k: int| 0 <= k < cy.len() - 1 ==> #[trigger] needs(ms, cy[k], cy[k + 1])
            &&& forall|k: int| 0 <= k < cy.len() ==> forced_active(ms, e, d, pref, #[trigger] cy[k])
        },
    }
}

/// A selection refused for a missing or disabled dependency, an unknown conflict target, two
/// conflicting features or an ambiguous service has no valid plan at all: every plan would have
/// to activate the features the refusal names.
pub proof fn law_refusals_admit_no_plan(
    ms: Seq<FeatureManifest>,
    e: Seq<Seq<char>>,
    d: Seq<Seq<char>>,
    pref: Seq<(ServiceId, FeatureId)>,
    err: ResolveError,
    en: Seq<Seq<char>>,
    pv: Seq<(ServiceId, FeatureId)>,
    order: Seq<Seq<char>>,
)
    requires
        manifests_wf(ms),
        refusal_justified(ms, e, d, pref, err),
        err is MissingDependency || err is DependencyDisabled || err is UnknownConflictTarget || err is Conflict
            || err is AmbiguousService,
    ensures
        !plan_valid(ms, e, d, pref, en, pv, order),
{
    if plan_valid(ms, e, d, pref, en, pv, order) {
        assert(active_closure(ms, e, d, pref, en));
        match err {
            ResolveError::AmbiguousService { service, providers } => {
                let ps = feature_ids(providers@);
                let s = service@;
                let f = choose|f: Seq<char>| forced_active(ms, e, d, pref, f) && #[trigger] manifest_of(ms, f).spec_requires().contains(s);
                assert(en.contains(f));
                assert(ps.contains(ps[0]) && ps.contains(ps[1]));
                assert(en.contains(ps[0]) && en.contains(ps[1]));
                assert(manifest_of(ms, ps[0]).spec_provides().contains(s));
                assert(manifest_of(ms, ps[1]).spec_provides().contains(s));
                assert(provider_of(pv, s) is Some);
                assert(ps[0] != ps[1]);
            },
            ResolveError::MissingDependency { feature, dependency } => {
                assert(en.contains(feature@));
                assert(deps_closed(ms, en, feature@));
                assert(en.contains(dependency@));
            },
            ResolveError::DependencyDisabled { feature, dependency } => {
                assert(en.contains(feature@));
                assert(deps_closed(ms, en, feature@));
                assert(en.contains(dependency@));
            },
            ResolveError::UnknownConflictTarget { feature, conflict } => {
                assert(en.contains(feature@));
            },
            ResolveError::Conflict { first, second } => {
                assert(en.contains(first@));
                assert(en.contains(second@));
            },
            _ => {},
        }
    }
}

/// In a valid plan, a required service that has no preferred provider has exactly one active
/// provider: two active providers of it make every plan invalid, so resolution refuses.
pub proof fn law_unpreferred_service_has_one_active_provider(
    ms: Seq<FeatureManifest>,
    e: Seq<Seq<char>>,
    d: Seq<Seq<char>>,
    pref: Seq<(ServiceId, FeatureId)>,
    en: Seq<Seq<char>>,
    pv: Seq<(ServiceId, FeatureId)>,
    order: Seq<Seq<char>>,
    f: Seq<char>,
    s: Seq<char>,
    c1: Seq<char>,
    c2: Seq<char>,
)
    requires
        plan_valid(ms, e, d, pref, en, pv, order),
        en.contains(f),
        manifest_of(ms, f).spec_requires().contains(s),
        provider_of(pref, s) is None,
        en.contains(c1),
        en.contains(c2),
        manifest_of(ms, c1).spec_provides().contains(s),
        manifest_of(ms, c2).spec_provides().contains(s),
    ensures
        c1 == c2,
        provider_of(pv, s) == Some(c1),
{
    assert(provider_of(pv, s) is Some);
}

/// Refuses a selection that names an unregistered feature.
fn validate_selection(ms: &Vec<FeatureManifest>, selection: &FeatureSelection) -> (r: Result<(), ResolveError>)
    requires
        manifests_wf(ms@),
    ensures
        r is Ok ==> {
            &&& forall|x: Seq<char>| #[trigger] selection.spec_enabled().contains(x) ==> registered(ms@, x)
            &&& forall|x: Seq<char>| #[trigger] selection.spec_disabled().contains(x) ==> registered(ms@, x)
            &&& forall|i: int| 0 <= i < selection.spec_preferred().len() ==> registered(ms@, #[trigger] selection.spec_preferred()[i].1@)
        },
        r matches Err(e) ==> (e is UnknownFeature && refusal_justified(ms@, selection.spec_enabled(), selection.spec_disabled(),
            selection.spec_preferred(), e)),
{
    let mut i: usize = 0;
    while i < selection.enabled.len()
        invariant
            manifests_wf(ms@),
            0 <= i <= selection.enabled@.len(),
            forall|t: int| 0 <= t < i ==> registered(ms@, #[trigger] selection.spec_enabled()[t]),
        decreases selection.enabled@.len() - i,
    {
        if find_manifest(ms, &selection.enabled[i]).is_none() {
            proof {
                assert(selection.spec_enabled()[i as int] == selection.enabled@[i as int]@);
            }
            return Err(ResolveError::UnknownFeature(selection.enabled[i].duplicate()));
        }
        proof {
            assert(selection.spec_enabled()[i as int] == selection.enabled@[i as int]@);
        }
        i = i + 1;
    }
    let mut i: usize = 0;
    while i < selection.disabled.len()
        invariant
            manifests_wf(ms@),
            0 <= i <= selection.disabled@.len(),
            forall|t: int| 0 <= t < i ==> registered(ms@, #[trigger] selection.spec_disabled()[t]),
        decreases selection.disabled@.len() - i,
    {
        if find_manifest(ms, &selection.disabled[i]).is_none() {
            proof {
                assert(selection.spec_disabled()[i as int] == selection.disabled@[i as int]@);
            }
            return Err(ResolveError::UnknownFeature(selection.disabled[i].duplicate()));
        }
        proof {
            assert(selection.spec_disabled()[i as int] == selection.disabled@[i as int]@);
        }
        i = i + 1;
    }
    let mut i: usize = 0;
    while i < selection.preferred_providers.len()
        invariant
            manifests_wf(ms@),
            0 <= i <= selection.preferred_providers@.len(),
            forall|t: int| 0 <= t < i ==> registered(ms@, #[trigger] selection.spec_preferred()[t].1@),
        decreases selection.preferred_providers@.len() - i,
    {
        if find_manifest(ms, &selection.preferred_providers[i].1).is_none() {
            proof {
                assert(preferred_provider(selection.spec_preferred(), selection.spec_preferred()[i as int].1@));
            }
            return Err(ResolveError::UnknownFeature(selection.preferred_providers[i].1.duplicate()));
        }
        i = i + 1;
    }
    proof {
        assert forall|x: Seq<char>| #[trigger] selection.spec_enabled().contains(x) implies registered(ms@, x) by {
            let t = choose|t: int| 0 <= t < selection.spec_enabled().len() && selection.spec_enabled()[t] == x;
            assert(registered(ms@, selection.spec_enabled()[t]));
        }
        assert forall|x: Seq<char>| #[trigger] selection.spec_disabled().contains(x) implies registered(ms@, x) by {
            let t = choose|t: int| 0 <= t < selection.spec_disabled().len() && selection.spec_disabled()[t] == x;
            assert(registered(ms@, selection.spec_disabled()[t]));
        }
    }
    Ok(())
}

/// The active set before dependency closure, after checking the preferred providers.
#[verifier::rlimit(30)]
fn initial_features(ms: &Vec<FeatureManifest>, selection: &FeatureSelection) -> (r: Result<Vec<FeatureId>, ResolveError>)
    requires
        manifests_wf(ms@),
        selection.wf(),
        forall|x: Seq<char>| #[trigger] selection.spec_enabled().contains(x) ==> registered(ms@, x),
        forall|i: int| 0 <= i < selection.spec_preferred().len() ==> registered(ms@, #[trigger] selection.spec_preferred()[i].1@),
    ensures
        r matches Ok(en) ==> {
            &&& feature_ids(en@).no_duplicates()
            &&& forall|x: Seq<char>| #[trigger] feature_ids(en@).contains(x) <==> initially_active(ms@,
                selection.spec_enabled(), selection.spec_disabled(), selection.spec_preferred(), x)
            &&& forall|x: Seq<char>| #[trigger] feature_ids(en@).contains(x) ==> registered(ms@, x)
                && !selection.spec_disabled().contains(x)
            &&& forall|i: int| 0 <= i < selection.spec_preferred().len() ==> manifest_of(ms@,
                #[trigger] selection.spec_preferred()[i].1@).spec_provides().contains(selection.spec_preferred()[i].0@)
        },
        r matches Err(e) ==> (e is PreferredProviderDisabled || e is PreferredProviderDoesNotProvide)
            && refusal_justified(ms@, selection.spec_enabled(), selection.spec_disabled(), selection.spec_preferred(), e),
{
    let ghost e = selection.spec_enabled();
    let ghost d = selection.spec_disabled();
    let ghost pref = selection.spec_preferred();
    let mut enabled: Vec<FeatureId> = Vec::new();
    proof {
        assert(feature_ids(enabled@) =~= Seq::<Seq<char>>::empty());
    }
    let mut i: usize = 0;
    while i < ms.len()
        invariant
            manifests_wf(ms@),
            0 <= i <= ms@.len(),
            feature_ids(enabled@).no_duplicates(),
            forall|x: Seq<char>| #[trigger] feature_ids(enabled@).contains(x) <==>
                (exists|t: int| 0 <= t < i && ms@[t].spec_id() == x && ms@[t].spec_default()),
        decreases ms@.len() - i,
    {
        if ms[i].is_default_enabled() {
            let ghost before = feature_ids(enabled@);
            insert_feature(&mut enabled, ms[i].id().duplicate());
            proof {
                assert forall|x: Seq<char>| #[trigger] feature_ids(enabled@).contains(x) <==>
                    (exists|t: int| 0 <= t < i + 1 && ms@[t].spec_id() == x && ms@[t].spec_default()) by {
                    lemma_insert_contains(before, feature_ids(enabled@), ms@[i as int].spec_id(), x);
                    if exists|t: int| 0 <= t < i + 1 && ms@[t].spec_id() == x && ms@[t].spec_default() {
                        let t = choose|t: int| 0 <= t < i + 1 && ms@[t].spec_id() == x && ms@[t].spec_default();
                        if t < i {
                            assert(exists|t2: int| 0 <= t2 < i && ms@[t2].spec_id() == x && ms@[t2].spec_default());
                        }
                    }
                    if before.contains(x) {
                        let t = choose|t: int| 0 <= t < i && ms@[t].spec_id() == x && ms@[t].spec_default();
                        assert(0 <= t < i + 1);
                    }
                }
            }
        } else {
            proof {
                assert forall|x: Seq<char>| #[trigger] feature_ids(enabled@).contains(x) <==>
                    (exists|t: int| 0 <= t < i + 1 && ms@[t].spec_id() == x && ms@[t].spec_default()) by {
                    if exists|t: int| 0 <= t < i + 1 && ms@[t].spec_id() == x && ms@[t].spec_default() {
                        let t = choose|t: int| 0 <= t < i + 1 && ms@[t].spec_id() == x && ms@[t].spec_default();
                        assert(t != i);
                        assert(exists|t2: int| 0 <= t2 < i && ms@[t2].spec_id() == x && ms@[t2].spec_default());
                    }
                    if feature_ids(enabled@).contains(x) {
                        let t = choose|t: int| 0 <= t < i && ms@[t].spec_id() == x && ms@[t].spec_default();
                        assert(0 <= t < i + 1);
                    }
                }
            }
        }
        i = i + 1;
    }
    proof {
        assert forall|x: Seq<char>| #[trigger] feature_ids(enabled@).contains(x) <==> default_on(ms@, x) by {
            if feature_ids(enabled@).contains(x) {
                let t = choose|t: int| 0 <= t < ms@.len() && ms@[t].spec_id() == x && ms@[t].spec_default();
                lemma_manifest_of(ms@, t);
            }
            if default_on(ms@, x) {
                let t = choose|t: int| 0 <= t < manifest_ids(ms@).len() && manifest_ids(ms@)[t] == x;
                lemma_manifest_of(ms@, t);
                assert(ms@[t].spec_id() == x && ms@[t].spec_default());
            }
        }
    }
    let mut j: usize = 0;
    while j < selection.enabled.len()
        invariant
            manifests_wf(ms@),
            e == selection.spec_enabled(),
            0 <= j <= selection.enabled@.len(),
            feature_ids(enabled@).no_duplicates(),
            forall|x: Seq<char>| #[trigger] feature_ids(enabled@).contains(x) <==>
                (default_on(ms@, x) || exists|t: int| 0 <= t < j && e[t] == x),
        decreases selection.enabled@.len() - j,
    {
        let ghost before = feature_ids(enabled@);
        proof {
            assert(e[j as int] == selection.enabled@[j as int]@);
        }
        insert_feature(&mut enabled, selection.enabled[j].duplicate());
        proof {
            assert forall|x: Seq<char>| #[trigger] feature_ids(enabled@).contains(x) <==>
                (default_on(ms@, x) || exists|t: int| 0 <= t < j + 1 && e[t] == x) by {
                lemma_insert_contains(before, feature_ids(enabled@), e[j as int], x);
                if exists|t: int| 0 <= t < j + 1 && e[t] == x {
                    let t = choose|t: int| 0 <= t < j + 1 && e[t] == x;
                    if t < j {
                        assert(exists|t2: int| 0 <= t2 < j && e[t2] == x);
                    }
                }
                if exists|t: int| 0 <= t < j && e[t] == x {
                    let t = choose|t: int| 0 <= t < j && e[t] == x;
                    assert(0 <= t < j + 1);
                }
            }
        }
        j = j + 1;
    }
    let mut k: usize = 0;
    while k < selection.disabled.len()
        invariant
            manifests_wf(ms@),
            e == selection.spec_enabled(),
            d == selection.spec_disabled(),
            0 <= k <= selection.disabled@.len(),
            feature_ids(enabled@).no_duplicates(),
            forall|x: Seq<char>| #[trigger] feature_ids(enabled@).contains(x) <==>
                ((default_on(ms@, x) || e.contains(x)) && !exists|t: int| 0 <= t < k && d[t] == x),
        decreases selection.disabled@.len() - k,
    {
        let ghost before = feature_ids(enabled@);
        proof {
            assert(d[k as int] == selection.disabled@[k as int]@);
            assert forall|x: Seq<char>| #[trigger] before.contains(x) <==>
                ((default_on(ms@, x) || e.contains(x)) && !exists|t: int| 0 <= t < k && d[t] == x) by {
                if exists|t: int| 0 <= t < j && e[t] == x {
                }
            }
        }
        remove_feature(&mut enabled, &selection.disabled[k]);
        proof {
            assert forall|x: Seq<char>| #[trigger] feature_ids(enabled@).contains(x) <==>
                ((default_on(ms@, x) || e.contains(x)) && !exists|t: int| 0 <= t < k + 1 && d[t] == x) by {
                lemma_remove_contains(before, feature_ids(enabled@), d[k as int], x);
                if exists|t: int| 0 <= t < k + 1 && d[t] == x {
                    let t = choose|t: int| 0 <= t < k + 1 && d[t] == x;
                    if t < k {
                        assert(exists|t2: int| 0 <= t2 < k && d[t2] == x);
                    }
                }
                if exists|t: int| 0 <= t < k && d[t] == x {
                    let t = choose|t: int| 0 <= t < k && d[t] == x;
                    assert(0 <= t < k + 1);
                }
            }
        }
        k = k + 1;
    }
    proof {
        assert forall|x: Seq<char>| #[trigger] feature_ids(enabled@).contains(x) <==>
            ((default_on(ms@, x) && !d.contains(x)) || e.contains(x)) by {
            if d.contains(x) {
                let t = choose|t: int| 0 <= t < d.len() && d[t] == x;
                assert(exists|t2: int| 0 <= t2 < selection.disabled@.len() && d[t2] == x);
            }
            if exists|t: int| 0 <= t < selection.disabled@.len() && d[t] == x {
                assert(d.contains(x));
            }
        }
    }
    let mut q: usize = 0;
    while q < selection.preferred_providers.len()
        invariant
            manifests_wf(ms@),
            selection.wf(),
            e == selection.spec_enabled(),
            d == selection.spec_disabled(),
            pref == selection.spec_preferred(),
            forall|x: Seq<char>| #[trigger] e.contains(x) ==> registered(ms@, x),
            forall|i: int| 0 <= i < pref.len() ==> registered(ms@, #[trigger] pref[i].1@),
            0 <= q <= pref.len(),
            feature_ids(enabled@).no_duplicates(),
            forall|x: Seq<char>| #[trigger] feature_ids(enabled@).contains(x) <==>
                ((default_on(ms@, x) && !d.contains(x)) || e.contains(x) || exists|t: int| 0 <= t < q && pref[t].1@ == x),
            forall|t: int| 0 <= t < q ==> !d.contains(#[trigger] pref[t].1@)
                && manifest_of(ms@, pref[t].1@).spec_provides().contains(pref[t].0@),
        decreases pref.len() - q,
    {
        let service = &selection.preferred_providers[q].0;
        let provider = &selection.preferred_providers[q].1;
        proof {
            lemma_provider_of(pref, q as int);
            assert(preferred_provider(pref, provider@));
        }
        if contains_feature(selection.disabled.as_slice(), provider) {
            return Err(ResolveError::PreferredProviderDisabled { service: service.duplicate(), provider: provider.duplicate() });
        }
        let pi = match find_manifest(ms, provider) {
            Some(pi) => pi,
            None => {
                proof {
                    assert(registered(ms@, pref[q as int].1@));
                }
                return Err(ResolveError::PreferredProviderDisabled { service: service.duplicate(), provider: provider.duplicate() });
            },
        };
        if !ms[pi].provides_service(service) {
            return Err(ResolveError::PreferredProviderDoesNotProvide { service: service.duplicate(), provider: provider.duplicate() });
        }
        let ghost before = feature_ids(enabled@);
        insert_feature(&mut enabled, provider.duplicate());
        proof {
            assert forall|x: Seq<char>| #[trigger] feature_ids(enabled@).contains(x) <==>
                ((default_on(ms@, x) && !d.contains(x)) || e.contains(x) || exists|t: int| 0 <= t < q + 1 && pref[t].1@ == x) by {
                lemma_insert_contains(before, feature_ids(enabled@), provider@, x);
                if exists|t: int| 0 <= t < q + 1 && pref[t].1@ == x {
                    let t = choose|t: int| 0 <= t < q + 1 && pref[t].1@ == x;
                    if t < q {
                        assert(exists|t2: int| 0 <= t2 < q && pref[t2].1@ == x);
                    }
                }
                if exists|t: int| 0 <= t < q && pref[t].1@ == x {
                    let t = choose|t: int| 0 <= t < q && pref[t].1@ == x;
                    assert(0 <= t < q + 1);
                }
            }
        }
        q = q + 1;
    }
    proof {
        assert forall|x: Seq<char>| #[trigger] feature_ids(enabled@).contains(x) <==> initially_active(ms@, e, d, pref, x) by {
            if preferred_provider(pref, x) {
                let t = choose|t: int| 0 <= t < pref.len() && #[trigger] pref[t].1@ == x;
                assert(exists|t2: int| 0 <= t2 < pref.len() && pref[t2].1@ == x);
            }
            if exists|t: int| 0 <= t < pref.len() && pref[t].1@ == x {
                let t = choose|t: int| 0 <= t < pref.len() && pref[t].1@ == x;
                assert(pref[t].1@ == x);
            }
        }
        assert forall|x: Seq<char>| #[trigger] feature_ids(enabled@).contains(x) implies registered(ms@, x) && !d.contains(x) by {
            if exists|t: int| 0 <= t < pref.len() && pref[t].1@ == x {
                let t = choose|t: int| 0 <= t < pref.len() && pref[t].1@ == x;
                assert(registered(ms@, pref[t].1@));
                assert(!d.contains(pref[t].1@));
            }
        }
    }
    Ok(enabled)
}

proof fn lemma_prerequisite_needs(
    ms: Seq<FeatureManifest>,
    en: Seq<Seq<char>>,
    pv: Seq<(ServiceId, FeatureId)>,
    a: Seq<char>,
    b: Seq<char>,
)
    requires
        bindings_sound(ms, en, pv),
        prerequisite(ms, en, pv, a, b),
    ensures
        needs(ms, a, b),
        en.contains(b),
{
    let m = manifest_of(ms, a);
    if !(m.spec_dependencies().contains(b) && en.contains(b)) {
        let s = choose|s: Seq<char>| #[trigger] m.spec_requires().contains(s) && provider_of(pv, s) == Some(b) && b != m.spec_id();
        let i = binding_index(pv, s);
        assert(pv[i].1@ == b);
        assert(manifest_of(ms, pv[i].1@).spec_provides().contains(pv[i].0@));
    }
}

impl FeatureRegistry {
    /// Resolves the active feature set, the provider bindings and a dependency- and
    /// provider-before-consumer activation order; or refuses, before anything is activated.
    #[verifier::rlimit(40)]
    pub fn resolve(&self, selection: &FeatureSelection) -> (r: Result<ResolvedFeatures, ResolveError>)
        requires
            self.wf(),
            selection.wf(),
        ensures
            r matches Ok(res) ==> plan_valid(self.spec_manifests(), selection.spec_enabled(), selection.spec_disabled(),
                selection.spec_preferred(), res.spec_enabled(), res.spec_providers(), res.spec_order()),
            r matches Err(e) ==> refusal_justified(self.spec_manifests(), selection.spec_enabled(), selection.spec_disabled(),
                selection.spec_preferred(), e),
    {
        let ghost ms = self.manifests@;
        let ghost e = selection.spec_enabled();
        let ghost d = selection.spec_disabled();
        let ghost pref = selection.spec_preferred();
        match validate_selection(&self.manifests, selection) {
            Err(err) => {
                return Err(err);
            },
            Ok(()) => {},
        }
        let mut enabled = match initial_features(&self.manifests, selection) {
            Err(err) => {
                return Err(err);
            },
            Ok(en) => en,
        };
        let ghost init = feature_ids(enabled@);
        match close_dependencies(&self.manifests, &mut enabled, &selection.disabled) {
            Err(err) => {
                proof {
                    if err is MissingDependency {
                        lemma_forced_active(ms, e, d, pref, init, err->MissingDependency_feature@);
                    } else {
                        lemma_forced_active(ms, e, d, pref, init, err->DependencyDisabled_feature@);
                    }
                }
                return Err(err);
            },
            Ok(()) => {},
        }
        let ghost en = feature_ids(enabled@);
        proof {
            assert(active_closure(ms, e, d, pref, en)) by {
                assert forall|x: Seq<char>| #[trigger] initially_active(ms, e, d, pref, x) implies en.contains(x) by {
                    assert(init.contains(x));
                }
            }
            assert forall|x: Seq<char>| #[trigger] en.contains(x) implies forced_active(ms, e, d, pref, x) by {
                lemma_forced_active(ms, e, d, pref, init, x);
            }
            assert forall|x: Seq<char>| #[trigger] forced_active(ms, e, d, pref, x) implies en.contains(x) by {
                assert(active_closure(ms, e, d, pref, en));
            }
        }
        match validate_conflicts(&self.manifests, &enabled) {
            Err(err) => {
                return Err(err);
            },
            Ok(()) => {},
        }
        proof {
            assert forall|i: int| 0 <= i < pref.len() implies en.contains(#[trigger] pref[i].1@)
                && manifest_of(ms, pref[i].1@).spec_provides().contains(pref[i].0@) by {
                assert(preferred_provider(pref, pref[i].1@));
                assert(initially_active(ms, e, d, pref, pref[i].1@));
                assert(init.contains(pref[i].1@));
            }
        }
        let providers = match resolve_services(&self.manifests, &enabled, &selection.preferred_providers) {
            Err(err) => {
                proof {
                    if err is AmbiguousService {
                        let sv = err->AmbiguousService_service@;
                        let f = choose|f: Seq<char>| en.contains(f) && #[trigger] manifest_of(ms, f).spec_requires().contains(sv);
                        assert(forced_active(ms, e, d, pref, f));
                    }
                }
                return Err(err);
            },
            Ok(pv) => pv,
        };
        let ghost pv = providers@;
        proof {
            assert forall|a: Seq<char>, s: Seq<char>| #[trigger] en.contains(a) && #[trigger] manifest_of(ms, a).spec_requires().contains(s)
                implies provider_of(pv, s) is Some && en.contains(provider_of(pv, s).unwrap()) by {
                let i = binding_index(pv, s);
                assert(en.contains(pv[i].1@));
            }
        }
        let order = match activation_order(&self.manifests, &enabled, &providers) {
            Err(err) => {
                proof {
                    if err is DependencyCycle {
                        let cy = feature_ids(err->DependencyCycle_0@);
                        assert forall|k: int| 0 <= k < cy.len() - 1 implies #[trigger] needs(ms, cy[k], cy[k + 1]) by {
                            assert(prerequisite(ms, en, pv, cy[k], cy[k + 1]));
                            lemma_prerequisite_needs(ms, en, pv, cy[k], cy[k + 1]);
                        }
                        assert forall|k: int| 0 <= k < cy.len() implies forced_active(ms, e, d, pref, #[trigger] cy[k]) by {
                            let j = if k == 0 { cy.len() - 2 } else { k - 1 };
                            assert(prerequisite(ms, en, pv, cy[j], cy[j + 1]));
                            lemma_prerequisite_needs(ms, en, pv, cy[j], cy[j + 1]);
                            assert(en.contains(cy[k]));
                        }
                    }
                }
                return Err(err);
            },
            Ok(order) => order,
        };
        let res = ResolvedFeatures { enabled, providers, activation_order: order };
        proof {
            assert forall|x: Seq<char>| #[trigger] initially_active(ms, e, d, pref, x) implies en.contains(x) by {
                assert(init.contains(x));
            }
            assert forall|x: Seq<char>| #[trigger] en.contains(x) implies initially_active(ms, e, d, pref, x)
                || exists|g: Seq<char>| en.contains(g) && #[trigger] manifest_of(ms, g).spec_dependencies().contains(x) by {
                if init.contains(x) {
                    assert(initially_active(ms, e, d, pref, x));
                }
            }
        }
        Ok(res)
    }
}

/// The diagnostic text of a refused registration.
pub open spec fn registration_error_text(e: RegistrationError) -> Seq<char> {
    match e {
        RegistrationError::DuplicateFeature(id) => "feature "@ + id@ + " is already registered"@,
    }
}

impl RegistrationError {
    /// The diagnostic text of the error.
    pub fn message(&self) -> (m: String)
        ensures
            m@ == registration_error_text(*self),
    {
        let mut m = String::new();
        match self {
            RegistrationError::DuplicateFeature(id) => {
                push_text(&mut m, "feature ");
                push_text(&mut m, id.as_str());
                push_text(&mut m, " is already registered");
            },
        }
        proof {
            assert(m@ =~= registration_error_text(*self));
        }
        m
    }
}

} // verus!
