//! Supervised lifecycle host for trusted bundled product features.

use vstd::prelude::*;
use crate::extension::{copy_features, feature_ids, FeatureId, FeatureManifest, FeatureOrigin, ServiceId};
use crate::registry::{
    manifest_ids, registration_error_text, resolve_error_text, plan_valid, provider_of, refusal_justified, registered, FeatureRegistry,
    FeatureSelection, RegistrationError, ResolveError, ResolvedFeatures,
};

use crate::text::{decimal, push_decimal, push_text};

verus! {

/// Runtime error reported by one bundled feature implementation.
#[derive(Clone, Debug, PartialEq, Eq)]
pub struct FeatureError {
    message: String,
}

impl FeatureError {
    pub closed spec fn spec_message(&self) -> Seq<char> {
        self.message@
    }

    /// Creates a feature-local runtime error.
    pub fn new(message: &str) -> (e: Self)
        ensures
            e.spec_message() == message@,
    {
        FeatureError { message: message.to_owned() }
    }

    /// Human-readable implementation detail suitable for diagnostics.
    pub fn message(&self) -> (m: &str)
        ensures
            m@ == self.spec_message(),
    {
        self.message.as_str()
    }
}

/// Read-only activation context exposed to bundled feature implementations.
pub struct FeatureActivationContext<'a> {
    plan: &'a ResolvedFeatures,
}

impl<'a> FeatureActivationContext<'a> {
    pub closed spec fn spec_plan(&self) -> ResolvedFeatures {
        *self.plan
    }

    fn new(plan: &'a ResolvedFeatures) -> (c: Self)
        ensures
            c.spec_plan() == *plan,
    {
        FeatureActivationContext { plan }
    }

    /// Returns whether a feature is enabled in the resolved product profile.
    pub fn is_enabled(&self, feature: &FeatureId) -> (b: bool)
        ensures
            b == self.spec_plan().spec_enabled().contains(feature@),
    {
        self.plan.is_enabled(feature)
    }

    /// Returns the selected provider for a replaceable service, when one is bound.
    pub fn provider_for(&self, service: &ServiceId) -> (r: Option<&FeatureId>)
        ensures
            match provider_of(self.spec_plan().spec_providers(), service@) {
                Some(p) => r matches Some(f) && f@ == p,
                None => r is None,
            },
    {
        self.plan.provider(service)
    }
}

/// Trusted, statically linked feature implementation supervised by [`FeatureHost`].
///
/// `deactivate` must be safe after a partially failed `activate`, because the host invokes
/// it while rolling back failed startup.
pub trait BundledFeature: Send {
    /// The stable ID the implementation reports; an implementation that does not describe it
    /// reports none as far as its callers know.
    open spec fn spec_feature_id(&self) -> Seq<char> {
        Seq::empty()
    }

    /// Stable ID matching the registered manifest.
    fn id(&self) -> (r: &FeatureId)
        ensures
            r@ == self.spec_feature_id();

    /// Acquires registrations and resources needed by this feature.
    fn activate(&mut self, context: &FeatureActivationContext<'_>) -> Result<(), FeatureError>;

    /// Releases all registrations and resources owned by this feature.
    fn deactivate(&mut self) -> Result<(), FeatureError>;
}

/// Coarse lifecycle state of the bundled feature host.
#[derive(Clone, Copy, Debug, PartialEq, Eq, Structural)]
pub enum HostState {
    /// Catalogue may be extended and a profile may be started.
    Ready,
    /// A validated profile is fully active.
    Running,
    /// Cleanup failed and some feature resources may still be active.
    Faulted,
}

impl Default for HostState {
    fn default() -> (s: Self)
        ensures
            s == HostState::Ready,
    {
        HostState::Ready
    }
}

/// Registration errors detected before product-profile resolution.
#[derive(Clone, Debug, PartialEq, Eq)]
pub enum HostRegistrationError {
    /// The catalogue cannot change while active or faulted.
    InvalidState(HostState),
    /// External code must use a sandbox host, never the bundled in-process path.
    ExternalFeature(FeatureId),
    /// Manifest identity and implementation identity disagree.
    IdMismatch { manifest: FeatureId, implementation: FeatureId },
    /// Two in-process implementations claimed the same stable feature ID.
    DuplicateImplementation(FeatureId),
    /// The declarative catalogue rejected the manifest.
    Catalogue(RegistrationError),
}

/// One failed feature cleanup operation.
#[derive(Clone, Debug, PartialEq, Eq)]
pub struct FeatureFailure {
    /// Feature whose cleanup failed.
    pub feature: FeatureId,
    /// Feature-local diagnostic.
    pub error: FeatureError,
}

/// Startup errors. Resolution errors occur before any activation.
#[derive(Clone, Debug, PartialEq, Eq)]
pub enum HostStartError {
    /// The host must be ready before a new profile starts.
    InvalidState(HostState),
    /// The declarative profile failed resolution before activation.
    Resolution(ResolveError),
    /// A resolved feature has no registered implementation.
    MissingImplementation(FeatureId),
    /// One feature failed activation; rollback failures are reported separately.
    Activation { feature: FeatureId, error: FeatureError, rollback_failures: Vec<FeatureFailure> },
}

/// Shutdown error containing every feature that could not clean up.
#[derive(Clone, Debug, PartialEq, Eq)]
pub struct HostStopError {
    failures: Vec<FeatureFailure>,
}

impl HostStopError {
    pub closed spec fn spec_failures(&self) -> Seq<FeatureFailure> {
        self.failures@
    }

    /// Cleanup failures collected while continuing best-effort reverse shutdown.
    pub fn failures(&self) -> (f: &[FeatureFailure])
        ensures
            f@ == self.spec_failures(),
    {
        self.failures.as_slice()
    }
}

/// The features of a list of failures.
pub open spec fn failure_ids(fs: Seq<FeatureFailure>) -> Seq<Seq<char>> {
    fs.map_values(|f: FeatureFailure| f.feature@)
}

/// Owns the bundled feature catalogue, instances and supervised lifecycle.
pub struct FeatureHost {
    registry: FeatureRegistry,
    implementations: Vec<(FeatureId, Box<dyn BundledFeature>)>,
    active: Vec<FeatureId>,
    plan: Option<ResolvedFeatures>,
    state: HostState,
    calls: Ghost<Seq<FeatureCall>>,
}

/// One call the host made on a feature implementation: `true` for `activate` (`false` for
/// `deactivate`), the feature, and whether the call succeeded.
pub type FeatureCall = (bool, Seq<char>, bool);

/// Successful `activate` calls on `ids`, in order.
pub open spec fn successful_activations(ids: Seq<Seq<char>>) -> Seq<FeatureCall> {
    ids.map_values(|x: Seq<char>| (true, x, true))
}

/// `calls` are one `deactivate` call on each of `ids`, the last first.
pub open spec fn reverse_deactivations(calls: Seq<FeatureCall>, ids: Seq<Seq<char>>) -> bool {
    &&& calls.len() == ids.len()
    &&& forall|i: int| 0 <= i < calls.len() ==> !(#[trigger] calls[i]).0 && calls[i].1 == ids[ids.len() - 1 - i]
}

/// The features whose calls in `calls` failed, in call order.
pub open spec fn failed_features(calls: Seq<FeatureCall>) -> Seq<Seq<char>>
    decreases calls.len(),
{
    if calls.len() == 0 {
        Seq::empty()
    } else if calls.last().2 {
        failed_features(calls.drop_last())
    } else {
        failed_features(calls.drop_last()).push(calls.last().1)
    }
}

proof fn lemma_failed_features_concat(a: Seq<FeatureCall>, b: Seq<FeatureCall>)
    ensures
        failed_features(a + b) == failed_features(a) + failed_features(b),
    decreases b.len(),
{
    if b.len() == 0 {
        assert(a + b =~= a);
        assert(failed_features(a) + failed_features(b) =~= failed_features(a));
    } else {
        assert((a + b).drop_last() =~= a + b.drop_last());
        lemma_failed_features_concat(a, b.drop_last());
        if !b.last().2 {
            assert(failed_features(a) + failed_features(b.drop_last()).push(b.last().1)
                =~= (failed_features(a) + failed_features(b.drop_last())).push(b.last().1));
        }
    }
}

/// The calls logged after `before`, when `after` extends it.
pub open spec fn calls_since(before: Seq<FeatureCall>, after: Seq<FeatureCall>) -> Seq<FeatureCall> {
    after.subrange(before.len() as int, after.len() as int)
}

/// `after` is `before` with more calls appended.
pub open spec fn extends(before: Seq<FeatureCall>, after: Seq<FeatureCall>) -> bool {
    before.len() <= after.len() && after.subrange(0, before.len() as int) == before
}

/// A start that failed at `order[k]`: `activate` succeeded on `order[0..k]` and failed on
/// `order[k]`; then `deactivate` was called on `order[k]`, `order[k - 1]`, ..., `order[0]`; the
/// features whose cleanup failed are `failures`, in call order.
pub open spec fn failed_start(calls: Seq<FeatureCall>, order: Seq<Seq<char>>, k: int, failures: Seq<Seq<char>>) -> bool {
    &&& 0 <= k < order.len()
    &&& calls.len() == 2 * k + 2
    &&& calls.subrange(0, k) == successful_activations(order.subrange(0, k))
    &&& calls[k] == (true, order[k], false)
    &&& reverse_deactivations(calls.subrange(k + 1, 2 * k + 2), order.subrange(0, k + 1))
    &&& failures == failed_features(calls.subrange(k + 1, 2 * k + 2))
}

/// The registered implementation identifiers.
pub open spec fn implementation_ids(v: Seq<(FeatureId, Box<dyn BundledFeature>)>) -> Seq<Seq<char>> {
    v.map_values(|p: (FeatureId, Box<dyn BundledFeature>)| p.0@)
}

/// `pos` places each feature of `after` in `before`, at or after position `k`, in increasing order.
pub open spec fn placed_in_order(after: Seq<Seq<char>>, before: Seq<Seq<char>>, k: int, pos: Seq<int>) -> bool {
    &&& pos.len() == after.len()
    &&& forall|i: int| 0 <= i < pos.len() ==> k <= #[trigger] pos[i] < before.len() && before[pos[i]] == after[i]
    &&& forall|i: int, j: int| 0 <= i < j < pos.len() ==> #[trigger] pos[i] < #[trigger] pos[j]
}

/// The features of `after` appear in `before`, in the same order.
pub open spec fn kept_in_order(after: Seq<Seq<char>>, before: Seq<Seq<char>>) -> bool {
    exists|pos: Seq<int>| #[trigger] placed_in_order(after, before, 0, pos)
}

impl FeatureHost {
    pub closed spec fn spec_registry(&self) -> FeatureRegistry {
        self.registry
    }

    pub closed spec fn spec_implementations(&self) -> Seq<Seq<char>> {
        implementation_ids(self.implementations@)
    }

    pub closed spec fn spec_active(&self) -> Seq<Seq<char>> {
        feature_ids(self.active@)
    }

    pub closed spec fn spec_plan(&self) -> Option<ResolvedFeatures> {
        self.plan
    }

    pub closed spec fn spec_state(&self) -> HostState {
        self.state
    }

    /// Every call the host has made on feature implementations, in order.
    pub closed spec fn spec_calls(&self) -> Seq<FeatureCall> {
        self.calls@
    }

    /// The host invariant: one implementation per registered feature, active features are
    /// implemented, and the state agrees with the active set and plan.
    pub open spec fn wf(&self) -> bool {
        &&& self.spec_registry().wf()
        &&& self.spec_implementations().no_duplicates()
        &&& forall|k: Seq<char>| #[trigger] registered(self.spec_registry().spec_manifests(), k)
            <==> self.spec_implementations().contains(k)
        &&& self.spec_active().no_duplicates()
        &&& forall|k: Seq<char>| #[trigger] self.spec_active().contains(k) ==> self.spec_implementations().contains(k)
        &&& self.spec_state() == HostState::Ready ==> self.spec_active().len() == 0 && self.spec_plan() is None
        &&& self.spec_state() == HostState::Running ==> self.spec_plan() is Some
        &&& self.spec_state() == HostState::Faulted ==> self.spec_active().len() > 0
    }

    /// Creates an empty host in the ready state.
    pub fn new() -> (h: Self)
        ensures
            h.wf(),
            h.spec_state() == HostState::Ready,
            h.spec_registry().spec_manifests().len() == 0,
            h.spec_calls().len() == 0,
    {
        let h = FeatureHost {
            registry: FeatureRegistry::new(),
            implementations: Vec::new(),
            active: Vec::new(),
            plan: None,
            state: HostState::Ready,
            calls: Ghost(Seq::empty()),
        };
        proof {
            assert(implementation_ids(h.implementations@) =~= Seq::<Seq<char>>::empty());
            assert(feature_ids(h.active@) =~= Seq::<Seq<char>>::empty());
            assert forall|k: Seq<char>| #[trigger] registered(h.registry.spec_manifests(), k) implies false by {
                let i = choose|i: int| 0 <= i < manifest_ids(h.registry.spec_manifests()).len()
                    && manifest_ids(h.registry.spec_manifests())[i] == k;
            }
        }
        h
    }

    /// Current lifecycle state.
    pub fn state(&self) -> (s: HostState)
        ensures
            s == self.spec_state(),
    {
        self.state
    }

    /// Active features in activation order.
    pub fn active_features(&self) -> (a: &[FeatureId])
        ensures
            feature_ids(a@) == self.spec_active(),
    {
        self.active.as_slice()
    }

    /// Current validated plan while running or faulted.
    pub fn resolved_plan(&self) -> (p: Option<&ResolvedFeatures>)
        ensures
            match self.spec_plan() {
                Some(q) => p == Some(&q),
                None => p is None,
            },
    {
        match &self.plan {
            Some(q) => Some(q),
            None => None,
        }
    }

    /// Position of a feature's implementation.
    fn find_implementation(&self, id: &FeatureId) -> (r: Option<usize>)
        ensures
            r matches Some(i) ==> i < self.implementations@.len() && self.implementations@[i as int].0@ == id@,
            r is None ==> !self.spec_implementations().contains(id@),
    {
        let mut i: usize = 0;
        while i < self.implementations.len()
            invariant
                0 <= i <= self.implementations@.len(),
                forall|j: int| 0 <= j < i ==> (#[trigger] self.implementations@[j]).0@ != id@,
            decreases self.implementations@.len() - i,
        {
            if self.implementations[i].0.same(id) {
                return Some(i);
            }
            i = i + 1;
        }
        proof {
            if self.spec_implementations().contains(id@) {
                let k = choose|k: int| 0 <= k < self.spec_implementations().len() && self.spec_implementations()[k] == id@;
                assert(self.implementations@[k].0@ == id@);
            }
        }
        None
    }

    /// Registers one trusted bundled feature and its declarative manifest, only while ready,
    /// only for bundled manifests, and only when the implementation reports the manifest's id.
    pub fn register(&mut self, manifest: FeatureManifest, feature: Box<dyn BundledFeature>) -> (r: Result<(), HostRegistrationError>)
        requires
            old(self).wf(),
            manifest.wf(),
        ensures
            final(self).wf(),
            final(self).spec_state() == old(self).spec_state(),
            final(self).spec_calls() == old(self).spec_calls(),
            old(self).spec_state() != HostState::Ready ==> r == Err::<(), HostRegistrationError>(
                HostRegistrationError::InvalidState(old(self).spec_state())),
            old(self).spec_state() == HostState::Ready && manifest.spec_origin() != FeatureOrigin::Bundled
                ==> (r matches Err(HostRegistrationError::ExternalFeature(id)) && id@ == manifest.spec_id()),
            r matches Err(HostRegistrationError::IdMismatch { manifest: m, implementation: i }) ==> m@ == manifest.spec_id() && i@ != m@
                && i@ == feature.spec_feature_id(),
            old(self).spec_state() == HostState::Ready && manifest.spec_origin() == FeatureOrigin::Bundled
                ==> ((r is Err && r->Err_0 is IdMismatch) <==> feature.spec_feature_id() != manifest.spec_id()),
            r matches Err(HostRegistrationError::DuplicateImplementation(id)) ==> id@ == manifest.spec_id()
                && registered(old(self).spec_registry().spec_manifests(), manifest.spec_id()),
            !(r is Err && r->Err_0 is Catalogue),
            old(self).spec_state() == HostState::Ready && manifest.spec_origin() == FeatureOrigin::Bundled
                ==> r is Ok || r->Err_0 is IdMismatch || r->Err_0 is DuplicateImplementation,
            r matches Err(HostRegistrationError::DuplicateImplementation(_)) ==> old(self).spec_state() == HostState::Ready
                && manifest.spec_origin() == FeatureOrigin::Bundled,
            r is Err ==> final(self).spec_registry() == old(self).spec_registry()
                && final(self).spec_implementations() == old(self).spec_implementations(),
            r is Ok ==> {
                &&& old(self).spec_state() == HostState::Ready
                &&& manifest.spec_origin() == FeatureOrigin::Bundled
                &&& !registered(old(self).spec_registry().spec_manifests(), manifest.spec_id())
                &&& registered(final(self).spec_registry().spec_manifests(), manifest.spec_id())
                &&& final(self).spec_implementations() == old(self).spec_implementations().push(manifest.spec_id())
            },
    {
        if self.state != HostState::Ready {
            return Err(HostRegistrationError::InvalidState(self.state));
        }
        let manifest_id = manifest.id().duplicate();
        let implementation_id = feature.id().duplicate();
        if manifest.origin() != FeatureOrigin::Bundled {
            return Err(HostRegistrationError::ExternalFeature(manifest_id));
        }
        if !manifest_id.same(&implementation_id) {
            return Err(HostRegistrationError::IdMismatch { manifest: manifest_id, implementation: implementation_id });
        }
        match self.find_implementation(&manifest_id) {
            Some(i) => {
                proof {
                    assert(self.spec_implementations()[i as int] == manifest_id@);
                    assert(self.spec_implementations().contains(manifest_id@));
                }
                return Err(HostRegistrationError::DuplicateImplementation(manifest_id));
            },
            None => {},
        }
        let ghost before_ms = self.registry.spec_manifests();
        proof {
            assert(!registered(before_ms, manifest_id@));
            assert(manifest_id@ == manifest.spec_id());
        }
        match self.registry.register(manifest) {
            Err(e) => {
                proof {
                    assert(false);
                }
                return Err(HostRegistrationError::Catalogue(e));
            },
            Ok(()) => {},
        }
        let ghost before_impl = implementation_ids(self.implementations@);
        let ghost before_vec = self.implementations@;
        let ghost mid = manifest_id@;
        let entry = (manifest_id, feature);
        assert(entry.0@ == mid);
        self.implementations.push(entry);
        proof {
            let after_impl = implementation_ids(self.implementations@);
            assert(self.implementations@ == before_vec.push(entry));
            assert(after_impl =~= before_impl.push(mid));
            assert forall|a: int, b: int| 0 <= a < after_impl.len() && 0 <= b < after_impl.len() && a != b
                implies after_impl[a] != after_impl[b] by {
                if a < before_impl.len() && b < before_impl.len() {
                    assert(before_impl[a] == after_impl[a]);
                    assert(before_impl[b] == after_impl[b]);
                } else if a < before_impl.len() {
                    assert(before_impl[a] == after_impl[a]);
                    assert(before_impl.contains(after_impl[a]));
                } else {
                    assert(before_impl[b] == after_impl[b]);
                    assert(before_impl.contains(after_impl[b]));
                }
            }
            let ms = self.registry.spec_manifests();
            assert forall|k: Seq<char>| #[trigger] registered(ms, k) <==> after_impl.contains(k) by {
                assert(registered(before_ms, k) == before_impl.contains(k));
                assert(manifest_ids(ms).to_set().contains(k) == manifest_ids(ms).contains(k));
                assert(manifest_ids(before_ms).to_set().contains(k) == manifest_ids(before_ms).contains(k));
                if after_impl.contains(k) && k != mid {
                    let j = choose|j: int| 0 <= j < after_impl.len() && after_impl[j] == k;
                    assert(before_impl[j] == k);
                }
                if before_impl.contains(k) {
                    let j = choose|j: int| 0 <= j < before_impl.len() && before_impl[j] == k;
                    assert(after_impl[j] == k);
                }
                if k == mid {
                    assert(after_impl[before_impl.len() as int] == k);
                }
            }
            assert(registered(ms, mid)) by {
                assert(registered(before_ms, mid) == before_impl.contains(mid));
                assert(after_impl[before_impl.len() as int] == mid);
            }
            assert forall|k: Seq<char>| #[trigger] self.spec_active().contains(k) implies after_impl.contains(k) by {
                assert(before_impl.contains(k));
                let j = choose|j: int| 0 <= j < before_impl.len() && before_impl[j] == k;
                assert(after_impl[j] == k);
            }
        }
        Ok(())
    }

    /// Deactivates every active feature, most recently activated first; keeps the features
    /// whose cleanup failed as still active (in activation order) and reports them.
    fn deactivate_all_active(&mut self) -> (failures: Vec<FeatureFailure>)
        requires
            forall|k: Seq<char>| #[trigger] old(self).spec_active().contains(k) ==> old(self).spec_implementations().contains(k),
            old(self).spec_active().no_duplicates(),
        ensures
            final(self).spec_registry() == old(self).spec_registry(),
            final(self).spec_implementations() == old(self).spec_implementations(),
            final(self).spec_state() == old(self).spec_state(),
            final(self).spec_plan() == old(self).spec_plan(),
            final(self).spec_active().no_duplicates(),
            forall|k: Seq<char>| #[trigger] final(self).spec_active().contains(k) ==> old(self).spec_active().contains(k),
            failures@.len() == final(self).spec_active().len(),
            forall|i: int| 0 <= i < failures@.len() ==> (#[trigger] failure_ids(failures@)[i])
                == final(self).spec_active()[final(self).spec_active().len() - 1 - i],
            kept_in_order(final(self).spec_active(), old(self).spec_active()),
            extends(old(self).spec_calls(), final(self).spec_calls()),
            reverse_deactivations(calls_since(old(self).spec_calls(), final(self).spec_calls()), old(self).spec_active()),
            failure_ids(failures@) == failed_features(calls_since(old(self).spec_calls(), final(self).spec_calls())),
    {
        let ghost old_active = feature_ids(self.active@);
        let ghost mut pos: Seq<int> = Seq::empty();
        let ghost calls0 = self.calls@;
        let ghost mut seg: Seq<FeatureCall> = Seq::empty();
        let mut failures: Vec<FeatureFailure> = Vec::new();
        let mut failed: Vec<FeatureId> = Vec::new();
        let mut k: usize = self.active.len();
        proof {
            assert(feature_ids(failed@) =~= Seq::<Seq<char>>::empty());
        }
        while k > 0
            invariant
                k <= self.active@.len(),
                old_active == feature_ids(self.active@),
                old_active.no_duplicates(),
                forall|x: Seq<char>| #[trigger] old_active.contains(x) ==> implementation_ids(self.implementations@).contains(x),
                implementation_ids(self.implementations@) == old(self).spec_implementations(),
                self.registry == old(self).registry,
                self.state == old(self).state,
                self.plan == old(self).plan,
                feature_ids(failed@).no_duplicates(),
                forall|x: Seq<char>| #[trigger] feature_ids(failed@).contains(x) ==> exists|t: int| k <= t < old_active.len() && old_active[t] == x,
                failures@.len() == failed@.len(),
                forall|i: int| 0 <= i < failures@.len() ==> (#[trigger] failure_ids(failures@)[i])
                    == feature_ids(failed@)[feature_ids(failed@).len() - 1 - i],
                placed_in_order(feature_ids(failed@), old_active, k as int, pos),
                self.calls@ == calls0 + seg,
                calls0 == old(self).calls@,
                reverse_deactivations(seg, old_active.subrange(k as int, old_active.len() as int)),
                failure_ids(failures@) == failed_features(seg),
            ensures
                k == 0,
            decreases k,
        {
            k = k - 1;
            let feature_id = self.active[k].duplicate();
            proof {
                assert(old_active[k as int] == feature_id@);
                assert(old_active.contains(feature_id@));
            }
            let i = match self.find_implementation(&feature_id) {
                Some(i) => i,
                None => {
                    proof {
                        assert(false);
                    }
                    break;
                },
            };
            let ghost impls_before = implementation_ids(self.implementations@);
            let result = self.implementations[i].1.deactivate();
            let ghost seg0 = seg;
            proof {
                assert(implementation_ids(self.implementations@) =~= impls_before);
                seg = seg.push((false, feature_id@, result is Ok));
                let ids = old_active.subrange(k as int, old_active.len() as int);
                assert forall|j: int| 0 <= j < seg.len() implies !(#[trigger] seg[j]).0 && seg[j].1 == ids[ids.len() - 1 - j] by {
                    if j < seg0.len() {
                        assert(seg[j] == seg0[j]);
                        assert(old_active.subrange(k + 1, old_active.len() as int)[seg0.len() - 1 - j] == ids[ids.len() - 1 - j]);
                    }
                }
                assert(seg.drop_last() =~= seg0);
            }
            self.calls = Ghost(self.calls@.push((false, feature_id@, result is Ok)));
            proof {
                assert(self.calls@ =~= calls0 + seg);
            }
            match result {
                Err(error) => {
                    let ghost f_before = feature_ids(failed@);
                    let ghost fl_before = failures@;
                    failed.insert(0, feature_id.duplicate());
                    failures.push(FeatureFailure { feature: feature_id, error });
                    proof {
                        let fa = feature_ids(failed@);
                        assert(fa =~= seq![old_active[k as int]] + f_before);
                        assert(!f_before.contains(old_active[k as int])) by {
                            if f_before.contains(old_active[k as int]) {
                                let t = choose|t: int| k + 1 <= t < old_active.len() && old_active[t] == old_active[k as int];
                            }
                        }
                        assert forall|a: int, b: int| 0 <= a < fa.len() && 0 <= b < fa.len() && a != b implies fa[a] != fa[b] by {
                            if a > 0 && b > 0 {
                                assert(f_before[a - 1] == fa[a]);
                                assert(f_before[b - 1] == fa[b]);
                            } else if a == 0 {
                                assert(f_before[b - 1] == fa[b]);
                                assert(f_before.contains(fa[b]));
                            } else {
                                assert(f_before[a - 1] == fa[a]);
                                assert(f_before.contains(fa[a]));
                            }
                        }
                        assert forall|x: Seq<char>| #[trigger] fa.contains(x) implies exists|t: int| k <= t < old_active.len() && old_active[t] == x by {
                            let j = choose|j: int| 0 <= j < fa.len() && fa[j] == x;
                            if j > 0 {
                                assert(f_before[j - 1] == x);
                                assert(f_before.contains(x));
                            } else {
                                assert(old_active[k as int] == x);
                            }
                        }
                        let p0 = pos;
                        pos = seq![k as int] + p0;
                        assert forall|a: int| 0 <= a < pos.len() implies k <= #[trigger] pos[a] < old_active.len()
                            && old_active[pos[a]] == fa[a] by {
                            if a > 0 {
                                assert(pos[a] == p0[a - 1]);
                                assert(f_before[a - 1] == fa[a]);
                            }
                        }
                        assert forall|a: int, b: int| 0 <= a < b < pos.len() implies #[trigger] pos[a] < #[trigger] pos[b] by {
                            assert(pos[b] == p0[b - 1]);
                            if a > 0 {
                                assert(pos[a] == p0[a - 1]);
                            }
                        }
                        assert forall|ii: int| 0 <= ii < failures@.len() implies (#[trigger] failure_ids(failures@)[ii])
                            == fa[fa.len() - 1 - ii] by {
                            if ii < fl_before.len() {
                                assert(failure_ids(failures@)[ii] == failure_ids(fl_before)[ii]);
                            }
                        }
                        assert(failure_ids(failures@) =~= failure_ids(fl_before).push(feature_id@));
                    }
                },
                Ok(()) => {
                    proof {
                        assert forall|x: Seq<char>| #[trigger] feature_ids(failed@).contains(x) implies exists|t: int| k <= t < old_active.len() && old_active[t] == x by {
                            let t = choose|t: int| k + 1 <= t < old_active.len() && old_active[t] == x;
                        }
                    }
                },
            }
        }
        self.active = failed;
        proof {
            assert(old_active.subrange(k as int, old_active.len() as int) =~= old_active);
            assert(calls_since(calls0, self.calls@) =~= seg);
            assert(self.calls@.subrange(0, calls0.len() as int) =~= calls0);
            assert(placed_in_order(self.spec_active(), old(self).spec_active(), 0, pos));
            assert forall|x: Seq<char>| #[trigger] self.spec_active().contains(x) implies old_active.contains(x) by {
                let t = choose|t: int| 0 <= t < old_active.len() && old_active[t] == x;
            }
        }
        failures
    }

    /// After cleanup: ready when nothing remains active, faulted otherwise.
    fn finish_cleanup_state(&mut self)
        ensures
            final(self).spec_calls() == old(self).spec_calls(),
            final(self).spec_registry() == old(self).spec_registry(),
            final(self).spec_implementations() == old(self).spec_implementations(),
            final(self).spec_active() == old(self).spec_active(),
            old(self).spec_active().len() == 0 ==> final(self).spec_state() == HostState::Ready && final(self).spec_plan() is None,
            old(self).spec_active().len() > 0 ==> final(self).spec_state() == HostState::Faulted && final(self).spec_plan() == old(self).spec_plan(),
    {
        if self.active.len() == 0 {
            self.state = HostState::Ready;
            self.plan = None;
        } else {
            self.state = HostState::Faulted;
        }
    }

    /// Deactivates all active features in reverse activation order. Idempotent while ready; a
    /// faulted host may be stopped again to retry cleanup of features whose deactivation failed.
    pub fn stop(&mut self) -> (r: Result<(), HostStopError>)
        requires
            old(self).wf(),
        ensures
            final(self).wf(),
            final(self).spec_registry() == old(self).spec_registry(),
            final(self).spec_implementations() == old(self).spec_implementations(),
            old(self).spec_state() == HostState::Ready ==> r is Ok && final(self).spec_active().len() == 0
                && final(self).spec_state() == HostState::Ready && *final(self) == *old(self),
            old(self).spec_state() != HostState::Ready ==> {
                let since = calls_since(old(self).spec_calls(), final(self).spec_calls());
                &&& extends(old(self).spec_calls(), final(self).spec_calls())
                &&& reverse_deactivations(since, old(self).spec_active())
                &&& final(self).spec_active() == failed_features(since).reverse()
                &&& (r is Ok <==> failed_features(since).len() == 0)
                &&& r matches Err(e) ==> failure_ids(e.spec_failures()) == failed_features(since)
            },
            forall|k: Seq<char>| #[trigger] final(self).spec_active().contains(k) ==> old(self).spec_active().contains(k),
            r is Ok <==> final(self).spec_active().len() == 0,
            r is Ok ==> final(self).spec_state() == HostState::Ready && final(self).spec_plan() is None,
            kept_in_order(final(self).spec_active(), old(self).spec_active()),
            r matches Err(e) ==> final(self).spec_state() == HostState::Faulted
                && e.spec_failures().len() == final(self).spec_active().len()
                && forall|i: int| 0 <= i < e.spec_failures().len() ==> (#[trigger] failure_ids(e.spec_failures())[i])
                    == final(self).spec_active()[final(self).spec_active().len() - 1 - i],
    {
        if self.state == HostState::Ready {
            proof {
                assert(placed_in_order(self.spec_active(), self.spec_active(), 0, Seq::<int>::empty()));
            }
            return Ok(());
        }
        let failures = self.deactivate_all_active();
        proof {
            let since = calls_since(old(self).spec_calls(), self.spec_calls());
            assert(self.spec_active() =~= failed_features(since).reverse());
        }
        self.finish_cleanup_state();
        if failures.len() == 0 {
            Ok(())
        } else {
            Err(HostStopError { failures })
        }
    }

    /// Resolves and activates one product profile. Nothing activates unless the whole plan
    /// resolved. A failed activation deactivates the failing feature and then every feature
    /// activated before it, most recent first; features whose cleanup fails stay active and
    /// fault the host.
    pub fn start(&mut self, selection: &FeatureSelection) -> (r: Result<(), HostStartError>)
        requires
            old(self).wf(),
            selection.wf(),
        ensures
            final(self).wf(),
            final(self).spec_registry() == old(self).spec_registry(),
            final(self).spec_implementations() == old(self).spec_implementations(),
            old(self).spec_state() != HostState::Ready ==> r == Err::<(), HostStartError>(HostStartError::InvalidState(old(self).spec_state()))
                && *final(self) == *old(self),
            r matches Err(HostStartError::Resolution(e)) ==> refusal_justified(old(self).spec_registry().spec_manifests(),
                selection.spec_enabled(), selection.spec_disabled(), selection.spec_preferred(), e) && *final(self) == *old(self),
            !(r is Err && r->Err_0 is MissingImplementation),
            r matches Err(HostStartError::InvalidState(_)) ==> old(self).spec_state() != HostState::Ready,
            r is Ok ==> {
                &&& old(self).spec_state() == HostState::Ready
                &&& final(self).spec_state() == HostState::Running
                &&& final(self).spec_plan() matches Some(p)
                &&& plan_valid(old(self).spec_registry().spec_manifests(), selection.spec_enabled(), selection.spec_disabled(),
                    selection.spec_preferred(), p.spec_enabled(), p.spec_providers(), p.spec_order())
                &&& final(self).spec_active() == p.spec_order()
                &&& extends(old(self).spec_calls(), final(self).spec_calls())
                &&& calls_since(old(self).spec_calls(), final(self).spec_calls()) == successful_activations(p.spec_order())
            },
            r matches Err(HostStartError::Activation { feature, rollback_failures, .. }) ==> {
                &&& old(self).spec_state() == HostState::Ready
                &&& extends(old(self).spec_calls(), final(self).spec_calls())
                &&& exists|en: Seq<Seq<char>>, pv: Seq<(ServiceId, FeatureId)>, order: Seq<Seq<char>>, k: int|
                    #![trigger plan_valid(old(self).spec_registry().spec_manifests(), selection.spec_enabled(),
                        selection.spec_disabled(), selection.spec_preferred(), en, pv, order),
                        failed_start(calls_since(old(self).spec_calls(), final(self).spec_calls()), order, k,
                            failure_ids(rollback_failures@))]
                    plan_valid(old(self).spec_registry().spec_manifests(), selection.spec_enabled(),
                        selection.spec_disabled(), selection.spec_preferred(), en, pv, order)
                    && failed_start(calls_since(old(self).spec_calls(), final(self).spec_calls()), order, k,
                        failure_ids(rollback_failures@))
                    && feature@ == order[k]
                &&& final(self).spec_active() == failure_ids(rollback_failures@).reverse()
                &&& exists|en: Seq<Seq<char>>, pv: Seq<(ServiceId, FeatureId)>, order: Seq<Seq<char>>|
                    #[trigger] plan_valid(old(self).spec_registry().spec_manifests(), selection.spec_enabled(),
                        selection.spec_disabled(), selection.spec_preferred(), en, pv, order) && order.contains(feature@)
                        && kept_in_order(final(self).spec_active(), order)
                &&& final(self).spec_plan() matches Some(p) ==> {
                    &&& plan_valid(old(self).spec_registry().spec_manifests(), selection.spec_enabled(), selection.spec_disabled(),
                        selection.spec_preferred(), p.spec_enabled(), p.spec_providers(), p.spec_order())
                    &&& p.spec_order().contains(feature@)
                    &&& forall|x: Seq<char>| #[trigger] final(self).spec_active().contains(x) ==> p.spec_order().contains(x)
                }
                &&& (final(self).spec_active().len() > 0) == (final(self).spec_plan() is Some)
                &&& rollback_failures@.len() == final(self).spec_active().len()
                &&& forall|i: int| 0 <= i < rollback_failures@.len() ==> (#[trigger] failure_ids(rollback_failures@)[i])
                    == final(self).spec_active()[final(self).spec_active().len() - 1 - i]
                &&& (final(self).spec_state() == HostState::Ready) == (final(self).spec_active().len() == 0)
            },
    {
        if self.state != HostState::Ready {
            return Err(HostStartError::InvalidState(self.state));
        }
        let plan = match self.registry.resolve(selection) {
            Err(e) => {
                return Err(HostStartError::Resolution(e));
            },
            Ok(p) => p,
        };
        let ghost pl = plan;
        let order = copy_features(plan.activation_order());
        let ghost ord = feature_ids(order@);
        let ghost ms = self.registry.spec_manifests();
        proof {
            assert forall|x: Seq<char>| #[trigger] ord.contains(x) implies self.spec_implementations().contains(x) by {
                assert(ord.to_set().contains(x));
                assert(plan.spec_enabled().to_set().contains(x));
                assert(plan.spec_enabled().contains(x));
            }
        }
        let mut c: usize = 0;
        while c < order.len()
            invariant
                0 <= c <= order@.len(),
                ord == feature_ids(order@),
                *self == *old(self),
                forall|x: Seq<char>| #[trigger] ord.contains(x) ==> self.spec_implementations().contains(x),
            decreases order@.len() - c,
        {
            if self.find_implementation(&order[c]).is_none() {
                proof {
                    assert(ord[c as int] == order@[c as int]@);
                    assert(ord.contains(order@[c as int]@));
                }
                return Err(HostStartError::MissingImplementation(order[c].duplicate()));
            }
            c = c + 1;
        }
        self.plan = Some(plan);
        let plan_ref: &ResolvedFeatures = match &self.plan {
            Some(p) => p,
            None => {
                proof {
                    assert(false);
                }
                return Ok(());
            },
        };
        let context = FeatureActivationContext::new(plan_ref);
        let ghost impls = self.spec_implementations();
        let mut k: usize = 0;
        proof {
            assert(feature_ids(self.active@) =~= ord.subrange(0, 0));
            assert(self.calls@ =~= old(self).calls@ + successful_activations(ord.subrange(0, 0)));
        }
        while k < order.len()
            invariant
                old(self).wf(),
                old(self).spec_state() == HostState::Ready,
                impls == old(self).spec_implementations(),
                0 <= k <= order@.len(),
                ord == feature_ids(order@),
                ord.no_duplicates(),
                forall|x: Seq<char>| #[trigger] ord.contains(x) ==> impls.contains(x),
                impls == self.spec_implementations(),
                impls.no_duplicates(),
                feature_ids(self.active@) == ord.subrange(0, k as int),
                self.state == HostState::Ready,
                self.plan == Some(pl),
                pl.spec_order() == ord,
                plan_valid(old(self).spec_registry().spec_manifests(), selection.spec_enabled(), selection.spec_disabled(),
                    selection.spec_preferred(), pl.spec_enabled(), pl.spec_providers(), pl.spec_order()),
                self.registry == old(self).registry,
                forall|x: Seq<char>| #[trigger] registered(self.registry.spec_manifests(), x) <==> impls.contains(x),
                self.calls@ == old(self).calls@ + successful_activations(ord.subrange(0, k as int)),
            decreases order@.len() - k,
        {
            let feature_id = order[k].duplicate();
            proof {
                assert(ord[k as int] == feature_id@);
                assert(ord.contains(feature_id@));
            }
            let i = match self.find_implementation(&feature_id) {
                Some(i) => i,
                None => {
                    proof {
                        assert(false);
                    }
                    return Ok(());
                },
            };
            let ghost before_impls = self.implementations@;
            let activation = self.implementations[i].1.activate(&context);
            proof {
                assert(implementation_ids(self.implementations@) =~= implementation_ids(before_impls));
            }
            let ghost acts = self.calls@;
            self.calls = Ghost(self.calls@.push((true, feature_id@, activation is Ok)));
            match activation {
                Err(error) => {
                    let ghost before2 = self.implementations@;
                    let failing_cleanup = self.implementations[i].1.deactivate();
                    let ghost cleanup_call = (false, feature_id@, failing_cleanup is Ok);
                    self.calls = Ghost(self.calls@.push(cleanup_call));
                    let ghost before_rollback = self.calls@;
                    proof {
                        assert(implementation_ids(self.implementations@) =~= implementation_ids(before2));
                        assert forall|x: Seq<char>| #[trigger] self.spec_active().contains(x) implies impls.contains(x) by {
                            let t = choose|t: int| 0 <= t < self.spec_active().len() && self.spec_active()[t] == x;
                            assert(ord.subrange(0, k as int)[t] == x);
                            assert(ord.contains(x));
                        }
                        assert(self.spec_active().no_duplicates()) by {
                            assert forall|a: int, b: int| 0 <= a < k && 0 <= b < k && a != b implies self.spec_active()[a] != self.spec_active()[b] by {
                                assert(self.spec_active()[a] == ord[a]);
                                assert(self.spec_active()[b] == ord[b]);
                            }
                        }
                    }
                    let ghost prefix = self.spec_active();
                    let mut rollback_failures = self.deactivate_all_active();
                    let ghost after_rollback = self.spec_active();
                    let ghost rb_after = rollback_failures@;
                    match failing_cleanup {
                        Err(cleanup_error) => {
                            let ghost act_before = self.spec_active();
                            let ghost rb_before = rollback_failures@;
                            self.active.push(feature_id.duplicate());
                            rollback_failures.insert(0, FeatureFailure { feature: feature_id.duplicate(), error: cleanup_error });
                            proof {
                                let act = self.spec_active();
                                assert(act =~= act_before.push(feature_id@));
                                assert(!act_before.contains(feature_id@)) by {
                                    if act_before.contains(feature_id@) {
                                        assert(prefix.contains(feature_id@));
                                        let t = choose|t: int| 0 <= t < prefix.len() && prefix[t] == feature_id@;
                                        assert(prefix[t] == ord[t]);
                                    }
                                }
                                assert forall|a: int, b: int| 0 <= a < act.len() && 0 <= b < act.len() && a != b implies act[a] != act[b] by {
                                    if a < act_before.len() && b < act_before.len() {
                                        assert(act_before[a] == act[a]);
                                        assert(act_before[b] == act[b]);
                                    } else if a < act_before.len() {
                                        assert(act_before[a] == act[a]);
                                        assert(act_before.contains(act[a]));
                                    } else {
                                        assert(act_before[b] == act[b]);
                                        assert(act_before.contains(act[b]));
                                    }
                                }
                                assert forall|x: Seq<char>| #[trigger] act.contains(x) implies impls.contains(x) by {
                                    let t = choose|t: int| 0 <= t < act.len() && act[t] == x;
                                    if t < act_before.len() {
                                        assert(act_before[t] == x);
                                        assert(act_before.contains(x));
                                    }
                                }
                                let rb = rollback_failures@;
                                assert(failure_ids(rb) =~= seq![feature_id@] + failure_ids(rb_before));
                                assert forall|ii: int| 0 <= ii < rb.len() implies (#[trigger] failure_ids(rb)[ii])
                                    == act[act.len() - 1 - ii] by {
                                    if ii > 0 {
                                        assert(failure_ids(rb)[ii] == failure_ids(rb_before)[ii - 1]);
                                    }
                                }
                            }
                        },
                        Ok(()) => {},
                    }
                    proof {
                        let c0 = old(self).calls@;
                        let rbseg = calls_since(before_rollback, self.calls@);
                        let since = calls_since(c0, self.calls@);
                        let kk = k as int;
                        assert(self.calls@ =~= before_rollback + rbseg);
                        assert(before_rollback =~= c0 + successful_activations(ord.subrange(0, kk))
                            + seq![(true, feature_id@, false), cleanup_call]);
                        assert(self.calls@ =~= c0 + successful_activations(ord.subrange(0, kk))
                            + seq![(true, feature_id@, false), cleanup_call] + rbseg);
                        assert(since =~= successful_activations(ord.subrange(0, kk))
                            + seq![(true, feature_id@, false), cleanup_call] + rbseg);
                        assert(self.calls@.subrange(0, c0.len() as int) =~= c0);
                        assert(since.subrange(0, kk) =~= successful_activations(ord.subrange(0, kk)));
                        assert(since[kk] == (true, ord[kk], false));
                        let tail = since.subrange(kk + 1, 2 * kk + 2);
                        assert(tail =~= seq![cleanup_call] + rbseg);
                        let ids = ord.subrange(0, kk + 1);
                        assert forall|j: int| 0 <= j < tail.len() implies !(#[trigger] tail[j]).0 && tail[j].1 == ids[ids.len() - 1 - j] by {
                            if j > 0 {
                                assert(tail[j] == rbseg[j - 1]);
                                assert(prefix[prefix.len() - 1 - (j - 1)] == ids[ids.len() - 1 - j]);
                            }
                        }
                        lemma_failed_features_concat(seq![cleanup_call], rbseg);
                        assert(seq![cleanup_call].drop_last() =~= Seq::<FeatureCall>::empty());
                        assert(failed_features(Seq::<FeatureCall>::empty()) =~= Seq::<Seq<char>>::empty());
                        assert(failed_features(seq![cleanup_call]) =~= (if cleanup_call.2 { Seq::<Seq<char>>::empty() }
                            else { seq![feature_id@] }));
                        assert(failure_ids(rb_after) == failed_features(rbseg));
                        if cleanup_call.2 {
                            assert(failure_ids(rollback_failures@) =~= failed_features(rbseg));
                        } else {
                            assert(failure_ids(rollback_failures@) =~= seq![feature_id@] + failed_features(rbseg));
                        }
                        assert(failure_ids(rollback_failures@) == failed_features(tail));
                        assert(failed_start(since, ord, kk, failure_ids(rollback_failures@)));
                        assert(self.spec_active() =~= failure_ids(rollback_failures@).reverse());
                        assert(plan_valid(old(self).spec_registry().spec_manifests(), selection.spec_enabled(), selection.spec_disabled(),
                            selection.spec_preferred(), pl.spec_enabled(), pl.spec_providers(), pl.spec_order())
                            && pl.spec_order().contains(feature_id@));
                        let p0 = choose|p: Seq<int>| #[trigger] placed_in_order(after_rollback, prefix, 0, p);
                        assert(ord[k as int] == feature_id@);
                        if self.spec_active() == after_rollback {
                            assert forall|i: int| 0 <= i < p0.len() implies 0 <= #[trigger] p0[i] < ord.len()
                                && ord[p0[i]] == self.spec_active()[i] by {
                                assert(prefix[p0[i]] == ord[p0[i]]);
                            }
                            assert(placed_in_order(self.spec_active(), ord, 0, p0));
                        } else {
                            let p1 = p0.push(k as int);
                            assert(self.spec_active() =~= after_rollback.push(feature_id@));
                            assert forall|i: int| 0 <= i < p1.len() implies 0 <= #[trigger] p1[i] < ord.len()
                                && ord[p1[i]] == self.spec_active()[i] by {
                                if i < p0.len() {
                                    assert(p1[i] == p0[i]);
                                    assert(prefix[p0[i]] == ord[p0[i]]);
                                }
                            }
                            assert forall|i: int, j: int| 0 <= i < j < p1.len() implies #[trigger] p1[i] < #[trigger] p1[j] by {
                                if j < p0.len() {
                                    assert(p1[i] == p0[i] && p1[j] == p0[j]);
                                } else {
                                    assert(p1[i] == p0[i]);
                                }
                            }
                            assert(placed_in_order(self.spec_active(), ord, 0, p1));
                        }
                        assert(kept_in_order(self.spec_active(), pl.spec_order()));
                        assert forall|x: Seq<char>| #[trigger] self.spec_active().contains(x) implies ord.contains(x) by {
                            if x != feature_id@ {
                                if self.spec_active() != after_rollback {
                                    assert(self.spec_active() =~= after_rollback.push(feature_id@));
                                    let t = choose|t: int| 0 <= t < self.spec_active().len() && self.spec_active()[t] == x;
                                    assert(after_rollback[t] == x);
                                }
                                assert(after_rollback.contains(x));
                                assert(prefix.contains(x));
                                let t = choose|t: int| 0 <= t < prefix.len() && prefix[t] == x;
                                assert(prefix[t] == ord[t]);
                            }
                        }
                    }
                    let ghost pre_finish = self.calls@;
                    self.finish_cleanup_state();
                    proof {
                        let since = calls_since(old(self).spec_calls(), self.spec_calls());
                        assert(self.spec_calls() == pre_finish);
                        assert(failed_start(since, ord, k as int, failure_ids(rollback_failures@)));
                        assert(plan_valid(old(self).spec_registry().spec_manifests(), selection.spec_enabled(),
                            selection.spec_disabled(), selection.spec_preferred(), pl.spec_enabled(), pl.spec_providers(), ord));
                        assert(feature_id@ == ord[k as int]);
                        assert(extends(old(self).spec_calls(), self.spec_calls()));
                    }
                    return Err(HostStartError::Activation { feature: feature_id, error, rollback_failures });
                },
                Ok(()) => {},
            }
            let ghost act_before = self.spec_active();
            let ghost act_vec = self.active@;
            let ghost fid = feature_id@;
            self.active.push(feature_id);
            proof {
                assert(successful_activations(ord.subrange(0, k + 1))
                    =~= successful_activations(ord.subrange(0, k as int)).push((true, fid, true)));
                assert(self.calls@ =~= old(self).calls@ + successful_activations(ord.subrange(0, k + 1)));
                assert(self.spec_active() =~= act_before.push(fid));
                assert(ord.subrange(0, k + 1) =~= ord.subrange(0, k as int).push(ord[k as int]));
                assert(self.spec_active() =~= ord.subrange(0, k + 1));
            }
            k = k + 1;
        }
        self.state = HostState::Running;
        proof {
            assert(ord.subrange(0, ord.len() as int) =~= ord);
            assert(self.calls@.subrange(0, old(self).calls@.len() as int) =~= old(self).calls@);
            assert(calls_since(old(self).calls@, self.calls@) =~= successful_activations(ord));
        }
        Ok(())
    }
}

/// A host state as `{:?}` names it.
pub open spec fn host_state_name(s: HostState) -> Seq<char> {
    match s {
        HostState::Ready => "Ready"@,
        HostState::Running => "Running"@,
        HostState::Faulted => "Faulted"@,
    }
}

fn push_host_state(m: &mut String, s: HostState)
    ensures
        final(m)@ == old(m)@ + host_state_name(s),
{
    match s {
        HostState::Ready => push_text(m, "Ready"),
        HostState::Running => push_text(m, "Running"),
        HostState::Faulted => push_text(m, "Faulted"),
    }
}

/// The diagnostic text of a refused bundled registration.
pub open spec fn host_registration_error_text(e: HostRegistrationError) -> Seq<char> {
    match e {
        HostRegistrationError::InvalidState(state) => "cannot register bundled feature while host is "@ + host_state_name(state),
        HostRegistrationError::ExternalFeature(feature) => "external feature "@ + feature@ + " cannot run through the trusted bundled feature host"@,
        HostRegistrationError::IdMismatch { manifest, implementation } => "feature manifest id "@ + manifest@ + " does not match implementation id "@ + implementation@,
        HostRegistrationError::DuplicateImplementation(feature) => "feature implementation "@ + feature@ + " is already registered"@,
        HostRegistrationError::Catalogue(error) => registration_error_text(error),
    }
}

impl HostRegistrationError {
    /// The diagnostic text of the error.
    pub fn message(&self) -> (m: String)
        ensures
            m@ == host_registration_error_text(*self),
    {
        let mut m = String::new();
        match self {
            HostRegistrationError::InvalidState(state) => {
                push_text(&mut m, "cannot register bundled feature while host is ");
                push_host_state(&mut m, *state);
            },
            HostRegistrationError::ExternalFeature(feature) => {
                push_text(&mut m, "external feature ");
                push_text(&mut m, feature.as_str());
                push_text(&mut m, " cannot run through the trusted bundled feature host");
            },
            HostRegistrationError::IdMismatch { manifest, implementation } => {
                push_text(&mut m, "feature manifest id ");
                push_text(&mut m, manifest.as_str());
                push_text(&mut m, " does not match implementation id ");
                push_text(&mut m, implementation.as_str());
            },
            HostRegistrationError::DuplicateImplementation(feature) => {
                push_text(&mut m, "feature implementation ");
                push_text(&mut m, feature.as_str());
                push_text(&mut m, " is already registered");
            },
            HostRegistrationError::Catalogue(error) => {
                let text = error.message();
                push_text(&mut m, text.as_str());
            },
        }
        proof {
            assert(m@ =~= host_registration_error_text(*self));
        }
        m
    }
}

/// The diagnostic text of a refused or failed start.
pub open spec fn host_start_error_text(e: HostStartError) -> Seq<char> {
    match e {
        HostStartError::InvalidState(state) => "cannot start bundled features while host is "@ + host_state_name(state),
        HostStartError::Resolution(error) => "feature profile resolution failed: "@ + resolve_error_text(error),
        HostStartError::MissingImplementation(feature) => "resolved feature "@ + feature@ + " has no registered bundled implementation"@,
        HostStartError::Activation { feature, error, rollback_failures } => "feature "@ + feature@ + " failed activation: "@ + error.spec_message() + "; "@ + decimal(rollback_failures@.len()) + " rollback cleanup failure(s)"@,
    }
}

impl HostStartError {
    /// The diagnostic text of the error.
    pub fn message(&self) -> (m: String)
        ensures
            m@ == host_start_error_text(*self),
    {
        let mut m = String::new();
        match self {
            HostStartError::InvalidState(state) => {
                push_text(&mut m, "cannot start bundled features while host is ");
                push_host_state(&mut m, *state);
            },
            HostStartError::Resolution(error) => {
                push_text(&mut m, "feature profile resolution failed: ");
                let text = error.message();
                push_text(&mut m, text.as_str());
            },
            HostStartError::MissingImplementation(feature) => {
                push_text(&mut m, "resolved feature ");
                push_text(&mut m, feature.as_str());
                push_text(&mut m, " has no registered bundled implementation");
            },
            HostStartError::Activation { feature, error, rollback_failures } => {
                push_text(&mut m, "feature ");
                push_text(&mut m, feature.as_str());
                push_text(&mut m, " failed activation: ");
                push_text(&mut m, error.message());
                push_text(&mut m, "; ");
                push_decimal(&mut m, rollback_failures.len() as u64);
                push_text(&mut m, " rollback cleanup failure(s)");
            },
        }
        proof {
            assert(m@ =~= host_start_error_text(*self));
        }
        m
    }
}

/// The diagnostic text of a stop that left features uncleaned.
pub open spec fn host_stop_error_text(e: HostStopError) -> Seq<char> {
    decimal(e.spec_failures().len()) + " bundled feature(s) failed to deactivate"@
}

impl HostStopError {
    /// The diagnostic text of the error.
    pub fn message(&self) -> (m: String)
        ensures
            m@ == host_stop_error_text(*self),
    {
        let mut m = String::new();
        push_decimal(&mut m, self.failures.len() as u64);
        push_text(&mut m, " bundled feature(s) failed to deactivate");
        m
    }
}

impl Default for FeatureHost {
    /// An empty host in the ready state.
    fn default() -> (h: Self)
        ensures
            h.wf(),
            h.spec_state() == HostState::Ready,
            h.spec_registry().spec_manifests().len() == 0,
    {
        FeatureHost::new()
    }
}

} // verus!
