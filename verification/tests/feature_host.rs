use std::sync::{Arc, Mutex};

use office_document::extension::{FeatureId, FeatureManifest, FeatureOrigin, ServiceId};
use office_document::feature_host::{
    BundledFeature, FeatureActivationContext, FeatureError, FeatureHost, HostRegistrationError, HostStartError,
    HostState,
};
use office_document::registry::FeatureSelection;

fn feature_id(value: &str) -> FeatureId {
    FeatureId::new(value).expect("test feature id is valid")
}

fn service_id(value: &str) -> ServiceId {
    ServiceId::new(value).expect("test service id is valid")
}

struct RecordingFeature {
    id: FeatureId,
    events: Arc<Mutex<Vec<String>>>,
    fail_activate: bool,
    fail_deactivate: bool,
    observe_service: Option<ServiceId>,
}

impl RecordingFeature {
    fn new(id: &str, events: Arc<Mutex<Vec<String>>>) -> Self {
        Self { id: feature_id(id), events, fail_activate: false, fail_deactivate: false, observe_service: None }
    }

    fn fail_activate(mut self) -> Self {
        self.fail_activate = true;
        self
    }

    fn fail_deactivate(mut self) -> Self {
        self.fail_deactivate = true;
        self
    }

    fn observe(mut self, service: ServiceId) -> Self {
        self.observe_service = Some(service);
        self
    }

    fn push(&self, event: String) {
        self.events.lock().expect("test log mutex").push(event);
    }
}

impl BundledFeature for RecordingFeature {
    fn id(&self) -> &FeatureId {
        &self.id
    }

    fn activate(&mut self, context: &FeatureActivationContext<'_>) -> Result<(), FeatureError> {
        self.push(format!("activate:{}", self.id.as_str()));
        if let Some(service) = &self.observe_service {
            let provider = context.provider_for(service).map_or("none", FeatureId::as_str);
            self.push(format!("provider:{}={}", service.as_str(), provider));
        }
        if self.fail_activate {
            Err(FeatureError::new("activation failed"))
        } else {
            Ok(())
        }
    }

    fn deactivate(&mut self) -> Result<(), FeatureError> {
        self.push(format!("deactivate:{}", self.id.as_str()));
        if self.fail_deactivate {
            Err(FeatureError::new("deactivation failed"))
        } else {
            Ok(())
        }
    }
}

fn bundled(id: &str) -> FeatureManifest {
    FeatureManifest::new(feature_id(id), FeatureOrigin::Bundled)
}

fn register(host: &mut FeatureHost, manifest: FeatureManifest, feature: RecordingFeature) {
    host.register(manifest, Box::new(feature)).expect("test feature registers");
}

#[test]
fn starts_in_resolved_order_and_stops_in_reverse_order() {
    let events = Arc::new(Mutex::new(Vec::new()));
    let mut host = FeatureHost::new();

    register(
        &mut host,
        bundled("platform.commands").default_enabled(false),
        RecordingFeature::new("platform.commands", Arc::clone(&events)),
    );
    register(
        &mut host,
        bundled("document.command-palette").default_enabled(true).depends_on(feature_id("platform.commands")),
        RecordingFeature::new("document.command-palette", Arc::clone(&events)),
    );

    host.start(&FeatureSelection::new()).expect("valid profile starts");
    assert_eq!(host.state(), HostState::Running);
    assert_eq!(host.active_features(), [feature_id("platform.commands"), feature_id("document.command-palette")]);

    host.stop().expect("clean stop");
    assert_eq!(host.state(), HostState::Ready);
    assert_eq!(
        *events.lock().expect("test log mutex"),
        [
            "activate:platform.commands",
            "activate:document.command-palette",
            "deactivate:document.command-palette",
            "deactivate:platform.commands"
        ]
    );
}

#[test]
fn resolution_failure_activates_nothing() {
    let events = Arc::new(Mutex::new(Vec::new()));
    let mut host = FeatureHost::new();
    let service = service_id("language.spellcheck");

    register(
        &mut host,
        bundled("language.proofreading").default_enabled(true).requires_service(service),
        RecordingFeature::new("language.proofreading", Arc::clone(&events)),
    );

    let result = host.start(&FeatureSelection::new());
    assert!(matches!(result, Err(HostStartError::Resolution(_))));
    assert!(events.lock().expect("test log mutex").is_empty());
    assert_eq!(host.state(), HostState::Ready);
}

#[test]
fn activation_failure_cleans_failing_feature_and_rolls_back_prior_features() {
    let events = Arc::new(Mutex::new(Vec::new()));
    let mut host = FeatureHost::new();

    register(&mut host, bundled("feature.a").default_enabled(true), RecordingFeature::new("feature.a", Arc::clone(&events)));
    register(
        &mut host,
        bundled("feature.b").default_enabled(true).depends_on(feature_id("feature.a")),
        RecordingFeature::new("feature.b", Arc::clone(&events)).fail_activate(),
    );

    let result = host.start(&FeatureSelection::new());
    assert!(matches!(
        result,
        Err(HostStartError::Activation { rollback_failures, .. }) if rollback_failures.is_empty()
    ));
    assert_eq!(host.state(), HostState::Ready);
    assert!(host.active_features().is_empty());
    assert_eq!(
        *events.lock().expect("test log mutex"),
        ["activate:feature.a", "activate:feature.b", "deactivate:feature.b", "deactivate:feature.a"]
    );
}

#[test]
fn rollback_failure_faults_host_and_preserves_cleanup_retry() {
    let events = Arc::new(Mutex::new(Vec::new()));
    let mut host = FeatureHost::new();

    register(
        &mut host,
        bundled("feature.a").default_enabled(true),
        RecordingFeature::new("feature.a", Arc::clone(&events)).fail_deactivate(),
    );
    register(
        &mut host,
        bundled("feature.b").default_enabled(true).depends_on(feature_id("feature.a")),
        RecordingFeature::new("feature.b", Arc::clone(&events)).fail_activate(),
    );

    let result = host.start(&FeatureSelection::new());
    assert!(matches!(
        result,
        Err(HostStartError::Activation { rollback_failures, .. }) if rollback_failures.len() == 1
    ));
    assert_eq!(host.state(), HostState::Faulted);
    assert_eq!(host.active_features(), [feature_id("feature.a")]);

    let stop = host.stop().expect_err("feature a still fails cleanup");
    assert_eq!(stop.failures().len(), 1);
    assert_eq!(host.state(), HostState::Faulted);
}

#[test]
fn failing_activator_cleanup_failure_remains_tracked() {
    let events = Arc::new(Mutex::new(Vec::new()));
    let mut host = FeatureHost::new();

    register(&mut host, bundled("feature.a").default_enabled(true), RecordingFeature::new("feature.a", Arc::clone(&events)));
    register(
        &mut host,
        bundled("feature.b").default_enabled(true).depends_on(feature_id("feature.a")),
        RecordingFeature::new("feature.b", Arc::clone(&events)).fail_activate().fail_deactivate(),
    );

    let result = host.start(&FeatureSelection::new());
    assert!(matches!(
        result,
        Err(HostStartError::Activation { rollback_failures, .. }) if rollback_failures.len() == 1
    ));
    assert_eq!(host.state(), HostState::Faulted);
    assert_eq!(host.active_features(), [feature_id("feature.b")]);
    assert_eq!(
        *events.lock().expect("test log mutex"),
        ["activate:feature.a", "activate:feature.b", "deactivate:feature.b", "deactivate:feature.a"]
    );
}

#[test]
fn selected_provider_is_activated_before_consumer_and_visible_in_context() {
    let events = Arc::new(Mutex::new(Vec::new()));
    let mut host = FeatureHost::new();
    let spellcheck = service_id("language.spellcheck");

    register(
        &mut host,
        bundled("language.basic-spellcheck").provides(spellcheck.clone()),
        RecordingFeature::new("language.basic-spellcheck", Arc::clone(&events)),
    );
    register(
        &mut host,
        bundled("language.advanced-spellcheck").provides(spellcheck.clone()),
        RecordingFeature::new("language.advanced-spellcheck", Arc::clone(&events)),
    );
    register(
        &mut host,
        bundled("language.proofreading").default_enabled(true).requires_service(spellcheck.clone()),
        RecordingFeature::new("language.proofreading", Arc::clone(&events)).observe(spellcheck.clone()),
    );

    let mut selection = FeatureSelection::new();
    selection.prefer_provider(spellcheck, feature_id("language.advanced-spellcheck"));

    host.start(&selection).expect("provider profile starts");
    assert_eq!(
        *events.lock().expect("test log mutex"),
        [
            "activate:language.advanced-spellcheck",
            "activate:language.proofreading",
            "provider:language.spellcheck=language.advanced-spellcheck"
        ]
    );
}

#[test]
fn external_feature_cannot_use_trusted_in_process_host() {
    let events = Arc::new(Mutex::new(Vec::new()));
    let mut host = FeatureHost::new();
    let id = feature_id("external.example");
    let manifest = FeatureManifest::new(id.clone(), FeatureOrigin::External);

    let result = host.register(manifest, Box::new(RecordingFeature::new("external.example", events)));

    assert_eq!(result, Err(HostRegistrationError::ExternalFeature(id)));
}

#[test]
fn manifest_and_implementation_ids_must_match() {
    let events = Arc::new(Mutex::new(Vec::new()));
    let mut host = FeatureHost::new();

    let result = host.register(bundled("feature.manifest"), Box::new(RecordingFeature::new("feature.implementation", events)));

    assert_eq!(
        result,
        Err(HostRegistrationError::IdMismatch {
            manifest: feature_id("feature.manifest"),
            implementation: feature_id("feature.implementation")
        })
    );
}

#[test]
fn registering_the_same_implementation_twice_is_refused() {
    let events = Arc::new(Mutex::new(Vec::new()));
    let mut host = FeatureHost::new();
    register(&mut host, bundled("feature.a"), RecordingFeature::new("feature.a", Arc::clone(&events)));
    let result = host.register(bundled("feature.a"), Box::new(RecordingFeature::new("feature.a", events)));
    assert_eq!(result, Err(HostRegistrationError::DuplicateImplementation(feature_id("feature.a"))));
}

#[test]
fn starting_twice_is_refused_while_running() {
    let events = Arc::new(Mutex::new(Vec::new()));
    let mut host = FeatureHost::new();
    register(&mut host, bundled("feature.a").default_enabled(true), RecordingFeature::new("feature.a", Arc::clone(&events)));
    host.start(&FeatureSelection::new()).expect("starts");
    assert_eq!(host.start(&FeatureSelection::new()), Err(HostStartError::InvalidState(HostState::Running)));
    assert!(host.resolved_plan().is_some());
}
