use office_document::extension::{FeatureId, FeatureManifest, FeatureOrigin, ServiceId};
use office_document::registry::{FeatureRegistry, FeatureSelection, RegistrationError, ResolveError};

fn feature_id(value: &str) -> FeatureId {
    FeatureId::new(value).expect("test ids are valid")
}

fn service_id(value: &str) -> ServiceId {
    ServiceId::new(value).expect("test ids are valid")
}

fn bundled(value: &str) -> FeatureManifest {
    FeatureManifest::new(feature_id(value), FeatureOrigin::Bundled)
}

#[test]
fn defaults_close_over_dependencies_and_activate_dependencies_first() {
    let mut registry = FeatureRegistry::new();
    registry.register(bundled("platform.commands").default_enabled(false)).expect("register commands");
    registry
        .register(bundled("document.command-palette").default_enabled(true).depends_on(feature_id("platform.commands")))
        .expect("register palette");

    let resolved = registry.resolve(&FeatureSelection::new()).expect("valid composition");

    assert!(resolved.is_enabled(&feature_id("platform.commands")));
    assert_eq!(resolved.activation_order(), [feature_id("platform.commands"), feature_id("document.command-palette")]);
}

#[test]
fn explicit_disable_wins_over_implicit_dependency_enablement() {
    let mut registry = FeatureRegistry::new();
    registry.register(bundled("platform.commands")).expect("register commands");
    registry
        .register(bundled("document.command-palette").default_enabled(true).depends_on(feature_id("platform.commands")))
        .expect("register palette");
    let mut selection = FeatureSelection::new();
    selection.disable(feature_id("platform.commands"));

    assert!(matches!(registry.resolve(&selection), Err(ResolveError::DependencyDisabled { .. })));
}

#[test]
fn replaceable_service_provider_is_selected_explicitly() {
    let spellcheck = service_id("language.spellcheck");
    let mut registry = FeatureRegistry::new();
    registry
        .register(bundled("language.proofreading-ui").default_enabled(true).requires_service(spellcheck.clone()))
        .expect("register consumer");
    registry
        .register(bundled("language.spellcheck.basic").default_enabled(true).provides(spellcheck.clone()))
        .expect("register basic provider");
    registry
        .register(bundled("language.spellcheck.advanced").default_enabled(true).provides(spellcheck.clone()))
        .expect("register advanced provider");

    assert!(matches!(registry.resolve(&FeatureSelection::new()), Err(ResolveError::AmbiguousService { .. })));

    let mut selection = FeatureSelection::new();
    selection.prefer_provider(spellcheck.clone(), feature_id("language.spellcheck.advanced"));
    let resolved = registry.resolve(&selection).expect("provider is selected");

    assert_eq!(resolved.provider(&spellcheck), Some(&feature_id("language.spellcheck.advanced")));
    let provider_position = resolved
        .activation_order()
        .iter()
        .position(|id| id == &feature_id("language.spellcheck.advanced"))
        .expect("provider active");
    let consumer_position = resolved
        .activation_order()
        .iter()
        .position(|id| id == &feature_id("language.proofreading-ui"))
        .expect("consumer active");
    assert!(provider_position < consumer_position);
}

#[test]
fn preferred_provider_is_enabled_even_when_not_enabled_by_default() {
    let exporter = service_id("document.export.pdf");
    let mut registry = FeatureRegistry::new();
    registry.register(bundled("export.pdf.native").provides(exporter.clone())).expect("register provider");
    let mut selection = FeatureSelection::new();
    selection.prefer_provider(exporter.clone(), feature_id("export.pdf.native"));

    let resolved = registry.resolve(&selection).expect("provider preference is valid");
    assert!(resolved.is_enabled(&feature_id("export.pdf.native")));
    assert_eq!(resolved.provider(&exporter), Some(&feature_id("export.pdf.native")));
}

#[test]
fn conflicts_are_rejected_before_activation() {
    let mut registry = FeatureRegistry::new();
    registry
        .register(bundled("ui.classic").default_enabled(true).conflicts_with(feature_id("ui.experimental")))
        .expect("register classic");
    registry.register(bundled("ui.experimental").default_enabled(true)).expect("register experimental");

    assert!(matches!(registry.resolve(&FeatureSelection::new()), Err(ResolveError::Conflict { .. })));
}

#[test]
fn dependency_cycles_are_reported() {
    let mut registry = FeatureRegistry::new();
    registry.register(bundled("feature.a").default_enabled(true).depends_on(feature_id("feature.b"))).expect("register a");
    registry.register(bundled("feature.b").default_enabled(true).depends_on(feature_id("feature.a"))).expect("register b");

    assert!(matches!(registry.resolve(&FeatureSelection::new()), Err(ResolveError::DependencyCycle(_))));
}

#[test]
fn duplicate_feature_ids_are_rejected() {
    let mut registry = FeatureRegistry::new();
    registry.register(bundled("document.history-ui")).expect("first registration succeeds");

    assert_eq!(
        registry.register(bundled("document.history-ui")),
        Err(RegistrationError::DuplicateFeature(feature_id("document.history-ui")))
    );
}

#[test]
fn missing_service_is_reported_without_partial_activation() {
    let service = service_id("language.grammar");
    let mut registry = FeatureRegistry::new();
    registry
        .register(bundled("language.grammar-ui").default_enabled(true).requires_service(service))
        .expect("register consumer");

    assert!(matches!(registry.resolve(&FeatureSelection::new()), Err(ResolveError::MissingService { .. })));
}

#[test]
fn unknown_explicit_feature_is_reported() {
    let registry = FeatureRegistry::new();
    let mut selection = FeatureSelection::new();
    selection.enable(feature_id("nowhere.feature"));
    assert!(matches!(registry.resolve(&selection), Err(ResolveError::UnknownFeature(id)) if id == feature_id("nowhere.feature")));
}

#[test]
fn dependency_on_unregistered_feature_is_reported() {
    let mut registry = FeatureRegistry::new();
    registry.register(bundled("feature.a").default_enabled(true).depends_on(feature_id("feature.ghost"))).expect("register a");
    assert!(matches!(
        registry.resolve(&FeatureSelection::new()),
        Err(ResolveError::MissingDependency { feature, dependency })
            if feature == feature_id("feature.a") && dependency == feature_id("feature.ghost")
    ));
}

#[test]
fn preferring_a_feature_that_does_not_provide_is_refused() {
    let service = service_id("document.export.pdf");
    let mut registry = FeatureRegistry::new();
    registry.register(bundled("export.other")).expect("register");
    let mut selection = FeatureSelection::new();
    selection.prefer_provider(service, feature_id("export.other"));
    assert!(matches!(registry.resolve(&selection), Err(ResolveError::PreferredProviderDoesNotProvide { .. })));
}

#[test]
fn empty_registry_resolves_to_nothing() {
    let registry = FeatureRegistry::new();
    let resolved = registry.resolve(&FeatureSelection::new()).expect("nothing to activate");
    assert!(resolved.is_empty());
    assert_eq!(resolved.len(), 0);
    assert!(resolved.activation_order().is_empty());
}

#[test]
fn resolution_errors_render_their_diagnostic_text() {
    let cycle = ResolveError::DependencyCycle(vec![feature_id("feature.a"), feature_id("feature.b"), feature_id("feature.a")]);
    assert_eq!(
        cycle.message(),
        "feature activation contains a dependency cycle: [FeatureId(\"feature.a\"), FeatureId(\"feature.b\"), FeatureId(\"feature.a\")]"
    );
    let missing = ResolveError::MissingService { feature: feature_id("language.ui"), service: service_id("language.spellcheck") };
    assert_eq!(missing.message(), "feature language.ui requires service language.spellcheck with no active provider");
    assert_eq!(ResolveError::UnknownFeature(feature_id("x.y")).message(), "unknown feature x.y");
    let ambiguous = ResolveError::AmbiguousService { service: service_id("s"), providers: vec![] };
    assert_eq!(ambiguous.message(), "service s has multiple active providers and no preference: []");
}

#[test]
fn invalid_preferences_are_reported_in_service_order() {
    let mut registry = FeatureRegistry::new();
    registry.register(bundled("feature.one")).expect("register one");
    registry.register(bundled("feature.two")).expect("register two");
    let mut selection = FeatureSelection::new();
    selection.prefer_provider(service_id("zeta.service"), feature_id("feature.one"));
    selection.prefer_provider(service_id("alpha.service"), feature_id("feature.two"));
    assert!(matches!(
        registry.resolve(&selection),
        Err(ResolveError::PreferredProviderDoesNotProvide { service, provider })
            if service == service_id("alpha.service") && provider == feature_id("feature.two")
    ));
}

#[test]
fn conflict_with_a_feature_pulled_in_as_a_dependency_is_refused() {
    let mut registry = FeatureRegistry::new();
    registry.register(bundled("engine.core").default_enabled(false)).expect("register core");
    registry
        .register(bundled("editor.main").default_enabled(true).depends_on(feature_id("engine.core")))
        .expect("register editor");
    registry
        .register(bundled("engine.legacy").default_enabled(true).conflicts_with(feature_id("engine.core")))
        .expect("register legacy");

    match registry.resolve(&FeatureSelection::new()) {
        Err(ResolveError::Conflict { first, second }) => {
            assert_eq!(first, feature_id("engine.legacy"));
            assert_eq!(second, feature_id("engine.core"));
        }
        Err(other) => panic!("expected a conflict, got {other:?}"),
        Ok(_) => panic!("expected a conflict"),
    }

    let mut without_editor = FeatureSelection::new();
    without_editor.disable(feature_id("editor.main"));
    let resolved = registry.resolve(&without_editor).expect("no conflict once the dependent is disabled");
    assert!(!resolved.is_enabled(&feature_id("engine.core")));
    assert!(resolved.is_enabled(&feature_id("engine.legacy")));
}
