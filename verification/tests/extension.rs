use office_document::extension::{FeatureId, FeatureManifest, FeatureOrigin, IdentifierError, ServiceId};

#[test]
fn identifiers_are_stable_and_deliberately_restricted() {
    assert!(FeatureId::new("document.history.timeline").is_ok());
    assert!(ServiceId::new("language.spellcheck").is_ok());
    assert!(FeatureId::new("Uppercase").is_err());
    assert!(FeatureId::new("contains space").is_err());
    assert!(FeatureId::new("").is_err());
}

#[test]
fn manifest_deduplicates_declarative_edges() {
    let dependency = FeatureId::new("document.commands").expect("valid id");
    let service = ServiceId::new("language.spellcheck").expect("valid id");
    let manifest = FeatureManifest::new(FeatureId::new("language.ui").expect("valid id"), FeatureOrigin::Bundled)
        .depends_on(dependency.clone())
        .depends_on(dependency)
        .requires_service(service.clone())
        .requires_service(service);

    assert_eq!(manifest.dependencies().iter().count(), 1);
    assert_eq!(manifest.required_services().iter().count(), 1);
}

#[test]
fn identifier_error_keeps_the_refused_value() {
    let error: IdentifierError = FeatureId::new("Bad Id").unwrap_err();
    assert_eq!(error.value(), "Bad Id");
}

#[test]
fn identifier_text_round_trips() {
    let id = FeatureId::new("platform.commands-2").unwrap();
    assert_eq!(id.as_str(), "platform.commands-2");
    assert!(id.same(&id.duplicate()));
}

#[test]
fn manifest_edges_keep_sorted_distinct_members() {
    let manifest = FeatureManifest::new(FeatureId::new("a.ui").unwrap(), FeatureOrigin::External)
        .depends_on(FeatureId::new("b.core").unwrap())
        .depends_on(FeatureId::new("a.core").unwrap())
        .provides(ServiceId::new("text.render").unwrap())
        .conflicts_with(FeatureId::new("c.legacy").unwrap())
        .default_enabled(false);
    let dependencies: Vec<&str> = manifest.dependencies().iter().map(|d| d.as_str()).collect();
    assert_eq!(dependencies, vec!["a.core", "b.core"]);
    assert_eq!(manifest.conflicts().len(), 1);
    assert!(manifest.provides_service(&ServiceId::new("text.render").unwrap()));
    assert!(!manifest.provides_service(&ServiceId::new("text.other").unwrap()));
    assert!(!manifest.is_default_enabled());
    assert_eq!(manifest.origin(), FeatureOrigin::External);
    assert_eq!(manifest.id().as_str(), "a.ui");
}
