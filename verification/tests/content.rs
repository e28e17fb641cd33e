use servus::{ContentCatalog, ContentError, ServiceDefinition, ServiceKind};

fn definition(kind: ServiceKind, display_name: &str) -> ServiceDefinition {
    ServiceDefinition {
        kind,
        display_name: display_name.to_owned(),
        description: "Test service".to_owned(),
    }
}

#[test]
fn builtin_content_defines_every_service_kind() {
    let catalog = ContentCatalog::builtin();
    for kind in ServiceKind::ALL {
        assert!(
            catalog.service(kind).is_some(),
            "missing content for {kind:?}"
        );
    }
}

#[test]
fn valid_custom_content_is_accepted() {
    let services = vec![definition(
        ServiceKind::ApplicationServer,
        "Application Server",
    )];
    let catalog = ContentCatalog::new(services.clone());
    assert_eq!(catalog.map(|catalog| catalog.services().to_vec()), Ok(services));
}

#[test]
fn empty_service_names_are_rejected() {
    let result = ContentCatalog::new(vec![definition(ServiceKind::ApplicationServer, "   ")]);
    assert_eq!(
        result,
        Err(ContentError::EmptyServiceName(
            ServiceKind::ApplicationServer
        ))
    );
}

#[test]
fn duplicate_services_are_rejected() {
    let result = ContentCatalog::new(vec![
        definition(ServiceKind::ApplicationServer, "First"),
        definition(ServiceKind::ApplicationServer, "Second"),
    ]);
    assert_eq!(
        result,
        Err(ContentError::DuplicateService(
            ServiceKind::ApplicationServer
        ))
    );
}

#[test]
fn content_errors_have_readable_messages() {
    assert_eq!(
        ContentError::DuplicateService(ServiceKind::ApplicationServer).to_string(),
        "service ApplicationServer is defined twice"
    );
}
