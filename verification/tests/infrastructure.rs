use servus::{GridPosition, Service, ServiceId, ServiceKind, ServiceState, ServiceTier};

#[test]
fn application_server_has_an_initial_cost_and_capacity() {
    let kind = ServiceKind::ApplicationServer;
    assert_eq!(kind.build_cost(), 100);
    assert_eq!(kind.operating_cost(), 8);
    assert_eq!(kind.traffic_capacity(), 100);
    assert!(kind.serves_requests());
    assert_eq!(kind.construction_ticks(), 3);
}

#[test]
fn internet_gateway_is_cheap_and_does_not_handle_application_requests() {
    let kind = ServiceKind::InternetGateway;
    assert_eq!(kind.build_cost(), 50);
    assert_eq!(kind.operating_cost(), 2);
    assert_eq!(kind.traffic_capacity(), 250);
    assert!(!kind.serves_requests());
    assert_eq!(kind.construction_ticks(), 1);
    assert_eq!(kind.footprint().width(), 1);
    assert_eq!(kind.footprint().height(), 1);
}

#[test]
fn load_balancer_has_less_capacity_than_two_application_servers() {
    let kind = ServiceKind::LoadBalancer;
    assert_eq!(kind.build_cost(), 75);
    assert_eq!(kind.operating_cost(), 4);
    assert_eq!(kind.traffic_capacity(), 150);
    assert!(!kind.serves_requests());
    assert_eq!(kind.construction_ticks(), 2);
}

#[test]
fn firewall_has_a_cost_construction_time_and_throughput_limit() {
    let kind = ServiceKind::Firewall;
    assert_eq!(kind.build_cost(), 125);
    assert_eq!(kind.operating_cost(), 5);
    assert_eq!(kind.traffic_capacity(), 200);
    assert!(!kind.serves_requests());
    assert_eq!(kind.construction_ticks(), 2);
}

#[test]
fn a_service_exposes_its_identity_kind_and_capacity() {
    let position = GridPosition::new(3, 4);
    let service = Service::new(ServiceId::new(7), ServiceKind::ApplicationServer, position);
    assert_eq!(service.id().value(), 7);
    assert_eq!(service.kind(), ServiceKind::ApplicationServer);
    assert_eq!(service.tier(), ServiceTier::Starter);
    assert_eq!(service.position(), position);
    assert_eq!(
        service.state(),
        ServiceState::UnderConstruction { ticks_remaining: 3 }
    );
    assert_eq!(service.traffic_capacity(500), 0);
    assert_eq!(service.current_operating_cost(), 0);
}

#[test]
fn all_lists_every_constructible_service_kind() {
    assert_eq!(
        ServiceKind::ALL,
        [
            ServiceKind::InternetGateway,
            ServiceKind::Firewall,
            ServiceKind::LoadBalancer,
            ServiceKind::ApplicationServer
        ]
    );
}

#[test]
fn application_server_occupies_one_tile() {
    assert_eq!(ServiceKind::ApplicationServer.footprint().width(), 1);
    assert_eq!(ServiceKind::ApplicationServer.footprint().height(), 1);
}

#[test]
fn construction_progresses_until_the_service_becomes_operational() {
    let mut service = Service::new(
        ServiceId::new(7),
        ServiceKind::ApplicationServer,
        GridPosition::new(3, 4),
    );

    assert!(!service.advance_construction());
    assert_eq!(
        service.state(),
        ServiceState::UnderConstruction { ticks_remaining: 2 }
    );
    assert!(!service.advance_construction());
    assert_eq!(service.traffic_capacity(500), 0);
    assert!(service.advance_construction());
    assert_eq!(service.state(), ServiceState::Operational);
    assert_eq!(service.traffic_capacity(500), 100);
    assert_eq!(service.current_operating_cost(), 8);
    assert!(service.is_operational());
    assert!(!service.advance_construction());
}

#[test]
fn service_states_have_readable_names() {
    assert_eq!(
        ServiceState::UnderConstruction { ticks_remaining: 2 }.to_string(),
        "under construction (2 ticks remaining)"
    );
    assert_eq!(ServiceState::Operational.to_string(), "operational");
    assert_eq!(
        ServiceState::Upgrading {
            target: ServiceTier::Scaled,
            ticks_remaining: 2,
        }
        .to_string(),
        "upgrading to Scaled (2 ticks remaining)"
    );
    assert_eq!(
        ServiceState::Disrupted { ticks_remaining: 2 }.to_string(),
        "disrupted (2 ticks remaining)"
    );
}

#[test]
fn disruption_removes_capacity_then_recovers_automatically() {
    let mut service = Service::new(
        ServiceId::new(8),
        ServiceKind::InternetGateway,
        GridPosition::new(0, 0),
    );
    service.advance_construction();
    assert!(service.disrupt(2));
    assert!(!service.is_operational());
    assert_eq!(service.traffic_capacity(100), 0);
    assert_eq!(service.current_operating_cost(), 2);
    assert!(!service.advance_construction());
    assert_eq!(
        service.state(),
        ServiceState::Disrupted { ticks_remaining: 1 }
    );
    assert!(!service.advance_construction());
    assert_eq!(service.state(), ServiceState::Operational);
    assert!(!service.disrupt(0));
}

#[test]
fn tiers_trade_upgrade_capital_for_more_efficient_capacity() {
    let kind = ServiceKind::ApplicationServer;
    assert_eq!(ServiceTier::Starter.next(), Some(ServiceTier::Scaled));
    assert_eq!(ServiceTier::Scaled.next(), Some(ServiceTier::Enterprise));
    assert_eq!(ServiceTier::Enterprise.next(), None);
    assert_eq!(
        ServiceTier::ALL.map(ServiceTier::short_label),
        ["I", "II", "III"]
    );
    assert_eq!(kind.traffic_capacity_at(ServiceTier::Starter), 100);
    assert_eq!(kind.traffic_capacity_at(ServiceTier::Scaled), 225);
    assert_eq!(kind.traffic_capacity_at(ServiceTier::Enterprise), 500);
    assert_eq!(kind.operating_cost_at(ServiceTier::Starter), 8);
    assert_eq!(kind.operating_cost_at(ServiceTier::Scaled), 13);
    assert_eq!(kind.operating_cost_at(ServiceTier::Enterprise), 22);
    assert_eq!(kind.upgrade_cost(ServiceTier::Starter), None);
    assert_eq!(kind.upgrade_cost(ServiceTier::Scaled), Some(80));
    assert_eq!(kind.upgrade_cost(ServiceTier::Enterprise), Some(160));
}

#[test]
fn upgrading_temporarily_removes_capacity_then_activates_the_new_tier() {
    let mut service = Service::new(
        ServiceId::new(10),
        ServiceKind::ApplicationServer,
        GridPosition::new(0, 0),
    );
    for _ in 0..ServiceKind::ApplicationServer.construction_ticks() {
        service.advance_construction();
    }

    assert!(service.start_upgrade(ServiceTier::Scaled, 2));
    assert_eq!(service.tier(), ServiceTier::Starter);
    assert_eq!(service.traffic_capacity(500), 0);
    assert_eq!(service.current_operating_cost(), 8);
    assert!(!service.start_upgrade(ServiceTier::Scaled, 2));
    assert!(!service.advance_construction());
    assert_eq!(
        service.state(),
        ServiceState::Upgrading {
            target: ServiceTier::Scaled,
            ticks_remaining: 1,
        }
    );
    assert!(!service.advance_construction());
    assert_eq!(service.state(), ServiceState::Operational);
    assert_eq!(service.tier(), ServiceTier::Scaled);
    assert_eq!(service.traffic_capacity(500), 225);
    assert_eq!(service.current_operating_cost(), 13);
    assert!(!service.start_upgrade(ServiceTier::Enterprise, 0));
}
