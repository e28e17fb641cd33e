use servus::{
    GridPosition, LinkTraffic, Network, Service, ServiceId, ServiceKind, route_requests,
    served_requests,
};

fn operational_service(id: u64, kind: ServiceKind) -> Service {
    let mut service = Service::new(ServiceId::new(id), kind, GridPosition::new(id as u16, 0));
    for _ in 0..kind.construction_ticks() {
        service.advance_construction();
    }
    service
}

fn connect(network: &mut Network, from: u64, to: u64) {
    network.add_link(ServiceId::new(from), ServiceId::new(to));
}

#[test]
fn direct_gateway_to_server_path_serves_up_to_server_capacity() {
    let services = vec![
        operational_service(1, ServiceKind::InternetGateway),
        operational_service(2, ServiceKind::ApplicationServer),
    ];
    let mut network = Network::default();
    connect(&mut network, 1, 2);

    assert_eq!(served_requests(140, &services, &network), 100);
    assert_eq!(
        route_requests(140, &services, &network).link_traffic,
        vec![LinkTraffic {
            from: ServiceId::new(1),
            to: ServiceId::new(2),
            requests: 100,
        }]
    );
}

#[test]
fn disconnected_and_building_services_do_not_carry_traffic() {
    let gateway = operational_service(1, ServiceKind::InternetGateway);
    let building_server = Service::new(
        ServiceId::new(2),
        ServiceKind::ApplicationServer,
        GridPosition::new(1, 0),
    );
    let mut network = Network::default();
    connect(&mut network, 1, 2);

    assert_eq!(served_requests(100, &[gateway], &network), 0);
    assert_eq!(
        served_requests(100, &[gateway, building_server], &network),
        0
    );
}

#[test]
fn load_balancer_limits_combined_downstream_capacity() {
    let services = vec![
        operational_service(1, ServiceKind::InternetGateway),
        operational_service(2, ServiceKind::LoadBalancer),
        operational_service(3, ServiceKind::ApplicationServer),
        operational_service(4, ServiceKind::ApplicationServer),
    ];
    let mut network = Network::default();
    connect(&mut network, 1, 2);
    connect(&mut network, 2, 3);
    connect(&mut network, 2, 4);

    assert_eq!(served_requests(200, &services, &network), 150);
    assert_eq!(
        route_requests(200, &services, &network).link_traffic,
        vec![
            LinkTraffic {
                from: ServiceId::new(1),
                to: ServiceId::new(2),
                requests: 150,
            },
            LinkTraffic {
                from: ServiceId::new(2),
                to: ServiceId::new(3),
                requests: 100,
            },
            LinkTraffic {
                from: ServiceId::new(2),
                to: ServiceId::new(4),
                requests: 50,
            },
        ]
    );
}

#[test]
fn routing_handles_cycles_without_counting_capacity_twice() {
    let services = vec![
        operational_service(1, ServiceKind::InternetGateway),
        operational_service(2, ServiceKind::LoadBalancer),
        operational_service(3, ServiceKind::ApplicationServer),
    ];
    let mut network = Network::default();
    connect(&mut network, 1, 2);
    connect(&mut network, 2, 3);
    connect(&mut network, 3, 2);

    assert_eq!(served_requests(200, &services, &network), 100);
    assert_eq!(
        route_requests(200, &services, &network).link_traffic,
        vec![
            LinkTraffic {
                from: ServiceId::new(1),
                to: ServiceId::new(2),
                requests: 100,
            },
            LinkTraffic {
                from: ServiceId::new(2),
                to: ServiceId::new(3),
                requests: 100,
            },
        ]
    );
}

#[test]
fn zero_demand_or_an_empty_service_list_serves_nothing() {
    let gateway = operational_service(1, ServiceKind::InternetGateway);
    assert_eq!(served_requests(0, &[gateway], &Network::default()), 0);
    assert_eq!(served_requests(100, &[], &Network::default()), 0);
    assert!(
        route_requests(0, &[gateway], &Network::default())
            .link_traffic
            .is_empty()
    );
}

#[test]
fn opposite_directed_links_keep_independent_flow_totals() {
    let services = vec![
        operational_service(1, ServiceKind::InternetGateway),
        operational_service(2, ServiceKind::ApplicationServer),
    ];
    let mut network = Network::default();
    connect(&mut network, 1, 2);
    connect(&mut network, 2, 1);

    assert_eq!(
        route_requests(80, &services, &network).link_traffic,
        vec![LinkTraffic {
            from: ServiceId::new(1),
            to: ServiceId::new(2),
            requests: 80,
        }]
    );
}
