use servus::{
    CommandError, ContentCatalog, ContentError, Footprint, GameCommand, GridMap, GridPosition,
    LinkTraffic, MapSize, Network, PlacementError, QueueBacklog, Service, ServiceDefinition,
    ServiceId, ServiceKind, Simulation, process_messages,
};

fn ready(id: u64, kind: ServiceKind) -> Service {
    let mut service = Service::new(ServiceId::new(id), kind, GridPosition::new(0, 0));
    while !service.is_operational() {
        service.advance_construction();
    }
    service
}

fn broker_fixture(kind: ServiceKind, consumers: u64) -> (Vec<Service>, Network) {
    let mut services = vec![
        ready(1, ServiceKind::InternetGateway),
        ready(2, ServiceKind::ApplicationServer),
        ready(3, kind),
    ];
    let mut network = Network::default();
    network.add_link(ServiceId::new(1), ServiceId::new(2));
    network.add_link(ServiceId::new(2), ServiceId::new(3));
    for id in 4..4 + consumers {
        services.push(ready(id, ServiceKind::ApplicationServer));
        network.add_link(ServiceId::new(3), ServiceId::new(id));
    }
    (services, network)
}

fn requests(to: u64, requests: u64) -> LinkTraffic {
    LinkTraffic {
        from: ServiceId::new(1),
        to: ServiceId::new(to),
        requests,
    }
}

#[test]
fn the_same_command_on_the_same_state_has_the_same_result() {
    let map_size = MapSize::new(3, 3).expect("test map is valid");
    let mut first = Simulation::new(60, 10, map_size);
    first
        .apply(GameCommand::BuildService {
            kind: ServiceKind::InternetGateway,
            position: GridPosition::new(1, 1),
        })
        .expect("the gateway is affordable");
    let mut second = first.clone();
    let command = GameCommand::BuildService {
        kind: ServiceKind::ApplicationServer,
        position: GridPosition::new(0, 0),
    };
    let first_result = first.apply(command);
    let second_result = second.apply(command);
    assert_eq!(first_result, second_result);
    assert!(matches!(first_result, Err(CommandError::InsufficientBudget(_))));
    assert_eq!(first, second);
    assert_eq!(first.advance(), second.advance());
    assert_eq!(first, second);
}

#[test]
fn routed_events_are_processed_or_dropped_exactly_once() {
    let (services, network) = broker_fixture(ServiceKind::EventBus, 2);
    let traffic = vec![requests(2, 100), requests(4, 60), requests(5, 70)];
    let result = process_messages(&services, &network, &traffic, &mut Vec::new());
    assert_eq!(result.published, 100);
    assert_eq!(result.processed, 40 + 30);
    assert_eq!(result.processed + result.dropped, result.published);
}

#[test]
fn a_queue_without_consumers_never_grows_past_its_storage() {
    let (services, network) = broker_fixture(ServiceKind::MessageQueue, 0);
    let traffic = vec![requests(2, 100)];
    let mut backlogs = Vec::new();
    let storage = ServiceKind::MessageQueue.traffic_capacity() * servus::QUEUE_STORAGE_MULTIPLIER;
    for _ in 0..20 {
        let result = process_messages(&services, &network, &traffic, &mut backlogs);
        assert!(result.queued <= storage);
    }
    assert_eq!(
        backlogs,
        vec![QueueBacklog {
            queue: ServiceId::new(3),
            messages: storage,
        }]
    );
}

#[test]
fn a_queue_dispatches_no_more_than_its_throughput_per_tick() {
    let (services, network) = broker_fixture(ServiceKind::MessageQueue, 2);
    let mut backlogs = vec![QueueBacklog {
        queue: ServiceId::new(3),
        messages: 1_000,
    }];
    let result = process_messages(&services, &network, &[], &mut backlogs);
    assert_eq!(result.processed, ServiceKind::MessageQueue.traffic_capacity());
    assert_eq!(result.queued, 1_000 - 120);
    assert_eq!(result.link_traffic.len(), 2);
}

#[test]
fn a_topic_without_consumers_drops_what_it_accepts() {
    let (services, network) = broker_fixture(ServiceKind::PubSubTopic, 0);
    let result = process_messages(&services, &network, &[requests(2, 100)], &mut Vec::new());
    assert_eq!((result.published, result.processed, result.dropped), (100, 0, 100));
}

#[test]
fn placement_reports_the_first_occupied_tile_in_row_order() {
    let mut map = GridMap::new(MapSize::new(4, 4).expect("test map is valid"));
    map.occupy(GridPosition::new(2, 2), Footprint::new(1, 1), ServiceId::new(7));
    map.occupy(GridPosition::new(1, 2), Footprint::new(1, 1), ServiceId::new(8));
    map.occupy(GridPosition::new(2, 1), Footprint::new(1, 1), ServiceId::new(9));
    assert_eq!(
        map.validate_placement(GridPosition::new(1, 1), Footprint::new(2, 2)),
        Err(PlacementError::Occupied {
            position: GridPosition::new(2, 1),
            service_id: ServiceId::new(9),
        })
    );
}

#[test]
fn the_first_problem_decides_the_content_error() {
    let result = ContentCatalog::new(vec![
        ServiceDefinition {
            kind: ServiceKind::Firewall,
            display_name: "Firewall".to_owned(),
            description: String::new(),
        },
        ServiceDefinition {
            kind: ServiceKind::Firewall,
            display_name: "\t\u{3000}".to_owned(),
            description: String::new(),
        },
    ]);
    assert_eq!(result, Err(ContentError::EmptyServiceName(ServiceKind::Firewall)));
}

#[test]
fn routing_fills_links_in_breadth_first_order() {
    let services = vec![
        ready(1, ServiceKind::InternetGateway),
        ready(2, ServiceKind::LoadBalancer),
        ready(3, ServiceKind::ApplicationServer),
        ready(4, ServiceKind::ApplicationServer),
    ];
    let mut network = Network::default();
    network.add_link(ServiceId::new(1), ServiceId::new(2));
    network.add_link(ServiceId::new(2), ServiceId::new(4));
    network.add_link(ServiceId::new(2), ServiceId::new(3));
    let result = servus::route_requests(120, &services, &network);
    assert_eq!(result.served, 120);
    assert_eq!(
        result.link_traffic,
        vec![
            LinkTraffic { from: ServiceId::new(1), to: ServiceId::new(2), requests: 120 },
            LinkTraffic { from: ServiceId::new(2), to: ServiceId::new(4), requests: 100 },
            LinkTraffic { from: ServiceId::new(2), to: ServiceId::new(3), requests: 20 },
        ]
    );
}

#[test]
fn replays_with_demand_changes_report_the_same_ticks() {
    let map_size = MapSize::new(3, 1).expect("test map is valid");
    let mut games = [Simulation::new(300, 40, map_size), Simulation::new(300, 40, map_size)];
    let mut reports = Vec::new();
    for game in games.iter_mut() {
        game.apply(GameCommand::BuildService {
            kind: ServiceKind::InternetGateway,
            position: GridPosition::new(0, 0),
        })
        .expect("the gateway is affordable");
        game.apply(GameCommand::BuildService {
            kind: ServiceKind::ApplicationServer,
            position: GridPosition::new(2, 0),
        })
        .expect("the server is affordable");
        game.apply(GameCommand::ConnectServices { from: ServiceId::new(1), to: ServiceId::new(2) })
            .expect("the link is affordable");
        let mut ticks = Vec::new();
        for demand in [40, 90, 150, 10] {
            game.set_requests_per_tick(demand);
            ticks.push(game.advance());
        }
        reports.push(ticks);
    }
    assert_eq!(reports[0], reports[1]);
    assert_eq!(games[0], games[1]);
    assert_eq!(reports[0][3].served, 10);
}
