use servus::{
    GridPosition, LinkTraffic, Network, QueueBacklog, Service, ServiceId, ServiceKind,
    process_messages,
};

fn operational(id: u64, kind: ServiceKind) -> Service {
    let mut service = Service::new(ServiceId::new(id), kind, GridPosition::new(0, 0));
    while !service.is_operational() {
        service.advance_construction();
    }
    service
}

fn fixture(kind: ServiceKind, consumers: usize) -> (Vec<Service>, Network, Vec<LinkTraffic>) {
    let mut services = vec![
        operational(1, ServiceKind::InternetGateway),
        operational(2, ServiceKind::ApplicationServer),
        operational(3, kind),
    ];
    let mut network = Network::default();
    network.add_link(ServiceId::new(1), ServiceId::new(2));
    network.add_link(ServiceId::new(2), ServiceId::new(3));
    for offset in 0..consumers {
        let id = 4 + offset as u64;
        services.push(operational(id, ServiceKind::ApplicationServer));
        network.add_link(ServiceId::new(3), ServiceId::new(id));
    }
    let traffic = vec![LinkTraffic {
        from: ServiceId::new(1),
        to: ServiceId::new(2),
        requests: 100,
    }];
    (services, network, traffic)
}

#[test]
fn queue_buffers_work_without_a_consumer_and_drains_it_later() {
    let (mut services, mut network, traffic) = fixture(ServiceKind::MessageQueue, 0);
    let mut backlogs = Vec::new();
    let first = process_messages(&services, &network, &traffic, &mut backlogs);
    assert_eq!(
        (first.published, first.processed, first.queued),
        (100, 0, 100)
    );

    services.push(operational(4, ServiceKind::ApplicationServer));
    network.add_link(ServiceId::new(3), ServiceId::new(4));
    let second = process_messages(&services, &network, &[], &mut backlogs);
    assert_eq!(
        (second.published, second.processed, second.queued),
        (0, 100, 0)
    );
}

#[test]
fn topic_fans_each_event_out_to_every_consumer() {
    let (services, network, traffic) = fixture(ServiceKind::PubSubTopic, 2);
    let result = process_messages(&services, &network, &traffic, &mut Vec::new());
    assert_eq!(
        (result.published, result.processed, result.dropped),
        (100, 200, 0)
    );
    assert_eq!(result.link_traffic.len(), 3);
}

#[test]
fn event_bus_routes_each_event_to_only_one_consumer() {
    let (services, network, traffic) = fixture(ServiceKind::EventBus, 2);
    let result = process_messages(&services, &network, &traffic, &mut Vec::new());
    assert_eq!(
        (result.published, result.processed, result.dropped),
        (100, 100, 0)
    );
    assert_eq!(result.link_traffic.len(), 2);
}

#[test]
fn background_work_uses_only_a_consumers_remaining_capacity() {
    let (services, network, mut traffic) = fixture(ServiceKind::EventBus, 1);
    traffic.push(LinkTraffic {
        from: ServiceId::new(1),
        to: ServiceId::new(4),
        requests: 80,
    });
    let result = process_messages(&services, &network, &traffic, &mut Vec::new());
    assert_eq!(
        (result.published, result.processed, result.dropped),
        (100, 20, 80)
    );
}

#[test]
fn queue_storage_is_bounded_and_overflow_is_dropped() {
    let (services, network, _) = fixture(ServiceKind::MessageQueue, 0);
    let traffic = vec![LinkTraffic {
        from: ServiceId::new(1),
        to: ServiceId::new(2),
        requests: 2_000,
    }];
    let mut backlogs = vec![QueueBacklog {
        queue: ServiceId::new(3),
        messages: 1_150,
    }];
    let result = process_messages(&services, &network, &traffic, &mut backlogs);
    assert_eq!((result.published, result.queued), (120, 1_200));
    assert_eq!(result.dropped, 1_950);
}
