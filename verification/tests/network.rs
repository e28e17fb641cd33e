use servus::{NETWORK_LINK_COST, Network, NetworkError, NetworkLink, ServiceId};

#[test]
fn directed_links_can_be_added_and_queried() {
    let mut network = Network::default();
    let first = ServiceId::new(1);
    let second = ServiceId::new(2);

    assert_eq!(network.validate_link(first, second), Ok(()));
    network.add_link(first, second);

    assert!(network.has_link(first, second));
    assert!(!network.has_link(second, first));
    assert_eq!(network.outgoing(first), vec![second]);
    assert_eq!(
        network.links(),
        &[NetworkLink {
            from: first,
            to: second,
        }]
    );
}

#[test]
fn self_connections_and_duplicate_links_are_rejected() {
    let mut network = Network::default();
    let first = ServiceId::new(1);
    let second = ServiceId::new(2);

    assert_eq!(
        network.validate_link(first, first),
        Err(NetworkError::SelfConnection(first))
    );
    network.add_link(first, second);
    assert_eq!(
        network.validate_link(first, second),
        Err(NetworkError::DuplicateLink {
            from: first,
            to: second,
        })
    );
    assert_eq!(network.validate_link(second, first), Ok(()));
}

#[test]
fn network_errors_have_readable_messages() {
    assert_eq!(
        NetworkError::UnknownService(ServiceId::new(7)).to_string(),
        "service 7 does not exist"
    );
    assert_eq!(
        NetworkError::SelfConnection(ServiceId::new(3)).to_string(),
        "service 3 cannot connect to itself"
    );
    assert_eq!(
        NetworkError::DuplicateLink {
            from: ServiceId::new(1),
            to: ServiceId::new(2),
        }
        .to_string(),
        "network link 1 -> 2 already exists"
    );
}

#[test]
fn a_network_link_costs_ten_credits() {
    assert_eq!(NETWORK_LINK_COST, 10);
}
