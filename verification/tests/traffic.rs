use servus::Traffic;

#[test]
fn traffic_demand_can_change() {
    let mut traffic = Traffic::new(30);
    traffic.set_requests_per_tick(75);
    assert_eq!(traffic.requests_per_tick(), 75);
}

#[test]
fn traffic_defaults_to_no_requests() {
    assert_eq!(Traffic::default().requests_per_tick(), 0);
}
