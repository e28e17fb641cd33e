use servus::{
    CommandOutcome, GameCommand, GridPosition, MapSize, ServiceKind, Simulation,
    render_simulation, run_demo,
};

#[test]
fn a_tick_that_costs_more_than_it_earns_shows_a_negative_net() {
    let mut simulation = Simulation::new(60, 0, MapSize::new(2, 1).expect("test map is valid"));
    simulation
        .apply(GameCommand::BuildService {
            kind: ServiceKind::InternetGateway,
            position: GridPosition::new(0, 0),
        })
        .expect("the gateway is affordable");
    let report = simulation.advance();
    let view = render_simulation(&simulation, Some(&report));
    assert!(view.contains("| net=-2 |"));
    assert!(view.contains("Completed: 1\n"));
    assert!(view.contains("0 |G.|"));
}

#[test]
fn tall_maps_right_align_their_row_numbers() {
    let simulation = Simulation::new(0, 0, MapSize::new(1, 11).expect("test map is valid"));
    let view = render_simulation(&simulation, None);
    assert!(view.contains("\n 9 |.|\n10 |.|\n"));
    assert!(view.contains("    0\n   +-+\n"));
}

#[test]
fn a_blocked_attack_is_reported() {
    let mut simulation = Simulation::new(500, 10, MapSize::new(3, 1).expect("test map is valid"));
    let mut ids = Vec::new();
    for (kind, x) in [
        (ServiceKind::InternetGateway, 0),
        (ServiceKind::Firewall, 1),
        (ServiceKind::ApplicationServer, 2),
    ] {
        match simulation.apply(GameCommand::BuildService {
            kind,
            position: GridPosition::new(x, 0),
        }) {
            Ok(CommandOutcome::ServiceBuilt { id, .. }) => ids.push(id),
            other => panic!("unexpected outcome {other:?}"),
        }
    }
    for pair in ids.windows(2) {
        simulation
            .apply(GameCommand::ConnectServices {
                from: pair[0],
                to: pair[1],
            })
            .expect("the links are affordable");
    }
    let mut report = simulation.advance();
    while report.tick.number() < servus::CYBER_ATTACK_INTERVAL {
        report = simulation.advance();
    }
    let view = render_simulation(&simulation, Some(&report));
    assert!(view.contains("Cyberattack: blocked before service 3\n"));
    assert!(view.contains("Links: 1 -> 2, 2 -> 3\n"));
}

#[test]
fn the_demo_places_four_services_and_runs_until_the_servers_are_built() {
    let result = run_demo().expect("the demo always runs");
    let positions: Vec<(u16, u16)> = result
        .placements
        .iter()
        .map(|placement| (placement.position.x, placement.position.y))
        .collect();
    assert_eq!(positions, vec![(1, 4), (3, 4), (5, 3), (5, 5)]);
    assert_eq!(result.placements[3].name, "Application Server");
    assert_eq!(result.frames[0].report.operating_cost, 2);
    assert_eq!(result.frames[1].report.operating_cost, 6);
    assert_eq!(result.frames[2].report.operating_cost, 22);
    assert!(result.frames[2].view.starts_with("Tick: 3 | Credits: 195\n"));
}
