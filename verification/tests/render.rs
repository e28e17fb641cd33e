use servus::{GameCommand, GridPosition, MapSize, ServiceKind, Simulation, render_simulation};

fn simulation(width: u16, height: u16, credits: u64) -> Simulation {
    Simulation::new(
        credits,
        25,
        MapSize::new(width, height).expect("test map dimensions are valid"),
    )
}

#[test]
fn empty_map_is_rendered_with_coordinates_and_status() {
    let simulation = simulation(3, 2, 100);

    assert_eq!(
        render_simulation(&simulation, None),
        [
            "Tick: 0 | Credits: 100\n",
            "   012\n",
            "  +---+\n",
            "0 |...|\n",
            "1 |...|\n",
            "  +---+\n",
            "Legend: g/G=Gateway, f/F=Firewall, l/L=Load Balancer, a/A=App Server, !=disrupted\n",
            "Links: none\n",
            "Traffic: awaiting first tick\n",
        ]
        .concat()
    );
}

#[test]
fn construction_and_operation_use_different_symbols() {
    let mut simulation = simulation(3, 2, 100);
    simulation
        .apply(GameCommand::BuildService {
            kind: ServiceKind::ApplicationServer,
            position: GridPosition::new(1, 0),
        })
        .expect("test placement and budget are valid");

    let first = simulation.advance();
    let building = render_simulation(&simulation, Some(&first));
    assert!(building.contains("0 |.a.|"));
    assert!(building.contains("Completed: none"));

    simulation.advance();
    let third = simulation.advance();
    let operational = render_simulation(&simulation, Some(&third));
    assert!(operational.contains("0 |.A.|"));
    assert!(operational.contains("Completed: 1"));
}

#[test]
fn coordinate_headers_repeat_decimal_digits_for_wide_maps() {
    let simulation = simulation(12, 1, 0);
    assert!(render_simulation(&simulation, None).contains("   012345678901\n"));
}

#[test]
fn load_balancer_symbol_changes_when_construction_completes() {
    let mut simulation = simulation(3, 2, 75);
    simulation
        .apply(GameCommand::BuildService {
            kind: ServiceKind::LoadBalancer,
            position: GridPosition::new(1, 0),
        })
        .expect("test load balancer is affordable and valid");

    assert!(render_simulation(&simulation, None).contains("0 |.l.|"));
    simulation.advance();
    simulation.advance();
    assert!(render_simulation(&simulation, None).contains("0 |.L.|"));
}

#[test]
fn firewall_symbol_changes_when_construction_completes() {
    let mut simulation = simulation(3, 2, 125);
    simulation
        .apply(GameCommand::BuildService {
            kind: ServiceKind::Firewall,
            position: GridPosition::new(1, 0),
        })
        .expect("test firewall is affordable and valid");

    assert!(render_simulation(&simulation, None).contains("0 |.f.|"));
    simulation.advance();
    simulation.advance();
    assert!(render_simulation(&simulation, None).contains("0 |.F.|"));
}

#[test]
fn gateways_and_directed_links_are_rendered() {
    let mut simulation = simulation(3, 2, 170);
    let gateway = simulation
        .apply(GameCommand::BuildService {
            kind: ServiceKind::InternetGateway,
            position: GridPosition::new(0, 0),
        })
        .expect("test gateway is affordable and valid");
    let server = simulation
        .apply(GameCommand::BuildService {
            kind: ServiceKind::ApplicationServer,
            position: GridPosition::new(2, 0),
        })
        .expect("test server is affordable and valid");
    let servus::CommandOutcome::ServiceBuilt { id: gateway, .. } = gateway else {
        panic!("a build command must produce a service");
    };
    let servus::CommandOutcome::ServiceBuilt { id: server, .. } = server else {
        panic!("a build command must produce a service");
    };
    simulation
        .apply(GameCommand::ConnectServices {
            from: gateway,
            to: server,
        })
        .expect("test link is affordable and valid");

    let building = render_simulation(&simulation, None);
    assert!(building.contains("0 |g.a|"));
    assert!(building.contains("Links: 1 -> 2"));

    simulation.advance();
    let gateway_operational = render_simulation(&simulation, None);
    assert!(gateway_operational.contains("0 |G.a|"));
}

#[test]
fn disrupted_service_and_cyberattack_are_rendered() {
    let mut simulation = simulation(3, 2, 300);
    let gateway = simulation
        .apply(GameCommand::BuildService {
            kind: ServiceKind::InternetGateway,
            position: GridPosition::new(0, 0),
        })
        .expect("test gateway is affordable");
    let server = simulation
        .apply(GameCommand::BuildService {
            kind: ServiceKind::ApplicationServer,
            position: GridPosition::new(1, 0),
        })
        .expect("test server is affordable");
    let servus::CommandOutcome::ServiceBuilt { id: gateway, .. } = gateway else {
        panic!("a build command must produce a service");
    };
    let servus::CommandOutcome::ServiceBuilt { id: server, .. } = server else {
        panic!("a build command must produce a service");
    };
    simulation
        .apply(GameCommand::ConnectServices {
            from: gateway,
            to: server,
        })
        .expect("test link is affordable");

    let mut report = simulation.advance();
    while report.tick.number() < servus::CYBER_ATTACK_INTERVAL {
        report = simulation.advance();
    }
    let view = render_simulation(&simulation, Some(&report));
    assert!(view.contains("0 |G!.|"));
    assert!(view.contains("Cyberattack: service 2 disrupted for 2 ticks"));
    assert!(view.contains("outage_penalty=25 | failover=false"));
}

#[test]
fn upgrading_service_has_a_distinct_symbol() {
    let mut simulation = simulation(3, 2, 300);
    let built = simulation
        .apply(GameCommand::BuildService {
            kind: ServiceKind::ApplicationServer,
            position: GridPosition::new(1, 0),
        })
        .expect("test server is affordable");
    let servus::CommandOutcome::ServiceBuilt { id, .. } = built else {
        panic!("a build command must produce a service");
    };
    for _ in 0..ServiceKind::ApplicationServer.construction_ticks() {
        simulation.advance();
    }
    simulation
        .apply(GameCommand::UpgradeService { id })
        .expect("scaled upgrade is affordable");

    assert!(render_simulation(&simulation, None).contains("0 |.^.|"));
}
