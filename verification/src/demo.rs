//! The scripted demo scenario: a gateway, a load balancer and two application servers.
use vstd::prelude::*;

use crate::command::{CommandError, CommandOutcome, GameCommand};
use crate::content::{
    ContentCatalog, builtin_kind, builtin_name, definition_position, lemma_definition_position,
};
use crate::infrastructure::{ServiceId, ServiceKind, lemma_service_position, service_position};
use crate::map::{GridPosition, MapSize, MapSizeError, placement_is_free};
use crate::network::links_contain;
use crate::render::{render_simulation, rendered_view};
use crate::simulation::Simulation;
use crate::traffic::TickReport;
use vstd::pervasive::unreached;

verus! {

broadcast use {
    crate::infrastructure::ServiceId::lemma_value_identifies,
    crate::infrastructure::Service::lemma_spec_new,
    crate::map::Footprint::lemma_spec_new,
};

/// Credits that the demo company starts with.
pub const STARTING_CREDITS: u64 = 430;

/// Requests that arrive during every tick of the demo.
pub const STARTING_REQUESTS_PER_TICK: u64 = 200;

pub const DEMO_MAP_WIDTH: u16 = 8;

pub const DEMO_MAP_HEIGHT: u16 = 8;

/// A service that the demo placed, by its display name.
#[derive(Clone, Debug, PartialEq, Eq)]
pub struct DemoPlacement {
    pub name: String,
    pub position: GridPosition,
}

/// One tick of the demo: its report and the view rendered after it.
#[derive(Clone, Debug, PartialEq, Eq)]
pub struct DemoFrame {
    pub report: TickReport,
    pub view: String,
}

/// Everything the demo did.
#[derive(Clone, Debug, PartialEq, Eq)]
pub struct DemoResult {
    pub placements: Vec<DemoPlacement>,
    pub frames: Vec<DemoFrame>,
    pub remaining_credits: u64,
}

/// Why the demo could not run.
#[derive(Clone, Copy, Debug, PartialEq, Eq, Structural)]
pub enum DemoError {
    InvalidMapSize(MapSizeError),
    Command(CommandError),
}

/// The error behind a demo failure.
#[derive(Clone, Copy, Debug, PartialEq, Eq, Structural)]
pub enum DemoErrorSource {
    MapSize(MapSizeError),
    Command(CommandError),
}

impl DemoError {
    /// The message of the error behind the failure.
    pub open spec fn spec_message(self) -> Seq<char> {
        match self {
            DemoError::InvalidMapSize(error) => error.spec_message(),
            DemoError::Command(error) => error.spec_message(),
        }
    }

    pub fn to_string(&self) -> (text: String)
        ensures
            text@ == self.spec_message(),
    {
        match self {
            DemoError::InvalidMapSize(error) => error.to_string(),
            DemoError::Command(error) => error.to_string(),
        }
    }

    /// The underlying error; every failure has one.
    pub fn source(&self) -> (cause: Option<DemoErrorSource>)
        ensures
            cause == Some(
                match *self {
                    DemoError::InvalidMapSize(error) => DemoErrorSource::MapSize(error),
                    DemoError::Command(error) => DemoErrorSource::Command(error),
                },
            ),
    {
        match *self {
            DemoError::InvalidMapSize(error) => Some(DemoErrorSource::MapSize(error)),
            DemoError::Command(error) => Some(DemoErrorSource::Command(error)),
        }
    }
}

/// The kind of the service that the demo places `k`-th.
pub open spec fn demo_kind(k: int) -> ServiceKind {
    if k == 0 {
        ServiceKind::InternetGateway
    } else if k == 1 {
        ServiceKind::LoadBalancer
    } else {
        ServiceKind::ApplicationServer
    }
}

/// Where the demo places its `k`-th service.
pub open spec fn demo_position(k: int) -> GridPosition {
    if k == 0 {
        GridPosition { x: 1, y: 4 }
    } else if k == 1 {
        GridPosition { x: 3, y: 4 }
    } else if k == 2 {
        GridPosition { x: 5, y: 3 }
    } else {
        GridPosition { x: 5, y: 5 }
    }
}

/// Where the demo places its `k`-th service.
fn placement_position(k: usize) -> (position: GridPosition)
    ensures
        position == demo_position(k as int),
{
    if k == 0 {
        GridPosition::new(1, 4)
    } else if k == 1 {
        GridPosition::new(3, 4)
    } else if k == 2 {
        GridPosition::new(5, 3)
    } else {
        GridPosition::new(5, 5)
    }
}

/// The identity that the `k`-th command's outcome reports.
pub open spec fn built_id(outcomes: Seq<CommandOutcome>, k: int) -> ServiceId {
    outcomes[k]->ServiceBuilt_id
}

/// The `k`-th command of the demo set-up: four constructions, then links from the gateway to
/// the load balancer and from the load balancer to each server, by the identities that the
/// constructions reported.
pub open spec fn demo_command(k: int, outcomes: Seq<CommandOutcome>) -> GameCommand {
    if k < 4 {
        GameCommand::BuildService { kind: demo_kind(k), position: demo_position(k) }
    } else if k == 4 {
        GameCommand::ConnectServices { from: built_id(outcomes, 0), to: built_id(outcomes, 1) }
    } else if k == 5 {
        GameCommand::ConnectServices { from: built_id(outcomes, 1), to: built_id(outcomes, 2) }
    } else {
        GameCommand::ConnectServices { from: built_id(outcomes, 1), to: built_id(outcomes, 3) }
    }
}

/// The number of ticks the demo runs: until its servers are built.
pub open spec fn demo_ticks() -> int {
    ServiceKind::ApplicationServer.construction_ticks() as int
}

/// Frame `k` shows the report of the tick from `states[7 + k]` to `states[8 + k]` and the view
/// of the state it leads to.
pub open spec fn is_demo_frame(states: Seq<Simulation>, frames: Seq<DemoFrame>, k: int) -> bool {
    &&& states[7 + k].is_tick_outcome(states[8 + k], frames[k].report)
    &&& frames[k].view@ == rendered_view(states[8 + k], Some(&frames[k].report))
}

/// `states` is the course of the demo: a new game, the seven set-up commands accepted with
/// `outcomes`, then one tick per frame, each frame showing its report and the view after it.
pub open spec fn is_demo_history(
    result: DemoResult,
    states: Seq<Simulation>,
    outcomes: Seq<CommandOutcome>,
) -> bool {
    &&& states.len() == 8 + demo_ticks()
    &&& outcomes.len() == 7
    &&& states[0].spec_map().spec_size().spec_width() == DEMO_MAP_WIDTH
    &&& states[0].spec_map().spec_size().spec_height() == DEMO_MAP_HEIGHT
    &&& states[0].is_new_game(
        STARTING_CREDITS,
        STARTING_REQUESTS_PER_TICK,
        states[0].spec_map().spec_size(),
    )
    &&& forall|k: int|
        0 <= k < 7 ==> #[trigger] states[k].is_command_outcome(
            demo_command(k, outcomes),
            states[k + 1],
            Ok(outcomes[k]),
        )
    &&& result.frames@.len() == demo_ticks()
    &&& forall|k: int| 0 <= k < demo_ticks() ==> #[trigger] is_demo_frame(states, result.frames@, k)
    &&& result.remaining_credits == states[7 + demo_ticks()].spec_budget().spec_credits()
    &&& result.placements@.len() == 4
    &&& forall|k: int|
        0 <= k < 4 ==> #[trigger] result.placements@[k].name@ == builtin_name(demo_kind(k))
            && result.placements@[k].position == demo_position(k)
}

/// The display name of `kind` in `catalog`, or `Unknown Service` when it has none.
pub open spec fn catalog_name(catalog: ContentCatalog, kind: ServiceKind) -> Seq<char> {
    match definition_position(catalog.spec_services(), kind) {
        Some(i) => catalog.spec_services()[i].display_name@,
        None => "Unknown Service"@,
    }
}

/// The display name of `kind` in `catalog`, or `Unknown Service` when it has none.
fn service_name(catalog: &ContentCatalog, kind: ServiceKind) -> (name: String)
    ensures
        name@ == catalog_name(*catalog, kind),
{
    match catalog.service(kind) {
        Some(definition) => definition.display_name.clone(),
        None => "Unknown Service".to_owned(),
    }
}

/// Builds `kind` at `position`; returns the identity of the new service.
fn build_service(simulation: &mut Simulation, kind: ServiceKind, position: GridPosition) -> (res:
    Result<ServiceId, DemoError>)
    requires
        old(simulation).wf(),
    ensures
        final(simulation).wf(),
        old(simulation).ids_fresh() && old(simulation).spec_next_service_id() < u64::MAX
            ==> final(simulation).ids_fresh(),
        match res {
            Ok(id) => old(simulation).is_command_outcome(
                GameCommand::BuildService { kind, position },
                *final(simulation),
                Ok(CommandOutcome::ServiceBuilt { id, kind, position }),
            ),
            Err(error) => error matches DemoError::Command(command_error) && old(
                simulation,
            ).is_command_outcome(
                GameCommand::BuildService { kind, position },
                *final(simulation),
                Err(command_error),
            ),
        },
{
    match simulation.apply(GameCommand::BuildService { kind, position }) {
        Ok(CommandOutcome::ServiceBuilt { id, .. }) => Ok(id),
        Ok(_) => unreached(),
        Err(error) => Err(DemoError::Command(error)),
    }
}

/// Links `from` to `to`.
fn connect(simulation: &mut Simulation, from: ServiceId, to: ServiceId) -> (res: Result<
    (),
    DemoError,
>)
    requires
        old(simulation).wf(),
    ensures
        final(simulation).wf(),
        old(simulation).ids_fresh() ==> final(simulation).ids_fresh(),
        match res {
            Ok(()) => old(simulation).is_command_outcome(
                GameCommand::ConnectServices { from, to },
                *final(simulation),
                Ok(CommandOutcome::ServicesConnected { from, to }),
            ),
            Err(error) => error matches DemoError::Command(command_error) && old(
                simulation,
            ).is_command_outcome(
                GameCommand::ConnectServices { from, to },
                *final(simulation),
                Err(command_error),
            ),
        },
{
    match simulation.apply(GameCommand::ConnectServices { from, to }) {
        Ok(_) => Ok(()),
        Err(error) => Err(DemoError::Command(error)),
    }
}


/// `kind` can be built at `position` on `simulation`: the tile is free and the budget covers it.
proof fn lemma_build_possible(simulation: Simulation, kind: ServiceKind, position: GridPosition)
    requires
        position.x < simulation.spec_map().spec_size().spec_width(),
        position.y < simulation.spec_map().spec_size().spec_height(),
        simulation.spec_map().spec_service_at(position) == None::<ServiceId>,
    ensures
        placement_is_free(simulation.spec_map(), position, kind.spec_footprint()),
{
    assert forall|tile: GridPosition|
        crate::map::in_footprint(
            position,
            kind.spec_footprint(),
            tile,
        ) implies #[trigger] simulation.spec_map().spec_service_at(tile) == None::<ServiceId> by {
        assert(tile == position);
    }
}

/// Runs the demo: on an 8 by 8 map it builds a gateway, a load balancer and two application
/// servers, links the gateway to the load balancer and the load balancer to both servers, then
/// advances until the servers are built, rendering the map after every tick.
#[verifier::spinoff_prover]
pub fn run_demo() -> (res: Result<DemoResult, DemoError>)
    ensures
        res is Ok,
        exists|states: Seq<Simulation>, outcomes: Seq<CommandOutcome>|
            #[trigger] is_demo_history(res->Ok_0, states, outcomes),
{
    let catalog = ContentCatalog::builtin();
    let map_size = match MapSize::new(DEMO_MAP_WIDTH, DEMO_MAP_HEIGHT) {
        Ok(size) => size,
        Err(error) => {
            return Err(DemoError::InvalidMapSize(error));
        },
    };
    let mut simulation = Simulation::new(STARTING_CREDITS, STARTING_REQUESTS_PER_TICK, map_size);
    let ghost s0 = simulation;

    let gateway_position = placement_position(0);
    proof {
        lemma_build_possible(s0, ServiceKind::InternetGateway, gateway_position);
    }
    let gateway = match build_service(&mut simulation, ServiceKind::InternetGateway, gateway_position) {
        Ok(id) => id,
        Err(error) => {
            return Err(error);
        },
    };
    let ghost s1 = simulation;

    let load_balancer_position = placement_position(1);
    proof {
        lemma_build_possible(s1, ServiceKind::LoadBalancer, load_balancer_position);
    }
    let load_balancer = match build_service(
        &mut simulation,
        ServiceKind::LoadBalancer,
        load_balancer_position,
    ) {
        Ok(id) => id,
        Err(error) => {
            return Err(error);
        },
    };
    let ghost s2 = simulation;

    let server_one_position = placement_position(2);
    proof {
        lemma_build_possible(s2, ServiceKind::ApplicationServer, server_one_position);
    }
    let server_one = match build_service(
        &mut simulation,
        ServiceKind::ApplicationServer,
        server_one_position,
    ) {
        Ok(id) => id,
        Err(error) => {
            return Err(error);
        },
    };
    let ghost s3 = simulation;

    let server_two_position = placement_position(3);
    proof {
        lemma_build_possible(s3, ServiceKind::ApplicationServer, server_two_position);
    }
    let server_two = match build_service(
        &mut simulation,
        ServiceKind::ApplicationServer,
        server_two_position,
    ) {
        Ok(id) => id,
        Err(error) => {
            return Err(error);
        },
    };
    let ghost s4 = simulation;
    proof {
        let services = s4.spec_services();
        assert(services[0].spec_id() == gateway);
        assert(services[1].spec_id() == load_balancer);
        assert(services[2].spec_id() == server_one);
        assert(services[3].spec_id() == server_two);
        lemma_service_position(services, gateway);
        lemma_service_position(services, load_balancer);
        lemma_service_position(services, server_one);
        lemma_service_position(services, server_two);
    }

    match connect(&mut simulation, gateway, load_balancer) {
        Ok(()) => {},
        Err(error) => {
            return Err(error);
        },
    }
    let ghost s5 = simulation;
    proof {
        let links = s5.spec_network().spec_links();
        assert(!links_contain(links, load_balancer, server_one)) by {
            assert(links[0] != (crate::network::NetworkLink { from: load_balancer, to: server_one }));
        }
    }
    match connect(&mut simulation, load_balancer, server_one) {
        Ok(()) => {},
        Err(error) => {
            return Err(error);
        },
    }
    let ghost s6 = simulation;
    proof {
        let links = s6.spec_network().spec_links();
        assert(!links_contain(links, load_balancer, server_two)) by {
            assert(links[0] != (crate::network::NetworkLink { from: load_balancer, to: server_two }));
            assert(links[1] != (crate::network::NetworkLink { from: load_balancer, to: server_two }));
        }
    }
    match connect(&mut simulation, load_balancer, server_two) {
        Ok(()) => {},
        Err(error) => {
            return Err(error);
        },
    }
    let ghost s7 = simulation;
    let ghost outcomes: Seq<CommandOutcome> = seq![
        CommandOutcome::ServiceBuilt {
            id: gateway,
            kind: ServiceKind::InternetGateway,
            position: gateway_position,
        },
        CommandOutcome::ServiceBuilt {
            id: load_balancer,
            kind: ServiceKind::LoadBalancer,
            position: load_balancer_position,
        },
        CommandOutcome::ServiceBuilt {
            id: server_one,
            kind: ServiceKind::ApplicationServer,
            position: server_one_position,
        },
        CommandOutcome::ServiceBuilt {
            id: server_two,
            kind: ServiceKind::ApplicationServer,
            position: server_two_position,
        },
        CommandOutcome::ServicesConnected { from: gateway, to: load_balancer },
        CommandOutcome::ServicesConnected { from: load_balancer, to: server_one },
        CommandOutcome::ServicesConnected { from: load_balancer, to: server_two },
    ];
    let ghost mut states: Seq<Simulation> = seq![s0, s1, s2, s3, s4, s5, s6, s7];
    proof {
        assert forall|k: int| 0 <= k < 7 implies #[trigger] states[k].is_command_outcome(
            demo_command(k, outcomes),
            states[k + 1],
            Ok(outcomes[k]),
        ) by {
            if k == 0 {
                assert(states[0] == s0 && states[1] == s1);
            } else if k == 1 {
                assert(states[1] == s1 && states[2] == s2);
            } else if k == 2 {
                assert(states[2] == s2 && states[3] == s3);
            } else if k == 3 {
                assert(states[3] == s3 && states[4] == s4);
            } else if k == 4 {
                assert(states[4] == s4 && states[5] == s5);
            } else if k == 5 {
                assert(states[5] == s5 && states[6] == s6);
            } else {
                assert(states[6] == s6 && states[7] == s7);
            }
        }
    }

    let ticks = ServiceKind::ApplicationServer.construction_ticks();
    let mut frames: Vec<DemoFrame> = Vec::new();
    let mut tick: u16 = 0;
    while tick < ticks
        invariant
            ticks == demo_ticks(),
            tick <= ticks,
            simulation.wf(),
            simulation.spec_services().len() == 4,
            simulation.spec_network().spec_links().len() == 3,
            states.len() == 8 + tick,
            states[7 + tick as int] == simulation,
            states[0] == s0,
            frames@.len() == tick,
            forall|k: int|
                0 <= k < 7 ==> #[trigger] states[k].is_command_outcome(
                    demo_command(k, outcomes),
                    states[k + 1],
                    Ok(outcomes[k]),
                ),
            forall|k: int| 0 <= k < tick ==> #[trigger] is_demo_frame(states, frames@, k),
        decreases ticks - tick,
    {
        let ghost before = simulation;
        let report = simulation.advance();
        proof {
            crate::security::lemma_services_after_attack(
                simulation.spec_tick(),
                crate::simulation::services_after_tick(before.spec_services()),
                before.spec_network().spec_links(),
            );
        }
        let view = render_simulation(&simulation, Some(&report));
        let ghost old_states = states;
        let ghost old_frames = frames@;
        frames.push(DemoFrame { report, view });
        proof {
            states = states.push(simulation);
            assert forall|k: int| 0 <= k < 7 implies #[trigger] states[k].is_command_outcome(
                demo_command(k, outcomes),
                states[k + 1],
                Ok(outcomes[k]),
            ) by {
                assert(states[k] == old_states[k]);
                assert(states[k + 1] == old_states[k + 1]);
            }
            assert forall|k: int| 0 <= k < tick + 1 implies #[trigger] is_demo_frame(
                states,
                frames@,
                k,
            ) by {
                if k < tick {
                    assert(is_demo_frame(old_states, old_frames, k));
                    assert(states[7 + k] == old_states[7 + k]);
                    assert(states[8 + k] == old_states[8 + k]);
                    assert(frames@[k] == old_frames[k]);
                } else {
                    assert(states[7 + k] == before);
                    assert(states[8 + k] == simulation);
                }
            }
        }
        tick = tick + 1;
    }

    let mut placements: Vec<DemoPlacement> = Vec::new();
    placements.push(
        DemoPlacement {
            name: service_name(&catalog, ServiceKind::InternetGateway),
            position: gateway_position,
        },
    );
    placements.push(
        DemoPlacement {
            name: service_name(&catalog, ServiceKind::LoadBalancer),
            position: load_balancer_position,
        },
    );
    placements.push(
        DemoPlacement {
            name: service_name(&catalog, ServiceKind::ApplicationServer),
            position: server_one_position,
        },
    );
    placements.push(
        DemoPlacement {
            name: service_name(&catalog, ServiceKind::ApplicationServer),
            position: server_two_position,
        },
    );
    let result = DemoResult { placements, frames, remaining_credits: simulation.budget().credits() };
    proof {
        let definitions = catalog.spec_services();
        assert(definitions[0].kind == builtin_kind(0));
        assert(definitions[1].kind == builtin_kind(1));
        assert(definitions[2].kind == builtin_kind(2));
        assert(definitions[3].kind == builtin_kind(3));
        lemma_definition_position(definitions, ServiceKind::InternetGateway);
        lemma_definition_position(definitions, ServiceKind::LoadBalancer);
        lemma_definition_position(definitions, ServiceKind::ApplicationServer);
        assert(catalog_name(catalog, ServiceKind::InternetGateway) == builtin_name(
            ServiceKind::InternetGateway,
        ));
        assert(catalog_name(catalog, ServiceKind::LoadBalancer) == builtin_name(
            ServiceKind::LoadBalancer,
        ));
        assert(catalog_name(catalog, ServiceKind::ApplicationServer) == builtin_name(
            ServiceKind::ApplicationServer,
        ));
        assert forall|k: int| 0 <= k < 4 implies #[trigger] result.placements@[k].name@
            == builtin_name(demo_kind(k)) && result.placements@[k].position == demo_position(
            k,
        ) by {}
        assert(is_demo_history(result, states, outcomes));
    }
    let res: Result<DemoResult, DemoError> = Ok(result);
    proof {
        assert(res->Ok_0 == result);
        assert(is_demo_history(res->Ok_0, states, outcomes));
    }
    res
}

} // verus!
