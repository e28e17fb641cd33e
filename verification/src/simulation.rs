use vstd::prelude::*;

use crate::clock::{Tick, next_tick_number};
use crate::command::{CommandError, CommandOutcome, GameCommand, UpgradeError};
use crate::economy::{
    Budget, BudgetError, OUTAGE_PENALTY_PER_DROPPED_REQUEST, saturating_product, saturating_sum,
    smaller,
};
use crate::infrastructure::{
    Service, ServiceId, ServiceKind, ServiceState, find_service, lemma_service_position,
    service_position, tick_completes_construction,
};
use crate::map::{
    GridMap, GridPosition, MapSize, is_occupied_copy, is_placement_error,
    lemma_placement_error_unique, lemma_same_occupancy_free, placement_is_free, same_occupancy,
};
use crate::network::{NETWORK_LINK_COST, Network, NetworkError, NetworkLink, links_contain};
use crate::routing::{is_routing, optimal_routing_value, route_requests, routed_traffic, routing_fits};
use crate::security::{
    DISRUPTION_TICKS,
    attack_report, lemma_services_after_attack, resolve_scheduled_attack, services_after_attack,
};
use crate::traffic::{TickReport, Traffic};

verus! {

broadcast use {
    crate::clock::Tick::lemma_number_identifies,
    crate::infrastructure::ServiceId::lemma_value_identifies,
    crate::infrastructure::Service::lemma_spec_new,
    crate::infrastructure::Service::lemma_spec_after_tick,
    crate::map::Footprint::lemma_spec_new,
};

/// Credits earned per served request.
const REVENUE_PER_SERVED_REQUEST: u64 = 1;

/// Complete deterministic state of a game.
#[derive(Clone, Debug, PartialEq, Eq)]
pub struct Simulation {
    tick: Tick,
    budget: Budget,
    traffic: Traffic,
    map: GridMap,
    network: Network,
    services: Vec<Service>,
    next_service_id: u64,
}

/// The services after one tick of construction, upgrade and recovery work.
pub open spec fn services_after_tick(services: Seq<Service>) -> Seq<Service> {
    Seq::new(services.len(), |i: int| services[i].spec_after_tick())
}

/// The identities of the first `count` services whose construction completes on this tick.
pub open spec fn completing_ids(services: Seq<Service>, count: int) -> Seq<ServiceId>
    decreases count,
{
    if count <= 0 {
        Seq::empty()
    } else {
        let rest = completing_ids(services, count - 1);
        if tick_completes_construction(services[count - 1].spec_state()) {
            rest.push(services[count - 1].spec_id())
        } else {
            rest
        }
    }
}

/// Some service is recovering from an attack.
pub open spec fn any_disrupted(services: Seq<Service>) -> bool {
    exists|i: int|
        0 <= i < services.len() && #[trigger] services[i].spec_state() is Disrupted
}

/// The operating cost of the first `count` services, saturating at the largest amount.
pub open spec fn total_operating_cost(services: Seq<Service>, count: int) -> u64
    decreases count,
{
    if count <= 0 {
        0
    } else {
        saturating_sum(
            total_operating_cost(services, count - 1),
            services[count - 1].spec_operating_cost(),
        )
    }
}

impl Simulation {
    pub closed spec fn spec_tick(self) -> Tick {
        self.tick
    }

    pub closed spec fn spec_budget(self) -> Budget {
        self.budget
    }

    pub closed spec fn spec_traffic(self) -> Traffic {
        self.traffic
    }

    pub closed spec fn spec_map(self) -> GridMap {
        self.map
    }

    pub closed spec fn spec_network(self) -> Network {
        self.network
    }

    pub closed spec fn spec_services(self) -> Seq<Service> {
        self.services@
    }

    /// The identity number the next constructed service receives.
    pub closed spec fn spec_next_service_id(self) -> u64 {
        self.next_service_id
    }

    /// The map is consistent and every service is in a reachable state.
    pub open spec fn wf(self) -> bool {
        &&& self.spec_map().wf()
        &&& forall|i: int|
            0 <= i < self.spec_services().len() ==> #[trigger] self.spec_services()[i].wf()
    }

    /// Service identities are distinct and below the next identity to hand out, which is one
    /// more than the number of services.
    pub open spec fn ids_fresh(self) -> bool {
        &&& self.spec_next_service_id() == self.spec_services().len() + 1
        &&& forall|i: int|
            0 <= i < self.spec_services().len()
                ==> #[trigger] self.spec_services()[i].spec_id().spec_value()
                < self.spec_next_service_id()
        &&& forall|i: int, j: int|
            0 <= i < j < self.spec_services().len() ==> #[trigger] self.spec_services()[i].spec_id()
                != #[trigger] self.spec_services()[j].spec_id()
    }

    /// A game at tick zero with the given credits, demand and map, nothing built and nothing
    /// connected.
    pub open spec fn is_new_game(self, credits: u64, requests_per_tick: u64, map_size: MapSize) -> bool {
        &&& self.wf()
        &&& self.ids_fresh()
        &&& self.spec_tick().spec_number() == 0
        &&& self.spec_budget().spec_credits() == credits
        &&& self.spec_traffic().spec_requests_per_tick() == requests_per_tick
        &&& self.spec_map().spec_size() == map_size
        &&& forall|tile: GridPosition| #[trigger]
            self.spec_map().spec_service_at(tile) == None::<ServiceId>
        &&& self.spec_network().spec_links() == Seq::<NetworkLink>::empty()
        &&& self.spec_services() == Seq::<Service>::empty()
        &&& self.spec_next_service_id() == 1
    }

    /// The state and report that processing one tick from `self` produces.
    pub open spec fn is_tick_outcome(self, after: Simulation, report: TickReport) -> bool {
        let links = self.spec_network().spec_links();
        let worked = services_after_tick(self.spec_services());
        let attacked = services_after_attack(after.spec_tick(), worked, links);
        let disrupted = any_disrupted(attacked);
        let credited = saturating_sum(self.spec_budget().spec_credits(), report.revenue);
        let assessed_penalty: u64 = if disrupted {
            report.dropped
        } else {
            0
        };
        let after_penalty = (credited - report.outage_penalty) as u64;
        let paid_operating_cost = smaller(report.operating_cost, after_penalty);
        &&& after.spec_tick().spec_number() == next_tick_number(self.spec_tick().spec_number())
        &&& report.tick == after.spec_tick()
        &&& report.completed_services@ == completing_ids(
            self.spec_services(),
            self.spec_services().len() as int,
        )
        &&& report.cyberattack == attack_report(after.spec_tick(), worked, links)
        &&& after.spec_services() == attacked
        &&& report.received == self.spec_traffic().spec_requests_per_tick()
        &&& optimal_routing_value(report.received, attacked, links, report.served as int)
        &&& is_routing(report.received, attacked, links, report.served, report.link_traffic@)
        &&& report.link_traffic@ == routed_traffic(report.received, attacked, links)
        &&& report.dropped == report.received - report.served
        &&& report.revenue == report.served
        &&& report.failover_active == (disrupted && report.served > 0)
        &&& report.outage_penalty == smaller(assessed_penalty, credited)
        &&& report.operating_cost == total_operating_cost(attacked, attacked.len() as int)
        &&& report.operating_cost_shortfall == report.operating_cost - paid_operating_cost
        &&& after.spec_budget().spec_credits() == after_penalty - paid_operating_cost
        &&& report.net_income == report.revenue - report.outage_penalty - report.operating_cost
        &&& after.spec_traffic() == self.spec_traffic()
        &&& after.spec_map() == self.spec_map()
        &&& after.spec_network() == self.spec_network()
        &&& after.spec_next_service_id() == self.spec_next_service_id()
    }

    /// `after` equals `self` except for the budget, the services and the network.
    pub open spec fn same_world(self, after: Simulation) -> bool {
        &&& after.spec_tick() == self.spec_tick()
        &&& after.spec_traffic() == self.spec_traffic()
    }

    /// The result and state of applying `command` to `self`.
    pub open spec fn is_command_outcome(
        self,
        command: GameCommand,
        after: Simulation,
        res: Result<CommandOutcome, CommandError>,
    ) -> bool {
        let services = self.spec_services();
        let links = self.spec_network().spec_links();
        let credits = self.spec_budget().spec_credits();
        match res {
            Err(error) => after == self && match command {
                GameCommand::BuildService { kind, position } => if !placement_is_free(
                    self.spec_map(),
                    position,
                    kind.spec_footprint(),
                ) {
                    error matches CommandError::InvalidPlacement(placement) && is_placement_error(
                        self.spec_map(),
                        position,
                        kind.spec_footprint(),
                        placement,
                    )
                } else {
                    kind.build_cost() > credits && error == CommandError::InsufficientBudget(
                        BudgetError { required: kind.build_cost(), available: credits },
                    )
                },
                GameCommand::ConnectServices { from, to } => error == if service_position(
                    services,
                    from,
                ) is None {
                    CommandError::InvalidNetwork(NetworkError::UnknownService(from))
                } else if service_position(services, to) is None {
                    CommandError::InvalidNetwork(NetworkError::UnknownService(to))
                } else if from == to {
                    CommandError::InvalidNetwork(NetworkError::SelfConnection(from))
                } else if links_contain(links, from, to) {
                    CommandError::InvalidNetwork(NetworkError::DuplicateLink { from, to })
                } else {
                    CommandError::InsufficientBudget(
                        BudgetError { required: NETWORK_LINK_COST, available: credits },
                    )
                } && (service_position(services, from) is Some && service_position(
                    services,
                    to,
                ) is Some && from != to && !links_contain(links, from, to) ==> NETWORK_LINK_COST
                    > credits),
                GameCommand::DisconnectServices { from, to } => error == if service_position(
                    services,
                    from,
                ) is None {
                    CommandError::InvalidNetwork(NetworkError::UnknownService(from))
                } else if service_position(services, to) is None {
                    CommandError::InvalidNetwork(NetworkError::UnknownService(to))
                } else {
                    CommandError::InvalidNetwork(NetworkError::MissingLink { from, to })
                } && (service_position(services, from) is Some && service_position(
                    services,
                    to,
                ) is Some ==> !links_contain(links, from, to)),
                GameCommand::UpgradeService { id } => match service_position(services, id) {
                    None => error == CommandError::InvalidUpgrade(UpgradeError::UnknownService(id)),
                    Some(p) => {
                        let service = services[p];
                        if !service.spec_is_operational() {
                            error == CommandError::InvalidUpgrade(
                                UpgradeError::NotOperational { id, state: service.spec_state() },
                            )
                        } else {
                            match service.spec_tier().next() {
                                None => error == CommandError::InvalidUpgrade(
                                    UpgradeError::MaximumTier { id, tier: service.spec_tier() },
                                ),
                                Some(target) => {
                                    let cost = service.spec_kind().upgrade_cost(target).unwrap();
                                    cost > credits && error == CommandError::InsufficientBudget(
                                        BudgetError { required: cost, available: credits },
                                    )
                                },
                            }
                        }
                    },
                },
            },
            Ok(outcome) => self.same_world(after) && match command {
                GameCommand::BuildService { kind, position } => {
                    let id = outcome->ServiceBuilt_id;
                    &&& placement_is_free(self.spec_map(), position, kind.spec_footprint())
                    &&& kind.build_cost() <= credits
                    &&& outcome == CommandOutcome::ServiceBuilt { id, kind, position }
                    &&& id.spec_value() == self.spec_next_service_id()
                    &&& after.spec_next_service_id() == next_tick_number(
                        self.spec_next_service_id(),
                    )
                    &&& after.spec_budget().spec_credits() == credits - kind.build_cost()
                    &&& is_occupied_copy(
                        self.spec_map(),
                        after.spec_map(),
                        position,
                        kind.spec_footprint(),
                        id,
                    )
                    &&& after.spec_services() == services.push(
                        Service::spec_new(id, kind, position),
                    )
                    &&& after.spec_network() == self.spec_network()
                },
                GameCommand::ConnectServices { from, to } => {
                    &&& service_position(services, from) is Some
                    &&& service_position(services, to) is Some
                    &&& from != to
                    &&& !links_contain(links, from, to)
                    &&& NETWORK_LINK_COST <= credits
                    &&& outcome == CommandOutcome::ServicesConnected { from, to }
                    &&& after.spec_budget().spec_credits() == credits - NETWORK_LINK_COST
                    &&& after.spec_network().spec_links() == links.push(NetworkLink { from, to })
                    &&& after.spec_services() == services
                    &&& after.spec_map() == self.spec_map()
                    &&& after.spec_next_service_id() == self.spec_next_service_id()
                },
                GameCommand::DisconnectServices { from, to } => {
                    &&& service_position(services, from) is Some
                    &&& service_position(services, to) is Some
                    &&& outcome == CommandOutcome::ServicesDisconnected { from, to }
                    &&& exists|i: int|
                        0 <= i < links.len() && links[i] == (NetworkLink { from, to }) && (forall|
                            j: int,
                        | 0 <= j < i ==> links[j] != (NetworkLink { from, to }))
                            && #[trigger] after.spec_network().spec_links() == links.remove(i)
                    &&& after.spec_budget() == self.spec_budget()
                    &&& after.spec_services() == services
                    &&& after.spec_map() == self.spec_map()
                    &&& after.spec_next_service_id() == self.spec_next_service_id()
                },
                GameCommand::UpgradeService { id } => {
                    let p = service_position(services, id).unwrap();
                    let service = services[p];
                    let target = service.spec_tier().next().unwrap();
                    let cost = service.spec_kind().upgrade_cost(target).unwrap();
                    let ticks = service.spec_kind().upgrade_ticks(target).unwrap();
                    &&& service_position(services, id) is Some
                    &&& service.spec_is_operational()
                    &&& service.spec_tier().next() is Some
                    &&& cost <= credits
                    &&& outcome == CommandOutcome::ServiceUpgradeStarted {
                        id,
                        from: service.spec_tier(),
                        to: target,
                    }
                    &&& after.spec_budget().spec_credits() == credits - cost
                    &&& after.spec_services() == services.update(
                        p,
                        service.spec_upgrade_started(target, ticks),
                    )
                    &&& after.spec_network() == self.spec_network()
                    &&& after.spec_map() == self.spec_map()
                    &&& after.spec_next_service_id() == self.spec_next_service_id()
                },
            },
        }
    }

    /// A new game at tick zero with an empty map and no services.
    pub fn new(starting_credits: u64, requests_per_tick: u64, map_size: MapSize) -> (simulation:
        Self)
        ensures
            simulation.is_new_game(starting_credits, requests_per_tick, map_size),
    {
        Self {
            tick: Tick::default(),
            budget: Budget::new(starting_credits),
            traffic: Traffic::new(requests_per_tick),
            map: GridMap::new(map_size),
            network: Network::default(),
            services: Vec::new(),
            next_service_id: 1,
        }
    }

    pub fn tick(&self) -> (tick: Tick)
        ensures
            tick == self.spec_tick(),
    {
        self.tick
    }

    pub fn budget(&self) -> (budget: Budget)
        ensures
            budget == self.spec_budget(),
    {
        self.budget
    }

    pub fn traffic(&self) -> (traffic: Traffic)
        ensures
            traffic == self.spec_traffic(),
    {
        self.traffic
    }

    pub fn map(&self) -> (map: &GridMap)
        ensures
            *map == self.spec_map(),
    {
        &self.map
    }

    pub fn network(&self) -> (network: &Network)
        ensures
            *network == self.spec_network(),
    {
        &self.network
    }

    pub fn set_requests_per_tick(&mut self, requests_per_tick: u64)
        ensures
            final(self).spec_traffic().spec_requests_per_tick() == requests_per_tick,
            final(self).spec_tick() == old(self).spec_tick(),
            final(self).spec_budget() == old(self).spec_budget(),
            final(self).spec_map() == old(self).spec_map(),
            final(self).spec_network() == old(self).spec_network(),
            final(self).spec_services() == old(self).spec_services(),
            final(self).spec_next_service_id() == old(self).spec_next_service_id(),
    {
        self.traffic.set_requests_per_tick(requests_per_tick);
    }

    pub fn services(&self) -> (services: &[Service])
        ensures
            services@ == self.spec_services(),
    {
        self.services.as_slice()
    }

    /// The first service with identity `id`.
    pub fn service(&self, id: ServiceId) -> (service: Option<&Service>)
        ensures
            match service {
                Some(s) => service_position(self.spec_services(), id) matches Some(i) && *s
                    == self.spec_services()[i],
                None => service_position(self.spec_services(), id) is None,
            },
    {
        match find_service(self.services.as_slice(), id) {
            Some(index) => {
                proof {
                    lemma_service_position(self.services@, id);
                }
                Some(&self.services[index])
            },
            None => None,
        }
    }

    /// Applies a player command atomically: a refused command leaves the simulation unchanged.
    pub fn apply(&mut self, command: GameCommand) -> (res: Result<CommandOutcome, CommandError>)
        requires
            old(self).wf(),
        ensures
            final(self).wf(),
            old(self).is_command_outcome(command, *final(self), res),
            old(self).ids_fresh() && (res is Ok && command is BuildService
                ==> old(self).spec_next_service_id() < u64::MAX) ==> final(self).ids_fresh(),
    {
        match command {
            GameCommand::BuildService { kind, position } => self.build_service(kind, position),
            GameCommand::ConnectServices { from, to } => self.connect_services(from, to),
            GameCommand::DisconnectServices { from, to } => self.disconnect_services(from, to),
            GameCommand::UpgradeService { id } => self.upgrade_service(id),
        }
    }

    fn build_service(&mut self, kind: ServiceKind, position: GridPosition) -> (res: Result<
        CommandOutcome,
        CommandError,
    >)
        requires
            old(self).wf(),
        ensures
            final(self).wf(),
            old(self).is_command_outcome(
                GameCommand::BuildService { kind, position },
                *final(self),
                res,
            ),
            old(self).ids_fresh() && (res is Ok ==> old(self).spec_next_service_id() < u64::MAX)
                ==> final(self).ids_fresh(),
    {
        let ghost before = *self;
        let footprint = kind.footprint();
        match self.map.validate_placement(position, footprint) {
            Ok(()) => {},
            Err(error) => {
                return Err(CommandError::InvalidPlacement(error));
            },
        }
        match self.budget.spend(kind.build_cost()) {
            Ok(()) => {},
            Err(error) => {
                return Err(CommandError::InsufficientBudget(error));
            },
        }
        let id = ServiceId::new(self.next_service_id);
        self.next_service_id = self.next_service_id.saturating_add(1);
        self.map.occupy(position, footprint, id);
        self.services.push(Service::new(id, kind, position));
        proof {
            let after = *self;
            assert(after.spec_services() == before.spec_services().push(
                Service::spec_new(id, kind, position),
            ));
            assert forall|i: int| 0 <= i < after.spec_services().len() implies #[trigger] after.spec_services()[i].wf() by {
                if i < before.spec_services().len() {
                    assert(after.spec_services()[i] == before.spec_services()[i]);
                }
            }
            if before.ids_fresh() && before.spec_next_service_id() < u64::MAX {
                assert forall|i: int, j: int|
                    0 <= i < j < after.spec_services().len() implies #[trigger] after.spec_services()[i].spec_id()
                    != #[trigger] after.spec_services()[j].spec_id() by {
                    if j == after.spec_services().len() - 1 {
                        assert(after.spec_services()[i].spec_id().spec_value()
                            < before.spec_next_service_id());
                    } else {
                        assert(before.spec_services()[i].spec_id()
                            != before.spec_services()[j].spec_id());
                    }
                }
                assert forall|i: int| 0 <= i < after.spec_services().len() implies #[trigger] after.spec_services()[i].spec_id().spec_value()
                    < after.spec_next_service_id() by {
                    if i < before.spec_services().len() {
                        assert(before.spec_services()[i].spec_id().spec_value()
                            < before.spec_next_service_id());
                    }
                }
            }
        }
        Ok(CommandOutcome::ServiceBuilt { id, kind, position })
    }

    fn connect_services(&mut self, from: ServiceId, to: ServiceId) -> (res: Result<
        CommandOutcome,
        CommandError,
    >)
        requires
            old(self).wf(),
        ensures
            final(self).wf(),
            old(self).is_command_outcome(
                GameCommand::ConnectServices { from, to },
                *final(self),
                res,
            ),
            old(self).ids_fresh() ==> final(self).ids_fresh(),
    {
        if find_service(self.services.as_slice(), from).is_none() {
            return Err(CommandError::InvalidNetwork(NetworkError::UnknownService(from)));
        }
        if find_service(self.services.as_slice(), to).is_none() {
            return Err(CommandError::InvalidNetwork(NetworkError::UnknownService(to)));
        }
        match self.network.validate_link(from, to) {
            Ok(()) => {},
            Err(error) => {
                return Err(CommandError::InvalidNetwork(error));
            },
        }
        match self.budget.spend(NETWORK_LINK_COST) {
            Ok(()) => {},
            Err(error) => {
                return Err(CommandError::InsufficientBudget(error));
            },
        }
        self.network.add_link(from, to);
        Ok(CommandOutcome::ServicesConnected { from, to })
    }

    fn disconnect_services(&mut self, from: ServiceId, to: ServiceId) -> (res: Result<
        CommandOutcome,
        CommandError,
    >)
        requires
            old(self).wf(),
        ensures
            final(self).wf(),
            old(self).is_command_outcome(
                GameCommand::DisconnectServices { from, to },
                *final(self),
                res,
            ),
            old(self).ids_fresh() ==> final(self).ids_fresh(),
    {
        if find_service(self.services.as_slice(), from).is_none() {
            return Err(CommandError::InvalidNetwork(NetworkError::UnknownService(from)));
        }
        if find_service(self.services.as_slice(), to).is_none() {
            return Err(CommandError::InvalidNetwork(NetworkError::UnknownService(to)));
        }
        let ghost before = *self;
        match self.network.remove_link(from, to) {
            Ok(()) => {},
            Err(error) => {
                return Err(CommandError::InvalidNetwork(error));
            },
        }
        proof {
            assert(self.services == before.services);
            assert(self.spec_services() == before.spec_services());
            let links = before.spec_network().spec_links();
            let i = choose|i: int|
                0 <= i < links.len() && links[i] == (NetworkLink { from, to }) && (forall|j: int|
                    0 <= j < i ==> links[j] != (NetworkLink { from, to }))
                    && self.spec_network().spec_links() == links.remove(i);
            assert(self.spec_network().spec_links() == links.remove(i));
        }
        Ok(CommandOutcome::ServicesDisconnected { from, to })
    }

    fn upgrade_service(&mut self, id: ServiceId) -> (res: Result<CommandOutcome, CommandError>)
        requires
            old(self).wf(),
        ensures
            final(self).wf(),
            old(self).is_command_outcome(GameCommand::UpgradeService { id }, *final(self), res),
            old(self).ids_fresh() ==> final(self).ids_fresh(),
    {
        let ghost before = *self;
        let index = match find_service(self.services.as_slice(), id) {
            Some(index) => index,
            None => {
                return Err(CommandError::InvalidUpgrade(UpgradeError::UnknownService(id)));
            },
        };
        proof {
            lemma_service_position(self.services@, id);
        }
        let service = self.services[index];
        if !service.is_operational() {
            return Err(
                CommandError::InvalidUpgrade(
                    UpgradeError::NotOperational { id, state: service.state() },
                ),
            );
        }
        let from = service.tier();
        let to = match service.next_tier() {
            Some(to) => to,
            None => {
                return Err(CommandError::InvalidUpgrade(UpgradeError::MaximumTier { id, tier: from }));
            },
        };
        let cost = service.kind().upgrade_cost(to).unwrap();
        let ticks = service.kind().upgrade_ticks(to).unwrap();
        match self.budget.spend(cost) {
            Ok(()) => {},
            Err(error) => {
                return Err(CommandError::InsufficientBudget(error));
            },
        }
        let mut upgraded = service;
        upgraded.start_upgrade(to, ticks);
        self.services.set(index, upgraded);
        proof {
            let after = *self;
            crate::infrastructure::Service::lemma_with_state(
                service,
                ServiceState::Upgrading { target: to, ticks_remaining: ticks },
            );
            assert forall|i: int| 0 <= i < after.spec_services().len() implies #[trigger] after.spec_services()[i].wf() by {
                if i != index {
                    assert(after.spec_services()[i] == before.spec_services()[i]);
                }
            }
            assert forall|i: int| 0 <= i < after.spec_services().len() implies after.spec_services()[i].spec_id()
                == #[trigger] before.spec_services()[i].spec_id() by {
                if i != index {
                    assert(after.spec_services()[i] == before.spec_services()[i]);
                }
            }
        }
        Ok(CommandOutcome::ServiceUpgradeStarted { id, from, to })
    }

    /// Processes one tick: construction and upgrade work, the scheduled attack, routing of
    /// the tick's demand, revenue, outage penalties and operating costs.
    #[verifier::spinoff_prover]
    pub fn advance(&mut self) -> (report: TickReport)
        requires
            old(self).wf(),
            routing_fits(
                old(self).spec_services().len() as int,
                old(self).spec_network().spec_links().len() as int,
            ),
        ensures
            final(self).wf(),
            old(self).ids_fresh() ==> final(self).ids_fresh(),
            old(self).is_tick_outcome(*final(self), report),
    {
        let ghost before = *self;
        self.tick.advance();
        let ghost ticked = *self;
        let mut completed_services: Vec<ServiceId> = Vec::new();
        let mut index: usize = 0;
        while index < self.services.len()
            invariant
                self.tick == ticked.tick,
                self.budget == ticked.budget,
                self.traffic == ticked.traffic,
                self.map == ticked.map,
                self.network == ticked.network,
                self.next_service_id == ticked.next_service_id,
                ticked.services == before.services,
                index <= self.services@.len(),
                self.services@.len() == before.services@.len(),
                forall|i: int|
                    0 <= i < index ==> #[trigger] self.services@[i] == before.services@[i].spec_after_tick(),
                forall|i: int|
                    index <= i < self.services@.len() ==> #[trigger] self.services@[i] == before.services@[i],
                forall|i: int| 0 <= i < before.services@.len() ==> #[trigger] before.services@[i].wf(),
                completed_services@ == completing_ids(before.services@, index as int),
            decreases self.services@.len() - index,
        {
            let mut service = self.services[index];
            let completed = service.advance_construction();
            self.services.set(index, service);
            if completed {
                completed_services.push(service.id());
            }
            index = index + 1;
        }
        proof {
            assert(self.services@ == services_after_tick(before.services@));
        }
        let cyberattack = resolve_scheduled_attack(self.tick, &mut self.services, &self.network);
        proof {
            lemma_services_after_attack(
                self.tick,
                services_after_tick(before.services@),
                before.network.spec_links(),
            );
            assert(self.network == before.network);
            assert(self.services@.len() == before.services@.len());
        }
        let received = self.traffic.requests_per_tick();
        let routing = route_requests(received, self.services.as_slice(), &self.network);
        let served = routing.served;
        let dropped = received - served;
        let revenue = saturating_product(served, REVENUE_PER_SERVED_REQUEST);
        self.budget.credit(revenue);
        let mut disruption_active = false;
        let mut i: usize = 0;
        while i < self.services.len()
            invariant
                i <= self.services@.len(),
                disruption_active == exists|j: int|
                    0 <= j < i && #[trigger] self.services@[j].spec_state() is Disrupted,
            decreases self.services@.len() - i,
        {
            match self.services[i].state() {
                ServiceState::Disrupted { .. } => {
                    disruption_active = true;
                },
                _ => {},
            }
            i = i + 1;
        }
        let failover_active = disruption_active && served > 0;
        let assessed_penalty = if disruption_active {
            saturating_product(dropped, OUTAGE_PENALTY_PER_DROPPED_REQUEST)
        } else {
            0
        };
        let outage_penalty = self.budget.forfeit_up_to(assessed_penalty);
        let mut assessed_operating_cost: u64 = 0;
        let mut k: usize = 0;
        while k < self.services.len()
            invariant
                k <= self.services@.len(),
                assessed_operating_cost == total_operating_cost(self.services@, k as int),
            decreases self.services@.len() - k,
        {
            assessed_operating_cost = assessed_operating_cost.saturating_add(
                self.services[k].current_operating_cost(),
            );
            k = k + 1;
        }
        let paid_operating_cost = self.budget.forfeit_up_to(assessed_operating_cost);
        let operating_cost_shortfall = assessed_operating_cost - paid_operating_cost;
        let net_income = revenue as i128 - outage_penalty as i128 - assessed_operating_cost as i128;
        proof {
            let after = *self;
            let worked = services_after_tick(before.services@);
            assert forall|j: int| 0 <= j < after.services@.len() implies #[trigger] after.services@[j].wf() by {
                assert(before.services@[j].wf());
                assert(worked[j].wf());
                if worked[j].spec_is_operational() {
                    crate::infrastructure::Service::lemma_with_state(
                        worked[j],
                        ServiceState::Disrupted { ticks_remaining: crate::security::DISRUPTION_TICKS },
                    );
                }
            }
            if before.ids_fresh() {
                assert forall|j: int| 0 <= j < after.services@.len() implies #[trigger] after.services@[j].spec_id()
                    == before.services@[j].spec_id() by {
                    assert(worked[j].spec_id() == before.services@[j].spec_id());
                    if worked[j].spec_is_operational() {
                        crate::infrastructure::Service::lemma_with_state(
                            worked[j],
                            ServiceState::Disrupted { ticks_remaining: crate::security::DISRUPTION_TICKS },
                        );
                    }
                }
            }
        }
        TickReport {
            tick: self.tick,
            received,
            served,
            dropped,
            revenue,
            outage_penalty,
            failover_active,
            operating_cost: assessed_operating_cost,
            operating_cost_shortfall,
            net_income,
            completed_services,
            link_traffic: routing.link_traffic,
            cyberattack,
        }
    }
}

impl Simulation {
    /// `self` and `other` are the same game as far as any observer can tell: the same tick,
    /// credits, demand, map occupancy, links, services and next identity.
    pub open spec fn same_state(self, other: Simulation) -> bool {
        &&& self.spec_tick() == other.spec_tick()
        &&& self.spec_budget().spec_credits() == other.spec_budget().spec_credits()
        &&& self.spec_traffic().spec_requests_per_tick()
            == other.spec_traffic().spec_requests_per_tick()
        &&& same_occupancy(self.spec_map(), other.spec_map())
        &&& self.spec_network().spec_links() == other.spec_network().spec_links()
        &&& self.spec_services() == other.spec_services()
        &&& self.spec_next_service_id() == other.spec_next_service_id()
    }
}

/// The simulation is deterministic over ticks: from the same state, a tick always leads to
/// the same state and reports the same tick, demand, service, losses, costs, completions, link
/// traffic and attack.
pub proof fn law_tick_is_deterministic(
    first: Simulation,
    second: Simulation,
    first_after: Simulation,
    second_after: Simulation,
    first_report: TickReport,
    second_report: TickReport,
)
    requires
        first.same_state(second),
        first.is_tick_outcome(first_after, first_report),
        second.is_tick_outcome(second_after, second_report),
    ensures
        first_after.same_state(second_after),
        first_report.tick == second_report.tick,
        first_report.received == second_report.received,
        first_report.served == second_report.served,
        first_report.dropped == second_report.dropped,
        first_report.revenue == second_report.revenue,
        first_report.outage_penalty == second_report.outage_penalty,
        first_report.failover_active == second_report.failover_active,
        first_report.operating_cost == second_report.operating_cost,
        first_report.operating_cost_shortfall == second_report.operating_cost_shortfall,
        first_report.net_income == second_report.net_income,
        first_report.completed_services@ == second_report.completed_services@,
        first_report.link_traffic@ == second_report.link_traffic@,
        first_report.cyberattack == second_report.cyberattack,
{
    assert(first_after.spec_tick() == second_after.spec_tick());
    assert(first_after.spec_map() == first.spec_map());
    assert(second_after.spec_map() == second.spec_map());
}

/// The simulation is deterministic over commands: from the same state, a command always has
/// the same result and leads to the same state.
pub proof fn law_command_is_deterministic(
    first: Simulation,
    second: Simulation,
    command: GameCommand,
    first_after: Simulation,
    second_after: Simulation,
    first_result: Result<CommandOutcome, CommandError>,
    second_result: Result<CommandOutcome, CommandError>,
)
    requires
        first.same_state(second),
        first.is_command_outcome(command, first_after, first_result),
        second.is_command_outcome(command, second_after, second_result),
    ensures
        first_result == second_result,
        first_after.same_state(second_after),
{
    let map = first.spec_map();
    let links = first.spec_network().spec_links();
    match command {
        GameCommand::BuildService { kind, position } => {
            let footprint = kind.spec_footprint();
            lemma_same_occupancy_free(map, second.spec_map(), position, footprint);
            match (first_result, second_result) {
                (Err(first_error), Err(second_error)) => {
                    if let (
                        CommandError::InvalidPlacement(first_placement),
                        CommandError::InvalidPlacement(second_placement),
                    ) = (first_error, second_error) {
                        lemma_placement_error_unique(
                            map,
                            second.spec_map(),
                            position,
                            footprint,
                            first_placement,
                            second_placement,
                        );
                    }
                },
                (Ok(_), Ok(_)) => {
                    assert forall|tile: GridPosition| #[trigger]
                        first_after.spec_map().spec_service_at(tile)
                            == second_after.spec_map().spec_service_at(tile) by {
                        assert(map.spec_service_at(tile) == second.spec_map().spec_service_at(
                            tile,
                        ));
                    }
                },
                _ => {},
            }
        },
        GameCommand::ConnectServices { from, to } => {},
        GameCommand::DisconnectServices { from, to } => {
            if let (Ok(_), Ok(_)) = (first_result, second_result) {
                let link = NetworkLink { from, to };
                let i = choose|i: int|
                    0 <= i < links.len() && links[i] == link && (forall|j: int|
                        0 <= j < i ==> links[j] != link) && #[trigger] first_after.spec_network().spec_links()
                        == links.remove(i);
                let k = choose|k: int|
                    0 <= k < links.len() && links[k] == link && (forall|j: int|
                        0 <= j < k ==> links[j] != link) && #[trigger] second_after.spec_network().spec_links()
                        == links.remove(k);
                if i < k {
                    assert(links[i] != link);
                } else if k < i {
                    assert(links[k] != link);
                }
            }
        },
        GameCommand::UpgradeService { id } => {},
    }
}


/// Something that moves a game on: a player command, one tick, or a new demand per tick.
#[derive(Clone, Copy, Debug, PartialEq, Eq, Structural)]
pub enum GameInput {
    Command(GameCommand),
    Tick,
    SetDemand(u64),
}

/// `after` follows from `before` through `input`, as `apply`, `advance` and
/// `set_requests_per_tick` describe it.
pub open spec fn is_step(before: Simulation, input: GameInput, after: Simulation) -> bool {
    match input {
        GameInput::Command(command) => exists|res: Result<CommandOutcome, CommandError>| #[trigger]
            before.is_command_outcome(command, after, res),
        GameInput::Tick => exists|report: TickReport| #[trigger] before.is_tick_outcome(
            after,
            report,
        ),
        GameInput::SetDemand(requests_per_tick) => {
            &&& after.spec_traffic().spec_requests_per_tick() == requests_per_tick
            &&& after.spec_tick() == before.spec_tick()
            &&& after.spec_budget() == before.spec_budget()
            &&& after.spec_map() == before.spec_map()
            &&& after.spec_network() == before.spec_network()
            &&& after.spec_services() == before.spec_services()
            &&& after.spec_next_service_id() == before.spec_next_service_id()
        },
    }
}

/// `states` is a course of the game that takes the `inputs` one after another.
pub open spec fn is_run(inputs: Seq<GameInput>, states: Seq<Simulation>) -> bool {
    &&& states.len() == inputs.len() + 1
    &&& forall|k: int| 0 <= k < inputs.len() ==> #[trigger] is_step(states[k], inputs[k], states[k + 1])
}

/// Replays are faithful: taking the same commands, ticks and demand changes from the same state
/// always passes through the same states.
pub proof fn law_replay_is_deterministic(
    inputs: Seq<GameInput>,
    first: Seq<Simulation>,
    second: Seq<Simulation>,
    steps: int,
)
    requires
        is_run(inputs, first),
        is_run(inputs, second),
        first[0].same_state(second[0]),
        0 <= steps <= inputs.len(),
    ensures
        first[steps].same_state(second[steps]),
    decreases steps,
{
    if steps > 0 {
        let k = steps - 1;
        law_replay_is_deterministic(inputs, first, second, k);
        assert(is_step(first[k], inputs[k], first[k + 1]));
        assert(is_step(second[k], inputs[k], second[k + 1]));
        match inputs[k] {
            GameInput::Command(command) => {
                let first_result = choose|res: Result<CommandOutcome, CommandError>|
                    #[trigger] first[k].is_command_outcome(command, first[k + 1], res);
                let second_result = choose|res: Result<CommandOutcome, CommandError>|
                    #[trigger] second[k].is_command_outcome(command, second[k + 1], res);
                law_command_is_deterministic(
                    first[k],
                    second[k],
                    command,
                    first[k + 1],
                    second[k + 1],
                    first_result,
                    second_result,
                );
            },
            GameInput::Tick => {
                let first_report = choose|report: TickReport|
                    #[trigger] first[k].is_tick_outcome(first[k + 1], report);
                let second_report = choose|report: TickReport|
                    #[trigger] second[k].is_tick_outcome(second[k + 1], report);
                law_tick_is_deterministic(
                    first[k],
                    second[k],
                    first[k + 1],
                    second[k + 1],
                    first_report,
                    second_report,
                );
            },
            GameInput::SetDemand(_) => {},
        }
    }
}


/// Two replays of the same inputs from the same state agree on every tick's report.
pub proof fn law_replay_reports_agree(
    inputs: Seq<GameInput>,
    first: Seq<Simulation>,
    second: Seq<Simulation>,
    step: int,
    first_report: TickReport,
    second_report: TickReport,
)
    requires
        is_run(inputs, first),
        is_run(inputs, second),
        first[0].same_state(second[0]),
        0 <= step < inputs.len(),
        inputs[step] == GameInput::Tick,
        first[step].is_tick_outcome(first[step + 1], first_report),
        second[step].is_tick_outcome(second[step + 1], second_report),
    ensures
        first_report.tick == second_report.tick,
        first_report.received == second_report.received,
        first_report.served == second_report.served,
        first_report.dropped == second_report.dropped,
        first_report.revenue == second_report.revenue,
        first_report.outage_penalty == second_report.outage_penalty,
        first_report.failover_active == second_report.failover_active,
        first_report.operating_cost == second_report.operating_cost,
        first_report.operating_cost_shortfall == second_report.operating_cost_shortfall,
        first_report.net_income == second_report.net_income,
        first_report.completed_services@ == second_report.completed_services@,
        first_report.link_traffic@ == second_report.link_traffic@,
        first_report.cyberattack == second_report.cyberattack,
{
    law_replay_is_deterministic(inputs, first, second, step);
    law_tick_is_deterministic(
        first[step],
        second[step],
        first[step + 1],
        second[step + 1],
        first_report,
        second_report,
    );
}

/// Two replays of the same inputs from the same state agree on every command's result.
pub proof fn law_replay_results_agree(
    inputs: Seq<GameInput>,
    first: Seq<Simulation>,
    second: Seq<Simulation>,
    step: int,
    command: GameCommand,
    first_result: Result<CommandOutcome, CommandError>,
    second_result: Result<CommandOutcome, CommandError>,
)
    requires
        is_run(inputs, first),
        is_run(inputs, second),
        first[0].same_state(second[0]),
        0 <= step < inputs.len(),
        inputs[step] == GameInput::Command(command),
        first[step].is_command_outcome(command, first[step + 1], first_result),
        second[step].is_command_outcome(command, second[step + 1], second_result),
    ensures
        first_result == second_result,
{
    law_replay_is_deterministic(inputs, first, second, step);
    law_command_is_deterministic(
        first[step],
        second[step],
        command,
        first[step + 1],
        second[step + 1],
        first_result,
        second_result,
    );
}

/// A new service receives the identity one more than the number of services before it, and
/// joins the end of the service list.
pub proof fn law_new_service_identity(
    before: Simulation,
    kind: ServiceKind,
    position: GridPosition,
    after: Simulation,
    outcome: CommandOutcome,
)
    requires
        before.ids_fresh(),
        before.is_command_outcome(GameCommand::BuildService { kind, position }, after, Ok(outcome)),
    ensures
        outcome matches CommandOutcome::ServiceBuilt { id, kind: k, position: p } && k == kind
            && p == position && id.spec_value() == before.spec_services().len() + 1
            && after.spec_services() == before.spec_services().push(
            Service::spec_new(id, kind, position),
        ),
{
}

/// One step keeps the service identities distinct and below the next identity, which stays one
/// more than the number of services, while that number stays representable.
pub proof fn lemma_step_keeps_ids_fresh(before: Simulation, input: GameInput, after: Simulation)
    requires
        before.ids_fresh(),
        is_step(before, input, after),
        before.spec_services().len() + 1 < u64::MAX,
    ensures
        after.ids_fresh(),
{
    let services = before.spec_services();
    match input {
        GameInput::Command(command) => {
            let res = choose|res: Result<CommandOutcome, CommandError>| #[trigger]
                before.is_command_outcome(command, after, res);
            if let Ok(outcome) = res {
                match command {
                    GameCommand::BuildService { kind, position } => {
                        let id = outcome->ServiceBuilt_id;
                        let grown = after.spec_services();
                        assert forall|i: int| 0 <= i < grown.len() implies #[trigger]
                            grown[i].spec_id().spec_value() < after.spec_next_service_id() by {
                            if i < services.len() {
                                assert(grown[i] == services[i]);
                            }
                        }
                        assert forall|i: int, j: int| 0 <= i < j < grown.len() implies #[trigger]
                            grown[i].spec_id() != #[trigger] grown[j].spec_id() by {
                            assert(grown[i] == services[i]);
                            if j < services.len() {
                                assert(grown[j] == services[j]);
                            } else {
                                assert(services[i].spec_id().spec_value()
                                    < before.spec_next_service_id());
                            }
                        }
                    },
                    GameCommand::UpgradeService { id } => {
                        let changed = after.spec_services();
                        lemma_service_position(services, id);
                        let p = service_position(services, id).unwrap();
                        assert(changed.len() == services.len());
                        assert forall|i: int| 0 <= i < changed.len() implies #[trigger]
                            changed[i].spec_id() == services[i].spec_id() by {
                            if i == p {
                                let service = services[p];
                                let target = service.spec_tier().next().unwrap();
                                let ticks = service.spec_kind().upgrade_ticks(target).unwrap();
                                assert(changed[i] == service.spec_upgrade_started(target, ticks));
                                Service::lemma_with_state(
                                    service,
                                    ServiceState::Upgrading { target, ticks_remaining: ticks },
                                );
                            }
                        }
                        assert forall|i: int| 0 <= i < changed.len() implies #[trigger]
                            changed[i].spec_id().spec_value() < after.spec_next_service_id() by {
                            assert(changed[i].spec_id() == services[i].spec_id());
                        }
                        assert forall|i: int, j: int| 0 <= i < j < changed.len() implies #[trigger]
                            changed[i].spec_id() != #[trigger] changed[j].spec_id() by {
                            assert(changed[i].spec_id() == services[i].spec_id());
                            assert(changed[j].spec_id() == services[j].spec_id());
                        }
                    },
                    _ => {},
                }
            }
        },
        GameInput::Tick => {
            let report = choose|report: TickReport| #[trigger] before.is_tick_outcome(
                after,
                report,
            );
            let links = before.spec_network().spec_links();
            let worked = services_after_tick(services);
            lemma_services_after_attack(after.spec_tick(), worked, links);
            let attacked = after.spec_services();
            assert(attacked == services_after_attack(after.spec_tick(), worked, links));
            assert forall|i: int| 0 <= i < attacked.len() implies #[trigger]
                attacked[i].spec_id() == services[i].spec_id() by {
                assert(worked[i] == services[i].spec_after_tick());
                let chosen = services_after_attack(after.spec_tick(), worked, links)[i];
                assert(chosen == worked[i] || chosen == worked[i].spec_disrupted(DISRUPTION_TICKS));
                Service::lemma_with_state(
                    worked[i],
                    ServiceState::Disrupted { ticks_remaining: DISRUPTION_TICKS },
                );
            }
            assert forall|i: int| 0 <= i < attacked.len() implies #[trigger]
                attacked[i].spec_id().spec_value() < after.spec_next_service_id() by {
                assert(attacked[i].spec_id() == services[i].spec_id());
            }
            assert forall|i: int, j: int| 0 <= i < j < attacked.len() implies #[trigger]
                attacked[i].spec_id() != #[trigger] attacked[j].spec_id() by {
                assert(attacked[i].spec_id() == services[i].spec_id());
                assert(attacked[j].spec_id() == services[j].spec_id());
            }
        },
        GameInput::SetDemand(_) => {},
    }
}

/// Every game reached from a new game by commands, ticks and demand changes has distinct service
/// identities, each below the next identity to hand out, which is one more than the number of
/// services, as long as that number stays representable.
pub proof fn law_reached_games_have_fresh_ids(
    inputs: Seq<GameInput>,
    states: Seq<Simulation>,
    steps: int,
)
    requires
        is_run(inputs, states),
        states[0].ids_fresh(),
        forall|k: int|
            0 <= k < inputs.len() ==> #[trigger] states[k].spec_services().len() + 1 < u64::MAX,
        0 <= steps <= inputs.len(),
    ensures
        states[steps].ids_fresh(),
    decreases steps,
{
    if steps > 0 {
        let k = steps - 1;
        law_reached_games_have_fresh_ids(inputs, states, k);
        assert(is_step(states[k], inputs[k], states[k + 1]));
        assert(states[k].spec_services().len() + 1 < u64::MAX);
        lemma_step_keeps_ids_fresh(states[k], inputs[k], states[k + 1]);
    }
}


/// In a game with fresh identities, looking a service up by its identity finds exactly that
/// service: the one at its index, and no other.
pub proof fn law_lookup_finds_the_service(simulation: Simulation, index: int)
    requires
        simulation.ids_fresh(),
        0 <= index < simulation.spec_services().len(),
    ensures
        service_position(
            simulation.spec_services(),
            simulation.spec_services()[index].spec_id(),
        ) == Some(index),
{
    let services = simulation.spec_services();
    let id = services[index].spec_id();
    lemma_service_position(services, id);
    match service_position(services, id) {
        Some(p) => {
            if p < index {
                assert(services[p].spec_id() != services[index].spec_id());
            } else if p > index {
                assert(services[index].spec_id() != id);
            }
        },
        None => {
            assert(services[index].spec_id() != id);
        },
    }
}

} // verus!
