use vstd::prelude::*;

use crate::text::{decimal, push_decimal};

use crate::map::{Footprint, GridPosition};

verus! {

/// The stable identity of a constructed service.
#[derive(Clone, Copy, Debug, PartialEq, Eq, Hash, Structural)]
pub struct ServiceId(u64);

impl ServiceId {
    /// The raw number behind the identity.
    pub closed spec fn spec_value(self) -> u64 {
        self.0
    }

    pub fn new(value: u64) -> (id: Self)
        ensures
            id.spec_value() == value,
    {
        Self(value)
    }

    pub fn value(self) -> (v: u64)
        ensures
            v == self.spec_value(),
    {
        self.0
    }

    /// Two identities are the same exactly when their numbers are.
    pub broadcast proof fn lemma_value_identifies(a: ServiceId, b: ServiceId)
        ensures
            (#[trigger] a.spec_value() == #[trigger] b.spec_value()) <==> a == b,
    {
    }
}

/// How a messaging service hands the events it accepts to its consumers.
#[derive(Clone, Copy, Debug, PartialEq, Eq, Hash, Structural)]
pub enum MessagingMode {
    /// Buffers events and dispatches each one to a single consumer.
    Queue,
    /// Delivers every event to every consumer.
    FanOut,
    /// Delivers each event to the first consumer with spare capacity.
    Routed,
}

/// Infrastructure that can be constructed.
#[derive(Clone, Copy, Debug, PartialEq, Eq, Hash, Structural)]
pub enum ServiceKind {
    InternetGateway,
    Firewall,
    LoadBalancer,
    ApplicationServer,
    MessageQueue,
    PubSubTopic,
    EventBus,
}

/// The capacity level of a service.
#[derive(Clone, Copy, Debug, Default, PartialEq, Eq, Hash, Structural)]
pub enum ServiceTier {
    #[default]
    Starter,
    Scaled,
    Enterprise,
}

impl ServiceTier {
    /// Every tier, from the lowest to the highest.
    pub const ALL: [ServiceTier; 3] = [ServiceTier::Starter, ServiceTier::Scaled, ServiceTier::Enterprise];

    #[verifier::allow_in_spec]
    pub fn next(self) -> Option<ServiceTier>
        returns
            match self {
                ServiceTier::Starter => Some(ServiceTier::Scaled),
                ServiceTier::Scaled => Some(ServiceTier::Enterprise),
                ServiceTier::Enterprise => None,
            },
    {
        match self {
            ServiceTier::Starter => Some(ServiceTier::Scaled),
            ServiceTier::Scaled => Some(ServiceTier::Enterprise),
            ServiceTier::Enterprise => None,
        }
    }

    /// The tier's human-readable name.
    pub open spec fn spec_label(self) -> Seq<char> {
        match self {
            ServiceTier::Starter => "Starter"@,
            ServiceTier::Scaled => "Scaled"@,
            ServiceTier::Enterprise => "Enterprise"@,
        }
    }

    pub fn label(self) -> (s: &'static str)
        ensures
            s@ == self.spec_label(),
    {
        match self {
            ServiceTier::Starter => "Starter",
            ServiceTier::Scaled => "Scaled",
            ServiceTier::Enterprise => "Enterprise",
        }
    }

    /// The tier as a roman numeral.
    pub open spec fn spec_short_label(self) -> Seq<char> {
        match self {
            ServiceTier::Starter => "I"@,
            ServiceTier::Scaled => "II"@,
            ServiceTier::Enterprise => "III"@,
        }
    }

    pub fn short_label(self) -> (s: &'static str)
        ensures
            s@ == self.spec_short_label(),
    {
        match self {
            ServiceTier::Starter => "I",
            ServiceTier::Scaled => "II",
            ServiceTier::Enterprise => "III",
        }
    }
}

impl ServiceKind {
    /// Every kind of request-path infrastructure that the catalog offers.
    pub const ALL: [ServiceKind; 4] = [
        ServiceKind::InternetGateway,
        ServiceKind::Firewall,
        ServiceKind::LoadBalancer,
        ServiceKind::ApplicationServer,
    ];

    #[verifier::allow_in_spec]
    pub fn build_cost(self) -> u64
        returns
            match self {
                ServiceKind::InternetGateway => 50u64,
                ServiceKind::Firewall => 125u64,
                ServiceKind::LoadBalancer => 75u64,
                ServiceKind::ApplicationServer => 100u64,
                ServiceKind::MessageQueue => 90u64,
                ServiceKind::PubSubTopic => 110u64,
                ServiceKind::EventBus => 130u64,
            },
    {
        match self {
            ServiceKind::InternetGateway => 50,
            ServiceKind::Firewall => 125,
            ServiceKind::LoadBalancer => 75,
            ServiceKind::ApplicationServer => 100,
            ServiceKind::MessageQueue => 90,
            ServiceKind::PubSubTopic => 110,
            ServiceKind::EventBus => 130,
        }
    }

    #[verifier::allow_in_spec]
    pub fn operating_cost_at(self, tier: ServiceTier) -> u64
        returns
            match (self, tier) {
                (ServiceKind::InternetGateway, ServiceTier::Starter) => 2u64,
                (ServiceKind::InternetGateway, ServiceTier::Scaled) => 3u64,
                (ServiceKind::InternetGateway, ServiceTier::Enterprise) => 5u64,
                (ServiceKind::Firewall, ServiceTier::Starter) => 5u64,
                (ServiceKind::Firewall, ServiceTier::Scaled) => 8u64,
                (ServiceKind::Firewall, ServiceTier::Enterprise) => 13u64,
                (ServiceKind::LoadBalancer, ServiceTier::Starter) => 4u64,
                (ServiceKind::LoadBalancer, ServiceTier::Scaled) => 6u64,
                (ServiceKind::LoadBalancer, ServiceTier::Enterprise) => 10u64,
                (ServiceKind::ApplicationServer, ServiceTier::Starter) => 8u64,
                (ServiceKind::ApplicationServer, ServiceTier::Scaled) => 13u64,
                (ServiceKind::ApplicationServer, ServiceTier::Enterprise) => 22u64,
                (ServiceKind::MessageQueue, ServiceTier::Starter) => 4u64,
                (ServiceKind::MessageQueue, ServiceTier::Scaled) => 6u64,
                (ServiceKind::MessageQueue, ServiceTier::Enterprise) => 10u64,
                (ServiceKind::PubSubTopic, ServiceTier::Starter) => 5u64,
                (ServiceKind::PubSubTopic, ServiceTier::Scaled) => 8u64,
                (ServiceKind::PubSubTopic, ServiceTier::Enterprise) => 13u64,
                (ServiceKind::EventBus, ServiceTier::Starter) => 6u64,
                (ServiceKind::EventBus, ServiceTier::Scaled) => 9u64,
                (ServiceKind::EventBus, ServiceTier::Enterprise) => 15u64,
            },
    {
        match (self, tier) {
            (ServiceKind::InternetGateway, ServiceTier::Starter) => 2,
            (ServiceKind::InternetGateway, ServiceTier::Scaled) => 3,
            (ServiceKind::InternetGateway, ServiceTier::Enterprise) => 5,
            (ServiceKind::Firewall, ServiceTier::Starter) => 5,
            (ServiceKind::Firewall, ServiceTier::Scaled) => 8,
            (ServiceKind::Firewall, ServiceTier::Enterprise) => 13,
            (ServiceKind::LoadBalancer, ServiceTier::Starter) => 4,
            (ServiceKind::LoadBalancer, ServiceTier::Scaled) => 6,
            (ServiceKind::LoadBalancer, ServiceTier::Enterprise) => 10,
            (ServiceKind::ApplicationServer, ServiceTier::Starter) => 8,
            (ServiceKind::ApplicationServer, ServiceTier::Scaled) => 13,
            (ServiceKind::ApplicationServer, ServiceTier::Enterprise) => 22,
            (ServiceKind::MessageQueue, ServiceTier::Starter) => 4,
            (ServiceKind::MessageQueue, ServiceTier::Scaled) => 6,
            (ServiceKind::MessageQueue, ServiceTier::Enterprise) => 10,
            (ServiceKind::PubSubTopic, ServiceTier::Starter) => 5,
            (ServiceKind::PubSubTopic, ServiceTier::Scaled) => 8,
            (ServiceKind::PubSubTopic, ServiceTier::Enterprise) => 13,
            (ServiceKind::EventBus, ServiceTier::Starter) => 6,
            (ServiceKind::EventBus, ServiceTier::Scaled) => 9,
            (ServiceKind::EventBus, ServiceTier::Enterprise) => 15,
        }
    }

    #[verifier::allow_in_spec]
    pub fn operating_cost(self) -> u64
        returns
            self.operating_cost_at(ServiceTier::Starter),
    {
        self.operating_cost_at(ServiceTier::Starter)
    }

    #[verifier::allow_in_spec]
    pub fn upgrade_cost(self, target: ServiceTier) -> Option<u64>
        returns
            match (self, target) {
                (_, ServiceTier::Starter) => None,
                (ServiceKind::InternetGateway, ServiceTier::Scaled) => Some(40u64),
                (ServiceKind::InternetGateway, ServiceTier::Enterprise) => Some(80u64),
                (ServiceKind::Firewall, ServiceTier::Scaled) => Some(90u64),
                (ServiceKind::Firewall, ServiceTier::Enterprise) => Some(180u64),
                (ServiceKind::LoadBalancer, ServiceTier::Scaled) => Some(60u64),
                (ServiceKind::LoadBalancer, ServiceTier::Enterprise) => Some(120u64),
                (ServiceKind::ApplicationServer, ServiceTier::Scaled) => Some(80u64),
                (ServiceKind::ApplicationServer, ServiceTier::Enterprise) => Some(160u64),
                (ServiceKind::MessageQueue, ServiceTier::Scaled) => Some(70u64),
                (ServiceKind::MessageQueue, ServiceTier::Enterprise) => Some(140u64),
                (ServiceKind::PubSubTopic, ServiceTier::Scaled) => Some(80u64),
                (ServiceKind::PubSubTopic, ServiceTier::Enterprise) => Some(160u64),
                (ServiceKind::EventBus, ServiceTier::Scaled) => Some(90u64),
                (ServiceKind::EventBus, ServiceTier::Enterprise) => Some(180u64),
            },
    {
        match (self, target) {
            (_, ServiceTier::Starter) => None,
            (ServiceKind::InternetGateway, ServiceTier::Scaled) => Some(40),
            (ServiceKind::InternetGateway, ServiceTier::Enterprise) => Some(80),
            (ServiceKind::Firewall, ServiceTier::Scaled) => Some(90),
            (ServiceKind::Firewall, ServiceTier::Enterprise) => Some(180),
            (ServiceKind::LoadBalancer, ServiceTier::Scaled) => Some(60),
            (ServiceKind::LoadBalancer, ServiceTier::Enterprise) => Some(120),
            (ServiceKind::ApplicationServer, ServiceTier::Scaled) => Some(80),
            (ServiceKind::ApplicationServer, ServiceTier::Enterprise) => Some(160),
            (ServiceKind::MessageQueue, ServiceTier::Scaled) => Some(70),
            (ServiceKind::MessageQueue, ServiceTier::Enterprise) => Some(140),
            (ServiceKind::PubSubTopic, ServiceTier::Scaled) => Some(80),
            (ServiceKind::PubSubTopic, ServiceTier::Enterprise) => Some(160),
            (ServiceKind::EventBus, ServiceTier::Scaled) => Some(90),
            (ServiceKind::EventBus, ServiceTier::Enterprise) => Some(180),
        }
    }

    #[verifier::allow_in_spec]
    pub fn upgrade_ticks(self, target: ServiceTier) -> Option<u16>
        returns
            match target {
                ServiceTier::Starter => None,
                ServiceTier::Scaled => Some(2u16),
                ServiceTier::Enterprise => Some(3u16),
            },
    {
        match target {
            ServiceTier::Starter => None,
            ServiceTier::Scaled => Some(2),
            ServiceTier::Enterprise => Some(3),
        }
    }

    #[verifier::allow_in_spec]
    pub fn traffic_capacity_at(self, tier: ServiceTier) -> u64
        returns
            match (self, tier) {
                (ServiceKind::InternetGateway, ServiceTier::Starter) => 250u64,
                (ServiceKind::InternetGateway, ServiceTier::Scaled) => 600u64,
                (ServiceKind::InternetGateway, ServiceTier::Enterprise) => 1500u64,
                (ServiceKind::Firewall, ServiceTier::Starter) => 200u64,
                (ServiceKind::Firewall, ServiceTier::Scaled) => 450u64,
                (ServiceKind::Firewall, ServiceTier::Enterprise) => 1000u64,
                (ServiceKind::LoadBalancer, ServiceTier::Starter) => 150u64,
                (ServiceKind::LoadBalancer, ServiceTier::Scaled) => 350u64,
                (ServiceKind::LoadBalancer, ServiceTier::Enterprise) => 800u64,
                (ServiceKind::ApplicationServer, ServiceTier::Starter) => 100u64,
                (ServiceKind::ApplicationServer, ServiceTier::Scaled) => 225u64,
                (ServiceKind::ApplicationServer, ServiceTier::Enterprise) => 500u64,
                (ServiceKind::MessageQueue, ServiceTier::Starter) => 120u64,
                (ServiceKind::MessageQueue, ServiceTier::Scaled) => 280u64,
                (ServiceKind::MessageQueue, ServiceTier::Enterprise) => 640u64,
                (ServiceKind::PubSubTopic, ServiceTier::Starter) => 150u64,
                (ServiceKind::PubSubTopic, ServiceTier::Scaled) => 350u64,
                (ServiceKind::PubSubTopic, ServiceTier::Enterprise) => 800u64,
                (ServiceKind::EventBus, ServiceTier::Starter) => 200u64,
                (ServiceKind::EventBus, ServiceTier::Scaled) => 450u64,
                (ServiceKind::EventBus, ServiceTier::Enterprise) => 1000u64,
            },
    {
        match (self, tier) {
            (ServiceKind::InternetGateway, ServiceTier::Starter) => 250,
            (ServiceKind::InternetGateway, ServiceTier::Scaled) => 600,
            (ServiceKind::InternetGateway, ServiceTier::Enterprise) => 1500,
            (ServiceKind::Firewall, ServiceTier::Starter) => 200,
            (ServiceKind::Firewall, ServiceTier::Scaled) => 450,
            (ServiceKind::Firewall, ServiceTier::Enterprise) => 1000,
            (ServiceKind::LoadBalancer, ServiceTier::Starter) => 150,
            (ServiceKind::LoadBalancer, ServiceTier::Scaled) => 350,
            (ServiceKind::LoadBalancer, ServiceTier::Enterprise) => 800,
            (ServiceKind::ApplicationServer, ServiceTier::Starter) => 100,
            (ServiceKind::ApplicationServer, ServiceTier::Scaled) => 225,
            (ServiceKind::ApplicationServer, ServiceTier::Enterprise) => 500,
            (ServiceKind::MessageQueue, ServiceTier::Starter) => 120,
            (ServiceKind::MessageQueue, ServiceTier::Scaled) => 280,
            (ServiceKind::MessageQueue, ServiceTier::Enterprise) => 640,
            (ServiceKind::PubSubTopic, ServiceTier::Starter) => 150,
            (ServiceKind::PubSubTopic, ServiceTier::Scaled) => 350,
            (ServiceKind::PubSubTopic, ServiceTier::Enterprise) => 800,
            (ServiceKind::EventBus, ServiceTier::Starter) => 200,
            (ServiceKind::EventBus, ServiceTier::Scaled) => 450,
            (ServiceKind::EventBus, ServiceTier::Enterprise) => 1000,
        }
    }

    #[verifier::allow_in_spec]
    pub fn traffic_capacity(self) -> u64
        returns
            self.traffic_capacity_at(ServiceTier::Starter),
    {
        self.traffic_capacity_at(ServiceTier::Starter)
    }

    /// Whether the kind runs application code that turns requests into revenue.
    #[verifier::allow_in_spec]
    pub fn serves_requests(self) -> bool
        returns
            self == ServiceKind::ApplicationServer,
    {
        match self {
            ServiceKind::ApplicationServer => true,
            _ => false,
        }
    }

    #[verifier::allow_in_spec]
    pub fn messaging_mode(self) -> Option<MessagingMode>
        returns
            match self {
                ServiceKind::MessageQueue => Some(MessagingMode::Queue),
                ServiceKind::PubSubTopic => Some(MessagingMode::FanOut),
                ServiceKind::EventBus => Some(MessagingMode::Routed),
                _ => None,
            },
    {
        match self {
            ServiceKind::MessageQueue => Some(MessagingMode::Queue),
            ServiceKind::PubSubTopic => Some(MessagingMode::FanOut),
            ServiceKind::EventBus => Some(MessagingMode::Routed),
            _ => None,
        }
    }

    #[verifier::allow_in_spec]
    pub fn construction_ticks(self) -> u16
        returns
            match self {
                ServiceKind::InternetGateway => 1u16,
                ServiceKind::Firewall => 2u16,
                ServiceKind::LoadBalancer => 2u16,
                ServiceKind::ApplicationServer => 3u16,
                ServiceKind::MessageQueue => 2u16,
                ServiceKind::PubSubTopic => 2u16,
                ServiceKind::EventBus => 2u16,
            },
    {
        match self {
            ServiceKind::InternetGateway => 1,
            ServiceKind::Firewall => 2,
            ServiceKind::LoadBalancer => 2,
            ServiceKind::ApplicationServer => 3,
            ServiceKind::MessageQueue => 2,
            ServiceKind::PubSubTopic => 2,
            ServiceKind::EventBus => 2,
        }
    }

    /// Every kind occupies a single tile.
    pub open spec fn spec_footprint(self) -> Footprint {
        Footprint::spec_new(1, 1)
    }

    pub fn footprint(self) -> (f: Footprint)
        ensures
            f == self.spec_footprint(),
            f.spec_width() == 1,
            f.spec_height() == 1,
    {
        Footprint::new(1, 1)
    }
}

/// Index of the first service in `services` that has identity `id`.
pub open spec fn service_position(services: Seq<Service>, id: ServiceId) -> Option<int>
    decreases services.len(),
{
    if services.len() == 0 {
        None
    } else if services[0].spec_id() == id {
        Some(0)
    } else {
        match service_position(services.drop_first(), id) {
            Some(i) => Some(i + 1),
            None => None,
        }
    }
}

/// `service_position` finds the first match, or reports that there is none.
pub proof fn lemma_service_position(services: Seq<Service>, id: ServiceId)
    ensures
        match service_position(services, id) {
            Some(i) => 0 <= i < services.len() && services[i].spec_id() == id && forall|j: int|
                0 <= j < i ==> #[trigger] services[j].spec_id() != id,
            None => forall|j: int| 0 <= j < services.len() ==> #[trigger] services[j].spec_id() != id,
        },
    decreases services.len(),
{
    if services.len() > 0 && services[0].spec_id() != id {
        lemma_service_position(services.drop_first(), id);
        match service_position(services.drop_first(), id) {
            Some(i) => {
                assert forall|j: int| 0 <= j < i + 1 implies #[trigger] services[j].spec_id() != id by {
                    if j > 0 {
                        assert(services[j] == services.drop_first()[j - 1]);
                    }
                }
            },
            None => {
                assert forall|j: int| 0 <= j < services.len() implies #[trigger] services[j].spec_id()
                    != id by {
                    if j > 0 {
                        assert(services[j] == services.drop_first()[j - 1]);
                    }
                }
            },
        }
    }
}

/// The first service with a given identity, if any.
pub fn find_service(services: &[Service], id: ServiceId) -> (index: Option<usize>)
    ensures
        match index {
            Some(i) => service_position(services@, id) == Some(i as int),
            None => service_position(services@, id) == None::<int>,
        },
{
    proof {
        lemma_service_position(services@, id);
    }
    let mut i: usize = 0;
    while i < services.len()
        invariant
            i <= services@.len(),
            forall|j: int| 0 <= j < i ==> #[trigger] services@[j].spec_id() != id,
            match service_position(services@, id) {
                Some(p) => 0 <= p < services@.len() && services@[p].spec_id() == id && forall|j: int|
                    0 <= j < p ==> #[trigger] services@[j].spec_id() != id,
                None => forall|j: int|
                    0 <= j < services@.len() ==> #[trigger] services@[j].spec_id() != id,
            },
        decreases services@.len() - i,
    {
        if services[i].id() == id {
            return Some(i);
        }
        i = i + 1;
    }
    None
}

/// The lifecycle state of a service.
#[derive(Clone, Copy, Debug, PartialEq, Eq, Structural)]
pub enum ServiceState {
    UnderConstruction { ticks_remaining: u16 },
    Upgrading { target: ServiceTier, ticks_remaining: u16 },
    Operational,
    Disrupted { ticks_remaining: u16 },
}

/// A timed state always has at least one tick left to run.
pub open spec fn state_is_valid(state: ServiceState) -> bool {
    match state {
        ServiceState::UnderConstruction { ticks_remaining } => ticks_remaining >= 1,
        ServiceState::Upgrading { ticks_remaining, .. } => ticks_remaining >= 1,
        ServiceState::Operational => true,
        ServiceState::Disrupted { ticks_remaining } => ticks_remaining >= 1,
    }
}

/// The state a service reaches after one more tick of work.
pub open spec fn state_after_tick(state: ServiceState) -> ServiceState {
    match state {
        ServiceState::UnderConstruction { ticks_remaining } => if ticks_remaining == 1 {
            ServiceState::Operational
        } else {
            ServiceState::UnderConstruction { ticks_remaining: (ticks_remaining - 1) as u16 }
        },
        ServiceState::Upgrading { target, ticks_remaining } => if ticks_remaining == 1 {
            ServiceState::Operational
        } else {
            ServiceState::Upgrading { target, ticks_remaining: (ticks_remaining - 1) as u16 }
        },
        ServiceState::Operational => ServiceState::Operational,
        ServiceState::Disrupted { ticks_remaining } => if ticks_remaining == 1 {
            ServiceState::Operational
        } else {
            ServiceState::Disrupted { ticks_remaining: (ticks_remaining - 1) as u16 }
        },
    }
}

/// The tier a service holds after one more tick of work: a finishing upgrade activates its target.
pub open spec fn tier_after_tick(state: ServiceState, tier: ServiceTier) -> ServiceTier {
    match state {
        ServiceState::Upgrading { target, ticks_remaining } => if ticks_remaining == 1 {
            target
        } else {
            tier
        },
        _ => tier,
    }
}

/// Whether one more tick of work completes the initial construction.
pub open spec fn tick_completes_construction(state: ServiceState) -> bool {
    state == (ServiceState::UnderConstruction { ticks_remaining: 1 })
}

/// A constructed piece of infrastructure on the map.
#[derive(Clone, Copy, Debug, PartialEq, Eq, Structural)]
pub struct Service {
    id: ServiceId,
    kind: ServiceKind,
    tier: ServiceTier,
    position: GridPosition,
    state: ServiceState,
}

impl Service {
    pub closed spec fn spec_id(self) -> ServiceId {
        self.id
    }

    pub closed spec fn spec_kind(self) -> ServiceKind {
        self.kind
    }

    pub closed spec fn spec_tier(self) -> ServiceTier {
        self.tier
    }

    pub closed spec fn spec_position(self) -> GridPosition {
        self.position
    }

    pub closed spec fn spec_state(self) -> ServiceState {
        self.state
    }

    /// The service's state is one that its lifecycle can reach.
    pub open spec fn wf(self) -> bool {
        state_is_valid(self.spec_state())
    }

    pub open spec fn spec_is_operational(self) -> bool {
        self.spec_state() == ServiceState::Operational
    }

    /// The requests per tick the service can carry, bounded by `unbounded_capacity`.
    pub open spec fn spec_traffic_capacity(self, unbounded_capacity: u64) -> u64 {
        if self.spec_is_operational() {
            let capacity = self.spec_kind().traffic_capacity_at(self.spec_tier());
            if capacity < unbounded_capacity {
                capacity
            } else {
                unbounded_capacity
            }
        } else {
            0
        }
    }

    /// Operating cost per tick: nothing while under construction, the tier's cost otherwise.
    pub open spec fn spec_operating_cost(self) -> u64 {
        match self.spec_state() {
            ServiceState::UnderConstruction { .. } => 0,
            _ => self.spec_kind().operating_cost_at(self.spec_tier()),
        }
    }

    /// Everything but the state and tier is unchanged between `self` and `other`.
    pub open spec fn same_identity(self, other: Service) -> bool {
        &&& other.spec_id() == self.spec_id()
        &&& other.spec_kind() == self.spec_kind()
        &&& other.spec_position() == self.spec_position()
    }

    /// A new service, under construction at the starter tier.
    pub closed spec fn spec_new(id: ServiceId, kind: ServiceKind, position: GridPosition) -> Service {
        Service {
            id,
            kind,
            tier: ServiceTier::Starter,
            position,
            state: ServiceState::UnderConstruction { ticks_remaining: kind.construction_ticks() },
        }
    }

    pub broadcast proof fn lemma_spec_new(id: ServiceId, kind: ServiceKind, position: GridPosition)
        ensures
            (#[trigger] Service::spec_new(id, kind, position)).spec_id() == id,
            Service::spec_new(id, kind, position).spec_kind() == kind,
            Service::spec_new(id, kind, position).spec_tier() == ServiceTier::Starter,
            Service::spec_new(id, kind, position).spec_position() == position,
            Service::spec_new(id, kind, position).spec_state() == (ServiceState::UnderConstruction {
                ticks_remaining: kind.construction_ticks(),
            }),
            Service::spec_new(id, kind, position).wf(),
    {
    }

    /// The service after one more tick of construction, upgrade or recovery work.
    pub closed spec fn spec_after_tick(self) -> Service {
        Service {
            tier: tier_after_tick(self.state, self.tier),
            state: state_after_tick(self.state),
            ..self
        }
    }

    pub broadcast proof fn lemma_spec_after_tick(self)
        ensures
            (#[trigger] self.spec_after_tick()).spec_state() == state_after_tick(self.spec_state()),
            self.spec_after_tick().spec_tier() == tier_after_tick(self.spec_state(), self.spec_tier()),
            self.same_identity(self.spec_after_tick()),
            self.wf() ==> self.spec_after_tick().wf(),
    {
    }

    /// A new service starts its construction at the starter tier.
    pub fn new(id: ServiceId, kind: ServiceKind, position: GridPosition) -> (s: Self)
        ensures
            s == Service::spec_new(id, kind, position),
            s.spec_id() == id,
            s.spec_kind() == kind,
            s.spec_tier() == ServiceTier::Starter,
            s.spec_position() == position,
            s.spec_state() == (ServiceState::UnderConstruction {
                ticks_remaining: kind.construction_ticks(),
            }),
            s.wf(),
    {
        let construction_ticks = kind.construction_ticks();
        let state = if construction_ticks == 0 {
            ServiceState::Operational
        } else {
            ServiceState::UnderConstruction { ticks_remaining: construction_ticks }
        };
        Self { id, kind, tier: ServiceTier::Starter, position, state }
    }

    pub fn id(self) -> (id: ServiceId)
        ensures
            id == self.spec_id(),
    {
        self.id
    }

    pub fn kind(self) -> (kind: ServiceKind)
        ensures
            kind == self.spec_kind(),
    {
        self.kind
    }

    pub fn tier(self) -> (tier: ServiceTier)
        ensures
            tier == self.spec_tier(),
    {
        self.tier
    }

    pub fn next_tier(self) -> (tier: Option<ServiceTier>)
        ensures
            tier == self.spec_tier().next(),
    {
        self.tier.next()
    }

    pub fn next_upgrade_cost(self) -> (cost: Option<u64>)
        ensures
            cost == match self.spec_tier().next() {
                Some(target) => self.spec_kind().upgrade_cost(target),
                None => None,
            },
    {
        match self.next_tier() {
            Some(target) => self.kind.upgrade_cost(target),
            None => None,
        }
    }

    pub fn position(self) -> (p: GridPosition)
        ensures
            p == self.spec_position(),
    {
        self.position
    }

    pub fn state(self) -> (s: ServiceState)
        ensures
            s == self.spec_state(),
    {
        self.state
    }

    pub fn is_operational(self) -> (b: bool)
        ensures
            b == self.spec_is_operational(),
    {
        match self.state {
            ServiceState::Operational => true,
            _ => false,
        }
    }

    pub fn traffic_capacity(self, unbounded_capacity: u64) -> (c: u64)
        ensures
            c == self.spec_traffic_capacity(unbounded_capacity),
    {
        match self.state {
            ServiceState::Operational => {
                let capacity = self.kind.traffic_capacity_at(self.tier);
                if capacity < unbounded_capacity {
                    capacity
                } else {
                    unbounded_capacity
                }
            },
            _ => 0,
        }
    }

    pub fn current_operating_cost(self) -> (c: u64)
        ensures
            c == self.spec_operating_cost(),
    {
        match self.state {
            ServiceState::UnderConstruction { .. } => 0,
            _ => self.kind.operating_cost_at(self.tier),
        }
    }

    /// Runs one tick of construction, upgrade or recovery work; returns whether the initial
    /// construction finished on this tick.
    pub fn advance_construction(&mut self) -> (completed: bool)
        requires
            old(self).wf(),
        ensures
            final(self).wf(),
            *final(self) == old(self).spec_after_tick(),
            old(self).same_identity(*final(self)),
            final(self).spec_state() == state_after_tick(old(self).spec_state()),
            final(self).spec_tier() == tier_after_tick(old(self).spec_state(), old(self).spec_tier()),
            completed == tick_completes_construction(old(self).spec_state()),
    {
        match self.state {
            ServiceState::UnderConstruction { ticks_remaining } => {
                if ticks_remaining == 1 {
                    self.state = ServiceState::Operational;
                    true
                } else {
                    self.state = ServiceState::UnderConstruction { ticks_remaining: ticks_remaining - 1 };
                    false
                }
            },
            ServiceState::Operational => false,
            ServiceState::Upgrading { target, ticks_remaining } => {
                if ticks_remaining == 1 {
                    self.tier = target;
                    self.state = ServiceState::Operational;
                } else {
                    self.state = ServiceState::Upgrading { target, ticks_remaining: ticks_remaining - 1 };
                }
                false
            },
            ServiceState::Disrupted { ticks_remaining } => {
                if ticks_remaining == 1 {
                    self.state = ServiceState::Operational;
                } else {
                    self.state = ServiceState::Disrupted { ticks_remaining: ticks_remaining - 1 };
                }
                false
            },
        }
    }

    /// The service after an attempted disruption of `ticks` ticks.
    pub open spec fn spec_disrupted(self, ticks: u16) -> Service {
        if ticks == 0 || !self.spec_is_operational() {
            self
        } else {
            self.with_state(ServiceState::Disrupted { ticks_remaining: ticks })
        }
    }

    /// The same service in another state.
    pub closed spec fn with_state(self, state: ServiceState) -> Service {
        Service { state, ..self }
    }

    pub broadcast proof fn lemma_with_state(self, state: ServiceState)
        ensures
            #[trigger] self.with_state(state).spec_state() == state,
            self.same_identity(self.with_state(state)),
            self.with_state(state).spec_tier() == self.spec_tier(),
    {
    }

    /// Takes an operational service offline for `ticks` ticks; returns whether it did.
    pub fn disrupt(&mut self, ticks: u16) -> (disrupted: bool)
        ensures
            disrupted == (ticks != 0 && old(self).spec_is_operational()),
            *final(self) == old(self).spec_disrupted(ticks),
    {
        if ticks == 0 || !self.is_operational() {
            return false;
        }
        self.state = ServiceState::Disrupted { ticks_remaining: ticks };
        true
    }

    /// The service after an attempted upgrade to `target` lasting `ticks` ticks.
    pub open spec fn spec_upgrade_started(self, target: ServiceTier, ticks: u16) -> Service {
        if !self.spec_is_operational() || self.spec_tier().next() != Some(target) || ticks == 0 {
            self
        } else {
            self.with_state(ServiceState::Upgrading { target, ticks_remaining: ticks })
        }
    }

    /// Starts an upgrade of an operational service to its next tier; returns whether it did.
    pub fn start_upgrade(&mut self, target: ServiceTier, ticks: u16) -> (started: bool)
        ensures
            started == (old(self).spec_is_operational() && old(self).spec_tier().next() == Some(
                target,
            ) && ticks != 0),
            *final(self) == old(self).spec_upgrade_started(target, ticks),
    {
        if !self.is_operational() || self.tier.next() != Some(target) || ticks == 0 {
            return false;
        }
        self.state = ServiceState::Upgrading { target, ticks_remaining: ticks };
        true
    }
}


impl ServiceTier {
    /// The tier's name, as `label` gives it.
    pub fn to_string(&self) -> (text: String)
        ensures
            text@ == self.spec_label(),
    {
        self.label().to_owned()
    }
}

impl ServiceState {
    /// The state as a phrase.
    pub open spec fn spec_message(self) -> Seq<char> {
        match self {
            ServiceState::UnderConstruction { ticks_remaining } => "under construction ("@
                + decimal(ticks_remaining as nat) + " ticks remaining)"@,
            ServiceState::Operational => "operational"@,
            ServiceState::Upgrading { target, ticks_remaining } => "upgrading to "@
                + target.spec_label() + " ("@ + decimal(ticks_remaining as nat)
                + " ticks remaining)"@,
            ServiceState::Disrupted { ticks_remaining } => "disrupted ("@ + decimal(
                ticks_remaining as nat,
            ) + " ticks remaining)"@,
        }
    }

    pub fn to_string(&self) -> (text: String)
        ensures
            text@ == self.spec_message(),
    {
        let mut text = String::new();
        match *self {
            ServiceState::UnderConstruction { ticks_remaining } => {
                text.append("under construction (");
                push_decimal(&mut text, ticks_remaining as u128);
                text.append(" ticks remaining)");
            },
            ServiceState::Operational => {
                text.append("operational");
            },
            ServiceState::Upgrading { target, ticks_remaining } => {
                text.append("upgrading to ");
                text.append(target.label());
                text.append(" (");
                push_decimal(&mut text, ticks_remaining as u128);
                text.append(" ticks remaining)");
            },
            ServiceState::Disrupted { ticks_remaining } => {
                text.append("disrupted (");
                push_decimal(&mut text, ticks_remaining as u128);
                text.append(" ticks remaining)");
            },
        }
        assert(text@ =~= self.spec_message());
        text
    }
}

} // verus!
