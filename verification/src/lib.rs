//! Servus: a deterministic, engine-independent simulation of an infrastructure strategy game,
//! with its content catalog, a terminal view of the game state and a scripted demo.

mod clock;
mod command;
mod content;
mod demo;
mod economy;
mod flow;
mod infrastructure;
mod map;
mod messaging;
mod network;
mod render;
mod routing;
mod security;
mod simulation;
mod solution;
mod sound;
mod text;
mod traffic;

pub use clock::Tick;
pub use command::{CommandError, CommandErrorSource, CommandOutcome, GameCommand, UpgradeError};
pub use content::{ContentCatalog, ContentError, ServiceDefinition};
pub use demo::{
    DEMO_MAP_HEIGHT, DEMO_MAP_WIDTH, DemoError, DemoErrorSource, DemoFrame, DemoPlacement,
    DemoResult, STARTING_CREDITS, STARTING_REQUESTS_PER_TICK, run_demo,
};
pub use economy::{Budget, BudgetError, OUTAGE_PENALTY_PER_DROPPED_REQUEST};
pub use infrastructure::{
    MessagingMode, Service, ServiceId, ServiceKind, ServiceState, ServiceTier,
};
pub use map::{Footprint, GridMap, GridPosition, MapSize, MapSizeError, PlacementError};
pub use messaging::{MessagingResult, QUEUE_STORAGE_MULTIPLIER, QueueBacklog, process_messages};
pub use network::{NETWORK_LINK_COST, Network, NetworkError, NetworkLink};
pub use render::render_simulation;
pub use routing::{RoutingResult, route_requests, served_requests};
pub use security::{CYBER_ATTACK_INTERVAL, DISRUPTION_TICKS, resolve_scheduled_attack};
pub use simulation::Simulation;
pub use sound::{SAMPLE_RATE, samples_for};
pub use solution::{BuildingScale, FoundationKind, Solution, SolutionError, SolutionId};
pub use traffic::{CyberAttackReport, LinkTraffic, TickReport, Traffic};
