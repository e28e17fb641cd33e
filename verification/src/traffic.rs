use vstd::prelude::*;

use crate::clock::Tick;
use crate::infrastructure::ServiceId;

verus! {

/// Incoming demand for a solution during every simulation tick.
#[derive(Clone, Copy, Debug, Default, PartialEq, Eq, Structural)]
pub struct Traffic {
    requests_per_tick: u64,
}

impl Traffic {
    pub closed spec fn spec_requests_per_tick(self) -> u64 {
        self.requests_per_tick
    }

    pub fn new(requests_per_tick: u64) -> (traffic: Self)
        ensures
            traffic.spec_requests_per_tick() == requests_per_tick,
    {
        Self { requests_per_tick }
    }

    pub fn requests_per_tick(self) -> (requests: u64)
        ensures
            requests == self.spec_requests_per_tick(),
    {
        self.requests_per_tick
    }

    pub fn set_requests_per_tick(&mut self, requests_per_tick: u64)
        ensures
            final(self).spec_requests_per_tick() == requests_per_tick,
    {
        self.requests_per_tick = requests_per_tick;
    }
}

/// Requests carried by one directed network link during a tick.
#[derive(Clone, Copy, Debug, PartialEq, Eq, Structural)]
pub struct LinkTraffic {
    pub from: ServiceId,
    pub to: ServiceId,
    pub requests: u64,
}

/// The outcome of a scheduled cyberattack.
#[derive(Clone, Copy, Debug, PartialEq, Eq, Structural)]
pub struct CyberAttackReport {
    pub target: ServiceId,
    pub blocked: bool,
    pub disruption_ticks: u16,
}

/// The result of processing one simulation tick.
#[derive(Clone, Debug, PartialEq, Eq)]
pub struct TickReport {
    pub tick: Tick,
    pub received: u64,
    pub served: u64,
    pub dropped: u64,
    pub revenue: u64,
    pub outage_penalty: u64,
    pub failover_active: bool,
    pub operating_cost: u64,
    pub operating_cost_shortfall: u64,
    pub net_income: i128,
    pub completed_services: Vec<ServiceId>,
    pub link_traffic: Vec<LinkTraffic>,
    pub cyberattack: Option<CyberAttackReport>,
}

} // verus!
