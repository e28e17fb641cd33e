//! Buildings that stack services floor by floor on a foundation lot.
use vstd::prelude::*;

use crate::infrastructure::ServiceId;
use crate::map::{Footprint, GridPosition};
use crate::text::{decimal, push_decimal};

verus! {

broadcast use crate::map::Footprint::lemma_spec_new;

/// The stable identity of a building.
#[derive(Clone, Copy, Debug, PartialEq, Eq, Hash, Structural)]
pub struct SolutionId(u64);

impl SolutionId {
    pub closed spec fn spec_value(self) -> u64 {
        self.0
    }

    pub fn new(value: u64) -> (id: Self)
        ensures
            id.spec_value() == value,
    {
        Self(value)
    }

    pub fn value(self) -> (v: u64)
        ensures
            v == self.spec_value(),
    {
        self.0
    }
}

/// The lot a building stands on: larger lots cost more and hold taller buildings.
#[derive(Clone, Copy, Debug, PartialEq, Eq, Hash, Structural)]
pub enum FoundationKind {
    SmallLot,
    TowerLot,
    MegatowerLot,
}

impl FoundationKind {
    #[verifier::allow_in_spec]
    pub fn build_cost(self) -> u64
        returns
            match self {
                FoundationKind::SmallLot => 100u64,
                FoundationKind::TowerLot => 350u64,
                FoundationKind::MegatowerLot => 900u64,
            },
    {
        match self {
            FoundationKind::SmallLot => 100,
            FoundationKind::TowerLot => 350,
            FoundationKind::MegatowerLot => 900,
        }
    }

    /// The square of tiles the lot covers.
    pub open spec fn spec_side(self) -> u16 {
        match self {
            FoundationKind::SmallLot => 2,
            FoundationKind::TowerLot => 3,
            FoundationKind::MegatowerLot => 4,
        }
    }

    pub fn footprint(self) -> (footprint: Footprint)
        ensures
            footprint == Footprint::spec_new(self.spec_side(), self.spec_side()),
            footprint.spec_width() == self.spec_side(),
            footprint.spec_height() == self.spec_side(),
    {
        match self {
            FoundationKind::SmallLot => Footprint::new(2, 2),
            FoundationKind::TowerLot => Footprint::new(3, 3),
            FoundationKind::MegatowerLot => Footprint::new(4, 4),
        }
    }

    #[verifier::allow_in_spec]
    pub fn maximum_floors(self) -> u16
        returns
            match self {
                FoundationKind::SmallLot => 4u16,
                FoundationKind::TowerLot => 10u16,
                FoundationKind::MegatowerLot => 24u16,
            },
    {
        match self {
            FoundationKind::SmallLot => 4,
            FoundationKind::TowerLot => 10,
            FoundationKind::MegatowerLot => 24,
        }
    }
}

/// How a building looks by its number of floors.
#[derive(Clone, Copy, Debug, PartialEq, Eq, Hash, Structural)]
pub enum BuildingScale {
    EmptyLot,
    LowRise,
    MidRise,
    HighRise,
    Skyscraper,
}

/// A building: a foundation lot and the services installed on it, one per floor.
#[derive(Clone, Debug, PartialEq, Eq)]
pub struct Solution {
    id: SolutionId,
    position: GridPosition,
    foundation: FoundationKind,
    services: Vec<ServiceId>,
}

/// The number of floors that `floors` installed services make, saturating at the largest count.
pub open spec fn floor_count_of(floors: nat) -> u16 {
    if floors <= u16::MAX {
        floors as u16
    } else {
        u16::MAX
    }
}

/// The scale of a building with `floors` floors.
pub open spec fn scale_of(floors: u16) -> BuildingScale {
    if floors == 0 {
        BuildingScale::EmptyLot
    } else if floors <= 3 {
        BuildingScale::LowRise
    } else if floors <= 7 {
        BuildingScale::MidRise
    } else if floors <= 15 {
        BuildingScale::HighRise
    } else {
        BuildingScale::Skyscraper
    }
}

impl Solution {
    pub closed spec fn spec_id(self) -> SolutionId {
        self.id
    }

    pub closed spec fn spec_position(self) -> GridPosition {
        self.position
    }

    pub closed spec fn spec_foundation(self) -> FoundationKind {
        self.foundation
    }

    /// The installed services, from the ground floor up.
    pub closed spec fn spec_services(self) -> Seq<ServiceId> {
        self.services@
    }

    /// No service is installed twice, and the building is no taller than its foundation allows.
    pub open spec fn wf(self) -> bool {
        &&& self.spec_services().no_duplicates()
        &&& self.spec_services().len() <= self.spec_foundation().maximum_floors()
    }

    /// An empty lot.
    pub fn new(id: SolutionId, position: GridPosition, foundation: FoundationKind) -> (solution:
        Self)
        ensures
            solution.wf(),
            solution.spec_id() == id,
            solution.spec_position() == position,
            solution.spec_foundation() == foundation,
            solution.spec_services() == Seq::<ServiceId>::empty(),
    {
        Self { id, position, foundation, services: Vec::new() }
    }

    pub fn id(&self) -> (id: SolutionId)
        ensures
            id == self.spec_id(),
    {
        self.id
    }

    pub fn position(&self) -> (position: GridPosition)
        ensures
            position == self.spec_position(),
    {
        self.position
    }

    pub fn foundation(&self) -> (foundation: FoundationKind)
        ensures
            foundation == self.spec_foundation(),
    {
        self.foundation
    }

    pub fn services(&self) -> (services: &[ServiceId])
        ensures
            services@ == self.spec_services(),
    {
        self.services.as_slice()
    }

    /// The number of floors, saturating at the largest count.
    pub fn floor_count(&self) -> (floors: u16)
        ensures
            floors == floor_count_of(self.spec_services().len()),
    {
        if self.services.len() <= 65535 {
            self.services.len() as u16
        } else {
            u16::MAX
        }
    }

    /// The floors that can still be added.
    pub fn remaining_floors(&self) -> (floors: u16)
        ensures
            floors == if floor_count_of(self.spec_services().len())
                < self.spec_foundation().maximum_floors() {
                self.spec_foundation().maximum_floors() - floor_count_of(
                    self.spec_services().len(),
                )
            } else {
                0
            },
    {
        self.foundation.maximum_floors().saturating_sub(self.floor_count())
    }

    pub fn scale(&self) -> (scale: BuildingScale)
        ensures
            scale == scale_of(floor_count_of(self.spec_services().len())),
    {
        let floors = self.floor_count();
        if floors == 0 {
            BuildingScale::EmptyLot
        } else if floors <= 3 {
            BuildingScale::LowRise
        } else if floors <= 7 {
            BuildingScale::MidRise
        } else if floors <= 15 {
            BuildingScale::HighRise
        } else {
            BuildingScale::Skyscraper
        }
    }

    /// Adds `service` as the next floor, unless it is already installed or the building is full;
    /// a refused installation changes nothing.
    pub fn install(&mut self, service: ServiceId) -> (res: Result<(), SolutionError>)
        ensures
            match res {
                Ok(()) => {
                    &&& !old(self).spec_services().contains(service)
                    &&& floor_count_of(old(self).spec_services().len())
                        < old(self).spec_foundation().maximum_floors()
                    &&& final(self).spec_services() == old(self).spec_services().push(service)
                    &&& final(self).spec_id() == old(self).spec_id()
                    &&& final(self).spec_position() == old(self).spec_position()
                    &&& final(self).spec_foundation() == old(self).spec_foundation()
                },
                Err(error) => *final(self) == *old(self) && error == if old(
                    self,
                ).spec_services().contains(service) {
                    SolutionError::ServiceAlreadyInstalled {
                        solution: old(self).spec_id(),
                        service,
                    }
                } else {
                    SolutionError::BuildingFull {
                        solution: old(self).spec_id(),
                        maximum_floors: old(self).spec_foundation().maximum_floors(),
                    }
                } && (!old(self).spec_services().contains(service) ==> floor_count_of(
                    old(self).spec_services().len(),
                ) >= old(self).spec_foundation().maximum_floors()),
            },
            old(self).wf() ==> final(self).wf(),
    {
        let mut i: usize = 0;
        while i < self.services.len()
            invariant
                i <= self.services@.len(),
                forall|j: int| 0 <= j < i ==> #[trigger] self.services@[j] != service,
            decreases self.services@.len() - i,
        {
            if self.services[i] == service {
                return Err(SolutionError::ServiceAlreadyInstalled { solution: self.id, service });
            }
            i = i + 1;
        }
        if self.floor_count() >= self.foundation.maximum_floors() {
            return Err(
                SolutionError::BuildingFull {
                    solution: self.id,
                    maximum_floors: self.foundation.maximum_floors(),
                },
            );
        }
        self.services.push(service);
        Ok(())
    }
}

/// Why a building change was refused.
#[derive(Clone, Copy, Debug, PartialEq, Eq, Structural)]
pub enum SolutionError {
    UnknownSolution(SolutionId),
    BuildingFull { solution: SolutionId, maximum_floors: u16 },
    ServiceAlreadyInstalled { solution: SolutionId, service: ServiceId },
}

impl SolutionError {
    /// The error as a sentence.
    pub open spec fn spec_message(self) -> Seq<char> {
        match self {
            SolutionError::UnknownSolution(id) => "solution "@ + decimal(id.spec_value() as nat)
                + " does not exist"@,
            SolutionError::BuildingFull { solution, maximum_floors } => "solution "@ + decimal(
                solution.spec_value() as nat,
            ) + " is full at "@ + decimal(maximum_floors as nat) + " floors"@,
            SolutionError::ServiceAlreadyInstalled { solution, service } => "service "@ + decimal(
                service.spec_value() as nat,
            ) + " is already installed in solution "@ + decimal(solution.spec_value() as nat),
        }
    }

    pub fn to_string(&self) -> (text: String)
        ensures
            text@ == self.spec_message(),
    {
        let mut text = String::new();
        match *self {
            SolutionError::UnknownSolution(id) => {
                text.append("solution ");
                push_decimal(&mut text, id.value() as u128);
                text.append(" does not exist");
            },
            SolutionError::BuildingFull { solution, maximum_floors } => {
                text.append("solution ");
                push_decimal(&mut text, solution.value() as u128);
                text.append(" is full at ");
                push_decimal(&mut text, maximum_floors as u128);
                text.append(" floors");
            },
            SolutionError::ServiceAlreadyInstalled { solution, service } => {
                text.append("service ");
                push_decimal(&mut text, service.value() as u128);
                text.append(" is already installed in solution ");
                push_decimal(&mut text, solution.value() as u128);
            },
        }
        assert(text@ =~= self.spec_message());
        text
    }
}


/// A building's scale follows its floors: an empty lot has none, a low-rise one to three, a
/// mid-rise four to seven, a high-rise eight to fifteen and a skyscraper sixteen or more.
pub proof fn law_scale_follows_floors(solution: Solution)
    ensures
        ({
            let floors = floor_count_of(solution.spec_services().len());
            let scale = scale_of(floors);
            &&& (scale == BuildingScale::EmptyLot) <==> floors == 0
            &&& (scale == BuildingScale::LowRise) <==> 1 <= floors <= 3
            &&& (scale == BuildingScale::MidRise) <==> 4 <= floors <= 7
            &&& (scale == BuildingScale::HighRise) <==> 8 <= floors <= 15
            &&& (scale == BuildingScale::Skyscraper) <==> 16 <= floors
        }),
{
}

/// More floors never make a building look smaller.
pub proof fn law_scale_grows_with_floors(fewer: u16, more: u16)
    requires
        fewer <= more,
    ensures
        scale_rank(scale_of(fewer)) <= scale_rank(scale_of(more)),
{
}

/// The position of a scale from the empty lot up to the skyscraper.
pub open spec fn scale_rank(scale: BuildingScale) -> int {
    match scale {
        BuildingScale::EmptyLot => 0,
        BuildingScale::LowRise => 1,
        BuildingScale::MidRise => 2,
        BuildingScale::HighRise => 3,
        BuildingScale::Skyscraper => 4,
    }
}

} // verus!
