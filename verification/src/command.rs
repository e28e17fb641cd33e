use vstd::prelude::*;

use crate::text::{decimal, push_decimal};

use crate::economy::BudgetError;
use crate::infrastructure::{ServiceId, ServiceKind, ServiceState, ServiceTier};
use crate::map::{GridPosition, PlacementError};
use crate::network::NetworkError;

verus! {

/// A player action that changes the simulation.
#[derive(Clone, Copy, Debug, PartialEq, Eq, Structural)]
pub enum GameCommand {
    BuildService { kind: ServiceKind, position: GridPosition },
    ConnectServices { from: ServiceId, to: ServiceId },
    DisconnectServices { from: ServiceId, to: ServiceId },
    UpgradeService { id: ServiceId },
}

/// What an accepted command did.
#[allow(inconsistent_fields)]
#[derive(Clone, Copy, Debug, PartialEq, Eq, Structural)]
pub enum CommandOutcome {
    ServiceBuilt { id: ServiceId, kind: ServiceKind, position: GridPosition },
    ServicesConnected { from: ServiceId, to: ServiceId },
    ServicesDisconnected { from: ServiceId, to: ServiceId },
    ServiceUpgradeStarted { id: ServiceId, from: ServiceTier, to: ServiceTier },
}

/// Why an upgrade was refused.
#[derive(Clone, Copy, Debug, PartialEq, Eq, Structural)]
pub enum UpgradeError {
    UnknownService(ServiceId),
    NotOperational { id: ServiceId, state: ServiceState },
    MaximumTier { id: ServiceId, tier: ServiceTier },
}

/// Why a command was refused; a refused command changes nothing.
#[derive(Clone, Copy, Debug, PartialEq, Eq, Structural)]
pub enum CommandError {
    InsufficientBudget(BudgetError),
    InvalidPlacement(PlacementError),
    InvalidNetwork(NetworkError),
    InvalidUpgrade(UpgradeError),
}


impl UpgradeError {
    /// The error as a sentence.
    pub open spec fn spec_message(self) -> Seq<char> {
        match self {
            UpgradeError::UnknownService(id) => "service "@ + decimal(id.spec_value() as nat)
                + " does not exist"@,
            UpgradeError::NotOperational { id, state } => "service "@ + decimal(
                id.spec_value() as nat,
            ) + " cannot be upgraded while "@ + state.spec_message(),
            UpgradeError::MaximumTier { id, tier } => "service "@ + decimal(id.spec_value() as nat)
                + " is already at the maximum "@ + tier.spec_label() + " tier"@,
        }
    }

    pub fn to_string(&self) -> (text: String)
        ensures
            text@ == self.spec_message(),
    {
        let mut text = String::new();
        match *self {
            UpgradeError::UnknownService(id) => {
                text.append("service ");
                push_decimal(&mut text, id.value() as u128);
                text.append(" does not exist");
            },
            UpgradeError::NotOperational { id, state } => {
                text.append("service ");
                push_decimal(&mut text, id.value() as u128);
                text.append(" cannot be upgraded while ");
                let state_text = state.to_string();
                text.append(state_text.as_str());
            },
            UpgradeError::MaximumTier { id, tier } => {
                text.append("service ");
                push_decimal(&mut text, id.value() as u128);
                text.append(" is already at the maximum ");
                text.append(tier.label());
                text.append(" tier");
            },
        }
        assert(text@ =~= self.spec_message());
        text
    }
}

/// The error that a refused command reports as its cause.
#[derive(Clone, Copy, Debug, PartialEq, Eq, Structural)]
pub enum CommandErrorSource {
    Budget(BudgetError),
    Placement(PlacementError),
    Network(NetworkError),
    Upgrade(UpgradeError),
}

impl CommandError {
    /// The message of the error that caused the refusal.
    pub open spec fn spec_message(self) -> Seq<char> {
        match self {
            CommandError::InsufficientBudget(error) => error.spec_message(),
            CommandError::InvalidPlacement(error) => error.spec_message(),
            CommandError::InvalidNetwork(error) => error.spec_message(),
            CommandError::InvalidUpgrade(error) => error.spec_message(),
        }
    }

    pub fn to_string(&self) -> (text: String)
        ensures
            text@ == self.spec_message(),
    {
        match self {
            CommandError::InsufficientBudget(error) => error.to_string(),
            CommandError::InvalidPlacement(error) => error.to_string(),
            CommandError::InvalidNetwork(error) => error.to_string(),
            CommandError::InvalidUpgrade(error) => error.to_string(),
        }
    }

    /// The underlying error; every refusal has one.
    pub fn source(&self) -> (cause: Option<CommandErrorSource>)
        ensures
            cause == Some(
                match *self {
                    CommandError::InsufficientBudget(error) => CommandErrorSource::Budget(error),
                    CommandError::InvalidPlacement(error) => CommandErrorSource::Placement(error),
                    CommandError::InvalidNetwork(error) => CommandErrorSource::Network(error),
                    CommandError::InvalidUpgrade(error) => CommandErrorSource::Upgrade(error),
                },
            ),
    {
        match *self {
            CommandError::InsufficientBudget(error) => Some(CommandErrorSource::Budget(error)),
            CommandError::InvalidPlacement(error) => Some(CommandErrorSource::Placement(error)),
            CommandError::InvalidNetwork(error) => Some(CommandErrorSource::Network(error)),
            CommandError::InvalidUpgrade(error) => Some(CommandErrorSource::Upgrade(error)),
        }
    }
}

} // verus!
