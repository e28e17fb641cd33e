use servus::{
    BudgetError, CommandError, GridPosition, NetworkError, PlacementError, ServiceId,
    ServiceState, ServiceTier, UpgradeError,
};

#[test]
fn command_error_delegates_its_message_and_source() {
    let error = CommandError::InsufficientBudget(BudgetError {
        required: 100,
        available: 50,
    });
    assert_eq!(
        error.to_string(),
        "not enough credits: 100 required, 50 available"
    );
    assert!(error.source().is_some());
}

#[test]
fn placement_command_error_delegates_its_message_and_source() {
    let error = CommandError::InvalidPlacement(PlacementError::Occupied {
        position: GridPosition::new(1, 2),
        service_id: ServiceId::new(3),
    });
    assert_eq!(error.to_string(), "tile (1, 2) is occupied by service 3");
    assert!(error.source().is_some());
}

#[test]
fn network_command_error_delegates_its_message_and_source() {
    let error = CommandError::InvalidNetwork(NetworkError::UnknownService(ServiceId::new(9)));
    assert_eq!(error.to_string(), "service 9 does not exist");
    assert!(error.source().is_some());
}

#[test]
fn upgrade_errors_have_readable_messages_and_sources() {
    let id = ServiceId::new(9);
    let error = CommandError::InvalidUpgrade(UpgradeError::NotOperational {
        id,
        state: ServiceState::UnderConstruction { ticks_remaining: 2 },
    });
    assert_eq!(
        error.to_string(),
        "service 9 cannot be upgraded while under construction (2 ticks remaining)"
    );
    assert!(error.source().is_some());
    assert_eq!(
        UpgradeError::MaximumTier {
            id,
            tier: ServiceTier::Enterprise,
        }
        .to_string(),
        "service 9 is already at the maximum Enterprise tier"
    );
}
