use servus::{
    BudgetError, CommandError, CommandErrorSource, ContentError, DemoError, DemoErrorSource,
    MapSizeError, NetworkError, ServiceId, ServiceKind, ServiceTier, SolutionError, SolutionId,
    UpgradeError,
};

#[test]
fn large_amounts_are_written_in_full() {
    let error = BudgetError {
        required: u64::MAX,
        available: 0,
    };
    assert_eq!(
        error.to_string(),
        "not enough credits: 18446744073709551615 required, 0 available"
    );
}

#[test]
fn a_missing_link_has_a_readable_message() {
    let error = NetworkError::MissingLink {
        from: ServiceId::new(1),
        to: ServiceId::new(20),
    };
    assert_eq!(error.to_string(), "network link 1 -> 20 does not exist");
}

#[test]
fn an_unknown_upgrade_target_has_a_readable_message() {
    let error = UpgradeError::UnknownService(ServiceId::new(12));
    assert_eq!(error.to_string(), "service 12 does not exist");
    assert_eq!(ServiceTier::Scaled.to_string(), "Scaled");
}

#[test]
fn command_errors_name_their_source() {
    let inner = NetworkError::SelfConnection(ServiceId::new(5));
    let error = CommandError::InvalidNetwork(inner);
    assert_eq!(error.source(), Some(CommandErrorSource::Network(inner)));
    assert_eq!(error.to_string(), "service 5 cannot connect to itself");
}

#[test]
fn solution_errors_have_readable_messages() {
    assert_eq!(
        SolutionError::UnknownSolution(SolutionId::new(3)).to_string(),
        "solution 3 does not exist"
    );
    assert_eq!(
        SolutionError::BuildingFull {
            solution: SolutionId::new(4),
            maximum_floors: 24,
        }
        .to_string(),
        "solution 4 is full at 24 floors"
    );
    assert_eq!(
        SolutionError::ServiceAlreadyInstalled {
            solution: SolutionId::new(4),
            service: ServiceId::new(106),
        }
        .to_string(),
        "service 106 is already installed in solution 4"
    );
}

#[test]
fn empty_names_have_a_readable_message() {
    assert_eq!(
        ContentError::EmptyServiceName(ServiceKind::EventBus).to_string(),
        "service EventBus has an empty name"
    );
}

#[test]
fn demo_errors_name_their_source() {
    let inner = MapSizeError {
        width: 8,
        height: 0,
    };
    let error = DemoError::InvalidMapSize(inner);
    assert_eq!(error.source(), Some(DemoErrorSource::MapSize(inner)));
    assert_eq!(error.to_string(), "map dimensions must be non-zero, got 8x0");
}
