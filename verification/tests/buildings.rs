use servus::{BuildingScale, FoundationKind, GridPosition, ServiceId, Solution, SolutionError, SolutionId};

#[test]
fn a_service_cannot_be_installed_twice() {
    let mut solution = Solution::new(
        SolutionId::new(2),
        GridPosition::new(0, 0),
        FoundationKind::MegatowerLot,
    );
    solution.install(ServiceId::new(5)).expect("floor available");
    assert_eq!(
        solution.install(ServiceId::new(5)),
        Err(SolutionError::ServiceAlreadyInstalled {
            solution: SolutionId::new(2),
            service: ServiceId::new(5),
        })
    );
    assert_eq!(solution.floor_count(), 1);
    assert_eq!(solution.services(), &[ServiceId::new(5)]);
}

#[test]
fn a_full_megatower_is_a_skyscraper() {
    let mut solution = Solution::new(
        SolutionId::new(9),
        GridPosition::new(4, 1),
        FoundationKind::MegatowerLot,
    );
    for id in 1..=24 {
        solution.install(ServiceId::new(id)).expect("floor available");
    }
    assert_eq!(solution.scale(), BuildingScale::Skyscraper);
    assert_eq!(solution.remaining_floors(), 0);
    assert_eq!(FoundationKind::MegatowerLot.footprint().width(), 4);
    assert_eq!(FoundationKind::TowerLot.build_cost(), 350);
}
