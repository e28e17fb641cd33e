use servus::{BuildingScale, FoundationKind, GridPosition, ServiceId, Solution, SolutionError, SolutionId};

#[test]
fn foundations_trade_land_and_capital_for_height() {
    assert!(FoundationKind::SmallLot.build_cost() < FoundationKind::TowerLot.build_cost());
    assert!(
        FoundationKind::TowerLot.maximum_floors()
            < FoundationKind::MegatowerLot.maximum_floors()
    );
    assert!(
        FoundationKind::SmallLot.footprint().width()
            < FoundationKind::MegatowerLot.footprint().width()
    );
}

#[test]
fn installed_services_grow_the_building_one_floor_at_a_time() {
    let mut solution = Solution::new(
        SolutionId::new(1),
        GridPosition::new(2, 3),
        FoundationKind::TowerLot,
    );
    assert_eq!(solution.scale(), BuildingScale::EmptyLot);
    for id in 1..=8 {
        solution
            .install(ServiceId::new(id))
            .expect("floor available");
    }
    assert_eq!(solution.floor_count(), 8);
    assert_eq!(solution.remaining_floors(), 2);
    assert_eq!(solution.scale(), BuildingScale::HighRise);
}

#[test]
fn a_foundation_cannot_exceed_its_maximum_height() {
    let mut solution = Solution::new(
        SolutionId::new(4),
        GridPosition::new(0, 0),
        FoundationKind::SmallLot,
    );
    for id in 1..=4 {
        solution
            .install(ServiceId::new(id))
            .expect("floor available");
    }
    assert_eq!(
        solution.install(ServiceId::new(5)),
        Err(SolutionError::BuildingFull {
            solution: SolutionId::new(4),
            maximum_floors: 4,
        })
    );
}
