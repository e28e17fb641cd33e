use servus::{BudgetError, CommandError, DemoError, MapSizeError, run_demo};

#[test]
fn demo_shows_a_load_balancer_bottleneck() {
    let result = run_demo().expect("the demo starts with enough construction credits");
    assert_eq!(result.placements.len(), 4);
    assert_eq!(result.placements[0].name, "Internet Gateway");
    assert_eq!(result.placements[1].name, "Load Balancer");
    assert_eq!(result.placements[2].name, "Application Server");
    assert_eq!(result.frames.len(), 3);
    assert_eq!(result.frames[0].report.tick.number(), 1);
    assert_eq!(result.frames[0].report.served, 0);
    assert!(result.frames[0].view.contains("3 |.....a..|"));
    assert!(result.frames[0].view.contains("4 |.G.l....|"));
    assert!(
        result.frames[0]
            .view
            .contains("Links: 1 -> 2, 2 -> 3, 2 -> 4")
    );
    assert_eq!(result.frames[1].report.served, 0);
    assert!(result.frames[1].view.contains("4 |.G.L....|"));
    assert_eq!(result.frames[2].report.served, 150);
    assert_eq!(result.frames[2].report.dropped, 50);
    assert_eq!(result.frames[2].report.completed_services.len(), 2);
    assert!(result.frames[2].view.contains("3 |.....A..|"));
    assert!(result.frames[2].view.contains("5 |.....A..|"));
    assert_eq!(result.remaining_credits, 195);
}

#[test]
fn demo_errors_expose_their_message_and_source() {
    let error = DemoError::InvalidMapSize(MapSizeError {
        width: 0,
        height: 8,
    });
    assert_eq!(
        error.to_string(),
        "map dimensions must be non-zero, got 0x8"
    );
    assert!(error.source().is_some());

    let error = DemoError::Command(CommandError::InsufficientBudget(BudgetError {
        required: 100,
        available: 20,
    }));
    assert_eq!(
        error.to_string(),
        "not enough credits: 100 required, 20 available"
    );
    assert!(error.source().is_some());
}
