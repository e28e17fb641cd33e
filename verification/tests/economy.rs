use servus::{Budget, BudgetError};

#[test]
fn spending_reduces_the_budget() {
    let mut budget = Budget::new(100);
    assert_eq!(budget.spend(40), Ok(()));
    assert_eq!(budget.credits(), 60);
}

#[test]
fn failed_spending_does_not_change_the_budget() {
    let mut budget = Budget::new(25);
    assert_eq!(
        budget.spend(40),
        Err(BudgetError {
            required: 40,
            available: 25,
        })
    );
    assert_eq!(budget.credits(), 25);
}

#[test]
fn crediting_adds_to_the_budget() {
    let mut budget = Budget::new(25);
    budget.credit(15);
    assert_eq!(budget.credits(), 40);
}

#[test]
fn budget_errors_have_a_readable_message() {
    let error = BudgetError {
        required: 50,
        available: 20,
    };
    assert_eq!(
        error.to_string(),
        "not enough credits: 50 required, 20 available"
    );
}
