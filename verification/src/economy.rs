use vstd::prelude::*;

use crate::text::{decimal, push_decimal};

verus! {

/// Credits forfeited per request dropped while a service is disrupted.
pub const OUTAGE_PENALTY_PER_DROPPED_REQUEST: u64 = 1;

/// The sum of two balances, saturating at the largest representable balance.
pub open spec fn saturating_sum(a: u64, b: u64) -> u64 {
    if a + b > u64::MAX {
        u64::MAX
    } else {
        (a + b) as u64
    }
}

/// The product of two amounts, saturating at the largest representable amount.
pub open spec fn saturating_product_of(a: u64, b: u64) -> u64 {
    if a * b > u64::MAX {
        u64::MAX
    } else {
        (a * b) as u64
    }
}

/// Multiplies two amounts, saturating at the largest representable amount.
pub fn saturating_product(a: u64, b: u64) -> (product: u64)
    ensures
        product == saturating_product_of(a, b),
{
    if b != 0 && a > u64::MAX / b {
        proof {
            assert(a * b > u64::MAX) by (nonlinear_arith)
                requires
                    b != 0,
                    a > u64::MAX / b,
            ;
        }
        u64::MAX
    } else {
        proof {
            assert(a * b <= u64::MAX) by (nonlinear_arith)
                requires
                    b == 0 || a <= u64::MAX / b,
            ;
        }
        a * b
    }
}

/// The smaller of two amounts.
pub open spec fn smaller(a: u64, b: u64) -> u64 {
    if a <= b {
        a
    } else {
        b
    }
}

/// The spendable credits owned by a company.
#[derive(Clone, Copy, Debug, Default, PartialEq, Eq, Structural)]
pub struct Budget(u64);

/// A purchase that costs more than the budget holds.
#[derive(Clone, Copy, Debug, PartialEq, Eq, Structural)]
pub struct BudgetError {
    pub required: u64,
    pub available: u64,
}

impl Budget {
    pub closed spec fn spec_credits(self) -> u64 {
        self.0
    }

    pub fn new(credits: u64) -> (budget: Self)
        ensures
            budget.spec_credits() == credits,
    {
        Self(credits)
    }

    pub fn credits(self) -> (credits: u64)
        ensures
            credits == self.spec_credits(),
    {
        self.0
    }

    /// Pays `amount` when the budget covers it; otherwise changes nothing and reports the
    /// shortfall.
    pub fn spend(&mut self, amount: u64) -> (res: Result<(), BudgetError>)
        ensures
            match res {
                Ok(()) => amount <= old(self).spec_credits() && final(self).spec_credits()
                    == old(self).spec_credits() - amount,
                Err(error) => amount > old(self).spec_credits() && error == (BudgetError {
                    required: amount,
                    available: old(self).spec_credits(),
                }) && *final(self) == *old(self),
            },
    {
        if amount > self.0 {
            return Err(BudgetError { required: amount, available: self.0 });
        }
        self.0 = self.0 - amount;
        Ok(())
    }

    /// Adds income, saturating at the largest representable balance.
    pub fn credit(&mut self, amount: u64)
        ensures
            final(self).spec_credits() == saturating_sum(old(self).spec_credits(), amount),
    {
        self.0 = self.0.saturating_add(amount);
    }

    /// Takes as much of `amount` as the budget holds; returns what was taken.
    pub fn forfeit_up_to(&mut self, amount: u64) -> (paid: u64)
        ensures
            paid == smaller(amount, old(self).spec_credits()),
            final(self).spec_credits() == old(self).spec_credits() - paid,
    {
        let paid = if amount <= self.0 {
            amount
        } else {
            self.0
        };
        self.0 = self.0 - paid;
        paid
    }
}


impl BudgetError {
    /// The error as a sentence.
    pub open spec fn spec_message(self) -> Seq<char> {
        "not enough credits: "@ + decimal(self.required as nat) + " required, "@ + decimal(
            self.available as nat,
        ) + " available"@
    }

    pub fn to_string(&self) -> (text: String)
        ensures
            text@ == self.spec_message(),
    {
        let mut text = String::new();
        text.append("not enough credits: ");
        push_decimal(&mut text, self.required as u128);
        text.append(" required, ");
        push_decimal(&mut text, self.available as u128);
        text.append(" available");
        assert(text@ =~= self.spec_message());
        text
    }
}

} // verus!
