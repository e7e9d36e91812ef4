//! The messages of the budget service that the entry service reads.
use vstd::prelude::*;

verus! {

/// A member's role in a budget.
#[derive(Clone, Copy, Debug, PartialEq, Eq, Structural)]
pub enum BudgetRole {
    Unspecified,
    Owner,
    Manager,
    Contributor,
    Viewer,
}

impl BudgetRole {
    pub open spec fn code_of(self) -> i32 {
        match self {
            BudgetRole::Unspecified => 0,
            BudgetRole::Owner => 1,
            BudgetRole::Manager => 2,
            BudgetRole::Contributor => 3,
            BudgetRole::Viewer => 4,
        }
    }

    /// The role with wire number `v`; `Unspecified` for an unknown number.
    pub fn from_code_or_unspecified(v: i32) -> (r: BudgetRole)
        ensures
            (0 <= v <= 4) ==> r.code_of() == v,
            !(0 <= v <= 4) ==> r == BudgetRole::Unspecified,
    {
        if v == 1 {
            BudgetRole::Owner
        } else if v == 2 {
            BudgetRole::Manager
        } else if v == 3 {
            BudgetRole::Contributor
        } else if v == 4 {
            BudgetRole::Viewer
        } else {
            BudgetRole::Unspecified
        }
    }
}

} // verus!
