//! The decisions of the entry service: who may do what, and what a split or
//! a bulk import amounts to. The calls to the store and to the budget service
//! are made around these functions.
use vstd::prelude::*;

use crate::error::{outcome, Code, ServiceError};
use crate::pb::service::budget::BudgetRole;
use crate::pb::service::entry::{
    BulkImportEntriesResponse, BulkImportRow, BulkImportRowResult, EntryKind, SplitLeg,
};
use crate::text::{opt_view, owned, signed_decimal, i64_text};

verus! {

// ---------------------------------------------------------------------------
// Roles
// ---------------------------------------------------------------------------

/// A role that makes its holder a member of the budget.
pub open spec fn is_member(role: BudgetRole) -> bool {
    role != BudgetRole::Unspecified
}

/// A role that may change the budget's entries.
pub open spec fn is_contributor(role: BudgetRole) -> bool {
    role == BudgetRole::Owner || role == BudgetRole::Manager || role == BudgetRole::Contributor
}

/// Refuses anyone who is not a member of the budget.
pub fn require_member(role: BudgetRole) -> (r: Result<(), ServiceError>)
    ensures
        outcome(r) == (if is_member(role) {
            Ok(())
        } else {
            Err((Code::PermissionDenied, "Not a member of this budget"@))
        }),
{
    match role {
        BudgetRole::Unspecified => Err(
            ServiceError::with_text(Code::PermissionDenied, "Not a member of this budget"),
        ),
        _ => Ok(()),
    }
}

/// Refuses anyone below the contributor role.
pub fn require_contributor(role: BudgetRole) -> (r: Result<(), ServiceError>)
    ensures
        outcome(r) == (if is_contributor(role) {
            Ok(())
        } else {
            Err((Code::PermissionDenied, "Requires Contributor role or higher"@))
        }),
{
    match role {
        BudgetRole::Owner | BudgetRole::Manager | BudgetRole::Contributor => Ok(()),
        _ => Err(
            ServiceError::with_text(Code::PermissionDenied, "Requires Contributor role or higher"),
        ),
    }
}

/// Every role but the unspecified one makes its holder a member; owners,
/// managers and contributors may change entries, viewers may not.
pub proof fn lemma_roles()
    ensures
        !is_member(BudgetRole::Unspecified),
        is_member(BudgetRole::Owner),
        is_member(BudgetRole::Manager),
        is_member(BudgetRole::Contributor),
        is_member(BudgetRole::Viewer),
        !is_contributor(BudgetRole::Unspecified),
        is_contributor(BudgetRole::Owner),
        is_contributor(BudgetRole::Manager),
        is_contributor(BudgetRole::Contributor),
        !is_contributor(BudgetRole::Viewer),
{
}

/// Whoever may change entries may read them.
pub proof fn lemma_contributor_is_member(role: BudgetRole)
    ensures
        is_contributor(role) ==> is_member(role),
{
}

// ---------------------------------------------------------------------------
// Lookups and small checks
// ---------------------------------------------------------------------------

/// The value that a lookup found, or `NotFound` with `missing` as message.
pub fn found_or(value: Option<String>, missing: &str) -> (r: Result<String, ServiceError>)
    ensures
        match r {
            Ok(v) => value == Some(v),
            Err(e) => value is None && e@ == (Code::NotFound, missing@),
        },
{
    match value {
        Some(v) => Ok(v),
        None => Err(ServiceError::with_text(Code::NotFound, missing)),
    }
}

/// A failure of the store, reported as an internal error with its text.
pub fn internal(message: String) -> (r: ServiceError)
    ensures
        r.code == Code::Internal,
        r.message == message,
{
    ServiceError::new(Code::Internal, message)
}

/// A recurring entry needs a rule.
pub fn require_recurrence_rule(rule: &str) -> (r: Result<(), ServiceError>)
    ensures
        outcome(r) == (if rule@.len() == 0 {
            Err((Code::InvalidArgument, "recurrence_rule is required"@))
        } else {
            Ok(())
        }),
{
    if rule.is_empty() {
        return Err(ServiceError::with_text(Code::InvalidArgument, "recurrence_rule is required"));
    }
    Ok(())
}

/// Only the author of a comment may edit (or, with `deleting`, delete) it.
pub fn require_comment_author(author: &str, user_id: &str, deleting: bool) -> (r: Result<
    (),
    ServiceError,
>)
    ensures
        outcome(r) == (if author@ == user_id@ {
            Ok(())
        } else if deleting {
            Err((Code::PermissionDenied, "Can only delete your own comments"@))
        } else {
            Err((Code::PermissionDenied, "Can only edit your own comments"@))
        }),
{
    let a = owned(author);
    let u = owned(user_id);
    if a != u {
        if deleting {
            return Err(ServiceError::with_text(Code::PermissionDenied, "Can only delete your own comments"));
        }
        return Err(ServiceError::with_text(Code::PermissionDenied, "Can only edit your own comments"));
    }
    Ok(())
}

/// The split group of an entry, which must be part of one.
pub fn split_group_of(group: Option<String>) -> (r: Result<String, ServiceError>)
    ensures
        match r {
            Ok(g) => group == Some(g),
            Err(e) => group is None && e@ == (Code::InvalidArgument, "Entry is not part of a split"@),
        },
{
    match group {
        Some(g) => Ok(g),
        None => Err(ServiceError::with_text(Code::InvalidArgument, "Entry is not part of a split")),
    }
}

// ---------------------------------------------------------------------------
// Listing scope
// ---------------------------------------------------------------------------

/// Which entries a listing covers.
#[derive(Debug)]
pub enum ListScope {
    /// One budget, of which the user must be a member.
    Budget(String),
    /// The given budgets, or else the entries the user created.
    Mine { budget_ids: Vec<String>, user_id: String },
}

/// One budget when its id is given, else the listed budgets or the user's
/// own entries.
pub fn listing_scope(user_id: &str, budget_id: Option<&str>, budget_ids: &[String]) -> (r:
    ListScope)
    ensures
        match budget_id {
            Some(b) => r matches ListScope::Budget(x) && x@ == b@,
            None => r matches ListScope::Mine { budget_ids: ids, user_id: u } && crate::text::views(
                ids@,
            ) == crate::text::views(budget_ids@) && u@ == user_id@,
        },
{
    match budget_id {
        Some(b) => ListScope::Budget(owned(b)),
        None => ListScope::Mine {
            budget_ids: crate::text::owned_all(budget_ids),
            user_id: owned(user_id),
        },
    }
}

// ---------------------------------------------------------------------------
// Split entries
// ---------------------------------------------------------------------------

/// The sum of the amounts of the legs.
pub open spec fn legs_sum(legs: Seq<SplitLeg>) -> int
    decreases legs.len(),
{
    if legs.len() == 0 {
        0
    } else {
        legs_sum(legs.drop_last()) + legs.last().amount
    }
}

/// Every running sum of the amounts fits in an `i64` (summing does not
/// overflow).
pub open spec fn sums_fit(legs: Seq<SplitLeg>) -> bool {
    forall|k: int|
        0 <= k <= legs.len() ==> i64::MIN <= #[trigger] legs_sum(legs.take(k)) <= i64::MAX
}

/// `Legs sum ({sum}) must equal total_amount ({total})`
pub open spec fn sum_msg(sum: int, total: int) -> Seq<char> {
    "Legs sum ("@ + signed_decimal(sum) + ") must equal total_amount ("@ + signed_decimal(total)
        + ")"@
}

/// The verdict on the legs of a split: at least two, adding up to the total.
pub open spec fn split_outcome(legs: Seq<SplitLeg>, total: int) -> Result<(), (Code, Seq<char>)> {
    if legs.len() < 2 {
        Err((Code::InvalidArgument, "Split requires at least 2 legs"@))
    } else if legs_sum(legs) != total {
        Err((Code::InvalidArgument, sum_msg(legs_sum(legs), total)))
    } else {
        Ok(())
    }
}

/// Checks the legs of a split: at least two, adding up to the total.
pub fn check_split(legs: &[SplitLeg], total_amount: i64) -> (r: Result<(), ServiceError>)
    requires
        legs@.len() < 2 || sums_fit(legs@),
    ensures
        outcome(r) == split_outcome(legs@, total_amount as int),
        legs@.len() >= 2 ==> (r is Ok <==> legs_sum(legs@) == total_amount),
        legs@.len() < 2 ==> r is Err,
{
    if legs.len() < 2 {
        return Err(ServiceError::with_text(Code::InvalidArgument, "Split requires at least 2 legs"));
    }
    let mut sum: i64 = 0;
    let mut i: usize = 0;
    proof {
        assert(legs@.take(0) =~= Seq::<SplitLeg>::empty());
    }
    while i < legs.len()
        invariant
            i <= legs@.len(),
            sums_fit(legs@),
            sum as int == legs_sum(legs@.take(i as int)),
        decreases legs.len() - i,
    {
        proof {
            assert(legs@.take(i as int + 1).drop_last() =~= legs@.take(i as int));
            assert(legs@.take(i as int + 1).last() == legs@[i as int]);
            assert(i64::MIN <= legs_sum(legs@.take(i as int + 1)) <= i64::MAX);
        }
        sum = sum + legs[i].amount;
        i = i + 1;
    }
    proof {
        assert(legs@.take(legs@.len() as int) =~= legs@);
    }
    if sum != total_amount {
        let mut m = owned("Legs sum (");
        m.append(i64_text(sum).as_str());
        m.append(") must equal total_amount (");
        m.append(i64_text(total_amount).as_str());
        m.append(")");
        return Err(ServiceError::new(Code::InvalidArgument, m));
    }
    Ok(())
}

/// The sum of the legs grows by each leg's amount: adding a leg adds its
/// amount, and no leg is counted twice or left out.
pub proof fn lemma_legs_sum_push(legs: Seq<SplitLeg>, leg: SplitLeg)
    ensures
        legs_sum(legs.push(leg)) == legs_sum(legs) + leg.amount,
        legs_sum(Seq::<SplitLeg>::empty()) == 0,
{
    assert(legs.push(leg).drop_last() =~= legs);
}

/// A split of at least two legs is accepted exactly when the amounts of its
/// legs add up to the total: a sum above the total is refused as well as one
/// below it, with the message naming both; fewer than two legs are refused.
pub proof fn lemma_split_needs_exact_sum(legs: Seq<SplitLeg>, total: int)
    ensures
        legs.len() >= 2 ==> ((split_outcome(legs, total) is Ok) <==> legs_sum(legs) == total),
        legs.len() >= 2 && legs_sum(legs) != total ==> split_outcome(legs, total) == Err::<
            (),
            (Code, Seq<char>),
        >((Code::InvalidArgument, sum_msg(legs_sum(legs), total))),
        legs.len() < 2 ==> split_outcome(legs, total) is Err,
{
}

/// Two legs are accepted exactly when their two amounts add up to the total.
pub proof fn lemma_two_legs_sum(a: SplitLeg, b: SplitLeg, total: int)
    ensures
        (split_outcome(seq![a, b], total) is Ok) <==> a.amount + b.amount == total,
{
    let legs = seq![a, b];
    assert(legs.drop_last() =~= seq![a]);
    assert(seq![a].drop_last() =~= Seq::<SplitLeg>::empty());
    assert(legs_sum(Seq::<SplitLeg>::empty()) == 0);
    assert(legs_sum(seq![a]) == a.amount);
    assert(legs.last() == b);
    assert(legs_sum(legs) == a.amount + b.amount);
}

/// What one leg of a split is stored with.
#[derive(Debug)]
pub struct SplitLegPlan {
    pub budget_id: String,
    pub category_id: Option<String>,
    pub description: String,
}

/// A leg's budget, category and description: the split's budget and
/// description stand in for empty ones; an empty category is none.
pub fn plan_split_leg(leg: &SplitLeg, budget_id: &str, description: &str) -> (r: SplitLegPlan)
    ensures
        r.budget_id@ == (if leg.budget_id@.len() == 0 {
            budget_id@
        } else {
            leg.budget_id@
        }),
        opt_view(r.category_id) == (if leg.category_id@.len() == 0 {
            None
        } else {
            Some(leg.category_id@)
        }),
        r.description@ == (if leg.description@.len() == 0 {
            description@
        } else {
            leg.description@
        }),
{
    let b = if leg.budget_id.as_str().is_empty() {
        owned(budget_id)
    } else {
        leg.budget_id.clone()
    };
    let c = if leg.category_id.as_str().is_empty() {
        None
    } else {
        Some(leg.category_id.clone())
    };
    let d = if leg.description.as_str().is_empty() {
        owned(description)
    } else {
        leg.description.clone()
    };
    SplitLegPlan { budget_id: b, category_id: c, description: d }
}

// ---------------------------------------------------------------------------
// Bulk import
// ---------------------------------------------------------------------------

/// The kind of a wire number, an expense when the number is unknown.
pub open spec fn kind_or_expense(code: i32) -> EntryKind {
    if code == 0 {
        EntryKind::Unspecified
    } else if code == 2 {
        EntryKind::Income
    } else {
        EntryKind::Expense
    }
}

/// The kind of a wire number, an expense when the number is unknown.
pub fn kind_from_code(code: i32) -> (r: EntryKind)
    ensures
        r == kind_or_expense(code),
{
    match EntryKind::try_from_code(code) {
        Some(k) => k,
        None => EntryKind::Expense,
    }
}

/// What an accepted import row is stored with.
#[derive(Debug)]
pub struct ImportRowPlan {
    pub kind: EntryKind,
    pub category_id: Option<String>,
    pub notes: Option<String>,
}

/// A row is imported only with a positive amount and an entry date.
pub open spec fn row_acceptable(row: BulkImportRow) -> bool {
    row.amount > 0 && row.entry_date@.len() > 0
}

/// The stored fields of an import row, or `None` when it is refused.
pub fn plan_import_row(row: &BulkImportRow) -> (r: Option<ImportRowPlan>)
    ensures
        r is Some == row_acceptable(*row),
        r is Some ==> row.amount > 0 && row.entry_date@.len() > 0,
        row.amount > 0 && row.entry_date@.len() > 0 ==> r is Some,
        r matches Some(p) ==> {
            &&& p.kind == kind_or_expense(row.kind)
            &&& opt_view(p.category_id) == (if row.category_id@.len() == 0 {
                None
            } else {
                Some(row.category_id@)
            })
            &&& opt_view(p.notes) == (if row.notes@.len() == 0 {
                None
            } else {
                Some(row.notes@)
            })
        },
{
    let kind = kind_from_code(row.kind);
    if row.amount <= 0 || row.entry_date.as_str().is_empty() {
        return None;
    }
    let category_id = if row.category_id.as_str().is_empty() {
        None
    } else {
        Some(row.category_id.clone())
    };
    let notes = if row.notes.as_str().is_empty() {
        None
    } else {
        Some(row.notes.clone())
    };
    Some(ImportRowPlan { kind, category_id, notes })
}

/// An import row is accepted exactly when its amount is positive and its
/// entry date is given: a zero or negative amount is always refused.
pub proof fn lemma_import_needs_positive_amount(row: BulkImportRow)
    ensures
        row_acceptable(row) <==> (row.amount > 0 && row.entry_date@.len() > 0),
        row.amount <= 0 ==> !row_acceptable(row),
        row.entry_date@.len() == 0 ==> !row_acceptable(row),
{
}

/// The error text of a refused import row.
pub open spec fn rejected_row_msg() -> Seq<char> {
    "amount must be positive and entry_date required"@
}

/// The number of successful results.
pub open spec fn successes(results: Seq<BulkImportRowResult>) -> int
    decreases results.len(),
{
    if results.len() == 0 {
        0
    } else {
        successes(results.drop_last()) + if results.last().success {
            1int
        } else {
            0int
        }
    }
}

/// The results of a bulk import, row by row, with their counts.
pub struct ImportTally {
    imported: i32,
    errors: i32,
    results: Vec<BulkImportRowResult>,
}

impl ImportTally {
    /// The results so far.
    pub closed spec fn results(&self) -> Seq<BulkImportRowResult> {
        self.results@
    }

    pub closed spec fn imported(&self) -> int {
        self.imported as int
    }

    pub closed spec fn errors(&self) -> int {
        self.errors as int
    }

    /// Every row has one result, at its index; the counts count the
    /// successes and the failures.
    pub open spec fn wf(&self) -> bool {
        &&& self.imported() + self.errors() == self.results().len()
        &&& self.imported() == successes(self.results())
        &&& forall|k: int|
            0 <= k < self.results().len() ==> (#[trigger] self.results()[k]).row_index == (
            k as i32)
    }

    pub fn new() -> (r: ImportTally)
        ensures
            r.wf(),
            r.results().len() == 0,
            r.imported() == 0,
            r.errors() == 0,
    {
        ImportTally { imported: 0, errors: 0, results: Vec::new() }
    }

    /// The number of rows recorded so far.
    pub fn rows(&self) -> (r: usize)
        ensures
            r == self.results().len(),
    {
        self.results.len()
    }

    fn record(&mut self, success: bool, error: String, entry_id: String)
        requires
            old(self).wf(),
            success ==> old(self).imported() < i32::MAX,
            !success ==> old(self).errors() < i32::MAX,
            old(self).results().len() < usize::MAX,
        ensures
            final(self).wf(),
            final(self).results() == old(self).results().push(
                BulkImportRowResult {
                    row_index: old(self).results().len() as i32,
                    success,
                    error,
                    entry_id,
                },
            ),
            final(self).imported() == old(self).imported() + if success {
                1int
            } else {
                0int
            },
            final(self).errors() == old(self).errors() + if success {
                0int
            } else {
                1int
            },
    {
        let index = self.results.len() as i32;
        let ghost before = self.results@;
        self.results.push(BulkImportRowResult { row_index: index, success, error, entry_id });
        if success {
            self.imported = self.imported + 1;
        } else {
            self.errors = self.errors + 1;
        }
        proof {
            assert(self.results@.drop_last() =~= before);
            assert forall|k: int| 0 <= k < self.results@.len() implies (
            #[trigger] self.results@[k]).row_index == (k as i32) by {
                if k < before.len() {
                    assert(self.results@[k] == before[k]);
                }
            }
        }
    }

    /// Records a row refused before it reached the store.
    pub fn record_rejected(&mut self)
        requires
            old(self).wf(),
            old(self).errors() < i32::MAX,
            old(self).results().len() < usize::MAX,
        ensures
            final(self).wf(),
            final(self).imported() == old(self).imported(),
            final(self).errors() == old(self).errors() + 1,
            final(self).results().len() == old(self).results().len() + 1,
            final(self).results().drop_last() == old(self).results(),
            ({
                let x = final(self).results().last();
                &&& !x.success
                &&& x.error@ == rejected_row_msg()
                &&& x.entry_id@.len() == 0
            }),
    {
        let ghost before = self.results();
        self.record(false, owned("amount must be positive and entry_date required"), String::new());
        proof {
            assert(self.results().drop_last() =~= before);
        }
    }

    /// Records a row the store created as entry `entry_id`.
    pub fn record_created(&mut self, entry_id: String)
        requires
            old(self).wf(),
            old(self).imported() < i32::MAX,
            old(self).results().len() < usize::MAX,
        ensures
            final(self).wf(),
            final(self).imported() == old(self).imported() + 1,
            final(self).errors() == old(self).errors(),
            final(self).results().len() == old(self).results().len() + 1,
            final(self).results().drop_last() == old(self).results(),
            ({
                let x = final(self).results().last();
                &&& x.success
                &&& x.error@.len() == 0
                &&& x.entry_id == entry_id
            }),
    {
        let ghost before = self.results();
        self.record(true, String::new(), entry_id);
        proof {
            assert(self.results().drop_last() =~= before);
        }
    }

    /// Records a row the store failed to create, with the store's error text.
    pub fn record_failed(&mut self, error: String)
        requires
            old(self).wf(),
            old(self).errors() < i32::MAX,
            old(self).results().len() < usize::MAX,
        ensures
            final(self).wf(),
            final(self).imported() == old(self).imported(),
            final(self).errors() == old(self).errors() + 1,
            final(self).results().len() == old(self).results().len() + 1,
            final(self).results().drop_last() == old(self).results(),
            ({
                let x = final(self).results().last();
                &&& !x.success
                &&& x.error == error
                &&& x.entry_id@.len() == 0
            }),
    {
        let ghost before = self.results();
        self.record(false, error, String::new());
        proof {
            assert(self.results().drop_last() =~= before);
        }
    }

    /// The answer to the import.
    pub fn finish(self) -> (r: BulkImportEntriesResponse)
        requires
            self.wf(),
        ensures
            r.results@ == self.results(),
            r.imported_count == self.imported(),
            r.error_count == self.errors(),
            r.imported_count + r.error_count == r.results@.len(),
            r.imported_count == successes(r.results@),
    {
        BulkImportEntriesResponse {
            imported_count: self.imported,
            error_count: self.errors,
            results: self.results,
        }
    }
}

} // verus!
