//! What the service checks and derives from a request before it acts on it.
use vstd::prelude::*;

use crate::manager::biz::{kind_from_code, kind_or_expense};
use crate::error::{outcome, Code, ServiceError};
use crate::pb::service::entry::EntryKind;
use crate::text::{opt_view, owned, trim};
use crate::manager::validate::{empty_field_msg, non_empty, positive_amount};

verus! {

/// The user of a request, from its `x-user-id` header; refused when the
/// header is missing (or unreadable) or empty.
pub fn user_id_from_metadata(x_user_id: Option<&str>) -> (r: Result<String, ServiceError>)
    ensures
        match r {
            Ok(u) => x_user_id is Some && u@ == x_user_id->0@ && u@.len() > 0,
            Err(e) => (x_user_id is None || x_user_id->0@.len() == 0) && e@ == (
                Code::Unauthenticated,
                "missing x-user-id metadata"@,
            ),
        },
{
    match x_user_id {
        Some(v) => if v.is_empty() {
            Err(ServiceError::with_text(Code::Unauthenticated, "missing x-user-id metadata"))
        } else {
            Ok(owned(v))
        },
        None => Err(ServiceError::with_text(Code::Unauthenticated, "missing x-user-id metadata")),
    }
}

/// An empty text as absent.
pub open spec fn nonempty_view(s: Seq<char>) -> Option<Seq<char>> {
    if s.len() == 0 {
        None
    } else {
        Some(s)
    }
}

/// `None` for an empty text, the text otherwise.
pub fn empty_as_none(s: &str) -> (r: Option<String>)
    ensures
        opt_view(r) == nonempty_view(s@),
{
    if s.is_empty() {
        None
    } else {
        Some(owned(s))
    }
}

/// An optional text, with an empty one taken as absent.
pub fn given_text(o: Option<&str>) -> (r: Option<String>)
    ensures
        opt_view(r) == (match o {
            Some(s) => nonempty_view(s@),
            None => None,
        }),
{
    match o {
        Some(s) => empty_as_none(s),
        None => None,
    }
}

/// What an entry is created with, beyond the request's own fields.
#[derive(Debug)]
pub struct EntryInput {
    pub kind: EntryKind,
    pub category_id: Option<String>,
    pub notes: Option<String>,
}

/// The checks of a request that creates an entry: a positive amount, then
/// an entry date.
pub open spec fn create_checks(amount: i64, entry_date: Seq<char>) -> Result<(), (Code, Seq<char>)> {
    if amount <= 0 {
        Err((Code::InvalidArgument, "amount must be positive"@))
    } else if trim(entry_date).len() == 0 {
        Err((Code::InvalidArgument, empty_field_msg("entry_date"@)))
    } else {
        Ok(())
    }
}

pub open spec fn entry_input_of(x: EntryInput, kind: i32, category_id: Seq<char>, notes: Seq<char>) -> bool {
    &&& x.kind == kind_or_expense(kind)
    &&& opt_view(x.category_id) == nonempty_view(category_id)
    &&& opt_view(x.notes) == nonempty_view(notes)
}

/// A request that creates an entry passes exactly when its amount is
/// positive and its entry date holds more than whitespace; the amount is
/// checked first. A recurring entry needs a rule with more than whitespace
/// on top of that.
pub proof fn lemma_create_checks(amount: i64, entry_date: Seq<char>, rule: Seq<char>)
    ensures
        (create_checks(amount, entry_date) is Ok) <==> (amount > 0 && trim(entry_date).len() > 0),
        amount <= 0 ==> create_checks(amount, entry_date) == Err::<(), (Code, Seq<char>)>(
            (Code::InvalidArgument, "amount must be positive"@),
        ),
        amount > 0 && trim(entry_date).len() == 0 ==> create_checks(amount, entry_date) == Err::<
            (),
            (Code, Seq<char>),
        >((Code::InvalidArgument, "entry_date"@ + " must not be empty"@)),
        (recurring_checks(amount, entry_date, rule) is Ok) <==> (amount > 0 && trim(
            entry_date,
        ).len() > 0 && trim(rule).len() > 0),
        recurring_checks(amount, entry_date, rule) is Err && create_checks(amount, entry_date) is Ok
            ==> recurring_checks(amount, entry_date, rule) == Err::<(), (Code, Seq<char>)>(
            (Code::InvalidArgument, "recurrence_rule"@ + " must not be empty"@),
        ),
{
}

/// Checks a request that creates an entry; its kind defaults to an expense,
/// and an empty category or note is none.
pub fn prepare_create_entry(
    amount: i64,
    entry_date: &str,
    kind: i32,
    category_id: &str,
    notes: &str,
) -> (r: Result<EntryInput, ServiceError>)
    ensures
        outcome(r) == create_checks(amount, entry_date@),
        r matches Ok(x) ==> entry_input_of(x, kind, category_id@, notes@),
{
    positive_amount(amount)?;
    non_empty("entry_date", entry_date)?;
    Ok(
        EntryInput {
            kind: kind_from_code(kind),
            category_id: empty_as_none(category_id),
            notes: empty_as_none(notes),
        },
    )
}

/// The checks of a request that creates a recurring entry: those of any
/// entry, then a rule.
pub open spec fn recurring_checks(amount: i64, entry_date: Seq<char>, rule: Seq<char>) -> Result<
    (),
    (Code, Seq<char>),
> {
    match create_checks(amount, entry_date) {
        Err(e) => Err(e),
        Ok(()) => if trim(rule).len() == 0 {
            Err((Code::InvalidArgument, empty_field_msg("recurrence_rule"@)))
        } else {
            Ok(())
        },
    }
}

/// Checks a request that creates a recurring entry.
pub fn prepare_recurring_entry(
    amount: i64,
    entry_date: &str,
    recurrence_rule: &str,
    kind: i32,
    category_id: &str,
    notes: &str,
) -> (r: Result<EntryInput, ServiceError>)
    ensures
        outcome(r) == recurring_checks(amount, entry_date@, recurrence_rule@),
        r matches Ok(x) ==> entry_input_of(x, kind, category_id@, notes@),
{
    positive_amount(amount)?;
    non_empty("entry_date", entry_date)?;
    non_empty("recurrence_rule", recurrence_rule)?;
    Ok(
        EntryInput {
            kind: kind_from_code(kind),
            category_id: empty_as_none(category_id),
            notes: empty_as_none(notes),
        },
    )
}

/// Checks a request that splits an entry: a positive total and an entry
/// date; its kind defaults to an expense, and an empty note is none.
pub fn prepare_split_entry(total_amount: i64, entry_date: &str, kind: i32, notes: &str) -> (r:
    Result<(EntryKind, Option<String>), ServiceError>)
    ensures
        outcome(r) == create_checks(total_amount, entry_date@),
        r matches Ok(x) ==> x.0 == kind_or_expense(kind) && opt_view(x.1) == nonempty_view(notes@),
{
    positive_amount(total_amount)?;
    non_empty("entry_date", entry_date)?;
    Ok((kind_from_code(kind), empty_as_none(notes)))
}

/// What an update request changes.
#[derive(Debug)]
pub struct UpdateInput {
    pub kind: Option<EntryKind>,
    pub category_id: Option<String>,
    pub description: Option<String>,
    pub entry_date: Option<String>,
    /// Whether the tags are replaced (they are when any are given).
    pub replace_tags: bool,
}

/// Checks an update request: a given amount must be positive. A given kind
/// defaults to an expense; empty category, description and date are not
/// changed; the tags are replaced only when some are given.
pub fn prepare_update_entry(
    amount: Option<i64>,
    kind: Option<i32>,
    category_id: Option<&str>,
    description: Option<&str>,
    entry_date: Option<&str>,
    tags: &[String],
) -> (r: Result<UpdateInput, ServiceError>)
    ensures
        outcome(r) == (match amount {
            Some(a) => if a <= 0 {
                Err((Code::InvalidArgument, "amount must be positive"@))
            } else {
                Ok(())
            },
            None => Ok(()),
        }),
        r matches Ok(x) ==> {
            &&& x.kind == (match kind {
                Some(k) => Some(kind_or_expense(k)),
                None => None,
            })
            &&& opt_view(x.category_id) == (match category_id {
                Some(s) => nonempty_view(s@),
                None => None,
            })
            &&& opt_view(x.description) == (match description {
                Some(s) => nonempty_view(s@),
                None => None,
            })
            &&& opt_view(x.entry_date) == (match entry_date {
                Some(s) => nonempty_view(s@),
                None => None,
            })
            &&& x.replace_tags == (tags@.len() > 0)
        },
{
    if let Some(a) = amount {
        positive_amount(a)?;
    }
    let k = match kind {
        Some(c) => Some(kind_from_code(c)),
        None => None,
    };
    Ok(
        UpdateInput {
            kind: k,
            category_id: given_text(category_id),
            description: given_text(description),
            entry_date: given_text(entry_date),
            replace_tags: tags.len() > 0,
        },
    )
}

} // verus!
