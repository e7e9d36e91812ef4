//! The messages of the entry service.
use vstd::prelude::*;

verus! {

/// Whether an entry adds to or takes from a budget.
#[derive(Clone, Copy, Debug, PartialEq, Eq, Structural)]
pub enum EntryKind {
    Unspecified,
    Expense,
    Income,
}

impl EntryKind {
    /// The wire number of a kind.
    pub open spec fn code_of(self) -> i32 {
        match self {
            EntryKind::Unspecified => 0,
            EntryKind::Expense => 1,
            EntryKind::Income => 2,
        }
    }

    /// The kind with wire number `v`, if there is one.
    pub fn try_from_code(v: i32) -> (r: Option<EntryKind>)
        ensures
            match r {
                Some(k) => k.code_of() == v,
                None => !(0 <= v <= 2),
            },
    {
        if v == 0 {
            Some(EntryKind::Unspecified)
        } else if v == 1 {
            Some(EntryKind::Expense)
        } else if v == 2 {
            Some(EntryKind::Income)
        } else {
            None
        }
    }

    /// The wire number of the kind.
    pub fn code(self) -> (r: i32)
        ensures
            r == self.code_of(),
    {
        match self {
            EntryKind::Unspecified => 0,
            EntryKind::Expense => 1,
            EntryKind::Income => 2,
        }
    }
}

/// Fields common to every stored record.
#[derive(Clone, Debug, PartialEq)]
pub struct Base {
    pub id: String,
    pub created_at: i64,
    pub updated_at: i64,
    pub deleted_at: i64,
    pub created_by: String,
    pub updated_by: String,
    pub owner_id: String,
    pub status: i32,
}

/// A budget entry as the service returns it.
#[derive(Clone, Debug, PartialEq)]
pub struct Entry {
    pub base: Option<Base>,
    pub budget_id: String,
    pub category_id: String,
    pub kind: i32,
    pub amount: i64,
    pub description: String,
    pub entry_date: String,
    pub tags: Vec<String>,
    pub notes: String,
    pub is_recurring: bool,
    pub has_attachment: bool,
    pub recurrence_rule: Option<String>,
    pub next_occurrence: Option<String>,
    pub split_group_id: Option<String>,
    pub split_total: Option<i64>,
}

/// A comment on an entry.
#[derive(Clone, Debug, PartialEq)]
pub struct Comment {
    pub base: Option<Base>,
    pub entry_id: String,
    pub body: String,
}

/// A file attached to an entry.
#[derive(Clone, Debug, PartialEq)]
pub struct Attachment {
    pub base: Option<Base>,
    pub entry_id: String,
    pub file_id: String,
    pub file_name: String,
}

/// Filters, sorting and paging of an entry listing.
#[derive(Clone, Debug, PartialEq)]
pub struct ListParams {
    pub page: Option<i32>,
    pub page_size: Option<i32>,
    pub sort_by: Option<String>,
    pub sort_dir: Option<String>,
    pub q: Option<String>,
    pub kind: Option<String>,
    pub category_id: Option<String>,
    pub category_ids: Vec<String>,
    pub date_from: Option<String>,
    pub date_to: Option<String>,
    pub amount_min: Option<i64>,
    pub amount_max: Option<i64>,
    pub tags: Option<String>,
    pub member_ids: Vec<String>,
}

impl Default for ListParams {
    fn default() -> (r: ListParams)
        ensures
            r.page is None,
            r.page_size is None,
            r.sort_by is None,
            r.sort_dir is None,
            r.q is None,
            r.kind is None,
            r.category_id is None,
            r.category_ids@.len() == 0,
            r.date_from is None,
            r.date_to is None,
            r.amount_min is None,
            r.amount_max is None,
            r.tags is None,
            r.member_ids@.len() == 0,
    {
        ListParams {
            page: None,
            page_size: None,
            sort_by: None,
            sort_dir: None,
            q: None,
            kind: None,
            category_id: None,
            category_ids: Vec::new(),
            date_from: None,
            date_to: None,
            amount_min: None,
            amount_max: None,
            tags: None,
            member_ids: Vec::new(),
        }
    }
}

/// Paging facts of a listing.
#[derive(Clone, Copy, Debug, PartialEq, Eq)]
pub struct PageMeta {
    pub page: i32,
    pub page_size: i32,
    pub total_pages: i32,
    pub total_rows: i64,
}

/// One leg of a split entry.
#[derive(Clone, Debug, PartialEq)]
pub struct SplitLeg {
    pub budget_id: String,
    pub category_id: String,
    pub amount: i64,
    pub description: String,
}

/// One row of a bulk import.
#[derive(Clone, Debug, PartialEq)]
pub struct BulkImportRow {
    pub kind: i32,
    pub amount: i64,
    pub description: String,
    pub entry_date: String,
    pub category_id: String,
    pub tags: Vec<String>,
    pub notes: String,
}

/// What became of one row of a bulk import.
#[derive(Clone, Debug, PartialEq)]
pub struct BulkImportRowResult {
    pub row_index: i32,
    pub success: bool,
    pub error: String,
    pub entry_id: String,
}

/// What became of a bulk import.
#[derive(Clone, Debug, PartialEq)]
pub struct BulkImportEntriesResponse {
    pub imported_count: i32,
    pub error_count: i32,
    pub results: Vec<BulkImportRowResult>,
}

/// The legs created for a split entry.
#[derive(Clone, Debug, PartialEq)]
pub struct CreateSplitEntryResponse {
    pub split_group_id: String,
    pub legs: Vec<Entry>,
}

/// Income and expense totals of a budget.
#[derive(Clone, Debug, PartialEq)]
pub struct EntrySummary {
    pub budget_id: String,
    pub total_income: i64,
    pub total_expense: i64,
    pub current_balance: i64,
}

} // verus!
