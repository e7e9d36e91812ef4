//! Who may do what, splits, bulk imports, request checks and row mapping.

use entry::converters::{map_attachment, map_comment, map_entry, DbAttachment, DbComment, DbEntry};
use entry::error::Code;
use entry::handler::{
    prepare_create_entry, prepare_recurring_entry, prepare_split_entry, prepare_update_entry,
    user_id_from_metadata,
};
use entry::manager::biz::{
    check_split, found_or, kind_from_code, plan_import_row, plan_split_leg, require_comment_author,
    require_contributor, require_member, require_recurrence_rule, split_group_of, ImportTally,
};
use entry::manager::validate::{date_range, non_empty, positive_amount, range_max_days};
use entry::pb::service::budget::BudgetRole;
use entry::pb::service::entry::{BulkImportRow, EntryKind, SplitLeg};

fn leg(budget: &str, amount: i64) -> SplitLeg {
    SplitLeg {
        budget_id: budget.to_string(),
        category_id: String::new(),
        amount,
        description: String::new(),
    }
}

#[test]
fn roles() {
    assert!(require_member(BudgetRole::Viewer).is_ok());
    let e = require_member(BudgetRole::Unspecified).unwrap_err();
    assert_eq!((e.code(), e.message()), (Code::PermissionDenied, "Not a member of this budget"));
    for r in [BudgetRole::Owner, BudgetRole::Manager, BudgetRole::Contributor] {
        assert!(require_contributor(r).is_ok());
        assert!(require_member(r).is_ok());
    }
    let e = require_contributor(BudgetRole::Viewer).unwrap_err();
    assert_eq!(e.message(), "Requires Contributor role or higher");
    assert_eq!(BudgetRole::from_code_or_unspecified(3), BudgetRole::Contributor);
    assert_eq!(BudgetRole::from_code_or_unspecified(77), BudgetRole::Unspecified);
}

#[test]
fn lookups_and_small_checks() {
    assert_eq!(found_or(Some("b".to_string()), "Entry not found").unwrap(), "b");
    let e = found_or(None, "Entry not found").unwrap_err();
    assert_eq!((e.code(), e.message()), (Code::NotFound, "Entry not found"));
    assert_eq!(require_recurrence_rule("").unwrap_err().message(), "recurrence_rule is required");
    assert!(require_recurrence_rule("FREQ=DAILY").is_ok());
    assert!(require_comment_author("u", "u", false).is_ok());
    assert_eq!(require_comment_author("u", "v", false).unwrap_err().message(), "Can only edit your own comments");
    assert_eq!(require_comment_author("u", "v", true).unwrap_err().message(), "Can only delete your own comments");
    assert_eq!(split_group_of(None).unwrap_err().message(), "Entry is not part of a split");
    assert_eq!(split_group_of(Some("g".to_string())).unwrap(), "g");
}

#[test]
fn splits() {
    let e = check_split(&[leg("", 10)], 10).unwrap_err();
    assert_eq!(e.message(), "Split requires at least 2 legs");
    let e = check_split(&[leg("", 10), leg("", -3)], 10).unwrap_err();
    assert_eq!(e.message(), "Legs sum (7) must equal total_amount (10)");
    assert!(check_split(&[leg("", 4), leg("", 6)], 10).is_ok());
    let p = plan_split_leg(&leg("", 5), "main", "dinner");
    assert_eq!((p.budget_id.as_str(), p.category_id, p.description.as_str()), ("main", None, "dinner"));
    let l = SplitLeg {
        budget_id: "other".to_string(),
        category_id: "c".to_string(),
        amount: 5,
        description: "mine".to_string(),
    };
    let p = plan_split_leg(&l, "main", "dinner");
    assert_eq!((p.budget_id.as_str(), p.category_id.as_deref(), p.description.as_str()), ("other", Some("c"), "mine"));
}

#[test]
fn bulk_import_tally() {
    let row = |kind: i32, amount: i64, date: &str| BulkImportRow {
        kind,
        amount,
        description: "d".to_string(),
        entry_date: date.to_string(),
        category_id: String::new(),
        tags: vec![],
        notes: "n".to_string(),
    };
    assert!(plan_import_row(&row(2, 0, "2026-07-01")).is_none());
    assert!(plan_import_row(&row(2, 5, "")).is_none());
    let p = plan_import_row(&row(2, 5, "2026-07-01")).unwrap();
    assert_eq!(p.kind, EntryKind::Income);
    assert_eq!(p.category_id, None);
    assert_eq!(p.notes.as_deref(), Some("n"));
    assert_eq!(plan_import_row(&row(9, 5, "x")).unwrap().kind, EntryKind::Expense);
    assert_eq!(kind_from_code(0), EntryKind::Unspecified);

    let mut t = ImportTally::new();
    t.record_rejected();
    t.record_created("e-1".to_string());
    t.record_failed("db down".to_string());
    assert_eq!(t.rows(), 3);
    let r = t.finish();
    assert_eq!((r.imported_count, r.error_count), (1, 2));
    assert_eq!(r.results[0].error, "amount must be positive and entry_date required");
    assert_eq!(r.results[1].entry_id, "e-1");
    assert!(r.results[1].success);
    assert_eq!(r.results[2].error, "db down");
    assert_eq!(r.results.iter().map(|x| x.row_index).collect::<Vec<_>>(), vec![0, 1, 2]);
}

#[test]
fn request_checks() {
    assert_eq!(user_id_from_metadata(Some("u-1")).unwrap(), "u-1");
    for v in [None, Some("")] {
        let e = user_id_from_metadata(v).unwrap_err();
        assert_eq!((e.code(), e.message()), (Code::Unauthenticated, "missing x-user-id metadata"));
    }
    assert_eq!(prepare_create_entry(0, "2026-07-01", 1, "", "").unwrap_err().message(), "amount must be positive");
    assert_eq!(prepare_create_entry(5, "  ", 1, "", "").unwrap_err().message(), "entry_date must not be empty");
    let x = prepare_create_entry(5, "2026-07-01", 42, "c", "").unwrap();
    assert_eq!((x.kind, x.category_id.as_deref(), x.notes), (EntryKind::Expense, Some("c"), None));
    assert_eq!(
        prepare_recurring_entry(5, "2026-07-01", " ", 2, "", "").unwrap_err().message(),
        "recurrence_rule must not be empty"
    );
    assert_eq!(prepare_split_entry(5, "2026-07-01", 2, "n").unwrap().0, EntryKind::Income);
    assert!(prepare_update_entry(Some(-1), None, None, None, None, &[]).is_err());
    let u = prepare_update_entry(None, Some(2), Some(""), Some("d"), None, &["t".to_string()]).unwrap();
    assert_eq!((u.kind, u.category_id, u.description.as_deref(), u.entry_date, u.replace_tags), (Some(EntryKind::Income), None, Some("d"), None, true));
    assert_eq!(non_empty("body", " \t").unwrap_err().message(), "body must not be empty");
    assert!(positive_amount(1).is_ok());
}

#[test]
fn date_validation_messages() {
    assert_eq!(date_range("bad", "").unwrap_err().message(), "date_from must be YYYY-MM-DD");
    assert_eq!(date_range("", "bad").unwrap_err().message(), "date_to must be YYYY-MM-DD");
    assert_eq!(date_range("2026-02-01", "2026-01-31").unwrap_err().message(), "date_from must not be after date_to");
    assert!(date_range("2026-02-01", "2026-02-01").is_ok());
    assert_eq!(range_max_days("2026-02-01", "2026-01-31", 30).unwrap_err().message(), "date_from must not be after date_to");
    assert_eq!(range_max_days("2026-01-01", "2026-03-01", 30).unwrap_err().message(), "date range must not exceed 30 days");
    assert!(range_max_days("2024-02-01", "2024-03-02", 30).is_ok());
    assert!(range_max_days("2023-02-01", "2023-03-04", 30).is_err());
}

#[test]
fn rows_map_to_messages() {
    let e = map_entry(DbEntry {
        id: "e".to_string(),
        budget_id: "b".to_string(),
        category_id: None,
        kind: "income".to_string(),
        amount_minor: 99,
        description: "d".to_string(),
        entry_date: "2026-07-01".to_string(),
        tags: Some("a, b,,".to_string()),
        notes: None,
        is_recurring: false,
        recurrence_rule: None,
        next_occurrence: None,
        split_group_id: Some("g".to_string()),
        split_total: Some(100),
        created_by: "u".to_string(),
        created_at: 10,
        updated_at: 20,
        deleted_at: None,
        has_attachment: None,
    });
    let base = e.base.unwrap();
    assert_eq!((base.id.as_str(), base.created_at, base.updated_at, base.deleted_at, base.created_by.as_str()), ("e", 10, 20, 0, "u"));
    assert_eq!(e.kind, 2);
    assert_eq!(e.tags, vec!["a", "b"]);
    assert_eq!(e.category_id, "");
    assert!(!e.has_attachment);
    let c = map_comment(DbComment {
        id: "c".to_string(),
        entry_id: "e".to_string(),
        comment_text: "hi".to_string(),
        user_id: "u".to_string(),
        created_at: 1,
        updated_at: 2,
        deleted_at: Some(3),
    });
    assert_eq!((c.body.as_str(), c.base.unwrap().deleted_at), ("hi", 3));
    let a = map_attachment(DbAttachment {
        id: "a".to_string(),
        entry_id: "e".to_string(),
        file_id: "f".to_string(),
        file_name: "n.pdf".to_string(),
        user_id: "u".to_string(),
        created_at: 5,
    });
    let b = a.base.unwrap();
    assert_eq!((b.created_at, b.updated_at, b.created_by.as_str()), (5, 0, "u"));
}

#[test]
fn store_failures_and_scopes() {
    let e = entry::manager::biz::internal("connection reset".to_string());
    assert_eq!((e.code(), e.message()), (Code::Internal, "connection reset"));
    match entry::manager::biz::listing_scope("u", Some("b"), &[]) {
        entry::manager::biz::ListScope::Budget(b) => assert_eq!(b, "b"),
        other => panic!("unexpected {other:?}"),
    }
    match entry::manager::biz::listing_scope("u", None, &["x".to_string()]) {
        entry::manager::biz::ListScope::Mine { budget_ids, user_id } => {
            assert_eq!(budget_ids, vec!["x"]);
            assert_eq!(user_id, "u");
        }
        other => panic!("unexpected {other:?}"),
    }
    assert_eq!(entry::handler::empty_as_none(""), None);
    assert_eq!(entry::handler::empty_as_none("r").as_deref(), Some("r"));
    assert_eq!(entry::handler::given_text(Some("")), None);
    assert_eq!(entry::handler::given_text(None), None);
    assert_eq!(EntryKind::try_from_code(2), Some(EntryKind::Income));
    assert_eq!(EntryKind::try_from_code(3), None);
    assert_eq!(EntryKind::Income.code(), 2);
}

#[test]
fn range_spans_over_the_whole_calendar() {
    let first = "-262143-01-01";
    let last = "+262142-12-31";
    assert!(range_max_days(first, last, u32::MAX).is_ok());
    assert!(range_max_days(first, last, 191_000_000).is_err());
    assert!(range_max_days(last, first, u32::MAX).is_err());
    assert!(range_max_days(last, last, 0).is_ok());
}
