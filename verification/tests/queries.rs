//! Listing, creating and updating entries: the statements and their values.

use entry::manager::repository::{
    migration_recovery, page_meta, plan_list_query, plan_new_comment, plan_new_entry,
    plan_update_entry, EntryQueryBuilder, MigrationRecovery, UpdateValue,
};
use entry::pb::service::entry::{EntryKind, ListParams};

fn is_uuid_v4(s: &str) -> bool {
    let cs: Vec<char> = s.chars().collect();
    cs.len() == 36
        && cs.iter().enumerate().all(|(i, c)| {
            if [8, 13, 18, 23].contains(&i) {
                *c == '-'
            } else {
                c.is_ascii_digit() || ('a'..='f').contains(c)
            }
        })
        && cs[14] == '4'
}

#[test]
fn budget_scope_prefers_single_budget() {
    let params = ListParams::default();
    let ids = vec!["b-1".to_string(), "b-2".to_string()];
    let (sql, binds) = EntryQueryBuilder::new(&params).apply_budget(Some("b-0"), &ids, Some("u")).build_count();
    assert!(sql.ends_with("WHERE e.deleted_at IS NULL AND e.budget_id = ?"));
    assert_eq!(binds, vec!["b-0"]);

    let (sql, binds) = EntryQueryBuilder::new(&params).apply_budget(None, &ids, Some("u")).build_count();
    assert!(sql.ends_with("e.budget_id IN (?,?)"));
    assert_eq!(binds, ids);

    let (sql, binds) = EntryQueryBuilder::new(&params).apply_budget(None, &[], Some("u")).build_count();
    assert!(sql.ends_with("e.created_by = ?"));
    assert_eq!(binds, vec!["u"]);

    let (sql, binds) = EntryQueryBuilder::new(&params).apply_budget(None, &[], None).build_count();
    assert_eq!(sql, "SELECT COUNT(*) as cnt FROM entries e WHERE e.deleted_at IS NULL");
    assert!(binds.is_empty());
}

#[test]
fn text_amount_and_category_filters() {
    let mut params = ListParams::default();
    params.q = Some("coffee".to_string());
    params.amount_min = Some(-5);
    params.amount_max = Some(100);
    params.category_id = Some("c-1".to_string());
    params.category_ids = vec!["c-2".to_string()];
    let (sql, binds) = EntryQueryBuilder::new(&params)
        .apply_text()
        .apply_amount()
        .apply_category()
        .build_count();
    assert!(sql.contains("e.description LIKE ? AND e.amount_minor >= ? AND e.amount_minor <= ? AND e.category_id = ?"));
    assert_eq!(binds, vec!["%coffee%", "-5", "100", "c-1"]);
}

#[test]
fn empty_filter_values_add_nothing() {
    let mut params = ListParams::default();
    params.q = Some(String::new());
    params.kind = Some(String::new());
    params.tags = Some(String::new());
    params.date_from = Some(String::new());
    let (sql, binds) = EntryQueryBuilder::new(&params)
        .apply_text()
        .apply_kind()
        .apply_tags()
        .apply_date()
        .build_count();
    assert!(!sql.contains(" AND "));
    assert!(binds.is_empty());
}

#[test]
fn listing_pages_and_sorts() {
    let mut params = ListParams::default();
    params.page = Some(3);
    params.page_size = Some(500);
    params.sort_by = Some("amount".to_string());
    params.sort_dir = Some("asc".to_string());
    params.kind = Some("income".to_string());
    let q = plan_list_query(Some("b-1"), &[], Some("u-1"), &params);
    assert_eq!(q.page, 3);
    assert_eq!(q.page_size, 100);
    assert!(q.data_sql.ends_with("WHERE e.deleted_at IS NULL AND e.budget_id = ? AND e.kind = ? ORDER BY e.amount_minor ASC LIMIT ? OFFSET ?"));
    assert_eq!(q.data_binds, vec!["b-1", "income", "100", "200"]);
    assert_eq!(q.count_binds, vec!["b-1", "income"]);
    assert_eq!(q.count_sql.matches('?').count(), q.count_binds.len());
    assert_eq!(q.data_sql.matches('?').count(), q.data_binds.len());
}

#[test]
fn listing_defaults() {
    let params = ListParams::default();
    let q = plan_list_query(None, &[], Some("u-1"), &params);
    assert_eq!(q.page, 1);
    assert_eq!(q.page_size, 20);
    assert!(q.data_sql.ends_with("ORDER BY e.entry_date DESC LIMIT ? OFFSET ?"));
    assert_eq!(q.data_binds, vec!["u-1", "20", "0"]);
    let mut params = ListParams::default();
    params.page = Some(-4);
    params.page_size = Some(0);
    params.sort_by = Some("description".to_string());
    let q = plan_list_query(None, &[], None, &params);
    assert_eq!((q.page, q.page_size), (1, 1));
    assert!(q.data_sql.contains("ORDER BY e.description DESC"));
}

#[test]
fn page_counts() {
    assert_eq!(page_meta(1, 20, 0).total_pages, 1);
    assert_eq!(page_meta(1, 20, 20).total_pages, 1);
    assert_eq!(page_meta(1, 20, 41).total_pages, 3);
    assert_eq!(page_meta(2, 1, i64::MAX).total_pages, i32::MAX);
    let m = page_meta(2, 7, 50);
    assert_eq!((m.page, m.page_size, m.total_pages, m.total_rows), (2, 7, 8, 50));
}

#[test]
fn update_statement_lists_given_fields() {
    let tags = vec!["a".to_string(), "b".to_string()];
    let plan = plan_update_entry("e-1", None, Some(EntryKind::Income), Some(250), None, None, Some(&tags), None);
    assert_eq!(
        plan.sql,
        "UPDATE entries SET updated_at = ?, kind = ?, amount_minor = ?, tags = ? WHERE id = ? AND deleted_at IS NULL"
    );
    assert_eq!(plan.values.len(), 5);
    assert!(matches!(plan.values[0], UpdateValue::Now));
    assert!(matches!(&plan.values[1], UpdateValue::Text(t) if t == "income"));
    assert!(matches!(plan.values[2], UpdateValue::Amount(250)));
    assert!(matches!(&plan.values[3], UpdateValue::Text(t) if t == "a,b"));
    assert!(matches!(&plan.values[4], UpdateValue::Text(t) if t == "e-1"));
    let plan = plan_update_entry("e-2", None, None, None, None, None, None, None);
    assert_eq!(plan.sql, "UPDATE entries SET updated_at = ? WHERE id = ? AND deleted_at IS NULL");
    assert_eq!(plan.values.len(), 2);
}

#[test]
fn new_entry_rows() {
    let tags = vec!["x".to_string(), "y".to_string()];
    let row = plan_new_entry("b", Some("c"), EntryKind::Unspecified, 10, "d", "2026-07-01", &tags, None, "u", Some("FREQ=DAILY"), None, None);
    assert!(is_uuid_v4(&row.id));
    assert_eq!(row.kind, "expense");
    assert_eq!(row.tags.as_deref(), Some("x,y"));
    assert!(row.is_recurring);
    assert_eq!(row.next_occurrence.as_deref(), Some("2026-07-01"));
    let row = plan_new_entry("b", None, EntryKind::Income, 10, "d", "2026-07-01", &[], Some("n"), "u", None, Some("g"), Some(30));
    assert_eq!(row.tags, None);
    assert!(!row.is_recurring);
    assert_eq!(row.next_occurrence, None);
    assert_eq!(row.split_group_id.as_deref(), Some("g"));
    assert_eq!(row.split_total, Some(30));
    let other = plan_new_entry("b", None, EntryKind::Income, 10, "d", "2026-07-01", &[], None, "u", None, None, None);
    assert_ne!(row.id, other.id);
    let c = plan_new_comment("e", "hello", "u");
    assert!(is_uuid_v4(&c.id));
    assert_eq!((c.entry_id.as_str(), c.comment_text.as_str(), c.user_id.as_str()), ("e", "hello", "u"));
}

#[test]
fn migration_failures() {
    assert_eq!(migration_recovery("boom"), MigrationRecovery::Fail);
    assert_eq!(
        migration_recovery("migration 20260507090228 was partially applied"),
        MigrationRecovery::Recover { check_avatar: true }
    );
    assert_eq!(
        migration_recovery("migration 1 was partially applied"),
        MigrationRecovery::Recover { check_avatar: false }
    );
}

#[test]
fn count_query_text_depends_only_on_which_filters_are_active() {
    let mut a = ListParams::default();
    a.q = Some("coffee".to_string());
    a.kind = Some("expense".to_string());
    a.member_ids = vec!["m-1".to_string(), "m-2".to_string()];
    a.date_to = Some("2026-07-01".to_string());
    a.amount_min = Some(10);
    a.tags = Some("food".to_string());
    let mut b = ListParams::default();
    b.q = Some("'; DROP TABLE entries; --?".to_string());
    b.kind = Some("income".to_string());
    b.member_ids = vec!["x".to_string(), "y?".to_string()];
    b.date_to = Some("1999-01-01".to_string());
    b.amount_min = Some(-3);
    b.tags = Some("?".to_string());
    let build = |p: &ListParams, bid: &str| {
        EntryQueryBuilder::new(p)
            .apply_tags()
            .apply_budget(Some(bid), &[], None)
            .apply_member()
            .apply_text()
            .apply_kind()
            .apply_category()
            .apply_date()
            .apply_amount()
            .apply_member()
            .build_count()
    };
    let (sql_a, binds_a) = build(&a, "b-1");
    let (sql_b, binds_b) = build(&b, "other?");
    assert_eq!(sql_a, sql_b);
    assert_eq!(binds_a.len(), binds_b.len());
    for sql in [&sql_a, &sql_b] {
        assert!(sql.starts_with("SELECT COUNT(*) as cnt FROM entries e WHERE e.deleted_at IS NULL"));
        assert_eq!(sql.matches('?').count(), binds_a.len());
    }
    assert_eq!(binds_a.len(), 10);
}
