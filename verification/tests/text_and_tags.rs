//! Text helpers and the storage of tags.

use entry::converters::{kind_from_db, kind_to_db, split_tags};
use entry::pb::service::entry::EntryKind;
use entry::text::{
    i64_text, join_text, placeholders, split_text, text_contains, trim_text, u64_text,
};

#[test]
fn tags_are_split_filtered_and_trimmed() {
    assert_eq!(split_tags("food, lunch,,work "), vec!["food", "lunch", "work"]);
    assert_eq!(split_tags(""), Vec::<String>::new());
    assert_eq!(split_tags(" ,a"), vec!["", "a"]);
}

#[test]
fn stored_tags_read_back() {
    let tags = vec!["food".to_string(), "lunch".to_string(), "work trip".to_string()];
    let stored = join_text(&tags, ",");
    assert_eq!(stored, "food,lunch,work trip");
    assert_eq!(split_tags(&stored), tags);
}

#[test]
fn kinds_read_back() {
    assert_eq!(kind_from_db(kind_to_db(EntryKind::Income)), EntryKind::Income);
    assert_eq!(kind_from_db(kind_to_db(EntryKind::Expense)), EntryKind::Expense);
    assert_eq!(kind_from_db(kind_to_db(EntryKind::Unspecified)), EntryKind::Expense);
    assert_eq!(kind_from_db("INCOME"), EntryKind::Expense);
}

#[test]
fn trimming_follows_str_trim() {
    for s in ["  a b  ", "\u{3000}x\u{a0}", "\t\n", "", "plain", "\u{200b}z"] {
        assert_eq!(trim_text(s), s.trim(), "{s:?}");
    }
}

#[test]
fn splitting_follows_str_split() {
    for s in ["a,b,,c", "", ",", "abc", ",x,"] {
        let ours = split_text(s, ',');
        let theirs: Vec<String> = s.split(',').map(|p| p.to_string()).collect();
        assert_eq!(ours, theirs);
    }
}

#[test]
fn numbers_print_in_decimal() {
    assert_eq!(u64_text(0), "0");
    assert_eq!(u64_text(1234567890), "1234567890");
    assert_eq!(i64_text(-42), "-42");
    assert_eq!(i64_text(i64::MIN), i64::MIN.to_string());
    assert_eq!(i64_text(i64::MAX), i64::MAX.to_string());
}

#[test]
fn placeholder_lists() {
    assert_eq!(placeholders(0), "");
    assert_eq!(placeholders(1), "?");
    assert_eq!(placeholders(3), "?,?,?");
}

#[test]
fn substring_search() {
    assert!(text_contains("migration 1 was partially applied", "partially applied"));
    assert!(!text_contains("partial", "partially applied"));
    assert!(text_contains("x", ""));
}
