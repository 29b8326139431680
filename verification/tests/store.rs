use groceries::errors::WriteError;
use groceries::items::{GroceryId, GroceryItem};
use groceries::store::GroceryMgr;

fn item(name: &str, quantity: i32) -> GroceryItem {
    GroceryItem { name: name.to_string(), quantity }
}

fn id(name: &str) -> GroceryId {
    GroceryId { name: name.to_string() }
}

fn listed(mgr: &GroceryMgr) -> Vec<(String, i32)> {
    mgr.db_find_groceries().iter().map(|it| (it.name.clone(), it.quantity)).collect()
}

#[test]
fn empty_collection_lists_empty() {
    let mgr = GroceryMgr::new();
    assert_eq!(listed(&mgr), vec![]);
}

#[test]
fn upsert_new_key_creates_one_record() {
    let mut mgr = GroceryMgr::new();
    assert!(mgr.db_upsert_groceries(item("bananas", 7)).is_ok());
    assert_eq!(listed(&mgr), vec![("bananas".to_string(), 7)]);
}

#[test]
fn upsert_same_name_accumulates() {
    let mut mgr = GroceryMgr::new();
    assert!(mgr.db_upsert_groceries(item("apples", 3)).is_ok());
    assert!(mgr.db_upsert_groceries(item("apples", 2)).is_ok());
    assert_eq!(listed(&mgr), vec![("apples".to_string(), 5)]);
}

#[test]
fn upsert_negative_quantity_decrements() {
    let mut mgr = GroceryMgr::new();
    assert!(mgr.db_upsert_groceries(item("apples", 5)).is_ok());
    assert!(mgr.db_upsert_groceries(item("apples", -2)).is_ok());
    assert_eq!(listed(&mgr), vec![("apples".to_string(), 3)]);
}

#[test]
fn listing_is_sorted_by_name() {
    let mut mgr = GroceryMgr::new();
    assert!(mgr.db_upsert_groceries(item("pears", 1)).is_ok());
    assert!(mgr.db_upsert_groceries(item("apples", 2)).is_ok());
    assert!(mgr.db_upsert_groceries(item("mangos", 3)).is_ok());
    let names: Vec<String> = listed(&mgr).into_iter().map(|(n, _)| n).collect();
    assert_eq!(names, vec!["apples", "mangos", "pears"]);
    for w in names.windows(2) {
        assert!(w[0] <= w[1]);
    }
}

#[test]
fn listing_twice_is_identical() {
    let mut mgr = GroceryMgr::new();
    assert!(mgr.db_upsert_groceries(item("rice", 2)).is_ok());
    assert!(mgr.db_upsert_groceries(item("beans", 9)).is_ok());
    let first = listed(&mgr);
    let second = listed(&mgr);
    assert_eq!(first, second);
}

#[test]
fn delete_of_absent_name_is_noop_success() {
    let mut mgr = GroceryMgr::new();
    assert!(mgr.db_upsert_groceries(item("apples", 3)).is_ok());
    let before = listed(&mgr);
    assert!(mgr.db_delete_groceries(id("kiwis")).is_ok());
    assert_eq!(listed(&mgr), before);
}

#[test]
fn delete_removes_exactly_the_named_record() {
    let mut mgr = GroceryMgr::new();
    assert!(mgr.db_upsert_groceries(item("pears", 4)).is_ok());
    assert!(mgr.db_upsert_groceries(item("plums", 1)).is_ok());
    assert!(mgr.db_delete_groceries(id("pears")).is_ok());
    let names: Vec<String> = listed(&mgr).into_iter().map(|(n, _)| n).collect();
    assert!(!names.contains(&"pears".to_string()));
    assert_eq!(names, vec!["plums"]);
}

#[test]
fn upsert_overflow_fails_and_changes_nothing() {
    let mut mgr = GroceryMgr::new();
    assert!(mgr.db_upsert_groceries(item("bulk", i32::MAX)).is_ok());
    let before = listed(&mgr);
    let r = mgr.db_upsert_groceries(item("bulk", 1));
    assert!(matches!(r, Err(WriteError::QuantityOverflow)));
    assert_eq!(listed(&mgr), before);
}

#[test]
fn upsert_underflow_fails_and_changes_nothing() {
    let mut mgr = GroceryMgr::new();
    assert!(mgr.db_upsert_groceries(item("debt", i32::MIN)).is_ok());
    let r = mgr.db_upsert_groceries(item("debt", -1));
    assert!(matches!(r, Err(WriteError::QuantityOverflow)));
    assert_eq!(listed(&mgr), vec![("debt".to_string(), i32::MIN)]);
}
