use tasklist::store::{StoreError, TaskStore};
use tasklist::task::Task;

fn s(x: &str) -> String {
    x.to_string()
}

fn store_with(due_dates: &[&str]) -> TaskStore {
    let mut store = TaskStore::new();
    for (i, d) in due_dates.iter().enumerate() {
        store.create(format!("task {}", i), s(d), s("low"));
    }
    store
}

fn dues(tasks: &[Task]) -> Vec<String> {
    tasks.iter().map(|t| t.due_date.clone()).collect()
}

#[test]
fn create_assigns_increasing_ids_from_one() {
    let mut store = TaskStore::new();
    let a = store.create(s("Buy milk"), s("2024-01-01"), s("low"));
    let b = store.create(s("Walk dog"), s("2024-01-02"), s("high"));
    let c = store.create(s("Read"), s(""), s(""));
    assert_eq!((a.id, b.id, c.id), (1, 2, 3));
    assert!(!a.completed);
    assert_eq!(a.description, "Buy milk");
    assert_eq!(a.due_date, "2024-01-01");
    assert_eq!(a.priority, "low");
    assert_eq!(store.len(), 3);
}

#[test]
fn ids_keep_growing_after_delete() {
    let mut store = TaskStore::new();
    store.create(s("a"), s("d"), s("p"));
    store.create(s("b"), s("d"), s("p"));
    assert!(store.delete(2).is_ok());
    let c = store.create(s("c"), s("d"), s("p"));
    assert_eq!(c.id, 3);
}

#[test]
fn list_returns_every_task() {
    let store = store_with(&["x", "y"]);
    let all = store.list();
    assert_eq!(all.len(), 2);
    assert_eq!(all[0].id, 1);
    assert_eq!(all[1].id, 2);
    assert_eq!(all[1].due_date, "y");
}

#[test]
fn complete_twice_stays_completed() {
    let mut store = store_with(&["a", "b"]);
    assert_eq!(store.complete(1), Ok(()));
    assert!(store.list()[0].completed);
    assert_eq!(store.complete(1), Ok(()));
    assert!(store.list()[0].completed);
    assert!(!store.list()[1].completed);
}

#[test]
fn complete_missing_is_not_found() {
    let mut store = store_with(&["a"]);
    assert_eq!(store.complete(7), Err(StoreError::NotFound));
    assert!(!store.list()[0].completed);
    let mut empty = TaskStore::new();
    assert_eq!(empty.complete(1), Err(StoreError::NotFound));
}

#[test]
fn delete_removes_exactly_one() {
    let mut store = store_with(&["a", "b", "c"]);
    let removed = store.delete(2).unwrap();
    assert_eq!(removed.id, 2);
    assert_eq!(removed.due_date, "b");
    assert_eq!(store.len(), 2);
    let ids: Vec<u32> = store.list().iter().map(|t| t.id).collect();
    assert_eq!(ids, vec![1, 3]);
    assert_eq!(store.delete(2), Err(StoreError::NotFound));
    assert_eq!(store.len(), 2);
}

#[test]
fn filter_splits_by_completion() {
    let mut store = store_with(&["a", "b", "c", "d"]);
    store.complete(2).unwrap();
    store.complete(4).unwrap();
    let done: Vec<u32> = store.filter_by_completion(true).iter().map(|t| t.id).collect();
    let open: Vec<u32> = store.filter_by_completion(false).iter().map(|t| t.id).collect();
    assert_eq!(done, vec![2, 4]);
    assert_eq!(open, vec![1, 3]);
    assert_eq!(store.len(), 4);
}

#[test]
fn filter_of_empty_store_is_empty() {
    let store = TaskStore::new();
    assert!(store.filter_by_completion(true).is_empty());
    assert!(store.filter_by_completion(false).is_empty());
}

#[test]
fn sort_orders_iso_dates() {
    let store = store_with(&["2024-01-02", "2024-01-01"]);
    assert_eq!(dues(&store.sorted_by_due_date()), vec!["2024-01-01", "2024-01-02"]);
    assert_eq!(store.list()[0].due_date, "2024-01-02");
}

#[test]
fn sort_compares_as_text() {
    let store = store_with(&["2", "10"]);
    assert_eq!(dues(&store.sorted_by_due_date()), vec!["10", "2"]);
}

#[test]
fn sort_keeps_store_order_for_equal_dates() {
    let store = store_with(&["b", "a", "b", "", "a"]);
    let sorted = store.sorted_by_due_date();
    assert_eq!(dues(&sorted), vec!["", "a", "a", "b", "b"]);
    let ids: Vec<u32> = sorted.iter().map(|t| t.id).collect();
    assert_eq!(ids, vec![4, 2, 5, 1, 3]);
}

#[test]
fn sort_handles_prefixes_and_non_ascii() {
    let store = store_with(&["abc", "ab", "é", "z"]);
    assert_eq!(dues(&store.sorted_by_due_date()), vec!["ab", "abc", "z", "é"]);
}

#[test]
fn can_create_on_fresh_store() {
    assert!(TaskStore::new().can_create());
}

#[test]
fn task_new_and_duplicate_keep_fields() {
    let t = Task::new(s("d"), s("due"), s("p"), true, 9);
    let c = t.duplicate();
    assert_eq!(c, t);
    assert_eq!(c.id, 9);
    assert!(c.completed);
}
