use tasklist::codec::{load, LoadError};
use tasklist::store::TaskStore;
use tasklist::task::Task;
use tasklist::text::{decimal, text_le_exec};

fn s(x: &str) -> String {
    x.to_string()
}

fn task(id: u32, completed: bool) -> Task {
    Task::new(format!("task {}", id), s("2024-01-01"), s("low"), completed, id)
}

#[test]
fn decimal_forms() {
    assert_eq!(decimal(0), "0");
    assert_eq!(decimal(7), "7");
    assert_eq!(decimal(10), "10");
    assert_eq!(decimal(1234567), "1234567");
    assert_eq!(decimal(u32::MAX), "4294967295");
}

#[test]
fn text_order_is_character_order() {
    assert!(text_le_exec("10", "2"));
    assert!(!text_le_exec("2", "10"));
    assert!(text_le_exec("", ""));
    assert!(text_le_exec("ab", "abc"));
    assert!(!text_le_exec("abc", "ab"));
    assert!(text_le_exec("same", "same"));
}

#[test]
fn entries_are_keyed_by_decimal_id() {
    let mut store = TaskStore::new();
    for _ in 0..12 {
        store.create(s("x"), s("y"), s("z"));
    }
    let entries = store.to_entries();
    assert_eq!(entries.len(), 12);
    assert_eq!(entries[0].0, "1");
    assert_eq!(entries[11].0, "12");
    assert_eq!(entries[11].1.id, 12);
}

#[test]
fn round_trip_keeps_tasks() {
    let mut store = TaskStore::new();
    store.create(s("a"), s("2024-03-01"), s("high"));
    store.create(s("b"), s("2024-02-01"), s("low"));
    store.create(s("c"), s(""), s(""));
    store.complete(2).unwrap();
    store.delete(1).unwrap();
    let back = TaskStore::from_entries(store.to_entries()).unwrap();
    assert_eq!(back.list(), store.list());
}

#[test]
fn load_seeds_counter_from_largest_id() {
    let entries = vec![(s("5"), task(5, false)), (s("2"), task(2, true))];
    let mut store = load(Some(entries));
    assert_eq!(store.len(), 2);
    let t = store.create(s("n"), s("d"), s("p"));
    assert_eq!(t.id, 6);
}

#[test]
fn load_of_missing_file_is_empty() {
    let mut store = load(None);
    assert_eq!(store.len(), 0);
    assert_eq!(store.create(s("n"), s("d"), s("p")).id, 1);
}

#[test]
fn load_of_bad_entries_is_empty() {
    let store = load(Some(vec![(s("01"), task(1, false))]));
    assert_eq!(store.len(), 0);
}

#[test]
fn load_of_empty_entries_is_empty() {
    let mut store = load(Some(Vec::new()));
    assert_eq!(store.len(), 0);
    assert_eq!(store.create(s("n"), s("d"), s("p")).id, 1);
}

#[test]
fn key_must_match_id() {
    let r = TaskStore::from_entries(vec![(s("1"), task(1, false)), (s("3"), task(2, false))]);
    assert_eq!(r.err(), Some(LoadError::Corruption));
}

#[test]
fn duplicate_ids_are_rejected() {
    let r = TaskStore::from_entries(vec![(s("4"), task(4, false)), (s("4"), task(4, true))]);
    assert_eq!(r.err(), Some(LoadError::Corruption));
}

#[test]
fn id_zero_seeds_counter_one() {
    let mut store = TaskStore::from_entries(vec![(s("0"), task(0, false))]).unwrap();
    assert_eq!(store.create(s("n"), s("d"), s("p")).id, 1);
}

#[test]
fn keys_resolve_only_in_decimal_form() {
    let mut store = TaskStore::new();
    for _ in 0..11 {
        store.create(s("x"), s("y"), s("z"));
    }
    assert_eq!(store.id_for_key("11"), Some(11));
    assert_eq!(store.id_for_key("1"), Some(1));
    assert_eq!(store.id_for_key("01"), None);
    assert_eq!(store.id_for_key("12"), None);
    assert_eq!(store.id_for_key(" 1"), None);
    assert_eq!(store.id_for_key(""), None);
}

#[test]
fn add_complete_save_load_scenario() {
    let mut store = load(None);
    let a = store.create(s("Buy milk"), s("2024-01-01"), s("low"));
    assert_eq!(a.id, 1);
    let b = store.create(s("Walk dog"), s("2024-01-05"), s("high"));
    assert_eq!(b.id, 2);
    assert_eq!(store.complete(1), Ok(()));
    let saved = store.to_entries();
    let fresh = load(Some(saved));
    let entries = fresh.to_entries();
    assert_eq!(entries.len(), 2);
    assert_eq!(entries[0].0, "1");
    assert!(entries[0].1.completed);
    assert_eq!(entries[0].1.description, "Buy milk");
    assert_eq!(entries[1].0, "2");
    assert!(!entries[1].1.completed);
}
