use calendar_core::event::{timestamp_le, validate_title, Event, Operation, StoreError};
use calendar_core::store::{accept_range, EventStore};

fn day() -> (&'static str, &'static str) {
    ("2024-01-01T00:00:00Z", "2024-01-01T23:59:59Z")
}

fn add(store: &mut EventStore, title: &str, start: &str) -> i64 {
    store
        .create(title.to_string(), None, start.to_string(), start.to_string())
        .unwrap()
}

fn starts(events: &[Event]) -> Vec<String> {
    events.iter().map(|e| e.start_time.clone()).collect()
}

fn row(id: i64, start: &str) -> Event {
    Event {
        id,
        title: "x".to_string(),
        description: None,
        start_time: start.to_string(),
        end_time: start.to_string(),
    }
}

#[test]
fn standup_scenario() {
    let mut store = EventStore::new();
    let id = store
        .create(
            "Standup".to_string(),
            None,
            "2024-01-01T09:00:00Z".to_string(),
            "2024-01-01T09:15:00Z".to_string(),
        )
        .unwrap();
    assert_eq!(id, 1);
    let (lo, hi) = day();
    let found = store.get_range(lo, hi);
    assert_eq!(found.len(), 1);
    assert_eq!(found[0].id, 1);
    assert_eq!(found[0].title, "Standup");
    assert_eq!(found[0].start_time, "2024-01-01T09:00:00Z");
    assert_eq!(found[0].end_time, "2024-01-01T09:15:00Z");
    assert_eq!(store.delete(1), Ok(()));
    assert!(store.get_range(lo, hi).is_empty());
}

#[test]
fn round_trip_keeps_fields() {
    let mut store = EventStore::new();
    add(&mut store, "Other", "2024-01-01T08:00:00Z");
    let s = "2024-01-01T10:30:00Z";
    let id = store
        .create(
            "Review".to_string(),
            Some("quarterly".to_string()),
            s.to_string(),
            "2024-01-01T11:00:00Z".to_string(),
        )
        .unwrap();
    let found = store.get_range(s, s);
    assert_eq!(found.len(), 1);
    assert_eq!(found[0].id, id);
    assert_eq!(found[0].title, "Review");
    assert_eq!(found[0].description, Some("quarterly".to_string()));
    assert_eq!(found[0].start_time, s);
    assert_eq!(found[0].end_time, "2024-01-01T11:00:00Z");
}

#[test]
fn range_is_sorted_by_start() {
    let mut store = EventStore::new();
    add(&mut store, "c", "2024-01-01T15:00:00Z");
    add(&mut store, "a", "2024-01-01T07:00:00Z");
    add(&mut store, "b", "2024-01-01T12:00:00Z");
    add(&mut store, "d", "2024-01-02T01:00:00Z");
    let (lo, hi) = day();
    let found = store.get_range(lo, hi);
    assert_eq!(
        starts(&found),
        vec![
            "2024-01-01T07:00:00Z",
            "2024-01-01T12:00:00Z",
            "2024-01-01T15:00:00Z"
        ]
    );
}

#[test]
fn equal_starts_keep_creation_order() {
    let mut store = EventStore::new();
    let a = add(&mut store, "a", "2024-01-01T09:00:00Z");
    let b = add(&mut store, "b", "2024-01-01T09:00:00Z");
    add(&mut store, "early", "2024-01-01T08:00:00Z");
    let found = store.get_range("2024-01-01T09:00:00Z", "2024-01-01T09:00:00Z");
    let ids: Vec<i64> = found.iter().map(|e| e.id).collect();
    assert_eq!(ids, vec![a, b]);
}

#[test]
fn delete_twice_succeeds() {
    let mut store = EventStore::new();
    let id = add(&mut store, "a", "2024-01-01T09:00:00Z");
    add(&mut store, "b", "2024-01-01T10:00:00Z");
    assert_eq!(store.delete(id), Ok(()));
    assert_eq!(store.delete(id), Ok(()));
    assert_eq!(store.len(), 1);
    assert_eq!(store.delete(999), Ok(()));
    assert_eq!(store.len(), 1);
}

#[test]
fn bounds_are_included() {
    let mut store = EventStore::new();
    add(&mut store, "lo", "2024-01-01T09:00:00Z");
    add(&mut store, "hi", "2024-01-01T10:00:00Z");
    add(&mut store, "before", "2024-01-01T08:59:59Z");
    add(&mut store, "after", "2024-01-01T10:00:01Z");
    let found = store.get_range("2024-01-01T09:00:00Z", "2024-01-01T10:00:00Z");
    assert_eq!(
        starts(&found),
        vec!["2024-01-01T09:00:00Z", "2024-01-01T10:00:00Z"]
    );
}

#[test]
fn inverted_window_is_empty() {
    let mut store = EventStore::new();
    add(&mut store, "a", "2024-01-01T09:00:00Z");
    assert!(store
        .get_range("2024-01-01T10:00:00Z", "2024-01-01T08:00:00Z")
        .is_empty());
}

#[test]
fn ids_are_not_reused() {
    let mut store = EventStore::new();
    let a = add(&mut store, "a", "2024-01-01T09:00:00Z");
    let b = add(&mut store, "b", "2024-01-01T10:00:00Z");
    store.delete(b).unwrap();
    let c = add(&mut store, "c", "2024-01-01T11:00:00Z");
    assert_eq!((a, b, c), (1, 2, 3));
}

#[test]
fn empty_title_is_refused() {
    let mut store = EventStore::new();
    let r = store.create(
        String::new(),
        None,
        "2024-01-01T09:00:00Z".to_string(),
        "2024-01-01T10:00:00Z".to_string(),
    );
    assert_eq!(r, Err(StoreError::Validation));
    assert_eq!(store.len(), 0);
    assert_eq!(validate_title(""), Err(StoreError::Validation));
    assert_eq!(validate_title("Lunch"), Ok(()));
}

#[test]
fn timestamp_order() {
    assert!(timestamp_le("2024-01-01T09:00:00Z", "2024-01-01T09:00:00Z"));
    assert!(timestamp_le("2024-01-01T09:00:00Z", "2024-01-01T10:00:00Z"));
    assert!(!timestamp_le("2024-01-02T00:00:00Z", "2024-01-01T23:59:59Z"));
    assert!(timestamp_le("2024", "2024-01"));
    assert!(!timestamp_le("2024-01", "2024"));
    assert!(timestamp_le("", "a"));
    assert!(timestamp_le("2024-01-01T09:00:00+00:00", "2024-01-01T09:00:00Z"));
}

#[test]
fn accept_range_takes_good_rows() {
    let rows = vec![row(2, "2024-01-01T09:00:00Z"), row(1, "2024-01-01T09:30:00Z")];
    let (lo, hi) = day();
    let ok = accept_range(rows, lo, hi).unwrap();
    assert_eq!(ok.iter().map(|e| e.id).collect::<Vec<i64>>(), vec![2, 1]);
    assert_eq!(accept_range(Vec::new(), lo, hi).map(|v| v.len()), Ok(0));
}

#[test]
fn accept_range_refuses_unordered_rows() {
    let rows = vec![row(1, "2024-01-01T10:00:00Z"), row(2, "2024-01-01T09:00:00Z")];
    let (lo, hi) = day();
    assert_eq!(
        accept_range(rows, lo, hi).map(|v| v.len()),
        Err(StoreError::Storage { op: Operation::GetRange })
    );
}

#[test]
fn accept_range_refuses_rows_outside() {
    let rows = vec![row(1, "2024-01-02T10:00:00Z")];
    let (lo, hi) = day();
    assert_eq!(
        accept_range(rows, lo, hi).map(|v| v.len()),
        Err(StoreError::Storage { op: Operation::GetRange })
    );
}
