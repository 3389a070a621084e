use days_since::error::CommandError;
use days_since::key::EventKey;
use days_since::store::{EventRecord, EventStore};
use days_since::time::Timestamp;

fn record(description: &str, secs: i64) -> EventRecord {
    EventRecord { description: description.to_string(), since: Timestamp::new(secs, 0).unwrap() }
}

#[test]
fn new_store_is_empty() {
    let store = EventStore::new();
    assert_eq!(store.len(), 0);
    assert!(store.list_keys().is_empty());
    assert_eq!(store.load(&EventKey::new("1", "a")), None);
}

#[test]
fn save_then_load_round_trips() {
    let mut store = EventStore::new();
    let e = EventRecord {
        description: "the last outage".to_string(),
        since: Timestamp::new(1_700_000_000, 987_654_321).unwrap(),
    };
    store.save(EventKey::new("1", "outage"), e.clone());
    assert_eq!(store.load(&EventKey::new("1", "outage")), Some(e));
}

#[test]
fn save_overwrites_and_keeps_the_place() {
    let mut store = EventStore::new();
    store.save(EventKey::new("1", "a"), record("first", 1));
    store.save(EventKey::new("1", "b"), record("second", 2));
    store.save(EventKey::new("1", "a"), record("third", 3));
    assert_eq!(store.len(), 2);
    assert_eq!(store.load(&EventKey::new("1", "a")), Some(record("third", 3)));
    assert_eq!(store.load(&EventKey::new("1", "b")), Some(record("second", 2)));
    assert_eq!(store.list_keys(), vec![EventKey::new("1", "a"), EventKey::new("1", "b")]);
}

#[test]
fn load_leaves_other_keys_alone() {
    let mut store = EventStore::new();
    store.save(EventKey::new("1", "a"), record("first", 1));
    assert_eq!(store.load(&EventKey::new("2", "a")), None);
    assert_eq!(store.load(&EventKey::new("1", "b")), None);
}

#[test]
fn remove_then_load_finds_nothing() {
    let mut store = EventStore::new();
    store.save(EventKey::new("1", "a"), record("first", 1));
    assert_eq!(store.remove(&EventKey::new("1", "a")), Ok(()));
    assert_eq!(store.load(&EventKey::new("1", "a")), None);
    assert_eq!(store.len(), 0);
}

#[test]
fn remove_of_a_missing_key_is_not_found() {
    let mut store = EventStore::new();
    assert_eq!(store.remove(&EventKey::new("1", "a")), Err(CommandError::NotFound));
    store.save(EventKey::new("1", "a"), record("first", 1));
    assert_eq!(store.remove(&EventKey::new("1", "b")), Err(CommandError::NotFound));
    assert_eq!(store.remove(&EventKey::new("1", "a")), Ok(()));
    assert_eq!(store.remove(&EventKey::new("1", "a")), Err(CommandError::NotFound));
}

#[test]
fn remove_keeps_the_order_of_the_rest() {
    let mut store = EventStore::new();
    store.save(EventKey::new("1", "a"), record("first", 1));
    store.save(EventKey::new("1", "b"), record("second", 2));
    store.save(EventKey::new("1", "c"), record("third", 3));
    assert_eq!(store.remove(&EventKey::new("1", "b")), Ok(()));
    assert_eq!(store.list_keys(), vec![EventKey::new("1", "a"), EventKey::new("1", "c")]);
    assert_eq!(store.key_at(1), EventKey::new("1", "c"));
    assert_eq!(store.load(&EventKey::new("1", "c")), Some(record("third", 3)));
}

#[test]
fn keys_come_in_the_order_of_their_arrival() {
    let mut store = EventStore::new();
    store.save(EventKey::new("2", "z"), record("first", 1));
    store.save(EventKey::new("1", "y"), record("second", 2));
    store.save(EventKey::new("2", "a"), record("third", 3));
    assert_eq!(
        store.list_keys(),
        vec![EventKey::new("2", "z"), EventKey::new("1", "y"), EventKey::new("2", "a")]
    );
    assert_eq!(store.len(), 3);
}

#[test]
fn clone_of_a_record_is_the_same_record() {
    let e = record("first", 1);
    assert_eq!(e.clone(), e);
}
