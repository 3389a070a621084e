use days_since::commands::{autocomplete_name, create, days_since, list, remove, reset, update};
use days_since::error::CommandError;
use days_since::key::EventKey;
use days_since::reply::{Reply, Visibility};
use days_since::store::{EventRecord, EventStore};
use days_since::time::Timestamp;

const DAY: i64 = 86_400;

fn at(secs: i64) -> Timestamp {
    Timestamp::new(secs, 0).unwrap()
}

fn private(text: &str) -> Reply {
    Reply { text: text.to_string(), visibility: Visibility::RequesterOnly }
}

fn public(text: &str) -> Reply {
    Reply { text: text.to_string(), visibility: Visibility::Public }
}

fn three_events() -> EventStore {
    let mut store = EventStore::new();
    assert!(create(&mut store, Some("g"), "alpha", "the first", at(0)).is_ok());
    assert!(create(&mut store, Some("g"), "beta", "the second", at(0)).is_ok());
    assert!(create(&mut store, Some("g"), "gamma", "the third", at(0)).is_ok());
    store
}

#[test]
fn create_stores_the_event() {
    let mut store = EventStore::new();
    let r = create(&mut store, Some("g"), "n", "t0", at(1_000));
    assert_eq!(r, Ok(private("Event created.")));
    assert_eq!(
        store.load(&EventKey::new("g", "n")),
        Some(EventRecord { description: "t0".to_string(), since: at(1_000) })
    );
}

#[test]
fn create_twice_fails_and_alters_nothing() {
    let mut store = EventStore::new();
    assert!(create(&mut store, Some("g"), "n", "t0", at(1_000)).is_ok());
    let r = create(&mut store, Some("g"), "n", "other", at(2_000));
    assert_eq!(r, Err(CommandError::AlreadyExists));
    assert_eq!(
        store.load(&EventKey::new("g", "n")),
        Some(EventRecord { description: "t0".to_string(), since: at(1_000) })
    );
    assert_eq!(store.len(), 1);
}

#[test]
fn communities_are_isolated() {
    let mut store = EventStore::new();
    assert!(create(&mut store, Some("g1"), "n", "mine", at(0)).is_ok());
    assert_eq!(store.load(&EventKey::new("g2", "n")), None);
    assert_eq!(list(&store, Some("g2")), Ok(private("No events found")));
    assert_eq!(days_since(&store, Some("g2"), "n", at(0)), Err(CommandError::NotFound));
    assert!(autocomplete_name(&store, Some("g2"), "").is_empty());
    assert!(create(&mut store, Some("g2"), "n", "theirs", at(5)).is_ok());
    assert_eq!(list(&store, Some("g1")), Ok(private("n: mine")));
    assert_eq!(list(&store, Some("g2")), Ok(private("n: theirs")));
}

#[test]
fn a_community_whose_id_begins_another_is_isolated() {
    let mut store = EventStore::new();
    assert!(create(&mut store, Some("123"), "n", "long", at(0)).is_ok());
    assert_eq!(list(&store, Some("12")), Ok(private("No events found")));
    assert_eq!(list(&store, Some("1234")), Ok(private("No events found")));
    assert!(autocomplete_name(&store, Some("12"), "n").is_empty());
    assert_eq!(remove(&mut store, Some("12"), "3:n"), Err(CommandError::NotFound));
}

#[test]
fn days_since_right_after_create() {
    let mut store = EventStore::new();
    assert!(create(&mut store, Some("g"), "n", "t0", at(1_000)).is_ok());
    let r = days_since(&store, Some("g"), "n", at(1_000));
    assert_eq!(r, Ok(public("It has been 0 days since t0.")));
}

#[test]
fn days_since_says_day_for_exactly_one() {
    let mut store = EventStore::new();
    assert!(create(&mut store, Some("g"), "n", "t0", at(1_000)).is_ok());
    assert_eq!(
        days_since(&store, Some("g"), "n", at(1_000 + DAY)),
        Ok(public("It has been 1 day since t0."))
    );
    assert_eq!(
        days_since(&store, Some("g"), "n", at(1_000 + 2 * DAY - 1)),
        Ok(public("It has been 1 day since t0."))
    );
    assert_eq!(
        days_since(&store, Some("g"), "n", at(1_000 + 2 * DAY)),
        Ok(public("It has been 2 days since t0."))
    );
    assert_eq!(
        days_since(&store, Some("g"), "n", at(1_000 + 120 * DAY + 17)),
        Ok(public("It has been 120 days since t0."))
    );
}

#[test]
fn days_since_passes_negative_counts_through() {
    let mut store = EventStore::new();
    assert!(create(&mut store, Some("g"), "n", "t0", at(10 * DAY)).is_ok());
    assert_eq!(
        days_since(&store, Some("g"), "n", at(9 * DAY)),
        Ok(public("It has been -1 days since t0."))
    );
    assert_eq!(
        days_since(&store, Some("g"), "n", at(7 * DAY)),
        Ok(public("It has been -3 days since t0."))
    );
    assert_eq!(
        days_since(&store, Some("g"), "n", at(10 * DAY - 1)),
        Ok(public("It has been 0 days since t0."))
    );
}

#[test]
fn days_since_of_a_missing_event() {
    let store = EventStore::new();
    assert_eq!(days_since(&store, Some("g"), "n", at(0)), Err(CommandError::NotFound));
}

#[test]
fn update_replaces_the_description_only() {
    let mut store = EventStore::new();
    assert!(create(&mut store, Some("g"), "n", "t0", at(1_000)).is_ok());
    assert_eq!(update(&mut store, Some("g"), "n", "t1"), Ok(private("Event updated.")));
    assert_eq!(
        store.load(&EventKey::new("g", "n")),
        Some(EventRecord { description: "t1".to_string(), since: at(1_000) })
    );
    assert_eq!(
        days_since(&store, Some("g"), "n", at(1_000 + 4 * DAY)),
        Ok(public("It has been 4 days since t1."))
    );
}

#[test]
fn update_of_a_missing_event() {
    let mut store = EventStore::new();
    assert_eq!(update(&mut store, Some("g"), "n", "t1"), Err(CommandError::NotFound));
    assert_eq!(store.len(), 0);
}

#[test]
fn reset_starts_the_count_anew_and_keeps_the_description() {
    let mut store = EventStore::new();
    assert!(create(&mut store, Some("g"), "n", "t0", at(1_000)).is_ok());
    assert!(update(&mut store, Some("g"), "n", "t1").is_ok());
    assert_eq!(
        days_since(&store, Some("g"), "n", at(1_000 + 9 * DAY)),
        Ok(public("It has been 9 days since t1."))
    );
    let r = reset(&mut store, Some("g"), "n", at(1_000 + 9 * DAY));
    assert_eq!(r, Ok(public("It has now been 0 days since t1.")));
    assert_eq!(
        store.load(&EventKey::new("g", "n")),
        Some(EventRecord { description: "t1".to_string(), since: at(1_000 + 9 * DAY) })
    );
    assert_eq!(
        days_since(&store, Some("g"), "n", at(1_000 + 9 * DAY)),
        Ok(public("It has been 0 days since t1."))
    );
    assert_eq!(store.len(), 1);
}

#[test]
fn reset_touches_the_event_not_the_community() {
    let mut store = EventStore::new();
    assert!(create(&mut store, Some("g"), "a", "first", at(0)).is_ok());
    assert!(create(&mut store, Some("g"), "b", "second", at(0)).is_ok());
    assert!(reset(&mut store, Some("g"), "a", at(5 * DAY)).is_ok());
    assert_eq!(store.list_keys(), vec![EventKey::new("g", "a"), EventKey::new("g", "b")]);
    assert_eq!(
        store.load(&EventKey::new("g", "b")),
        Some(EventRecord { description: "second".to_string(), since: at(0) })
    );
}

#[test]
fn reset_of_a_missing_event() {
    let mut store = EventStore::new();
    assert_eq!(reset(&mut store, Some("g"), "n", at(0)), Err(CommandError::NotFound));
    assert_eq!(store.len(), 0);
}

#[test]
fn remove_then_load_is_not_found() {
    let mut store = EventStore::new();
    assert!(create(&mut store, Some("g"), "n", "t0", at(0)).is_ok());
    assert_eq!(remove(&mut store, Some("g"), "n"), Ok(private("Event removed.")));
    assert_eq!(store.load(&EventKey::new("g", "n")), None);
    assert_eq!(days_since(&store, Some("g"), "n", at(0)), Err(CommandError::NotFound));
    assert_eq!(remove(&mut store, Some("g"), "n"), Err(CommandError::NotFound));
    assert!(create(&mut store, Some("g"), "n", "again", at(0)).is_ok());
}

#[test]
fn commands_without_a_community_fail_before_the_store() {
    let mut store = three_events();
    assert_eq!(create(&mut store, None, "n", "t", at(0)), Err(CommandError::InvalidContext));
    assert_eq!(update(&mut store, None, "alpha", "t"), Err(CommandError::InvalidContext));
    assert_eq!(days_since(&store, None, "alpha", at(0)), Err(CommandError::InvalidContext));
    assert_eq!(reset(&mut store, None, "alpha", at(9)), Err(CommandError::InvalidContext));
    assert_eq!(remove(&mut store, None, "alpha"), Err(CommandError::InvalidContext));
    assert_eq!(list(&store, None), Err(CommandError::InvalidContext));
    assert!(autocomplete_name(&store, None, "a").is_empty());
    assert_eq!(store.len(), 3);
    assert_eq!(
        store.load(&EventKey::new("g", "alpha")),
        Some(EventRecord { description: "the first".to_string(), since: at(0) })
    );
}

#[test]
fn list_of_a_community_without_events() {
    let store = EventStore::new();
    assert_eq!(list(&store, Some("g")), Ok(private("No events found")));
}

#[test]
fn list_shows_one_line_per_event() {
    let store = three_events();
    assert_eq!(
        list(&store, Some("g")),
        Ok(private("alpha: the first\nbeta: the second\ngamma: the third"))
    );
}

#[test]
fn list_of_one_event_has_no_line_feed() {
    let mut store = EventStore::new();
    assert!(create(&mut store, Some("g"), "", "", at(0)).is_ok());
    assert_eq!(list(&store, Some("g")), Ok(private(": ")));
}

#[test]
fn list_passes_over_other_communities() {
    let mut store = EventStore::new();
    assert!(create(&mut store, Some("h"), "x", "theirs", at(0)).is_ok());
    assert!(create(&mut store, Some("g"), "a", "first", at(0)).is_ok());
    assert!(create(&mut store, Some("h"), "y", "theirs too", at(0)).is_ok());
    assert!(create(&mut store, Some("g"), "b", "second", at(0)).is_ok());
    assert_eq!(list(&store, Some("g")), Ok(private("a: first\nb: second")));
    assert_eq!(list(&store, Some("h")), Ok(private("x: theirs\ny: theirs too")));
}

#[test]
fn autocomplete_offers_the_names_that_hold_the_input() {
    let store = three_events();
    assert_eq!(autocomplete_name(&store, Some("g"), "a"), vec!["alpha", "beta", "gamma"]);
    assert_eq!(autocomplete_name(&store, Some("g"), "al"), vec!["alpha"]);
    assert_eq!(autocomplete_name(&store, Some("g"), "mm"), vec!["gamma"]);
    assert_eq!(autocomplete_name(&store, Some("g"), ""), vec!["alpha", "beta", "gamma"]);
    assert!(autocomplete_name(&store, Some("g"), "x").is_empty());
    assert!(autocomplete_name(&store, Some("g"), "A").is_empty());
}

#[test]
fn autocomplete_never_offers_names_of_other_communities() {
    let mut store = three_events();
    assert!(create(&mut store, Some("h"), "alabama", "theirs", at(0)).is_ok());
    assert_eq!(autocomplete_name(&store, Some("g"), "al"), vec!["alpha"]);
    assert_eq!(autocomplete_name(&store, Some("h"), "al"), vec!["alabama"]);
    assert!(autocomplete_name(&store, Some("i"), "al").is_empty());
}

#[test]
fn autocomplete_of_an_empty_store() {
    let store = EventStore::new();
    assert!(autocomplete_name(&store, Some("g"), "a").is_empty());
}
