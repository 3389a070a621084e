use crate::error::CommandError;
use crate::key::{EventKey, KeyView};
use crate::model::{
    create_outcome, days_since_outcome, events_of, given, joined, line_of, lines_in, list_outcome,
    matching_names, offered_names, outcome_of, remove_outcome, reset_outcome, texts,
    update_outcome,
};
use crate::reply::{Reply, Visibility};
use crate::store::{lemma_keys_of, EventRecord, EventStore};
use crate::text::{contains, decimal};
use crate::time::Timestamp;
use vstd::prelude::*;

verus! {

/// Creates the event `name` of `community` with description `text`, counted
/// from `now`. Fails without a community, and where the event exists already;
/// the store is then left as it is.
pub fn create(
    store: &mut EventStore,
    community: Option<&str>,
    name: &str,
    text: &str,
    now: Timestamp,
) -> (r: Result<Reply, CommandError>)
    requires
        old(store).wf(),
    ensures
        final(store).wf(),
        events_of(*final(store)) == create_outcome(
            events_of(*old(store)),
            given(community),
            name@,
            text@,
            now,
        ).0,
        outcome_of(r) == create_outcome(
            events_of(*old(store)),
            given(community),
            name@,
            text@,
            now,
        ).1,
{
    let community_id = match community {
        Some(c) => c,
        None => {
            return Err(CommandError::InvalidContext);
        },
    };
    let key = EventKey::new(community_id, name);
    match store.load(&key) {
        Some(_) => Err(CommandError::AlreadyExists),
        None => {
            store.save(key, EventRecord { description: String::from_str(text), since: now });
            Ok(
                Reply {
                    text: String::from_str("Event created."),
                    visibility: Visibility::RequesterOnly,
                },
            )
        },
    }
}

/// Gives the event `name` of `community` the description `text` and keeps
/// the moment from which it is counted. Fails without a community, and where
/// there is no such event; the store is then left as it is.
pub fn update(
    store: &mut EventStore,
    community: Option<&str>,
    name: &str,
    text: &str,
) -> (r: Result<Reply, CommandError>)
    requires
        old(store).wf(),
    ensures
        final(store).wf(),
        events_of(*final(store)) == update_outcome(
            events_of(*old(store)),
            given(community),
            name@,
            text@,
        ).0,
        outcome_of(r) == update_outcome(events_of(*old(store)), given(community), name@, text@).1,
{
    let community_id = match community {
        Some(c) => c,
        None => {
            return Err(CommandError::InvalidContext);
        },
    };
    let key = EventKey::new(community_id, name);
    match store.load(&key) {
        Some(existing) => {
            store.save(
                key,
                EventRecord { description: String::from_str(text), since: existing.since },
            );
            Ok(
                Reply {
                    text: String::from_str("Event updated."),
                    visibility: Visibility::RequesterOnly,
                },
            )
        },
        None => Err(CommandError::NotFound),
    }
}

/// Tells how many whole days lie between the moment from which the event
/// `name` of `community` is counted and `now`, rounded toward zero and not
/// clamped. Fails without a community, and where there is no such event.
pub fn days_since(
    store: &EventStore,
    community: Option<&str>,
    name: &str,
    now: Timestamp,
) -> (r: Result<Reply, CommandError>)
    requires
        store.wf(),
    ensures
        outcome_of(r) == days_since_outcome(events_of(*store), given(community), name@, now),
{
    let community_id = match community {
        Some(c) => c,
        None => {
            return Err(CommandError::InvalidContext);
        },
    };
    let key = EventKey::new(community_id, name);
    match store.load(&key) {
        Some(existing) => {
            let days: i64 = existing.since.days_until(&now);
            let mut text = String::from_str("It has been ");
            text.append(decimal(days).as_str());
            text.append(" ");
            text.append(
                if days == 1 {
                    "day"
                } else {
                    "days"
                },
            );
            text.append(" since ");
            text.append(existing.description.as_str());
            text.append(".");
            Ok(Reply { text, visibility: Visibility::Public })
        },
        None => Err(CommandError::NotFound),
    }
}

/// Counts the event `name` of `community` from `now` on and keeps its
/// description. Fails without a community, and where there is no such event;
/// the store is then left as it is.
pub fn reset(
    store: &mut EventStore,
    community: Option<&str>,
    name: &str,
    now: Timestamp,
) -> (r: Result<Reply, CommandError>)
    requires
        old(store).wf(),
    ensures
        final(store).wf(),
        events_of(*final(store)) == reset_outcome(
            events_of(*old(store)),
            given(community),
            name@,
            now,
        ).0,
        outcome_of(r) == reset_outcome(events_of(*old(store)), given(community), name@, now).1,
{
    let community_id = match community {
        Some(c) => c,
        None => {
            return Err(CommandError::InvalidContext);
        },
    };
    let key = EventKey::new(community_id, name);
    match store.load(&key) {
        Some(existing) => {
            let mut text = String::from_str("It has now been 0 days since ");
            text.append(existing.description.as_str());
            text.append(".");
            store.save(key, EventRecord { description: existing.description, since: now });
            Ok(Reply { text, visibility: Visibility::Public })
        },
        None => Err(CommandError::NotFound),
    }
}

/// Takes the event `name` of `community` out of the store. Fails without a
/// community, and where there is no such event; the store is then left as it
/// is.
pub fn remove(
    store: &mut EventStore,
    community: Option<&str>,
    name: &str,
) -> (r: Result<Reply, CommandError>)
    requires
        old(store).wf(),
    ensures
        final(store).wf(),
        events_of(*final(store)) == remove_outcome(
            events_of(*old(store)),
            given(community),
            name@,
        ).0,
        outcome_of(r) == remove_outcome(events_of(*old(store)), given(community), name@).1,
{
    let community_id = match community {
        Some(c) => c,
        None => {
            return Err(CommandError::InvalidContext);
        },
    };
    let key = EventKey::new(community_id, name);
    match store.remove(&key) {
        Ok(()) => Ok(
            Reply {
                text: String::from_str("Event removed."),
                visibility: Visibility::RequesterOnly,
            },
        ),
        Err(_) => {
            assert(store@ =~= old(store)@);
            proof {
                lemma_keys_of(*old(store));
                old(store).keys().index_of_first_ensures(key@);
            }
            Err(CommandError::NotFound)
        },
    }
}

/// Lists the events of `community`, one line each, in the store's order; or
/// says that there are none. Fails only without a community.
pub fn list(store: &EventStore, community: Option<&str>) -> (r: Result<Reply, CommandError>)
    requires
        store.wf(),
    ensures
        outcome_of(r) == list_outcome(events_of(*store), given(community)),
{
    let community_id = match community {
        Some(c) => c,
        None => {
            return Err(CommandError::InvalidContext);
        },
    };
    let n: usize = store.len();
    let mut text = String::new();
    let mut any: bool = false;
    let mut i: usize = 0;
    assert(store.keys().take(0) =~= Seq::<KeyView>::empty());
    while i < n
        invariant
            store.wf(),
            i <= n,
            n == store.keys().len(),
            any == (lines_in(store.keys().take(i as int), store@, community_id@).len() > 0),
            text@ == joined(lines_in(store.keys().take(i as int), store@, community_id@)),
        decreases n - i,
    {
        let key = store.key_at(i);
        let ghost before = lines_in(store.keys().take(i as int), store@, community_id@);
        proof {
            assert(store.keys().take(i + 1).drop_last() =~= store.keys().take(i as int));
            assert(store.keys().take(i + 1).last() == store.keys()[i as int]);
            lemma_keys_of(*store);
            assert(store.keys().contains(key@));
        }
        if key.is_in(community_id) {
            match store.load(&key) {
                Some(record) => {
                    if any {
                        text.append("\n");
                    }
                    text.append(key.name.as_str());
                    text.append(": ");
                    text.append(record.description.as_str());
                    any = true;
                    proof {
                        let line = line_of(key@, store@[key@]);
                        assert(before.push(line).drop_last() =~= before);
                        assert(before.push(line).last() == line);
                        if before.len() == 0 {
                            assert(joined(before) =~= Seq::<char>::empty());
                            assert(text@ =~= line);
                        } else {
                            assert(text@ =~= joined(before) + "\n"@ + line);
                        }
                    }
                },
                None => {},
            }
        }
        i += 1;
    }
    assert(store.keys().take(n as int) =~= store.keys());
    if any {
        Ok(Reply { text, visibility: Visibility::RequesterOnly })
    } else {
        Ok(
            Reply {
                text: String::from_str("No events found"),
                visibility: Visibility::RequesterOnly,
            },
        )
    }
}

/// The names of the events of `community` that hold `partial` somewhere, with
/// regard to case, in the store's order. Without a community there are none.
pub fn autocomplete_name(
    store: &EventStore,
    community: Option<&str>,
    partial: &str,
) -> (r: Vec<String>)
    requires
        store.wf(),
    ensures
        texts(r@) == offered_names(events_of(*store), given(community), partial@),
        r@.len() == offered_names(events_of(*store), given(community), partial@).len(),
{
    let mut out: Vec<String> = Vec::new();
    assert(texts(out@) =~= Seq::<Seq<char>>::empty());
    let community_id = match community {
        Some(c) => c,
        None => {
            return out;
        },
    };
    let n: usize = store.len();
    let mut i: usize = 0;
    assert(store.keys().take(0) =~= Seq::<KeyView>::empty());
    while i < n
        invariant
            i <= n,
            n == store.keys().len(),
            texts(out@) == matching_names(store.keys().take(i as int), community_id@, partial@),
        decreases n - i,
    {
        let key = store.key_at(i);
        let ghost before = out@;
        proof {
            assert(store.keys().take(i + 1).drop_last() =~= store.keys().take(i as int));
            assert(store.keys().take(i + 1).last() == store.keys()[i as int]);
        }
        if key.is_in(community_id) && contains(key.name.as_str(), partial) {
            out.push(key.name);
            assert(texts(out@) =~= texts(before).push(key@.name));
        }
        i += 1;
    }
    assert(store.keys().take(n as int) =~= store.keys());
    out
}

} // verus!
