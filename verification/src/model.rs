use crate::error::CommandError;
use crate::key::KeyView;
use crate::reply::{Reply, ReplyView, Visibility};
use crate::store::{EventStore, RecordView};
use crate::text::{decimal_text, has_substring};
use crate::time::Timestamp;
use vstd::prelude::*;

verus! {

/// The events that a store holds: the keys in the store's order, and the
/// record under each.
pub ghost struct Events {
    pub keys: Seq<KeyView>,
    pub records: Map<KeyView, RecordView>,
}

/// What a command gives back: a reply, or why there is none.
pub type Outcome = Result<ReplyView, CommandError>;

/// No events at all.
pub open spec fn no_events() -> Events {
    Events { keys: Seq::empty(), records: Map::empty() }
}

/// The events of `store`.
pub open spec fn events_of(store: EventStore) -> Events {
    Events { keys: store.keys(), records: store@ }
}

/// The text that was given, if one was.
pub open spec fn given(text: Option<&str>) -> Option<Seq<char>> {
    match text {
        Some(t) => Some(t@),
        None => None,
    }
}

/// What the result of a command says.
pub open spec fn outcome_of(r: Result<Reply, CommandError>) -> Outcome {
    match r {
        Ok(reply) => Ok(reply@),
        Err(error) => Err(error),
    }
}

/// What each of the strings holds.
pub open spec fn texts(strings: Seq<String>) -> Seq<Seq<char>> {
    Seq::new(strings.len(), |i: int| strings[i]@)
}

/// The key of event `name` in community `community_id`.
pub open spec fn key_view(community_id: Seq<char>, name: Seq<char>) -> KeyView {
    KeyView { community_id, name }
}

/// The record with text `description`, counted from `since`.
pub open spec fn record_view(description: Seq<char>, since: Timestamp) -> RecordView {
    RecordView { description, since }
}

/// The reply that says `text` to those whom `visibility` names.
pub open spec fn reply_view(text: Seq<char>, visibility: Visibility) -> ReplyView {
    ReplyView { text, visibility }
}

/// The outcome of a command that answers `text` to those whom `visibility`
/// names.
pub open spec fn answered(text: Seq<char>, visibility: Visibility) -> Outcome {
    Ok(reply_view(text, visibility))
}

/// The outcome of a command that is refused with `error`.
pub open spec fn refused(error: CommandError) -> Outcome {
    Err(error)
}

/// The events once `record` is saved under `key`: in place of the record that
/// the key had, or else as the last of the events.
pub open spec fn saved(events: Events, key: KeyView, record: RecordView) -> Events {
    Events {
        keys: if events.records.contains_key(key) {
            events.keys
        } else {
            events.keys.push(key)
        },
        records: events.records.insert(key, record),
    }
}

/// The events once `key` is taken out; the others keep their order.
pub open spec fn removed(events: Events, key: KeyView) -> Events {
    Events { keys: events.keys.remove_value(key), records: events.records.remove(key) }
}

/// "day" for exactly one day, "days" for every other count.
pub open spec fn day_word(days: int) -> Seq<char> {
    if days == 1 {
        "day"@
    } else {
        "days"@
    }
}

/// The sentence that tells how many days have gone by since an event.
pub open spec fn days_since_text(days: int, description: Seq<char>) -> Seq<char> {
    "It has been "@ + decimal_text(days) + " "@ + day_word(days) + " since "@ + description + "."@
}

/// The sentence that tells that an event's count starts anew.
pub open spec fn reset_text(description: Seq<char>) -> Seq<char> {
    "It has now been 0 days since "@ + description + "."@
}

/// The line that a listing shows for an event.
pub open spec fn line_of(key: KeyView, record: RecordView) -> Seq<char> {
    key.name + ": "@ + record.description
}

/// The lines of the events of `community_id`, in the order of `keys`.
pub open spec fn lines_in(
    keys: Seq<KeyView>,
    records: Map<KeyView, RecordView>,
    community_id: Seq<char>,
) -> Seq<Seq<char>>
    decreases keys.len(),
{
    if keys.len() == 0 {
        Seq::empty()
    } else {
        let rest = lines_in(keys.drop_last(), records, community_id);
        let key = keys.last();
        if key.community_id == community_id {
            rest.push(line_of(key, records[key]))
        } else {
            rest
        }
    }
}

/// The lines with a line feed between each two, and none at the end.
pub open spec fn joined(lines: Seq<Seq<char>>) -> Seq<char>
    decreases lines.len(),
{
    if lines.len() == 0 {
        Seq::empty()
    } else if lines.len() == 1 {
        lines[0]
    } else {
        joined(lines.drop_last()) + "\n"@ + lines.last()
    }
}

/// What a listing says: the joined lines, or that there are no events.
pub open spec fn listing_text(lines: Seq<Seq<char>>) -> Seq<char> {
    if lines.len() == 0 {
        "No events found"@
    } else {
        joined(lines)
    }
}

/// The names of the events of `community_id` that hold `partial`, in the
/// order of `keys`.
pub open spec fn matching_names(
    keys: Seq<KeyView>,
    community_id: Seq<char>,
    partial: Seq<char>,
) -> Seq<Seq<char>>
    decreases keys.len(),
{
    if keys.len() == 0 {
        Seq::empty()
    } else {
        let rest = matching_names(keys.drop_last(), community_id, partial);
        let key = keys.last();
        if key.community_id == community_id && has_substring(key.name, partial) {
            rest.push(key.name)
        } else {
            rest
        }
    }
}

/// Creating an event: refused without a community and where the event
/// exists; else the event is saved with the description `text`, counted from
/// `now`.
pub open spec fn create_outcome(
    events: Events,
    community: Option<Seq<char>>,
    name: Seq<char>,
    text: Seq<char>,
    now: Timestamp,
) -> (Events, Outcome) {
    match community {
        None => (events, refused(CommandError::InvalidContext)),
        Some(community_id) => {
            let key = key_view(community_id, name);
            if events.records.contains_key(key) {
                (events, refused(CommandError::AlreadyExists))
            } else {
                (
                    saved(events, key, record_view(text, now)),
                    answered("Event created."@, Visibility::RequesterOnly),
                )
            }
        },
    }
}

/// Updating an event: refused without a community and where there is no such
/// event; else the description becomes `text` and the moment from which the
/// event is counted stays.
pub open spec fn update_outcome(
    events: Events,
    community: Option<Seq<char>>,
    name: Seq<char>,
    text: Seq<char>,
) -> (Events, Outcome) {
    match community {
        None => (events, refused(CommandError::InvalidContext)),
        Some(community_id) => {
            let key = key_view(community_id, name);
            if !events.records.contains_key(key) {
                (events, refused(CommandError::NotFound))
            } else {
                (
                    saved(events, key, record_view(text, events.records[key].since)),
                    answered("Event updated."@, Visibility::RequesterOnly),
                )
            }
        },
    }
}

/// Asking for the days since an event: refused without a community and where
/// there is no such event; else the whole days from the moment from which the
/// event is counted to `now`, rounded toward zero, with the description.
pub open spec fn days_since_outcome(
    events: Events,
    community: Option<Seq<char>>,
    name: Seq<char>,
    now: Timestamp,
) -> Outcome {
    match community {
        None => refused(CommandError::InvalidContext),
        Some(community_id) => {
            let key = key_view(community_id, name);
            if !events.records.contains_key(key) {
                refused(CommandError::NotFound)
            } else {
                answered(
                    days_since_text(
                        events.records[key].since.whole_days_until(now),
                        events.records[key].description,
                    ),
                    Visibility::Public,
                )
            }
        },
    }
}

/// Resetting an event: refused without a community and where there is no
/// such event; else the event is counted from `now` and its description stays.
pub open spec fn reset_outcome(
    events: Events,
    community: Option<Seq<char>>,
    name: Seq<char>,
    now: Timestamp,
) -> (Events, Outcome) {
    match community {
        None => (events, refused(CommandError::InvalidContext)),
        Some(community_id) => {
            let key = key_view(community_id, name);
            if !events.records.contains_key(key) {
                (events, refused(CommandError::NotFound))
            } else {
                (
                    saved(events, key, record_view(events.records[key].description, now)),
                    answered(reset_text(events.records[key].description), Visibility::Public),
                )
            }
        },
    }
}

/// Removing an event: refused without a community and where there is no such
/// event; else the event is taken out.
pub open spec fn remove_outcome(
    events: Events,
    community: Option<Seq<char>>,
    name: Seq<char>,
) -> (Events, Outcome) {
    match community {
        None => (events, refused(CommandError::InvalidContext)),
        Some(community_id) => {
            let key = key_view(community_id, name);
            if !events.records.contains_key(key) {
                (events, refused(CommandError::NotFound))
            } else {
                (
                    removed(events, key),
                    answered("Event removed."@, Visibility::RequesterOnly),
                )
            }
        },
    }
}

/// Listing the events of a community: refused without a community; else one
/// line for each of its events, or the word that there are none.
pub open spec fn list_outcome(events: Events, community: Option<Seq<char>>) -> Outcome {
    match community {
        None => refused(CommandError::InvalidContext),
        Some(community_id) => answered(
            listing_text(lines_in(events.keys, events.records, community_id)),
            Visibility::RequesterOnly,
        ),
    }
}

/// The names offered for the partial input `partial`: none without a
/// community; else those of the community's events that hold the input.
pub open spec fn offered_names(
    events: Events,
    community: Option<Seq<char>>,
    partial: Seq<char>,
) -> Seq<Seq<char>> {
    match community {
        None => Seq::empty(),
        Some(community_id) => matching_names(events.keys, community_id, partial),
    }
}

} // verus!
