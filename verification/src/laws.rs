use crate::error::CommandError;
use crate::key::KeyView;
use crate::model::{
    create_outcome, day_word, days_since_outcome, days_since_text, key_view, lines_in, list_outcome,
    listing_text, matching_names, offered_names, refused, remove_outcome, reset_outcome,
    update_outcome, answered, Events,
};
use crate::reply::Visibility;
use crate::store::RecordView;
use crate::text::{decimal_text, has_substring};
use crate::time::{lemma_no_days_to_itself, Timestamp};
use vstd::prelude::*;

verus! {

proof fn lemma_push_contains<A>(s: Seq<A>, x: A, y: A)
    ensures
        s.push(x).contains(y) <==> (s.contains(y) || x == y),
{
    let t = s.push(x);
    if s.contains(y) {
        let j = choose|j: int| 0 <= j < s.len() && s[j] == y;
        assert(t[j] == y);
    }
    if x == y {
        assert(t[s.len() as int] == y);
    }
    if t.contains(y) {
        let j = choose|j: int| 0 <= j < t.len() && t[j] == y;
        if j < s.len() {
            assert(s[j] == y);
        }
    }
}

/// The lines of a community do not depend on the record of an event of
/// another community.
pub proof fn lemma_lines_ignore_other_records(
    keys: Seq<KeyView>,
    records: Map<KeyView, RecordView>,
    saved: KeyView,
    record: RecordView,
    other: Seq<char>,
)
    requires
        saved.community_id != other,
    ensures
        lines_in(keys, records.insert(saved, record), other) == lines_in(keys, records, other),
    decreases keys.len(),
{
    if keys.len() > 0 {
        lemma_lines_ignore_other_records(keys.drop_last(), records, saved, record, other);
    }
}

/// Communities are isolated: whatever comes of creating an event in one
/// community, every other community finds under each name what it found
/// before, is told the same days, lists the same lines and is offered the same
/// names.
pub proof fn lemma_create_is_isolated(
    events: Events,
    community_id: Seq<char>,
    name: Seq<char>,
    text: Seq<char>,
    now: Timestamp,
    other: Seq<char>,
    other_name: Seq<char>,
    later: Timestamp,
    partial: Seq<char>,
)
    requires
        community_id != other,
    ensures
        ({
            let after = create_outcome(events, Some(community_id), name, text, now).0;
            let other_key = key_view(other, other_name);
            &&& after.records.contains_key(other_key) == events.records.contains_key(other_key)
            &&& after.records.contains_key(other_key) ==> after.records[other_key]
                == events.records[other_key]
            &&& days_since_outcome(after, Some(other), other_name, later) == days_since_outcome(
                events,
                Some(other),
                other_name,
                later,
            )
            &&& list_outcome(after, Some(other)) == list_outcome(events, Some(other))
            &&& offered_names(after, Some(other), partial) == offered_names(
                events,
                Some(other),
                partial,
            )
        }),
{
    let key = key_view(community_id, name);
    if !events.records.contains_key(key) {
        let after = create_outcome(events, Some(community_id), name, text, now).0;
        assert(events.keys.push(key).drop_last() =~= events.keys);
        lemma_lines_ignore_other_records(events.keys, events.records, key, after.records[key], other);
    }
}

/// Creating the same event a second time fails with `AlreadyExists` and
/// leaves the events as the first time left them.
pub proof fn lemma_second_create_is_refused(
    events: Events,
    community_id: Seq<char>,
    name: Seq<char>,
    first_text: Seq<char>,
    first_now: Timestamp,
    second_text: Seq<char>,
    second_now: Timestamp,
)
    ensures
        ({
            let once = create_outcome(events, Some(community_id), name, first_text, first_now).0;
            let twice = create_outcome(once, Some(community_id), name, second_text, second_now);
            twice.0 == once && twice.1 == refused(CommandError::AlreadyExists)
        }),
{
}

/// An event that is asked about at the very moment from which it is counted
/// has been there for 0 days, in words: "0 days".
pub proof fn lemma_fresh_event_counts_zero(since: Timestamp, description: Seq<char>)
    ensures
        since.whole_days_until(since) == 0,
        days_since_text(since.whole_days_until(since), description) == "It has been 0 days since "@
            + description + "."@,
{
    lemma_no_days_to_itself(since);
    reveal_strlit("It has been ");
    reveal_strlit(" ");
    reveal_strlit("days");
    reveal_strlit(" since ");
    reveal_strlit("It has been 0 days since ");
    assert(decimal_text(0) =~= seq!['0']);
    assert(day_word(0) == "days"@);
    assert("It has been "@ + decimal_text(0) + " "@ + day_word(0) + " since "@
        =~= "It has been 0 days since "@);
}

/// An event that has just been created has been there for 0 days since its
/// description.
pub proof fn lemma_created_event_counts_zero(
    events: Events,
    community_id: Seq<char>,
    name: Seq<char>,
    text: Seq<char>,
    now: Timestamp,
)
    requires
        !events.records.contains_key(key_view(community_id, name)),
    ensures
        days_since_outcome(
            create_outcome(events, Some(community_id), name, text, now).0,
            Some(community_id),
            name,
            now,
        ) == answered("It has been 0 days since "@ + text + "."@, Visibility::Public),
{
    lemma_fresh_event_counts_zero(now, text);
}

/// A reset keeps the description, whenever it was last set, and starts the
/// count anew: asked at that moment, the event has been there for 0 days.
pub proof fn lemma_reset_starts_anew(
    events: Events,
    community_id: Seq<char>,
    name: Seq<char>,
    now: Timestamp,
)
    requires
        events.records.contains_key(key_view(community_id, name)),
    ensures
        ({
            let key = key_view(community_id, name);
            let after = reset_outcome(events, Some(community_id), name, now).0;
            &&& after.keys == events.keys
            &&& after.records.contains_key(key)
            &&& after.records[key].description == events.records[key].description
            &&& after.records[key].since == now
            &&& days_since_outcome(after, Some(community_id), name, now) == answered(
                "It has been 0 days since "@ + events.records[key].description + "."@,
                Visibility::Public,
            )
        }),
{
    lemma_fresh_event_counts_zero(now, events.records[key_view(community_id, name)].description);
}

/// An update replaces the description and nothing else: the event is counted
/// from the same moment, and every other event is as it was.
pub proof fn lemma_update_replaces_description_only(
    events: Events,
    community_id: Seq<char>,
    name: Seq<char>,
    text: Seq<char>,
    other: KeyView,
)
    requires
        events.records.contains_key(key_view(community_id, name)),
        other != key_view(community_id, name),
    ensures
        ({
            let key = key_view(community_id, name);
            let after = update_outcome(events, Some(community_id), name, text).0;
            &&& after.keys == events.keys
            &&& after.records.contains_key(key)
            &&& after.records[key].description == text
            &&& after.records[key].since == events.records[key].since
            &&& after.records.contains_key(other) == events.records.contains_key(other)
            &&& after.records.contains_key(other) ==> after.records[other] == events.records[other]
        }),
{
}

/// Once an event has been removed it is not found any more.
pub proof fn lemma_removed_event_is_gone(
    events: Events,
    community_id: Seq<char>,
    name: Seq<char>,
    now: Timestamp,
)
    ensures
        ({
            let after = remove_outcome(events, Some(community_id), name).0;
            &&& !after.records.contains_key(key_view(community_id, name))
            &&& days_since_outcome(after, Some(community_id), name, now) == refused(
                CommandError::NotFound,
            )
        }),
{
}

/// What is saved under a key is what is found under it afterwards, and
/// nothing is found under a key once it has been removed.
pub proof fn lemma_save_then_load(
    records: Map<KeyView, RecordView>,
    key: KeyView,
    record: RecordView,
)
    ensures
        records.insert(key, record).contains_key(key),
        records.insert(key, record)[key] == record,
        !records.remove(key).contains_key(key),
{
}

/// A community without events has no lines.
pub proof fn lemma_no_events_no_lines(
    keys: Seq<KeyView>,
    records: Map<KeyView, RecordView>,
    community_id: Seq<char>,
)
    requires
        forall|i: int| 0 <= i < keys.len() ==> (#[trigger] keys[i]).community_id != community_id,
    ensures
        lines_in(keys, records, community_id).len() == 0,
    decreases keys.len(),
{
    if keys.len() > 0 {
        let init = keys.drop_last();
        assert forall|i: int| 0 <= i < init.len() implies (#[trigger] init[i]).community_id
            != community_id by {
            assert(init[i] == keys[i]);
        }
        lemma_no_events_no_lines(init, records, community_id);
        assert(keys.last() == keys[keys.len() - 1]);
    }
}

/// The listing of a community without events is no error: it says that no
/// events were found.
pub proof fn lemma_listing_of_empty_community(events: Events, community_id: Seq<char>)
    requires
        forall|i: int|
            0 <= i < events.keys.len() ==> (#[trigger] events.keys[i]).community_id
                != community_id,
    ensures
        list_outcome(events, Some(community_id)) == answered(
            "No events found"@,
            Visibility::RequesterOnly,
        ),
{
    lemma_no_events_no_lines(events.keys, events.records, community_id);
    assert(listing_text(lines_in(events.keys, events.records, community_id)) == "No events found"@);
}

/// The names offered for a partial input are exactly the names of the
/// community's own events that hold the input somewhere: no name of another
/// community, and none that does not hold it.
pub proof fn lemma_matching_names_exact(
    keys: Seq<KeyView>,
    community_id: Seq<char>,
    partial: Seq<char>,
    name: Seq<char>,
)
    ensures
        matching_names(keys, community_id, partial).contains(name) <==> (has_substring(
            name,
            partial,
        ) && keys.contains(key_view(community_id, name))),
    decreases keys.len(),
{
    if keys.len() > 0 {
        let init = keys.drop_last();
        let last = keys.last();
        lemma_matching_names_exact(init, community_id, partial, name);
        assert(init.push(last) =~= keys);
        lemma_push_contains(init, last, key_view(community_id, name));
        lemma_push_contains(matching_names(init, community_id, partial), last.name, name);
    }
}

} // verus!
