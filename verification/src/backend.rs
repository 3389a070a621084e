use crate::model::{
    events_of, given, key_view, matching_names, no_events, saved, texts,
};
use crate::error::CommandError;
use crate::key::{
    community_prefix, flat_key, is_separator_free, lemma_flat_key_splits,
    lemma_prefix_tells_communities_apart, name_in_community, separator_free, EventKey, KeyView,
};
use crate::store::{EventRecord, EventStore, RecordView};
use crate::text::{contains, has_substring};
use vstd::prelude::*;

verus! {

/// What a flat key stands for and what was read under it.
pub ghost struct StoredView {
    pub flat_key: Seq<char>,
    pub record: Option<RecordView>,
}

/// One flat key as the durable storage handed it out, with the record read
/// under it; without a record where reading it failed.
#[derive(Debug, PartialEq, Eq)]
pub struct Stored {
    pub flat_key: String,
    pub record: Option<EventRecord>,
}

impl View for Stored {
    type V = StoredView;

    open spec fn view(&self) -> StoredView {
        StoredView {
            flat_key: self.flat_key@,
            record: match self.record {
                Some(record) => Some(record@),
                None => None,
            },
        }
    }
}

/// What each of the items stands for.
pub open spec fn stored_views(items: Seq<Stored>) -> Seq<StoredView> {
    Seq::new(items.len(), |i: int| items[i]@)
}

/// Whether the flat key `flat` is one of community `community_id`.
pub open spec fn belongs_to(flat: Seq<char>, community_id: Seq<char>) -> bool {
    community_prefix(community_id).is_prefix_of(flat)
}

/// The name that a flat key of community `community_id` gives.
pub open spec fn name_within(flat: Seq<char>, community_id: Seq<char>) -> Seq<char> {
    flat.skip(community_id.len() + 1int)
}

/// Whether a record of community `community_id` could not be read.
pub open spec fn unreadable(items: Seq<StoredView>, community_id: Seq<char>) -> bool {
    exists|i: int|
        0 <= i < items.len() && belongs_to((#[trigger] items[i]).flat_key, community_id)
            && items[i].record is None
}

/// The records of community `community_id` among `items`: under each of its
/// keys the record that came last.
pub open spec fn restored_records(
    items: Seq<StoredView>,
    community_id: Seq<char>,
) -> Map<KeyView, RecordView>
    decreases items.len(),
{
    if items.len() == 0 {
        Map::empty()
    } else {
        let rest = restored_records(items.drop_last(), community_id);
        let item = items.last();
        if belongs_to(item.flat_key, community_id) && item.record is Some {
            rest.insert(
                key_view(community_id, name_within(item.flat_key, community_id)),
                item.record.unwrap(),
            )
        } else {
            rest
        }
    }
}

/// The keys of community `community_id` among `items`, each once, in the
/// order in which they first came.
pub open spec fn restored_keys(items: Seq<StoredView>, community_id: Seq<char>) -> Seq<KeyView>
    decreases items.len(),
{
    if items.len() == 0 {
        Seq::empty()
    } else {
        let rest = restored_keys(items.drop_last(), community_id);
        let item = items.last();
        let key = key_view(community_id, name_within(item.flat_key, community_id));
        if belongs_to(item.flat_key, community_id) && item.record is Some && !restored_records(
            items.drop_last(),
            community_id,
        ).contains_key(key) {
            rest.push(key)
        } else {
            rest
        }
    }
}

/// The names that the flat keys of community `community_id` give and that
/// hold `partial`, in the order of the keys.
pub open spec fn flat_matching(
    flat_keys: Seq<Seq<char>>,
    community_id: Seq<char>,
    partial: Seq<char>,
) -> Seq<Seq<char>>
    decreases flat_keys.len(),
{
    if flat_keys.len() == 0 {
        Seq::empty()
    } else {
        let rest = flat_matching(flat_keys.drop_last(), community_id, partial);
        let flat = flat_keys.last();
        if belongs_to(flat, community_id) && has_substring(
            name_within(flat, community_id),
            partial,
        ) {
            rest.push(name_within(flat, community_id))
        } else {
            rest
        }
    }
}

/// Whether flat keys can tell the events of `community` from those of every
/// other community: there is a community, and its id holds no separator.
pub open spec fn usable(community: Option<Seq<char>>) -> bool {
    community is Some && separator_free(community.unwrap())
}

/// The community that a command is for, where flat keys can stand for its
/// events: `InvalidContext` without a community, and for a community id that
/// holds the separator.
pub fn community_context<'a>(community: Option<&'a str>) -> (r: Result<&'a str, CommandError>)
    ensures
        r is Ok <==> usable(given(community)),
        r is Ok ==> r.unwrap()@ == community.unwrap()@,
        r is Err ==> r.unwrap_err() == CommandError::InvalidContext,
{
    match community {
        Some(community_id) => {
            if is_separator_free(community_id) {
                Ok(community_id)
            } else {
                Err(CommandError::InvalidContext)
            }
        },
        None => Err(CommandError::InvalidContext),
    }
}

/// The names offered straight from the flat keys: none without a usable
/// community or without the keys; else those that the keys of the community
/// give and that hold `partial`.
pub open spec fn suggested(
    community: Option<Seq<char>>,
    enumeration: Option<&Vec<String>>,
    partial: Seq<char>,
) -> Seq<Seq<char>> {
    if usable(community) && enumeration is Some {
        flat_matching(texts(enumeration.unwrap()@), community.unwrap(), partial)
    } else {
        Seq::empty()
    }
}

/// Builds the store that holds no more than the one event `name` of community
/// `community_id`, from the outcome of reading its record: `Ok(Some(..))` with
/// the record that was read, `Ok(None)` where there is none, `Err` where
/// reading failed. Fails with `InvalidContext` for a community id that holds
/// the separator, else with `StoreFailure` exactly where reading failed.
pub fn restore_one(community_id: &str, name: &str, read: Result<Option<EventRecord>, ()>) -> (r:
    Result<EventStore, CommandError>)
    ensures
        r is Ok <==> (separator_free(community_id@) && read is Ok),
        r is Err ==> r.unwrap_err() == (if separator_free(community_id@) {
            CommandError::StoreFailure
        } else {
            CommandError::InvalidContext
        }),
        r is Ok ==> r.unwrap().wf(),
        r is Ok ==> events_of(r.unwrap()) == (match read.unwrap() {
            Some(record) => saved(no_events(), key_view(community_id@, name@), record@),
            None => no_events(),
        }),
{
    if !is_separator_free(community_id) {
        return Err(CommandError::InvalidContext);
    }
    let mut store = EventStore::new();
    match read {
        Ok(Some(record)) => {
            store.save(EventKey::new(community_id, name), record);
            Ok(store)
        },
        Ok(None) => Ok(store),
        Err(_) => Err(CommandError::StoreFailure),
    }
}

/// Builds the store of one community from what the durable storage handed
/// out. Fails with `InvalidContext` for a community id that holds the
/// separator; else with `StoreFailure` where the keys could not be enumerated
/// (`enumeration` is `None`) or a record of the community could not be read.
/// Keys of other communities are passed over, readable or not.
pub fn restore(community_id: &str, enumeration: Option<Vec<Stored>>) -> (r: Result<EventStore, CommandError>)
    ensures
        r is Err <==> (!separator_free(community_id@) || enumeration is None
            || unreadable(stored_views(enumeration.unwrap()@), community_id@)),
        r is Err ==> r.unwrap_err() == (if separator_free(community_id@) {
            CommandError::StoreFailure
        } else {
            CommandError::InvalidContext
        }),
        r is Ok ==> r.unwrap().wf(),
        r is Ok ==> r.unwrap()@
            == restored_records(stored_views(enumeration.unwrap()@), community_id@),
        r is Ok ==> r.unwrap().keys()
            == restored_keys(stored_views(enumeration.unwrap()@), community_id@),
{
    if !is_separator_free(community_id) {
        return Err(CommandError::InvalidContext);
    }
    let items = match enumeration {
        Some(items) => items,
        None => {
            return Err(CommandError::StoreFailure);
        },
    };
    let ghost all = stored_views(items@);
    let mut store = EventStore::new();
    let mut i: usize = 0;
    assert(all.take(0) =~= Seq::<StoredView>::empty());
    while i < items.len()
        invariant
            i <= items.len(),
            all == stored_views(items@),
            enumeration == Some(items),
            separator_free(community_id@),
            store.wf(),
            !unreadable(all.take(i as int), community_id@),
            store@ == restored_records(all.take(i as int), community_id@),
            store.keys() == restored_keys(all.take(i as int), community_id@),
        decreases items.len() - i,
    {
        proof {
            assert(all.take(i + 1).drop_last() =~= all.take(i as int));
            assert(all.take(i + 1).last() == items@[i as int]@);
        }
        match name_in_community(items[i].flat_key.as_str(), community_id) {
            Some(name) => {
                match &items[i].record {
                    Some(record) => {
                        let key = EventKey::new(community_id, name.as_str());
                        store.save(key, record.clone());
                    },
                    None => {
                        assert(all[i as int] == items@[i as int]@);
                        assert(unreadable(all, community_id@));
                        return Err(CommandError::StoreFailure);
                    },
                }
            },
            None => {},
        }
        proof {
            let next = all.take(i + 1);
            if unreadable(next, community_id@) {
                let j = choose|j: int|
                    0 <= j < next.len() && belongs_to((#[trigger] next[j]).flat_key, community_id@)
                        && next[j].record is None;
                if j < i {
                    assert(all.take(i as int)[j] == next[j]);
                }
            }
        }
        i += 1;
    }
    assert(all.take(items.len() as int) =~= all);
    Ok(store)
}

/// The names to offer for the partial input `partial`, straight from the flat
/// keys that the durable storage enumerated: those of the keys of `community`
/// whose name holds `partial`, in the order of the keys. Nothing is offered
/// without a community, for a community id that holds the separator, or where
/// the keys could not be enumerated.
pub fn suggest_names(
    community: Option<&str>,
    enumeration: Option<&Vec<String>>,
    partial: &str,
) -> (r: Vec<String>)
    ensures
        texts(r@) == suggested(given(community), enumeration, partial@),
        r@.len() == suggested(given(community), enumeration, partial@).len(),
{
    let mut out: Vec<String> = Vec::new();
    assert(texts(out@) =~= Seq::<Seq<char>>::empty());
    let community_id = match community_context(community) {
        Ok(c) => c,
        Err(_) => {
            return out;
        },
    };
    let flat_keys = match enumeration {
        Some(keys) => keys,
        None => {
            return out;
        },
    };
    let ghost all = texts(flat_keys@);
    let mut i: usize = 0;
    assert(all.take(0) =~= Seq::<Seq<char>>::empty());
    while i < flat_keys.len()
        invariant
            i <= flat_keys.len(),
            all == texts(flat_keys@),
            separator_free(community_id@),
            texts(out@) == flat_matching(all.take(i as int), community_id@, partial@),
        decreases flat_keys.len() - i,
    {
        let ghost before = out@;
        proof {
            assert(all.take(i + 1).drop_last() =~= all.take(i as int));
            assert(all.take(i + 1).last() == flat_keys@[i as int]@);
        }
        match name_in_community(flat_keys[i].as_str(), community_id) {
            Some(name) => {
                if contains(name.as_str(), partial) {
                    out.push(name);
                    assert(texts(out@) =~= texts(before).push(
                        name_within(flat_keys@[i as int]@, community_id@),
                    ));
                }
            },
            None => {},
        }
        i += 1;
    }
    assert(all.take(flat_keys.len() as int) =~= all);
    out
}

/// A restored store holds events of its own community only.
pub proof fn lemma_restored_records_are_own(
    items: Seq<StoredView>,
    community_id: Seq<char>,
    key: KeyView,
)
    requires
        restored_records(items, community_id).contains_key(key),
    ensures
        key.community_id == community_id,
    decreases items.len(),
{
    if items.len() > 0 {
        if restored_records(items.drop_last(), community_id).contains_key(key) {
            lemma_restored_records_are_own(items.drop_last(), community_id, key);
        }
    }
}

/// The flat keys of the events `keys`, in the same order.
pub open spec fn flat_keys_of(keys: Seq<KeyView>) -> Seq<Seq<char>> {
    Seq::new(keys.len(), |i: int| flat_key(keys[i].community_id, keys[i].name))
}

/// Offering names from the flat keys gives what offering them from the events
/// themselves gives, as long as no community holds the separator: telling the
/// communities apart by the prefix of the flat key neither lets in an event of
/// another community nor leaves out one of its own.
pub proof fn lemma_flat_matching_agrees(
    keys: Seq<KeyView>,
    community_id: Seq<char>,
    partial: Seq<char>,
)
    requires
        separator_free(community_id),
        forall|i: int| 0 <= i < keys.len() ==> separator_free((#[trigger] keys[i]).community_id),
    ensures
        flat_matching(flat_keys_of(keys), community_id, partial) == matching_names(
            keys,
            community_id,
            partial,
        ),
    decreases keys.len(),
{
    if keys.len() > 0 {
        let init = keys.drop_last();
        let last = keys.last();
        assert forall|i: int| 0 <= i < init.len() implies separator_free(
            (#[trigger] init[i]).community_id,
        ) by {
            assert(init[i] == keys[i]);
        }
        lemma_flat_matching_agrees(init, community_id, partial);
        assert(flat_keys_of(keys).drop_last() =~= flat_keys_of(init));
        assert(last == keys[keys.len() - 1]);
        if last.community_id == community_id {
            lemma_flat_key_splits(last.community_id, last.name);
        } else {
            lemma_prefix_tells_communities_apart(last.community_id, last.name, community_id);
        }
    }
}

} // verus!
