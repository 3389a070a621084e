use crate::text::{chars_of, skip_chars, starts_with};
use vstd::prelude::*;

verus! {

/// The character that stands between the community and the name in a flat key.
pub const SEPARATOR: char = ':';

/// Whether `s` holds no separator.
pub open spec fn separator_free(s: Seq<char>) -> bool {
    forall|i: int| 0 <= i < s.len() ==> s[i] != SEPARATOR
}

/// What every flat key of community `community_id` begins with: the
/// community and the separator.
pub open spec fn community_prefix(community_id: Seq<char>) -> Seq<char> {
    community_id.push(SEPARATOR)
}

/// The flat key of the event `name` of community `community_id`.
pub open spec fn flat_key(community_id: Seq<char>, name: Seq<char>) -> Seq<char> {
    community_prefix(community_id) + name
}

/// What identifies an event: its community and its name within it.
pub ghost struct KeyView {
    pub community_id: Seq<char>,
    pub name: Seq<char>,
}

/// The key of an event: the community that owns it and its name there.
#[derive(Debug, PartialEq, Eq)]
pub struct EventKey {
    pub community_id: String,
    pub name: String,
}

impl View for EventKey {
    type V = KeyView;

    open spec fn view(&self) -> KeyView {
        KeyView { community_id: self.community_id@, name: self.name@ }
    }
}

impl Clone for EventKey {
    fn clone(&self) -> (r: Self)
        ensures
            r@ == self@,
    {
        EventKey { community_id: self.community_id.clone(), name: self.name.clone() }
    }
}

impl EventKey {
    /// The key of event `name` in community `community_id`.
    pub fn new(community_id: &str, name: &str) -> (r: EventKey)
        ensures
            r@ == (KeyView { community_id: community_id@, name: name@ }),
    {
        EventKey { community_id: String::from_str(community_id), name: String::from_str(name) }
    }

    /// Whether the two keys name the same event of the same community.
    pub fn same_as(&self, other: &EventKey) -> (r: bool)
        ensures
            r == (self@ == other@),
    {
        self.community_id == other.community_id && self.name == other.name
    }

    /// Whether the key belongs to community `community_id`.
    pub fn is_in(&self, community_id: &str) -> (r: bool)
        ensures
            r == (self@.community_id == community_id@),
    {
        let own: &str = self.community_id.as_str();
        assert(own@.subrange(0, own@.len() as int) =~= own@);
        own.unicode_len() == community_id.unicode_len() && starts_with(own, community_id)
    }

    /// The key as one string: community, separator, name. There is none
    /// where the community holds the separator: such a string would also be
    /// the key of an event of another community.
    pub fn encode(&self) -> (r: Option<String>)
        ensures
            r is Some <==> separator_free(self@.community_id),
            r is Some ==> r.unwrap()@ == flat_key(self@.community_id, self@.name),
    {
        if !is_separator_free(self.community_id.as_str()) {
            return None;
        }
        proof {
            reveal_strlit(":");
        }
        let r = self.community_id.clone().concat(":").concat(self.name.as_str());
        assert(r@ =~= flat_key(self@.community_id, self@.name));
        Some(r)
    }
}

/// Whether `s` holds no separator.
pub fn is_separator_free(s: &str) -> (r: bool)
    ensures
        r == separator_free(s@),
{
    let chars = chars_of(s);
    let mut i: usize = 0;
    while i < chars.len()
        invariant
            i <= chars.len(),
            chars@ == s@,
            forall|j: int| 0 <= j < i ==> chars@[j] != SEPARATOR,
        decreases chars.len() - i,
    {
        if chars[i] == SEPARATOR {
            return false;
        }
        i += 1;
    }
    true
}

/// The name that the flat key `flat` gives within community `community_id`:
/// what follows the community and the separator. `None` when the key does not
/// begin with exactly that, and for a community that holds the separator,
/// which has no flat keys.
pub fn name_in_community(flat: &str, community_id: &str) -> (r: Option<String>)
    ensures
        r is Some <==> (separator_free(community_id@) && community_prefix(
            community_id@,
        ).is_prefix_of(flat@)),
        r is Some ==> r.unwrap()@ == flat@.skip(community_id@.len() + 1int),
{
    if !is_separator_free(community_id) {
        return None;
    }
    proof {
        reveal_strlit(":");
    }
    let prefix = String::from_str(community_id).concat(":");
    assert(prefix@ =~= community_prefix(community_id@));
    if starts_with(flat, prefix.as_str()) {
        let n: usize = prefix.as_str().unicode_len();
        Some(skip_chars(flat, n))
    } else {
        None
    }
}

/// A flat key begins with the prefix of its own community, and what follows
/// the prefix is the name.
pub proof fn lemma_flat_key_splits(community_id: Seq<char>, name: Seq<char>)
    ensures
        community_prefix(community_id).is_prefix_of(flat_key(community_id, name)),
        flat_key(community_id, name).skip(community_id.len() + 1int) == name,
{
    let flat = flat_key(community_id, name);
    assert(flat.subrange(0, community_id.len() + 1int) =~= community_prefix(community_id));
    assert(flat.skip(community_id.len() + 1int) =~= name);
}

/// A flat key never begins with the prefix of another community, as long as
/// neither community holds the separator: not even where one community is the
/// beginning of the other.
pub proof fn lemma_prefix_tells_communities_apart(
    owner: Seq<char>,
    name: Seq<char>,
    other: Seq<char>,
)
    requires
        separator_free(owner),
        separator_free(other),
        owner != other,
    ensures
        !community_prefix(other).is_prefix_of(flat_key(owner, name)),
{
    let flat = flat_key(owner, name);
    let prefix = community_prefix(other);
    if prefix.is_prefix_of(flat) {
        assert(forall|i: int| 0 <= i < prefix.len() ==> prefix[i] == flat.subrange(0, prefix.len() as int)[i]);
        if other.len() < owner.len() {
            assert(prefix[other.len() as int] == SEPARATOR);
            assert(flat[other.len() as int] == owner[other.len() as int]);
            assert(flat.subrange(0, prefix.len() as int)[other.len() as int] == flat[other.len() as int]);
        } else if other.len() > owner.len() {
            assert(flat[owner.len() as int] == SEPARATOR);
            assert(prefix[owner.len() as int] == other[owner.len() as int]);
            assert(flat.subrange(0, prefix.len() as int)[owner.len() as int] == flat[owner.len() as int]);
        } else {
            assert forall|i: int| 0 <= i < owner.len() implies owner[i] == other[i] by {
                assert(prefix[i] == other[i]);
                assert(flat[i] == owner[i]);
                assert(flat.subrange(0, prefix.len() as int)[i] == flat[i]);
            }
            assert(owner =~= other);
        }
    }
}

/// Two events with the same flat key are the same event of the same
/// community, as long as neither community holds the separator: that is, for
/// all the keys that have a flat form.
pub proof fn lemma_flat_key_injective(a: KeyView, b: KeyView)
    requires
        separator_free(a.community_id),
        separator_free(b.community_id),
        flat_key(a.community_id, a.name) == flat_key(b.community_id, b.name),
    ensures
        a == b,
{
    lemma_flat_key_splits(a.community_id, a.name);
    lemma_flat_key_splits(b.community_id, b.name);
    if a.community_id != b.community_id {
        lemma_prefix_tells_communities_apart(a.community_id, a.name, b.community_id);
    }
}

} // verus!
