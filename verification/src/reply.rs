use crate::text::skip_chars;
use vstd::prelude::*;

verus! {

/// The character that, at the start of a text, marks it as meant for the
/// person who gave the command alone.
pub const MARKER: char = '*';

/// Who gets to see a reply.
#[derive(Clone, Copy, Debug, PartialEq, Eq, Structural)]
pub enum Visibility {
    /// Everybody in the conversation.
    Public,
    /// Only the person who gave the command.
    RequesterOnly,
}

/// What a reply says and who sees it.
pub ghost struct ReplyView {
    pub text: Seq<char>,
    pub visibility: Visibility,
}

/// The answer to a command.
#[derive(Debug, PartialEq, Eq)]
pub struct Reply {
    pub text: String,
    pub visibility: Visibility,
}

impl View for Reply {
    type V = ReplyView;

    open spec fn view(&self) -> ReplyView {
        ReplyView { text: self.text@, visibility: self.visibility }
    }
}

/// Whether `content` begins with the marker.
pub open spec fn begins_with_marker(content: Seq<char>) -> bool {
    content.len() > 0 && content[0] == MARKER
}

/// The reply that a text stands for under the marker convention: without a
/// marker at its start it is public and unchanged; with one it is for the
/// requester only and loses that one marker, and no more.
pub open spec fn unmarked(content: Seq<char>) -> ReplyView {
    if begins_with_marker(content) {
        ReplyView { text: content.skip(1), visibility: Visibility::RequesterOnly }
    } else {
        ReplyView { text: content, visibility: Visibility::Public }
    }
}

/// The reply that a text stands for where its audience may have been decided
/// already: what was decided stands and the text is left alone; only
/// without a decision is the marker convention read off the text.
pub open spec fn settled(content: Seq<char>, decided: Option<Visibility>) -> ReplyView {
    match decided {
        Some(visibility) => ReplyView { text: content, visibility },
        None => unmarked(content),
    }
}

/// The text that carries `reply` under the marker convention: one marker in
/// front of what is for the requester only.
pub open spec fn marked_text(reply: ReplyView) -> Seq<char> {
    if reply.visibility == Visibility::RequesterOnly {
        seq![MARKER] + reply.text
    } else {
        reply.text
    }
}

impl Reply {
    /// The reply as one text under the marker convention.
    pub fn marked(&self) -> (r: String)
        ensures
            r@ == marked_text(self@),
    {
        match self.visibility {
            Visibility::RequesterOnly => {
                proof {
                    reveal_strlit("*");
                }
                let r = String::from_str("*").concat(self.text.as_str());
                assert(r@ =~= seq![MARKER] + self.text@);
                r
            },
            Visibility::Public => self.text.clone(),
        }
    }
}

/// Every reply for the requester only is read back unchanged from the text
/// that carries it, whatever its own text begins with; a public reply is,
/// unless its own text begins with a marker.
pub proof fn lemma_marker_round_trip(reply: ReplyView)
    ensures
        reply.visibility == Visibility::RequesterOnly ==> unmarked(marked_text(reply)) == reply,
        reply.visibility == Visibility::Public && !begins_with_marker(reply.text) ==> unmarked(
            marked_text(reply),
        ) == reply,
{
    if reply.visibility == Visibility::RequesterOnly {
        assert(marked_text(reply).skip(1) =~= reply.text);
    }
}

/// Reads the marker convention off a text: see [`unmarked`].
pub fn maybe_make_ephemeral(content: &str) -> (r: Reply)
    ensures
        r@ == unmarked(content@),
{
    if content.unicode_len() > 0 && content.get_char(0) == MARKER {
        Reply { text: skip_chars(content, 1), visibility: Visibility::RequesterOnly }
    } else {
        Reply { text: String::from_str(content), visibility: Visibility::Public }
    }
}

/// The reply that `content` stands for where its audience may have been
/// decided already: see [`settled`].
pub fn settle(content: &str, decided: Option<Visibility>) -> (r: Reply)
    ensures
        r@ == settled(content@, decided),
{
    match decided {
        Some(visibility) => Reply { text: String::from_str(content), visibility },
        None => maybe_make_ephemeral(content),
    }
}

} // verus!
