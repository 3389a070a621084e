use crate::reply::{Reply, ReplyView, Visibility};
use vstd::prelude::*;

verus! {

/// Why a command did not go through.
#[derive(Clone, Copy, Debug, PartialEq, Eq, Structural)]
pub enum CommandError {
    /// An event of that name already exists in the community.
    AlreadyExists,
    /// No event of that name exists in the community.
    NotFound,
    /// The command came without a community.
    InvalidContext,
    /// The durable storage behind the events failed.
    StoreFailure,
}

impl CommandError {
    /// The text that `message` gives for each error.
    pub open spec fn message_text(self) -> Seq<char> {
        match self {
            CommandError::AlreadyExists => "Event already exists."@,
            CommandError::NotFound => "Event does not exist."@,
            CommandError::InvalidContext => "Invalid guild"@,
            CommandError::StoreFailure => "Event store failure."@,
        }
    }

    /// Who gets to see the error: a clash with what the store holds is for
    /// the requester alone.
    pub open spec fn audience(self) -> Visibility {
        match self {
            CommandError::AlreadyExists => Visibility::RequesterOnly,
            CommandError::NotFound => Visibility::RequesterOnly,
            CommandError::InvalidContext => Visibility::Public,
            CommandError::StoreFailure => Visibility::Public,
        }
    }

    /// The error as a reply: its message, for its audience.
    pub fn reply(&self) -> (r: Reply)
        ensures
            r@ == (ReplyView { text: self.message_text(), visibility: self.audience() }),
    {
        let visibility = match self {
            CommandError::AlreadyExists => Visibility::RequesterOnly,
            CommandError::NotFound => Visibility::RequesterOnly,
            CommandError::InvalidContext => Visibility::Public,
            CommandError::StoreFailure => Visibility::Public,
        };
        Reply { text: self.message(), visibility }
    }

    /// A short message for the person who gave the command.
    pub fn message(&self) -> (r: String)
        ensures
            r@ == self.message_text(),
    {
        match self {
            CommandError::AlreadyExists => String::from_str("Event already exists."),
            CommandError::NotFound => String::from_str("Event does not exist."),
            CommandError::InvalidContext => String::from_str("Invalid guild"),
            CommandError::StoreFailure => String::from_str("Event store failure."),
        }
    }
}

} // verus!
