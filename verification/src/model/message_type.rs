//! The kinds of message and their tags.

use vstd::prelude::*;

verus! {

/// The kinds of message that travel over a connection, in the order of
/// their tags on the wire.
#[derive(Clone, Copy, Debug, PartialEq, Eq, Structural)]
pub enum MessageType {
    LoginMessage,
    BroadcastMessage,
    GetAliveListMessage,
    ChatToUserMessage,
}

/// The kind that a tag stands for, if it stands for one.
pub open spec fn kind_of_tag(tag: int) -> Option<MessageType> {
    if tag == 0 {
        Some(MessageType::LoginMessage)
    } else if tag == 1 {
        Some(MessageType::BroadcastMessage)
    } else if tag == 2 {
        Some(MessageType::GetAliveListMessage)
    } else if tag == 3 {
        Some(MessageType::ChatToUserMessage)
    } else {
        None
    }
}

impl MessageType {
    /// The tag of this kind on the wire.
    pub open spec fn tag(self) -> int {
        match self {
            MessageType::LoginMessage => 0,
            MessageType::BroadcastMessage => 1,
            MessageType::GetAliveListMessage => 2,
            MessageType::ChatToUserMessage => 3,
        }
    }

    pub fn from_index(index: usize) -> (kind: Option<Self>)
        ensures
            kind == kind_of_tag(index as int),
    {
        match index {
            0 => Some(MessageType::LoginMessage),
            1 => Some(MessageType::BroadcastMessage),
            2 => Some(MessageType::GetAliveListMessage),
            3 => Some(MessageType::ChatToUserMessage),
            _ => None,
        }
    }

    /// The tag as it is written into a structured message.
    pub fn number(self) -> (tag: i32)
        ensures
            tag == self.tag(),
    {
        match self {
            MessageType::LoginMessage => 0,
            MessageType::BroadcastMessage => 1,
            MessageType::GetAliveListMessage => 2,
            MessageType::ChatToUserMessage => 3,
        }
    }
}

/// Every kind is found again from its own tag, and a tag that stands for a
/// kind is the tag of that kind.
pub proof fn lemma_tag_round_trip(kind: MessageType, tag: int)
    ensures
        kind_of_tag(kind.tag()) == Some(kind),
        kind_of_tag(tag) is Some ==> kind_of_tag(tag).unwrap().tag() == tag,
        kind_of_tag(tag) is Some <==> 0 <= tag <= 3,
{
}

} // verus!
