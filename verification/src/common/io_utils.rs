//! Reading the tag of a structured message.

use crate::model::message_type::{kind_of_tag, MessageType};
use vstd::prelude::*;

verus! {

/// The kind of message that the tag of a structured message stands for.
pub fn match_message_type(message_type: i32) -> (kind: Option<MessageType>)
    ensures
        kind == kind_of_tag(message_type as int),
{
    match message_type {
        0 => Some(MessageType::LoginMessage),
        1 => Some(MessageType::BroadcastMessage),
        2 => Some(MessageType::GetAliveListMessage),
        3 => Some(MessageType::ChatToUserMessage),
        _ => None,
    }
}

} // verus!
