//! Structured messages and what they carry.

use crate::model::message_type::MessageType;
use vstd::prelude::*;

verus! {

/// What a structured message carries.
#[derive(Clone, Debug, PartialEq, Eq)]
pub enum Payload {
    /// A client asks to come online.
    LoginRequest { username: String, password: String },
    /// The answer to a login: the username that is now online, or the text
    /// that marks a refusal.
    LoginResponse { username: String },
    /// Text for everyone who is online, with the name of who sent it.
    BroadcastDto { username: String, content: String },
    /// A client asks who is online.
    GetAliveListRequest { username: String },
    /// The usernames that are online, in one text.
    GetAliveListResponse { usernames: String },
    /// Text from one user for one other user.
    ChatToUserDto { from_username: String, to_username: String, content: String },
}

/// A [`Payload`] with its texts as sequences of characters.
pub enum PayloadView {
    LoginRequest { username: Seq<char>, password: Seq<char> },
    LoginResponse { username: Seq<char> },
    BroadcastDto { username: Seq<char>, content: Seq<char> },
    GetAliveListRequest { username: Seq<char> },
    GetAliveListResponse { usernames: Seq<char> },
    ChatToUserDto { from_username: Seq<char>, to_username: Seq<char>, content: Seq<char> },
}

impl View for Payload {
    type V = PayloadView;

    open spec fn view(&self) -> PayloadView {
        match self {
            Payload::LoginRequest { username, password } => PayloadView::LoginRequest {
                username: username@,
                password: password@,
            },
            Payload::LoginResponse { username } => PayloadView::LoginResponse {
                username: username@,
            },
            Payload::BroadcastDto { username, content } => PayloadView::BroadcastDto {
                username: username@,
                content: content@,
            },
            Payload::GetAliveListRequest { username } => PayloadView::GetAliveListRequest {
                username: username@,
            },
            Payload::GetAliveListResponse { usernames } => PayloadView::GetAliveListResponse {
                usernames: usernames@,
            },
            Payload::ChatToUserDto { from_username, to_username, content } => {
                PayloadView::ChatToUserDto {
                    from_username: from_username@,
                    to_username: to_username@,
                    content: content@,
                }
            },
        }
    }
}

/// One structured message as it travels in a frame: the tag of its kind and
/// what it carries.
#[derive(Clone, Debug, PartialEq, Eq)]
pub struct ImMessage {
    pub message_type: i32,
    pub payload: Option<Payload>,
}

/// An [`ImMessage`] with its payload viewed.
pub struct ImMessageView {
    pub message_type: int,
    pub payload: Option<PayloadView>,
}

impl View for ImMessage {
    type V = ImMessageView;

    open spec fn view(&self) -> ImMessageView {
        ImMessageView {
            message_type: self.message_type as int,
            payload: match self.payload {
                Some(payload) => Some(payload@),
                None => None,
            },
        }
    }
}

impl ImMessage {
    /// The message that carries `payload` to a client under the tag of
    /// `message_type`.
    pub fn outbound(message_type: MessageType, payload: Payload) -> (message: Self)
        ensures
            message@ == (ImMessageView {
                message_type: message_type.tag(),
                payload: Some(payload@),
            }),
    {
        ImMessage { message_type: message_type.number(), payload: Some(payload) }
    }
}

} // verus!
