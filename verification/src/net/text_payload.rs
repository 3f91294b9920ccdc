//! Text payloads: the fields of a request or an answer in one text, with a
//! separator between each two.

use crate::model::message::{Payload, PayloadView};
use crate::model::message_type::{kind_of_tag, MessageType};
use crate::router::{Inbound, InboundView};
use vstd::prelude::*;
use vstd::std_specs::iter::IteratorSpec;
use vstd::string::{StrSliceExecFns, StringExecFns};

verus! {

/// The character that stands between the fields of a text payload.
pub open spec fn separator() -> char {
    '#'
}

/// `at` is where the first separator of `text` stands: every character
/// before it is another one.
pub open spec fn is_first_separator(text: Seq<char>, at: int) -> bool {
    &&& 0 <= at < text.len()
    &&& text[at] == separator()
    &&& forall|i: int| 0 <= i < at ==> text[i] != separator()
}

/// The field before the first separator of `text` and what follows that
/// separator, if the text holds one.
pub open spec fn split_once(text: Seq<char>) -> Option<(Seq<char>, Seq<char>)> {
    if exists|at: int| is_first_separator(text, at) {
        let at = choose|at: int| is_first_separator(text, at);
        Some((text.take(at), text.skip(at + 1)))
    } else {
        None
    }
}

/// Two fields with a separator between them.
pub open spec fn joined_fields(left: Seq<char>, right: Seq<char>) -> Seq<char> {
    left + seq![separator()] + right
}

/// What a text frame asks for, going by the kind that its tag stands for
/// and by the fields of its text.
///
/// A login is a username and a password; a broadcast is the sender's name
/// and the text to send, of which the name is not kept; the request for the
/// list of who is online is the sender's name and nothing more; a text for
/// one user is the sender's name, the name it is for, and the text. The last
/// field takes all that is left, separators too. A tag that stands for no
/// kind, and a text with too few fields, make the frame invalid.
pub open spec fn request_of_text(kind: Option<MessageType>, text: Seq<char>) -> InboundView {
    match kind {
        None => InboundView::Invalid,
        Some(MessageType::LoginMessage) => match split_once(text) {
            Some((username, password)) => InboundView::Login { username, password },
            None => InboundView::Invalid,
        },
        Some(MessageType::BroadcastMessage) => match split_once(text) {
            Some((_, content)) => InboundView::Broadcast { content },
            None => InboundView::Invalid,
        },
        Some(MessageType::GetAliveListMessage) => InboundView::GetAliveList,
        Some(MessageType::ChatToUserMessage) => match split_once(text) {
            Some((from_username, rest)) => match split_once(rest) {
                Some((to_username, content)) => InboundView::ChatToUser {
                    from_username,
                    to_username,
                    content,
                },
                None => InboundView::Invalid,
            },
            None => InboundView::Invalid,
        },
    }
}

/// The text that carries a payload: its fields in their order, with a
/// separator between each two.
pub open spec fn text_of_payload(payload: PayloadView) -> Seq<char> {
    match payload {
        PayloadView::LoginRequest { username, password } => joined_fields(username, password),
        PayloadView::LoginResponse { username } => username,
        PayloadView::BroadcastDto { username, content } => joined_fields(username, content),
        PayloadView::GetAliveListRequest { username } => username,
        PayloadView::GetAliveListResponse { usernames } => usernames,
        PayloadView::ChatToUserDto { from_username, to_username, content } => joined_fields(
            from_username,
            joined_fields(to_username, content),
        ),
    }
}

/// Cuts `text` at its first separator.
fn cut(text: &str) -> (parts: Option<(String, String)>)
    ensures
        match parts {
            Some(pair) => split_once(text@) == Some((pair.0@, pair.1@)),
            None => split_once(text@) is None,
        },
{
    let length = text.unicode_len();
    let mut index: usize = 0;
    for c in iter: text.chars()
        invariant
            iter.seq() == text@,
            index == iter.index(),
            length == text@.len(),
            forall|i: int| 0 <= i < index ==> text@[i] != separator(),
    {
        if c == '#' {
            assert(is_first_separator(text@, index as int));
            let left = text.substring_char(0, index);
            let right = text.substring_char(index + 1, length);
            return Some((left.to_owned(), right.to_owned()));
        }
        index += 1;
    }
    None
}

/// Reads the text of a frame that came in under the tag `message_type`.
pub fn parse_request(message_type: usize, text: &str) -> (request: Inbound)
    ensures
        request@ == request_of_text(kind_of_tag(message_type as int), text@),
{
    let kind = match MessageType::from_index(message_type) {
        Some(kind) => kind,
        None => {
            return Inbound::Invalid;
        },
    };
    match kind {
        MessageType::LoginMessage => match cut(text) {
            Some((username, password)) => Inbound::Login { username, password },
            None => Inbound::Invalid,
        },
        MessageType::BroadcastMessage => match cut(text) {
            Some((_, content)) => Inbound::Broadcast { content },
            None => Inbound::Invalid,
        },
        MessageType::GetAliveListMessage => Inbound::GetAliveList,
        MessageType::ChatToUserMessage => match cut(text) {
            Some((from_username, rest)) => match cut(rest.as_str()) {
                Some((to_username, content)) => Inbound::ChatToUser {
                    from_username,
                    to_username,
                    content,
                },
                None => Inbound::Invalid,
            },
            None => Inbound::Invalid,
        },
    }
}

/// Two fields in one text, with a separator between them.
fn join_fields(left: &str, right: &str) -> (text: String)
    ensures
        text@ == joined_fields(left@, right@),
{
    proof {
        reveal_strlit("#");
    }
    let mut text = left.to_owned();
    text.append("#");
    text.append(right);
    assert("#"@ =~= seq![separator()]);
    text
}

/// Writes a payload as the text of a frame.
pub fn render_payload(payload: &Payload) -> (text: String)
    ensures
        text@ == text_of_payload(payload@),
{
    match payload {
        Payload::LoginRequest { username, password } => join_fields(
            username.as_str(),
            password.as_str(),
        ),
        Payload::LoginResponse { username } => username.clone(),
        Payload::BroadcastDto { username, content } => join_fields(
            username.as_str(),
            content.as_str(),
        ),
        Payload::GetAliveListRequest { username } => username.clone(),
        Payload::GetAliveListResponse { usernames } => usernames.clone(),
        Payload::ChatToUserDto { from_username, to_username, content } => {
            let rest = join_fields(to_username.as_str(), content.as_str());
            join_fields(from_username.as_str(), rest.as_str())
        },
    }
}

/// A field that holds no separator is found again in front of what was
/// joined behind it, whatever that holds.
pub proof fn lemma_split_undoes_join(left: Seq<char>, right: Seq<char>)
    requires
        !left.contains(separator()),
    ensures
        split_once(joined_fields(left, right)) == Some((left, right)),
{
    let text = joined_fields(left, right);
    let at = left.len() as int;
    assert(is_first_separator(text, at)) by {
        assert forall|i: int| 0 <= i < at implies text[i] != separator() by {
            assert(text[i] == left[i]);
        }
    }
    let chosen = choose|at: int| is_first_separator(text, at);
    assert(chosen == at);
    assert(text.take(at) =~= left);
    assert(text.skip(at + 1) =~= right);
}

/// A text without a separator does not split, and a text that splits is
/// its two parts with a separator between them.
pub proof fn lemma_join_undoes_split(text: Seq<char>)
    ensures
        split_once(text) is None <==> !text.contains(separator()),
        split_once(text) matches Some(parts) ==> !parts.0.contains(separator()) && text
            == joined_fields(parts.0, parts.1),
{
    if text.contains(separator()) {
        lemma_first_separator_exists(text, text.len() as int);
    }
    if exists|at: int| is_first_separator(text, at) {
        let at = choose|at: int| is_first_separator(text, at);
        assert(text[at] == separator());
        assert(text =~= joined_fields(text.take(at), text.skip(at + 1)));
    }
}

/// Among the first `upto` characters, a separator that is there has a first
/// one.
proof fn lemma_first_separator_exists(text: Seq<char>, upto: int)
    requires
        0 <= upto <= text.len(),
        exists|i: int| 0 <= i < upto && text[i] == separator(),
    ensures
        exists|at: int| is_first_separator(text, at),
    decreases upto,
{
    let last = upto - 1;
    if exists|i: int| 0 <= i < last && text[i] == separator() {
        lemma_first_separator_exists(text, last);
    } else {
        assert(is_first_separator(text, last));
    }
}

/// What a client writes is what the server reads: a request whose names
/// hold no separator, written as text, is read back as the request that the
/// structured message of the same content makes.
pub proof fn lemma_text_request_round_trip(payload: PayloadView)
    ensures
        payload matches PayloadView::LoginRequest { username, password } ==> (!username.contains(
            separator(),
        ) ==> request_of_text(Some(MessageType::LoginMessage), text_of_payload(payload))
            == (InboundView::Login { username, password })),
        payload matches PayloadView::BroadcastDto { username, content } ==> (!username.contains(
            separator(),
        ) ==> request_of_text(Some(MessageType::BroadcastMessage), text_of_payload(payload))
            == (InboundView::Broadcast { content })),
        payload matches PayloadView::GetAliveListRequest { username } ==> request_of_text(
            Some(MessageType::GetAliveListMessage),
            text_of_payload(payload),
        ) == InboundView::GetAliveList,
        payload matches PayloadView::ChatToUserDto { from_username, to_username, content } ==> (
        !from_username.contains(separator()) && !to_username.contains(separator())
            ==> request_of_text(Some(MessageType::ChatToUserMessage), text_of_payload(payload))
            == (InboundView::ChatToUser { from_username, to_username, content })),
{
    match payload {
        PayloadView::LoginRequest { username, password } => {
            if !username.contains(separator()) {
                lemma_split_undoes_join(username, password);
            }
        },
        PayloadView::BroadcastDto { username, content } => {
            if !username.contains(separator()) {
                lemma_split_undoes_join(username, content);
            }
        },
        PayloadView::ChatToUserDto { from_username, to_username, content } => {
            if !from_username.contains(separator()) && !to_username.contains(separator()) {
                lemma_split_undoes_join(from_username, joined_fields(to_username, content));
                lemma_split_undoes_join(to_username, content);
            }
        },
        _ => {},
    }
}

} // verus!
