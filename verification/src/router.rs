//! Sorting the messages that come in, and deciding where the answers go.

use crate::common::io_utils::match_message_type;
use crate::common::user_manager::{has_name, lookup, Directory, Entries};
use crate::model::message::{ImMessage, ImMessageView, Payload, PayloadView};
use crate::model::message_type::{kind_of_tag, MessageType};
use vstd::prelude::*;
use vstd::string::StringExecFns;

verus! {

/// What a message that came in asks for.
#[derive(Clone, Debug, PartialEq, Eq)]
pub enum Inbound {
    /// Come online with these credentials.
    Login { username: String, password: String },
    /// Send the text to everyone who is online. The name that the client
    /// wrote into the message is not kept: the server names the sender.
    Broadcast { content: String },
    /// Tell who is online.
    GetAliveList,
    /// Pass the text on to one user.
    ChatToUser { from_username: String, to_username: String, content: String },
    /// The tag is known, but what the message carries belongs to another
    /// tag. Such a message is passed over.
    Unmatched,
    /// The tag stands for no kind of message, or the message carries
    /// nothing. The connection cannot go on after it.
    Invalid,
}

/// An [`Inbound`] with its texts as sequences of characters.
pub enum InboundView {
    Login { username: Seq<char>, password: Seq<char> },
    Broadcast { content: Seq<char> },
    GetAliveList,
    ChatToUser { from_username: Seq<char>, to_username: Seq<char>, content: Seq<char> },
    Unmatched,
    Invalid,
}

impl View for Inbound {
    type V = InboundView;

    open spec fn view(&self) -> InboundView {
        match self {
            Inbound::Login { username, password } => InboundView::Login {
                username: username@,
                password: password@,
            },
            Inbound::Broadcast { content } => InboundView::Broadcast { content: content@ },
            Inbound::GetAliveList => InboundView::GetAliveList,
            Inbound::ChatToUser { from_username, to_username, content } => {
                InboundView::ChatToUser {
                    from_username: from_username@,
                    to_username: to_username@,
                    content: content@,
                }
            },
            Inbound::Unmatched => InboundView::Unmatched,
            Inbound::Invalid => InboundView::Invalid,
        }
    }
}

/// One message on its way out: what to put into the queue behind `handle`.
#[derive(Clone, Debug, PartialEq, Eq)]
pub struct Delivery {
    pub handle: u64,
    pub message_type: MessageType,
    pub payload: Payload,
}

/// A [`Delivery`] with its payload viewed.
pub struct DeliveryView {
    pub handle: u64,
    pub message_type: MessageType,
    pub payload: PayloadView,
}

impl View for Delivery {
    type V = DeliveryView;

    open spec fn view(&self) -> DeliveryView {
        DeliveryView {
            handle: self.handle,
            message_type: self.message_type,
            payload: self.payload@,
        }
    }
}

/// The deliveries of a list, each viewed.
pub open spec fn delivery_views(deliveries: Seq<Delivery>) -> Seq<DeliveryView> {
    Seq::new(deliveries.len(), |i: int| deliveries[i]@)
}

/// What a message asks for, going by its tag and by what it carries.
pub open spec fn classified(message: ImMessageView) -> InboundView {
    match (kind_of_tag(message.message_type), message.payload) {
        (None, _) => InboundView::Invalid,
        (Some(_), None) => InboundView::Invalid,
        (
            Some(MessageType::LoginMessage),
            Some(PayloadView::LoginRequest { username, password }),
        ) => InboundView::Login { username, password },
        (
            Some(MessageType::BroadcastMessage),
            Some(PayloadView::BroadcastDto { username, content }),
        ) => InboundView::Broadcast { content },
        (
            Some(MessageType::GetAliveListMessage),
            Some(PayloadView::GetAliveListRequest { username }),
        ) => InboundView::GetAliveList,
        (
            Some(MessageType::ChatToUserMessage),
            Some(PayloadView::ChatToUserDto { from_username, to_username, content }),
        ) => InboundView::ChatToUser { from_username, to_username, content },
        (Some(_), Some(_)) => InboundView::Unmatched,
    }
}

/// Sorts a message that came in by its tag and by what it carries.
pub fn classify(message: &ImMessage) -> (request: Inbound)
    ensures
        request@ == classified(message@),
{
    let kind = match match_message_type(message.message_type) {
        Some(kind) => kind,
        None => {
            return Inbound::Invalid;
        },
    };
    let payload = match &message.payload {
        Some(payload) => payload,
        None => {
            return Inbound::Invalid;
        },
    };
    match (kind, payload) {
        (MessageType::LoginMessage, Payload::LoginRequest { username, password }) => {
            Inbound::Login { username: username.clone(), password: password.clone() }
        },
        (MessageType::BroadcastMessage, Payload::BroadcastDto { username: _, content }) => {
            Inbound::Broadcast { content: content.clone() }
        },
        (MessageType::GetAliveListMessage, Payload::GetAliveListRequest { username: _ }) => {
            Inbound::GetAliveList
        },
        (
            MessageType::ChatToUserMessage,
            Payload::ChatToUserDto { from_username, to_username, content },
        ) => Inbound::ChatToUser {
            from_username: from_username.clone(),
            to_username: to_username.clone(),
            content: content.clone(),
        },
        _ => Inbound::Unmatched,
    }
}

/// The usernames of a directory, in its order.
pub open spec fn names_of(directory: Entries) -> Seq<Seq<char>> {
    Seq::new(directory.len(), |i: int| directory[i].0)
}

/// The texts of `names` in one text, with `separator` between each two.
pub open spec fn joined(names: Seq<Seq<char>>, separator: Seq<char>) -> Seq<char>
    decreases names.len(),
{
    if names.len() == 0 {
        Seq::empty()
    } else if names.len() == 1 {
        names[0]
    } else {
        joined(names.drop_last(), separator) + separator + names.last()
    }
}

/// What stands between two usernames in the list of who is online.
pub open spec fn list_separator() -> Seq<char> {
    ", "@
}

/// The copy of a broadcast that goes to the entry at `index`.
pub open spec fn broadcast_copy(
    sender: Seq<char>,
    content: Seq<char>,
    directory: Entries,
    index: int,
) -> DeliveryView {
    DeliveryView {
        handle: directory[index].1,
        message_type: MessageType::BroadcastMessage,
        payload: PayloadView::BroadcastDto { username: sender, content },
    }
}

/// The deliveries that a request leads to, as far as the directory alone
/// decides them.
///
/// `handle` is the sender's own delivery handle and `sender` the name it is
/// online under, empty where it is not. A broadcast goes once to the handle
/// of every entry, under the sender's name. The list of who is online goes
/// back to the sender alone. A text for one user goes to the handle of that
/// user, and nowhere where the user is not online. No other request is
/// answered from the directory.
pub open spec fn routed(
    handle: u64,
    sender: Seq<char>,
    request: InboundView,
    directory: Entries,
) -> Seq<DeliveryView> {
    match request {
        InboundView::Broadcast { content } => Seq::new(
            directory.len(),
            |i: int| broadcast_copy(sender, content, directory, i),
        ),
        InboundView::GetAliveList => seq![
            DeliveryView {
                handle,
                message_type: MessageType::GetAliveListMessage,
                payload: PayloadView::GetAliveListResponse {
                    usernames: joined(names_of(directory), list_separator()),
                },
            },
        ],
        InboundView::ChatToUser { from_username, to_username, content } => match lookup(
            directory,
            to_username,
        ) {
            Some(target) => seq![
                DeliveryView {
                    handle: target,
                    message_type: MessageType::ChatToUserMessage,
                    payload: PayloadView::ChatToUserDto { from_username, to_username, content },
                },
            ],
            None => Seq::empty(),
        },
        _ => Seq::empty(),
    }
}

/// The usernames in one text, with a comma and a blank between each two.
fn join_names(names: &Vec<String>) -> (text: String)
    ensures
        text@ == joined(Seq::new(names@.len(), |i: int| names@[i]@), list_separator()),
{
    let ghost all = Seq::new(names@.len(), |i: int| names@[i]@);
    let mut text = String::new();
    let mut index: usize = 0;
    while index < names.len()
        invariant
            index <= names.len(),
            all == Seq::new(names@.len(), |i: int| names@[i]@),
            text@ == joined(all.take(index as int), list_separator()),
        decreases names.len() - index,
    {
        let ghost before = all.take(index as int);
        let ghost after = all.take(index + 1);
        assert(after.drop_last() =~= before);
        assert(after.last() == names@[index as int]@);
        if index > 0 {
            text.append(", ");
        } else {
            assert(before =~= Seq::<Seq<char>>::empty());
            assert(text@ + names@[index as int]@ =~= names@[index as int]@);
        }
        text.append(names[index].as_str());
        index += 1;
    }
    assert(all.take(index as int) =~= all);
    text
}

/// Decides where a request goes: the deliveries that [`routed`] describes,
/// for a sender with the delivery handle `handle` that is online under
/// `sender`, or under no name.
pub fn route(
    handle: u64,
    sender: Option<&String>,
    request: Inbound,
    directory: &Directory,
) -> (deliveries: Vec<Delivery>)
    ensures
        delivery_views(deliveries@) == routed(
            handle,
            match sender {
                Some(name) => name@,
                None => Seq::empty(),
            },
            request@,
            directory@,
        ),
{
    let ghost name = match sender {
        Some(name) => name@,
        None => Seq::empty(),
    };
    let mut deliveries: Vec<Delivery> = Vec::new();
    match request {
        Inbound::Broadcast { content } => {
            let targets = directory.handles();
            let mut index: usize = 0;
            while index < targets.len()
                invariant
                    index <= targets.len(),
                    targets@.len() == directory@.len(),
                    forall|i: int|
                        0 <= i < targets@.len() ==> #[trigger] targets@[i] == directory@[i].1,
                    name == match sender {
                        Some(name) => name@,
                        None => Seq::empty(),
                    },
                    deliveries@.len() == index,
                    forall|i: int|
                        0 <= i < index ==> (#[trigger] deliveries@[i])@ == broadcast_copy(
                            name,
                            content@,
                            directory@,
                            i,
                        ),
                decreases targets.len() - index,
            {
                let username = match sender {
                    Some(name) => name.clone(),
                    None => String::new(),
                };
                deliveries.push(
                    Delivery {
                        handle: targets[index],
                        message_type: MessageType::BroadcastMessage,
                        payload: Payload::BroadcastDto { username, content: content.clone() },
                    },
                );
                index += 1;
            }
            assert(delivery_views(deliveries@) =~= routed(
                handle,
                name,
                request@,
                directory@,
            ));
        },
        Inbound::GetAliveList => {
            let names = directory.usernames();
            assert(Seq::new(names@.len(), |i: int| names@[i]@) =~= names_of(directory@));
            let usernames = join_names(&names);
            deliveries.push(
                Delivery {
                    handle,
                    message_type: MessageType::GetAliveListMessage,
                    payload: Payload::GetAliveListResponse { usernames },
                },
            );
            assert(delivery_views(deliveries@) =~= routed(
                handle,
                name,
                request@,
                directory@,
            ));
        },
        Inbound::ChatToUser { from_username, to_username, content } => {
            match directory.lookup(to_username.as_str()) {
                Some(target) => {
                    deliveries.push(
                        Delivery {
                            handle: target,
                            message_type: MessageType::ChatToUserMessage,
                            payload: Payload::ChatToUserDto { from_username, to_username, content },
                        },
                    );
                },
                None => {},
            }
            assert(delivery_views(deliveries@) =~= routed(
                handle,
                name,
                request@,
                directory@,
            ));
        },
        _ => {
            assert(delivery_views(deliveries@) =~= routed(
                handle,
                name,
                request@,
                directory@,
            ));
        },
    }
    deliveries
}

/// Some entry of the directory holds `handle`.
pub open spec fn holds_handle(directory: Entries, handle: u64) -> bool {
    exists|i: int| 0 <= i < directory.len() && (#[trigger] directory[i]).1 == handle
}

/// One of the deliveries goes to `handle`.
pub open spec fn reaches(deliveries: Seq<DeliveryView>, handle: u64) -> bool {
    exists|i: int| 0 <= i < deliveries.len() && (#[trigger] deliveries[i]).handle == handle
}

/// A broadcast makes one copy for each entry of the directory, in the
/// directory's order: the copy for an entry goes to the handle of that entry
/// and carries the sender's name and the text. So every session that is
/// online gets the text, the sender too if it is online, and where no two
/// entries share a handle no handle gets it twice. A handle that the
/// directory does not hold gets nothing.
pub proof fn lemma_broadcast_fan_out(
    handle: u64,
    sender: Seq<char>,
    content: Seq<char>,
    directory: Entries,
)
    ensures
        routed(handle, sender, InboundView::Broadcast { content }, directory).len()
            == directory.len(),
        forall|i: int|
            0 <= i < directory.len() ==> #[trigger] routed(
                handle,
                sender,
                InboundView::Broadcast { content },
                directory,
            )[i] == (DeliveryView {
                handle: directory[i].1,
                message_type: MessageType::BroadcastMessage,
                payload: PayloadView::BroadcastDto { username: sender, content },
            }),
        forall|target: u64|
            holds_handle(directory, target) <==> #[trigger] reaches(
                routed(handle, sender, InboundView::Broadcast { content }, directory),
                target,
            ),
        (forall|i: int, j: int|
            0 <= i < j < directory.len() ==> (#[trigger] directory[i]).1 != (
            #[trigger] directory[j]).1) ==> (forall|i: int, j: int|
            0 <= i < j < directory.len() ==> (#[trigger] routed(
                handle,
                sender,
                InboundView::Broadcast { content },
                directory,
            )[i]).handle != (#[trigger] routed(
                handle,
                sender,
                InboundView::Broadcast { content },
                directory,
            )[j]).handle),
{
    let out = routed(handle, sender, InboundView::Broadcast { content }, directory);
    assert forall|target: u64| holds_handle(directory, target) <==> #[trigger] reaches(
        out,
        target,
    ) by {
        if holds_handle(directory, target) {
            let i = choose|i: int|
                0 <= i < directory.len() && (#[trigger] directory[i]).1 == target;
            assert(out[i].handle == target);
        }
        if reaches(out, target) {
            let i = choose|i: int| 0 <= i < out.len() && (#[trigger] out[i]).handle == target;
            assert(directory[i].1 == target);
        }
    }
}

/// A text for a user who is not online is delivered to nobody.
pub proof fn lemma_direct_message_miss(
    handle: u64,
    sender: Seq<char>,
    from_username: Seq<char>,
    to_username: Seq<char>,
    content: Seq<char>,
    directory: Entries,
)
    requires
        !has_name(directory, to_username),
    ensures
        routed(
            handle,
            sender,
            InboundView::ChatToUser { from_username, to_username, content },
            directory,
        ) == Seq::<DeliveryView>::empty(),
{
}

/// Whatever is routed goes to the sender's own handle or to a handle that
/// the directory holds.
pub proof fn lemma_routed_targets(
    handle: u64,
    sender: Seq<char>,
    request: InboundView,
    directory: Entries,
    target: u64,
)
    requires
        reaches(routed(handle, sender, request, directory), target),
    ensures
        target == handle || holds_handle(directory, target),
{
    let out = routed(handle, sender, request, directory);
    let i = choose|i: int| 0 <= i < out.len() && (#[trigger] out[i]).handle == target;
    match request {
        InboundView::Broadcast { content } => {
            assert(directory[i].1 == target);
        },
        InboundView::ChatToUser { from_username, to_username, content } => {
            assert(directory[crate::common::user_manager::slot_of(directory, to_username)].1
                == target);
        },
        _ => {},
    }
}

} // verus!
