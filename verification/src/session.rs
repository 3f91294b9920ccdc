//! One connection as the server sees it: whether it is logged in, and what
//! each request does to it and to the directory.

use crate::common::user_manager::{
    distinct_names, has_name, lemma_lookup_finds_entry, lemma_lookup_registered,
    lemma_lookup_unregistered, lookup, register_user, registered, slot_of, unregister_user,
    unregistered, Directory, Entries,
};
use crate::model::message::{ImMessage, ImMessageView, Payload, PayloadView};
use crate::model::message_type::MessageType;
use crate::model::user::{User, UserView};
use crate::router::{
    broadcast_copy, classified, classify, delivery_views, holds_handle, lemma_routed_targets,
    reaches, route, routed, Delivery, DeliveryView, Inbound, InboundView,
};
use crate::service::user_service::{accepted, login};
use vstd::prelude::*;

verus! {

/// Where a connection stands.
#[derive(Clone, Debug, PartialEq, Eq)]
pub enum SessionState {
    /// Accepted, not logged in.
    Connected,
    /// Logged in under `username`, which stays the same from then on.
    Authenticated { username: String },
    /// Over. Nothing is done for a closed connection.
    Closed,
}

/// A [`SessionState`] with the username as a sequence of characters.
pub enum StateView {
    Connected,
    Authenticated { username: Seq<char> },
    Closed,
}

impl View for SessionState {
    type V = StateView;

    open spec fn view(&self) -> StateView {
        match self {
            SessionState::Connected => StateView::Connected,
            SessionState::Authenticated { username } => StateView::Authenticated {
                username: username@,
            },
            SessionState::Closed => StateView::Closed,
        }
    }
}

/// The server's side of one connection: the handle of its own outbound
/// queue, and where it stands.
pub struct Session {
    handle: u64,
    state: SessionState,
}

/// What a [`Session`] holds.
pub struct SessionView {
    pub handle: u64,
    pub state: StateView,
}

impl View for Session {
    type V = SessionView;

    closed spec fn view(&self) -> SessionView {
        SessionView { handle: self.handle, state: self.state@ }
    }
}

/// Gives every connection a delivery handle of its own.
pub struct Handles {
    next: u64,
}

impl Handles {
    /// How many handles were given out. They are the numbers below this
    /// one.
    pub closed spec fn given(&self) -> nat {
        self.next as nat
    }

    /// A source that has given out no handle yet.
    pub fn new() -> (handles: Self)
        ensures
            handles.given() == 0,
    {
        Handles { next: 0 }
    }

    /// The session of a connection that was just accepted, with a handle
    /// that no session had before: the next number. `None` when the numbers
    /// are used up.
    pub fn accept(&mut self) -> (session: Option<Session>)
        ensures
            match session {
                Some(session) => {
                    &&& old(self).given() < u64::MAX
                    &&& session@ == (SessionView {
                        handle: old(self).given() as u64,
                        state: StateView::Connected,
                    })
                    &&& final(self).given() == old(self).given() + 1
                },
                None => old(self).given() == u64::MAX && final(self).given() == old(self).given(),
            },
    {
        if self.next == u64::MAX {
            return None;
        }
        let handle = self.next;
        self.next = handle + 1;
        Some(Session::new(handle))
    }
}

/// A session, the directory, and what is to be sent, after one step.
pub struct Step {
    pub session: SessionView,
    pub directory: Entries,
    pub deliveries: Seq<DeliveryView>,
}

/// The text that a refused login is answered with. It says nothing of why
/// the login was refused.
pub open spec fn refusal() -> Seq<char> {
    "Invalid login attempt"@
}

/// The answer to a login, for the queue behind `handle`.
pub open spec fn login_answer(handle: u64, username: Seq<char>) -> DeliveryView {
    DeliveryView {
        handle,
        message_type: MessageType::LoginMessage,
        payload: PayloadView::LoginResponse { username },
    }
}

/// The name that a session's broadcasts go out under: its username once it
/// is logged in, and the empty text before.
pub open spec fn sender_name(session: SessionView) -> Seq<char> {
    match session.state {
        StateView::Authenticated { username } => username,
        _ => Seq::empty(),
    }
}

/// The step that the outcome of a credential check leads to.
///
/// A connection that is not logged in and whose credentials were accepted
/// comes online under the accepted username, which displaces whoever was
/// online under that name, and is told its username. Every other login is
/// answered with [`refusal`] and changes nothing: credentials that were
/// refused, and any login on a connection that is logged in already. A
/// closed connection is not answered.
pub open spec fn after_login(
    session: SessionView,
    directory: Entries,
    outcome: Option<UserView>,
) -> Step {
    match (session.state, outcome) {
        (StateView::Closed, _) => Step { session, directory, deliveries: Seq::empty() },
        (StateView::Connected, Some(user)) => Step {
            session: SessionView {
                handle: session.handle,
                state: StateView::Authenticated { username: user.username },
            },
            directory: registered(directory, user.username, session.handle),
            deliveries: seq![login_answer(session.handle, user.username)],
        },
        _ => Step { session, directory, deliveries: seq![login_answer(session.handle, refusal())] },
    }
}

/// The end of a connection: it is closed, and the name it was logged in
/// under is taken out of the directory.
///
/// The directory goes by names. A session that a later login under its name
/// has displaced is not closed by that login; when it ends, it takes the
/// entry of its name away, which by then is the entry of the later session.
pub open spec fn after_close(session: SessionView, directory: Entries) -> Step {
    Step {
        session: SessionView { handle: session.handle, state: StateView::Closed },
        directory: match session.state {
            StateView::Authenticated { username } => unregistered(directory, username),
            _ => directory,
        },
        deliveries: Seq::empty(),
    }
}

/// The step after a delivery could not be put into the queue behind
/// `handle`: a session whose own queue fails is over, and the failure of
/// another session's queue is no concern of this one.
pub open spec fn after_failed_delivery(
    session: SessionView,
    directory: Entries,
    handle: u64,
) -> Step {
    if handle == session.handle {
        after_close(session, directory)
    } else {
        Step { session, directory, deliveries: Seq::empty() }
    }
}

/// The step that a request leads to, where `outcome` is what the credential
/// check said of a login.
///
/// A request that cannot be read ends the connection. A login goes by
/// [`after_login`]. Every other request changes nothing and is answered as
/// [`routed`] says.
pub open spec fn after_request(
    session: SessionView,
    directory: Entries,
    request: InboundView,
    outcome: Option<UserView>,
) -> Step {
    if session.state is Closed {
        Step { session, directory, deliveries: Seq::empty() }
    } else {
        match request {
            InboundView::Invalid => after_close(session, directory),
            InboundView::Login { username, password } => after_login(session, directory, outcome),
            _ => Step {
                session,
                directory,
                deliveries: routed(session.handle, sender_name(session), request, directory),
            },
        }
    }
}

/// What the user store says of the credentials in a login request.
pub open spec fn checked(request: InboundView) -> Option<UserView> {
    match request {
        InboundView::Login { username, password } => if accepted(UserView { username, password }) {
            Some(UserView { username, password })
        } else {
            None
        },
        _ => None,
    }
}

/// The step that a message leads to, with credentials checked against the
/// user store.
pub open spec fn after_message(
    session: SessionView,
    directory: Entries,
    message: ImMessageView,
) -> Step {
    after_request(session, directory, classified(message), checked(classified(message)))
}

impl Session {
    /// The session of a connection that was just accepted, whose outbound
    /// queue is behind `handle`.
    pub fn new(handle: u64) -> (session: Self)
        ensures
            session@ == (SessionView { handle, state: StateView::Connected }),
    {
        Session { handle, state: SessionState::Connected }
    }

    /// The handle of this session's own outbound queue.
    pub fn handle(&self) -> (handle: u64)
        ensures
            handle == self@.handle,
    {
        self.handle
    }

    /// Where the session stands.
    pub fn state(&self) -> (state: &SessionState)
        ensures
            state@ == self@.state,
    {
        &self.state
    }

    /// The name the session is logged in under, if it is.
    pub fn username(&self) -> (username: Option<&String>)
        ensures
            match username {
                Some(name) => self@.state == (StateView::Authenticated { username: name@ }),
                None => !(self@.state is Authenticated),
            },
    {
        match &self.state {
            SessionState::Authenticated { username } => Some(username),
            _ => None,
        }
    }

    /// Whether the session is over.
    pub fn is_closed(&self) -> (closed: bool)
        ensures
            closed == (self@.state is Closed),
    {
        match &self.state {
            SessionState::Closed => true,
            _ => false,
        }
    }

    /// Takes the outcome of a credential check: brings the session online
    /// where it may come online, and gives the answer for the client.
    pub fn complete_login(
        &mut self,
        directory: &mut Directory,
        outcome: Option<User>,
    ) -> (deliveries: Vec<Delivery>)
        ensures
            (Step {
                session: final(self)@,
                directory: final(directory)@,
                deliveries: delivery_views(deliveries@),
            }) == after_login(
                old(self)@,
                old(directory)@,
                match outcome {
                    Some(user) => Some(user@),
                    None => None,
                },
            ),
            distinct_names(final(directory)@),
    {
        let mut deliveries: Vec<Delivery> = Vec::new();
        proof {
            use_type_invariant(&*directory);
        }
        match (&self.state, outcome) {
            (SessionState::Closed, _) => {},
            (SessionState::Connected, Some(user)) => {
                register_user(directory, user.username.clone(), self.handle);
                deliveries.push(
                    Delivery {
                        handle: self.handle,
                        message_type: MessageType::LoginMessage,
                        payload: Payload::LoginResponse { username: user.username.clone() },
                    },
                );
                self.state = SessionState::Authenticated { username: user.username };
            },
            _ => {
                deliveries.push(
                    Delivery {
                        handle: self.handle,
                        message_type: MessageType::LoginMessage,
                        payload: Payload::LoginResponse {
                            username: "Invalid login attempt".to_owned(),
                        },
                    },
                );
            },
        }
        assert(delivery_views(deliveries@) =~= after_login(
            old(self)@,
            old(directory)@,
            match outcome {
                Some(user) => Some(user@),
                None => None,
            },
        ).deliveries);
        deliveries
    }

    /// Ends the session and takes its username out of the directory.
    pub fn close(&mut self, directory: &mut Directory)
        ensures
            (Step {
                session: final(self)@,
                directory: final(directory)@,
                deliveries: Seq::empty(),
            }) == after_close(old(self)@, old(directory)@),
            distinct_names(final(directory)@),
    {
        proof {
            use_type_invariant(&*directory);
        }
        match &self.state {
            SessionState::Authenticated { username } => {
                unregister_user(directory, username.as_str());
            },
            _ => {},
        }
        self.state = SessionState::Closed;
    }

    /// Takes note that a delivery could not be put into the queue behind
    /// `handle`, and ends the session if that queue is its own.
    pub fn delivery_failed(&mut self, directory: &mut Directory, handle: u64)
        ensures
            (Step {
                session: final(self)@,
                directory: final(directory)@,
                deliveries: Seq::empty(),
            }) == after_failed_delivery(old(self)@, old(directory)@, handle),
            distinct_names(final(directory)@),
    {
        proof {
            use_type_invariant(&*directory);
        }
        if handle == self.handle {
            self.close(directory);
        }
    }

    /// Takes one request, for which the credential check said `outcome` if
    /// it is a login, and gives what is to be sent.
    pub fn handle_request(
        &mut self,
        directory: &mut Directory,
        request: Inbound,
        outcome: Option<User>,
    ) -> (deliveries: Vec<Delivery>)
        ensures
            (Step {
                session: final(self)@,
                directory: final(directory)@,
                deliveries: delivery_views(deliveries@),
            }) == after_request(
                old(self)@,
                old(directory)@,
                request@,
                match outcome {
                    Some(user) => Some(user@),
                    None => None,
                },
            ),
            distinct_names(final(directory)@),
    {
        proof {
            use_type_invariant(&*directory);
        }
        if self.is_closed() {
            let deliveries: Vec<Delivery> = Vec::new();
            assert(delivery_views(deliveries@) =~= Seq::<DeliveryView>::empty());
            return deliveries;
        }
        match request {
            Inbound::Invalid => {
                self.close(directory);
                let deliveries: Vec<Delivery> = Vec::new();
                assert(delivery_views(deliveries@) =~= Seq::<DeliveryView>::empty());
                deliveries
            },
            Inbound::Login { username: _, password: _ } => self.complete_login(directory, outcome),
            request => route(self.handle, self.username(), request, directory),
        }
    }

    /// Takes one message that came in: sorts it, checks the credentials of a
    /// login against the user store, and gives what is to be sent.
    pub fn handle_message(
        &mut self,
        directory: &mut Directory,
        message: &ImMessage,
    ) -> (deliveries: Vec<Delivery>)
        ensures
            (Step {
                session: final(self)@,
                directory: final(directory)@,
                deliveries: delivery_views(deliveries@),
            }) == after_message(old(self)@, old(directory)@, message@),
            distinct_names(final(directory)@),
    {
        let request = classify(message);
        let outcome = match &request {
            Inbound::Login { username, password } => login(
                User::new(username.clone(), password.clone()),
            ),
            _ => None,
        };
        self.handle_request(directory, request, outcome)
    }
}

/// Every entry that holds the session's handle stands under the name that
/// the session is logged in under. A session that is not logged in has no
/// entry.
pub open spec fn owns_its_entries(session: SessionView, directory: Entries) -> bool {
    forall|i: int|
        0 <= i < directory.len() && (#[trigger] directory[i]).1 == session.handle
            ==> session.state == (StateView::Authenticated { username: directory[i].0 })
}

/// Two logins that are refused and a third that is accepted, on a connection
/// that was not logged in: the connection is then logged in under the
/// accepted name and no other, the directory holds one entry for that name,
/// with the connection's handle, and is otherwise as it was. The refused
/// logins were answered with the refusal and changed nothing.
pub proof fn lemma_login_retry(handle: u64, directory: Entries, user: UserView)
    requires
        distinct_names(directory),
    ensures
        ({
            let fresh = SessionView { handle, state: StateView::Connected };
            let first = after_login(fresh, directory, None);
            let second = after_login(first.session, first.directory, None);
            let third = after_login(second.session, second.directory, Some(user));
            &&& first == (Step {
                session: fresh,
                directory,
                deliveries: seq![login_answer(handle, refusal())],
            })
            &&& second == first
            &&& third.session.state == (StateView::Authenticated { username: user.username })
            &&& third.directory == registered(directory, user.username, handle)
            &&& distinct_names(third.directory)
            &&& lookup(third.directory, user.username) == Some(handle)
            &&& forall|other: Seq<char>|
                other != user.username ==> #[trigger] lookup(third.directory, other) == lookup(
                    directory,
                    other,
                )
            &&& third.deliveries == seq![login_answer(handle, user.username)]
        }),
{
    assert forall|other: Seq<char>| true implies #[trigger] lookup(
        registered(directory, user.username, handle),
        other,
    ) == if other == user.username {
        Some(handle)
    } else {
        lookup(directory, other)
    } by {
        lemma_lookup_registered(directory, user.username, handle, other);
    }
}

/// Once a connection is logged in, no later login changes the name it is
/// logged in under, nor the directory.
pub proof fn lemma_username_is_kept(
    session: SessionView,
    directory: Entries,
    outcome: Option<UserView>,
)
    requires
        session.state is Authenticated,
    ensures
        after_login(session, directory, outcome).session == session,
        after_login(session, directory, outcome).directory == directory,
{
}

/// A broadcast from a session reaches the handle of every entry once, names
/// the session as the sender whatever name the client wrote, and changes
/// neither the session nor the directory.
pub proof fn lemma_broadcast_names_the_sender(
    session: SessionView,
    directory: Entries,
    claimed: Seq<char>,
    content: Seq<char>,
)
    requires
        !(session.state is Closed),
    ensures
        after_message(
            session,
            directory,
            ImMessageView {
                message_type: 1,
                payload: Some(PayloadView::BroadcastDto { username: claimed, content }),
            },
        ) == (Step {
            session,
            directory,
            deliveries: Seq::new(
                directory.len(),
                |i: int| broadcast_copy(sender_name(session), content, directory, i),
            ),
        }),
{
}

/// A text for a user who is not online is delivered to nobody, and the
/// sender's connection goes on as it was.
pub proof fn lemma_direct_message_miss_keeps_session(
    session: SessionView,
    directory: Entries,
    from_username: Seq<char>,
    to_username: Seq<char>,
    content: Seq<char>,
)
    requires
        !has_name(directory, to_username),
    ensures
        after_message(
            session,
            directory,
            ImMessageView {
                message_type: 3,
                payload: Some(PayloadView::ChatToUserDto { from_username, to_username, content }),
            },
        ) == (Step { session, directory, deliveries: Seq::empty() }),
{
}

/// The end of a session whose entries are its own leaves no entry with its
/// handle, and none under its name.
pub proof fn lemma_close_takes_session_offline(session: SessionView, directory: Entries)
    requires
        distinct_names(directory),
        owns_its_entries(session, directory),
    ensures
        after_close(session, directory).session.state is Closed,
        distinct_names(after_close(session, directory).directory),
        !holds_handle(after_close(session, directory).directory, session.handle),
        session.state matches StateView::Authenticated { username } ==> !has_name(
            after_close(session, directory).directory,
            username,
        ),
{
    let after = after_close(session, directory).directory;
    match session.state {
        StateView::Authenticated { username } => {
            lemma_lookup_unregistered(directory, username, username);
            if holds_handle(after, session.handle) {
                let i = choose|i: int|
                    0 <= i < after.len() && (#[trigger] after[i]).1 == session.handle;
                let at = slot_of(directory, username);
                let source = if i < at {
                    i
                } else {
                    i + 1
                };
                assert(has_name(directory, username)) by {
                    if !has_name(directory, username) {
                        assert(directory[i].1 == session.handle);
                    }
                }
                assert(after[i] == directory[source]);
                lemma_lookup_finds_entry(directory, source);
            }
        },
        _ => {
            if holds_handle(after, session.handle) {
                let i = choose|i: int|
                    0 <= i < after.len() && (#[trigger] after[i]).1 == session.handle;
                assert(directory[i].1 == session.handle);
            }
        },
    }
}

/// Whatever a session does, its entries stay its own, and the directory
/// keeps to one entry for each name.
pub proof fn lemma_step_keeps_own_entries(
    session: SessionView,
    directory: Entries,
    request: InboundView,
    outcome: Option<UserView>,
)
    requires
        distinct_names(directory),
        owns_its_entries(session, directory),
    ensures
        distinct_names(after_request(session, directory, request, outcome).directory),
        owns_its_entries(
            after_request(session, directory, request, outcome).session,
            after_request(session, directory, request, outcome).directory,
        ),
{
    let step = after_request(session, directory, request, outcome);
    if step.directory != directory {
        if request is Invalid {
            lemma_close_takes_session_offline(session, directory);
            assert forall|i: int|
                0 <= i < step.directory.len() implies (#[trigger] step.directory[i]).1
                != session.handle by {}
        } else {
            let user = outcome.unwrap();
            lemma_registration_moves_one_entry(directory, user.username, session.handle);
        }
    }
}

/// A registration changes, of all entries, only the one under the name
/// that is registered.
proof fn lemma_registration_moves_one_entry(directory: Entries, name: Seq<char>, handle: u64)
    requires
        distinct_names(directory),
    ensures
        distinct_names(registered(directory, name, handle)),
        forall|i: int|
            0 <= i < registered(directory, name, handle).len() ==> (#[trigger] registered(
                directory,
                name,
                handle,
            )[i]) == (name, handle) || (i < directory.len() && registered(
                directory,
                name,
                handle,
            )[i] == directory[i]),
{
    lemma_lookup_registered(directory, name, handle, name);
}

/// Whatever another session does, the entries of a session stay its own: a
/// session puts no handle but its own into the directory.
pub proof fn lemma_step_of_another_keeps_entries(
    watcher: SessionView,
    actor: SessionView,
    directory: Entries,
    request: InboundView,
    outcome: Option<UserView>,
)
    requires
        watcher.handle != actor.handle,
        distinct_names(directory),
        owns_its_entries(watcher, directory),
    ensures
        owns_its_entries(watcher, after_request(actor, directory, request, outcome).directory),
{
    let after = after_request(actor, directory, request, outcome).directory;
    if after != directory {
        if request is Invalid {
            let username = actor.state->username;
            if has_name(directory, username) {
                let at = slot_of(directory, username);
                assert forall|i: int|
                    0 <= i < after.len() && (#[trigger] after[i]).1
                        == watcher.handle implies watcher.state == (StateView::Authenticated {
                    username: after[i].0,
                }) by {
                    let source = if i < at {
                        i
                    } else {
                        i + 1
                    };
                    assert(after[i] == directory[source]);
                }
            }
        } else {
            let user = outcome.unwrap();
            lemma_registration_moves_one_entry(directory, user.username, actor.handle);
        }
    }
}

/// A session that is over, and that has no entry left, is sent nothing by
/// what any other session does: neither a broadcast, nor the answer to a
/// request for the list, nor a text for one user.
pub proof fn lemma_departed_session_gets_nothing(
    departed: SessionView,
    actor: SessionView,
    directory: Entries,
    request: InboundView,
    outcome: Option<UserView>,
)
    requires
        departed.state is Closed,
        owns_its_entries(departed, directory),
        actor.handle != departed.handle,
    ensures
        !reaches(after_request(actor, directory, request, outcome).deliveries, departed.handle),
{
    let step = after_request(actor, directory, request, outcome);
    if reaches(step.deliveries, departed.handle) {
        let i = choose|i: int|
            0 <= i < step.deliveries.len() && (#[trigger] step.deliveries[i]).handle
                == departed.handle;
        if step.deliveries == routed(actor.handle, sender_name(actor), request, directory) {
            lemma_routed_targets(
                actor.handle,
                sender_name(actor),
                request,
                directory,
                departed.handle,
            );
            let at = choose|at: int|
                0 <= at < directory.len() && (#[trigger] directory[at]).1 == departed.handle;
            assert(false);
        }
    }
}

} // verus!
