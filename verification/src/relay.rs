//! The server as a whole, as a model: many sessions around one directory,
//! and what holds of them whatever happens.

use crate::common::user_manager::{distinct_names, Entries};
use crate::model::user::UserView;
use crate::router::{broadcast_copy, holds_handle, reaches, DeliveryView, InboundView};
use crate::session::{
    after_close, after_request, lemma_close_takes_session_offline,
    lemma_departed_session_gets_nothing, lemma_step_keeps_own_entries,
    lemma_step_of_another_keeps_entries, owns_its_entries, sender_name, SessionView, StateView,
};
use vstd::prelude::*;

verus! {

/// The server as a whole: where every connection that was ever accepted
/// stands, by the handle of its queue, and the directory that they share.
pub struct Relay {
    pub sessions: Map<u64, StateView>,
    pub directory: Entries,
}

/// What can happen to the server.
pub enum Event {
    /// A connection is accepted and its queue gets `handle`.
    Accept { handle: u64 },
    /// A request arrives on the connection behind `handle`; `outcome` is
    /// what the credential check said of it, if it is a login.
    Request { handle: u64, request: InboundView, outcome: Option<UserView> },
    /// The connection behind `handle` ends, by an error or without one.
    Disconnect { handle: u64 },
}

/// A server that just started: no connection, nobody online.
pub open spec fn started() -> Relay {
    Relay { sessions: Map::empty(), directory: Seq::empty() }
}

/// The session behind `handle`, as the server holds it.
pub open spec fn session_of(relay: Relay, handle: u64) -> SessionView {
    SessionView { handle, state: relay.sessions[handle] }
}

/// Whether the event can happen: a handle is given out once, and requests
/// and endings come from connections that were accepted.
pub open spec fn possible(relay: Relay, event: Event) -> bool {
    match event {
        Event::Accept { handle } => !relay.sessions.contains_key(handle),
        Event::Request { handle, request, outcome } => relay.sessions.contains_key(handle),
        Event::Disconnect { handle } => relay.sessions.contains_key(handle),
    }
}

/// The server after the event.
pub open spec fn after_event(relay: Relay, event: Event) -> Relay {
    match event {
        Event::Accept { handle } => Relay {
            sessions: relay.sessions.insert(handle, StateView::Connected),
            directory: relay.directory,
        },
        Event::Request { handle, request, outcome } => {
            let step = after_request(session_of(relay, handle), relay.directory, request, outcome);
            Relay {
                sessions: relay.sessions.insert(handle, step.session.state),
                directory: step.directory,
            }
        },
        Event::Disconnect { handle } => {
            let step = after_close(session_of(relay, handle), relay.directory);
            Relay {
                sessions: relay.sessions.insert(handle, step.session.state),
                directory: step.directory,
            }
        },
    }
}

/// What the event puts into the queues.
pub open spec fn sent_by(relay: Relay, event: Event) -> Seq<DeliveryView> {
    match event {
        Event::Request { handle, request, outcome } => after_request(
            session_of(relay, handle),
            relay.directory,
            request,
            outcome,
        ).deliveries,
        _ => Seq::empty(),
    }
}

/// The server after the events, one after the other.
pub open spec fn after_events(relay: Relay, events: Seq<Event>) -> Relay
    decreases events.len(),
{
    if events.len() == 0 {
        relay
    } else {
        after_event(after_events(relay, events.drop_last()), events.last())
    }
}

/// Every one of the events can happen when its turn comes.
pub open spec fn all_possible(relay: Relay, events: Seq<Event>) -> bool
    decreases events.len(),
{
    events.len() > 0 ==> all_possible(relay, events.drop_last()) && possible(
        after_events(relay, events.drop_last()),
        events.last(),
    )
}

/// What holds of the server at all times: no username has two entries,
/// every entry holds the handle of a connection that was accepted, and the
/// entries with the handle of a connection stand under the name that the
/// connection is logged in under.
pub open spec fn coherent(relay: Relay) -> bool {
    &&& distinct_names(relay.directory)
    &&& forall|i: int|
        0 <= i < relay.directory.len() ==> relay.sessions.contains_key(
            (#[trigger] relay.directory[i]).1,
        )
    &&& forall|handle: u64| #[trigger]
        relay.sessions.contains_key(handle) ==> owns_its_entries(
            session_of(relay, handle),
            relay.directory,
        )
}

/// An event leaves a coherent server coherent, and a connection that is
/// over stays over.
pub proof fn lemma_event_keeps_coherence(relay: Relay, event: Event)
    requires
        coherent(relay),
        possible(relay, event),
    ensures
        coherent(after_event(relay, event)),
        forall|handle: u64|
            relay.sessions.contains_key(handle) ==> #[trigger] after_event(
                relay,
                event,
            ).sessions.contains_key(handle),
        forall|handle: u64|
            relay.sessions.contains_key(handle) && relay.sessions[handle] is Closed
                ==> #[trigger] after_event(relay, event).sessions[handle] is Closed,
{
    let after = after_event(relay, event);
    match event {
        Event::Accept { handle } => {
            assert forall|other: u64| #[trigger]
                after.sessions.contains_key(other) implies owns_its_entries(
                session_of(after, other),
                after.directory,
            ) by {
                if other != handle {
                    assert(relay.sessions.contains_key(other));
                    assert(session_of(after, other) == session_of(relay, other));
                }
            }
        },
        Event::Request { handle, request, outcome } => {
            let actor = session_of(relay, handle);
            let step = after_request(actor, relay.directory, request, outcome);
            assert(relay.sessions.contains_key(handle));
            lemma_step_keeps_own_entries(actor, relay.directory, request, outcome);
            lemma_entries_come_from_the_actor(actor, relay.directory, request, outcome);
            assert forall|other: u64| #[trigger]
                after.sessions.contains_key(other) implies owns_its_entries(
                session_of(after, other),
                after.directory,
            ) by {
                if other != handle {
                    assert(relay.sessions.contains_key(other));
                    lemma_step_of_another_keeps_entries(
                        session_of(relay, other),
                        actor,
                        relay.directory,
                        request,
                        outcome,
                    );
                    assert(session_of(after, other) == session_of(relay, other));
                } else {
                    assert(session_of(after, other) == step.session);
                }
            }
        },
        Event::Disconnect { handle } => {
            let actor = session_of(relay, handle);
            assert(relay.sessions.contains_key(handle));
            lemma_step_keeps_own_entries(actor, relay.directory, InboundView::Invalid, None);
            lemma_entries_come_from_the_actor(
                actor,
                relay.directory,
                InboundView::Invalid,
                None,
            );
            if actor.state is Closed {
                assert(after.sessions =~= relay.sessions);
            } else {
                let step = after_request(actor, relay.directory, InboundView::Invalid, None);
                assert(step == after_close(actor, relay.directory));
                assert forall|other: u64| #[trigger]
                    after.sessions.contains_key(other) implies owns_its_entries(
                    session_of(after, other),
                    after.directory,
                ) by {
                    if other != handle {
                        assert(relay.sessions.contains_key(other));
                        lemma_step_of_another_keeps_entries(
                            session_of(relay, other),
                            actor,
                            relay.directory,
                            InboundView::Invalid,
                            None,
                        );
                        assert(session_of(after, other) == session_of(relay, other));
                    } else {
                        assert(session_of(after, other) == step.session);
                    }
                }
            }
        },
    }
}

/// Every entry of the directory after a step was there before, or holds the
/// handle of the session that took the step.
proof fn lemma_entries_come_from_the_actor(
    actor: SessionView,
    directory: Entries,
    request: InboundView,
    outcome: Option<UserView>,
)
    requires
        distinct_names(directory),
    ensures
        forall|i: int|
            0 <= i < after_request(actor, directory, request, outcome).directory.len() ==> (
            #[trigger] after_request(actor, directory, request, outcome).directory[i]).1
                == actor.handle || holds_handle(
                directory,
                after_request(actor, directory, request, outcome).directory[i].1,
            ),
{
    let after = after_request(actor, directory, request, outcome).directory;
    assert forall|i: int| 0 <= i < after.len() implies (#[trigger] after[i]).1 == actor.handle
        || holds_handle(directory, after[i].1) by {
        if after == directory {
            assert(directory[i].1 == after[i].1);
        } else if request is Invalid {
            let username = actor.state->username;
            let at = crate::common::user_manager::slot_of(directory, username);
            let source = if i < at {
                i
            } else {
                i + 1
            };
            assert(directory[source].1 == after[i].1);
        } else {
            let user = outcome.unwrap();
            crate::common::user_manager::lemma_lookup_registered(
                directory,
                user.username,
                actor.handle,
                user.username,
            );
            if after[i].1 != actor.handle {
                assert(directory[i].1 == after[i].1);
            }
        }
    }
}

/// Whatever happens after a server started, the server stays coherent.
pub proof fn lemma_relay_stays_coherent(events: Seq<Event>)
    requires
        all_possible(started(), events),
    ensures
        coherent(after_events(started(), events)),
    decreases events.len(),
{
    if events.len() > 0 {
        lemma_relay_stays_coherent(events.drop_last());
        lemma_event_keeps_coherence(after_events(started(), events.drop_last()), events.last());
    }
}

/// Once a connection is over, the directory holds no entry with its handle,
/// and nothing that happens later puts anything into its queue or brings its
/// handle back into the directory: neither a broadcast, nor a request for
/// the list, nor a text for one user reaches it.
pub proof fn lemma_departed_session_stays_out(
    relay: Relay,
    departed: u64,
    later: Seq<Event>,
    next: Event,
)
    requires
        coherent(relay),
        relay.sessions.contains_key(departed),
        relay.sessions[departed] is Closed,
        all_possible(relay, later),
        possible(after_events(relay, later), next),
    ensures
        coherent(after_events(relay, later)),
        after_events(relay, later).sessions.contains_key(departed),
        after_events(relay, later).sessions[departed] is Closed,
        !holds_handle(after_events(relay, later).directory, departed),
        !reaches(sent_by(after_events(relay, later), next), departed),
    decreases later.len(),
{
    if later.len() > 0 {
        let before = after_events(relay, later.drop_last());
        lemma_departed_session_stays_out(relay, departed, later.drop_last(), later.last());
        lemma_event_keeps_coherence(before, later.last());
    }
    let now = after_events(relay, later);
    let gone = session_of(now, departed);
    assert(owns_its_entries(gone, now.directory));
    if holds_handle(now.directory, departed) {
        let i = choose|i: int|
            0 <= i < now.directory.len() && (#[trigger] now.directory[i]).1 == departed;
        assert(false);
    }
    match next {
        Event::Request { handle, request, outcome } => {
            let actor = session_of(now, handle);
            if handle != departed {
                lemma_departed_session_gets_nothing(
                    gone,
                    actor,
                    now.directory,
                    request,
                    outcome,
                );
            } else {
                let sent = sent_by(now, next);
                assert(sent =~= Seq::<DeliveryView>::empty());
                if reaches(sent, departed) {
                    let i = choose|i: int|
                        0 <= i < sent.len() && (#[trigger] sent[i]).handle == departed;
                    assert(false);
                }
            }
        },
        _ => {
            let sent = sent_by(now, next);
            if reaches(sent, departed) {
                let i = choose|i: int|
                    0 <= i < sent.len() && (#[trigger] sent[i]).handle == departed;
                assert(false);
            }
        },
    }
}

/// The end of a connection, whatever state it was in, takes it out of the
/// directory at once.
pub proof fn lemma_disconnect_clears_the_directory(relay: Relay, handle: u64)
    requires
        coherent(relay),
        relay.sessions.contains_key(handle),
    ensures
        after_event(relay, Event::Disconnect { handle }).sessions[handle] is Closed,
        !holds_handle(after_event(relay, Event::Disconnect { handle }).directory, handle),
{
    lemma_close_takes_session_offline(session_of(relay, handle), relay.directory);
}

/// In a coherent server no two entries of the directory hold the same
/// handle: a connection is online under one name at most.
pub proof fn lemma_one_entry_for_each_session(relay: Relay)
    requires
        coherent(relay),
    ensures
        forall|i: int, j: int|
            0 <= i < j < relay.directory.len() ==> (#[trigger] relay.directory[i]).1 != (
            #[trigger] relay.directory[j]).1,
{
    assert forall|i: int, j: int| 0 <= i < j < relay.directory.len() implies (
    #[trigger] relay.directory[i]).1 != (#[trigger] relay.directory[j]).1 by {
        let handle = relay.directory[i].1;
        assert(relay.sessions.contains_key(handle));
        assert(owns_its_entries(session_of(relay, handle), relay.directory));
    }
}

/// A broadcast from a connection that is not over puts one copy into the
/// queue of every session that is online, and no second one: as many
/// copies as the directory has entries, the copy for an entry behind the
/// handle of that entry, no two behind the same handle, each with the text
/// and under the sender's name. The server is afterwards as it was.
pub proof fn lemma_broadcast_reaches_each_session_once(
    relay: Relay,
    handle: u64,
    content: Seq<char>,
    outcome: Option<UserView>,
)
    requires
        coherent(relay),
        relay.sessions.contains_key(handle),
        !(relay.sessions[handle] is Closed),
    ensures
        ({
            let event = Event::Request {
                handle,
                request: InboundView::Broadcast { content },
                outcome,
            };
            let sent = sent_by(relay, event);
            let sender = sender_name(session_of(relay, handle));
            &&& after_event(relay, event) == relay
            &&& sent.len() == relay.directory.len()
            &&& forall|i: int|
                0 <= i < sent.len() ==> #[trigger] sent[i] == broadcast_copy(
                    sender,
                    content,
                    relay.directory,
                    i,
                )
            &&& forall|i: int, j: int|
                0 <= i < j < sent.len() ==> (#[trigger] sent[i]).handle != (
                #[trigger] sent[j]).handle
            &&& forall|target: u64| holds_handle(relay.directory, target) <==> reaches(sent, target)
        }),
{
    let event = Event::Request { handle, request: InboundView::Broadcast { content }, outcome };
    let sent = sent_by(relay, event);
    let after = after_event(relay, event);
    assert(after.sessions =~= relay.sessions);
    lemma_one_entry_for_each_session(relay);
    crate::router::lemma_broadcast_fan_out(
        handle,
        sender_name(session_of(relay, handle)),
        content,
        relay.directory,
    );
    assert forall|i: int, j: int| 0 <= i < j < sent.len() implies (#[trigger] sent[i]).handle
        != (#[trigger] sent[j]).handle by {
        assert(relay.directory[i].1 != relay.directory[j].1);
    }
}

} // verus!
