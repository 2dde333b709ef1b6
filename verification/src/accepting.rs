//! A listener with the connections that come in by it, over any course of events: what the failure
//! of one connection leaves as it was.

use vstd::prelude::*;

use crate::conns::Table;
use crate::links::{listen_reaction, ListenEvent};
use crate::session::{after_step, is_current, judge, notice, Hello, Judgement, Step};

verus! {

/// What happens to a connection that comes in. Connections are told apart by a number.
pub enum StreamEvent<S> {
    /// It has come in.
    Accepted { conn: nat },
    /// Its handshake failed.
    HandshakeFailed { conn: nat },
    /// Its handshake was completed and it has come to its hello.
    Greeted { conn: nat, hello: Hello, sender: S },
    /// It has been served to its end, in order or by a failure.
    Ended { conn: nat },
}

/// The connection that an event is about.
pub open spec fn conn_of<S>(event: StreamEvent<S>) -> nat {
    match event {
        StreamEvent::Accepted { conn } => conn,
        StreamEvent::HandshakeFailed { conn } => conn,
        StreamEvent::Greeted { conn, .. } => conn,
        StreamEvent::Ended { conn } => conn,
    }
}

/// What the listener gets to know of an event.
pub open spec fn heard<S>(event: StreamEvent<S>) -> Option<ListenEvent> {
    match event {
        StreamEvent::Accepted { .. } => Some(ListenEvent::Accepted),
        StreamEvent::HandshakeFailed { .. } => Some(ListenEvent::HandshakeFailed),
        StreamEvent::Greeted { .. } => None,
        StreamEvent::Ended { .. } => Some(ListenEvent::LinkEnded),
    }
}

/// A listener and all that the connections that came in have brought about.
#[verifier::ext_equal]
#[verifier::reject_recursive_types(S)]
pub struct Side<S> {
    /// Whether the listener goes on accepting.
    pub accepting: bool,
    /// The table of connections.
    pub table: Table<S>,
    /// The peer and the generation of each connection that has been let in and has not ended.
    pub held: Map<nat, (Seq<u8>, nat)>,
    /// What the node has been told: which peer, and whether it is up.
    pub told: Seq<(Seq<u8>, bool)>,
}

/// What an event does to the table of connections, if anything: a hello may register a
/// connection, and the end of one that was let in may take it out.
pub open spec fn table_step<S>(side: Side<S>, event: StreamEvent<S>) -> Option<Step<S>> {
    match event {
        StreamEvent::Greeted { hello, sender, .. } => Some(Step::Greet { hello, sender }),
        StreamEvent::Ended { conn } => if side.held.contains_key(conn) {
            Some(Step::End { far: side.held[conn].0, generation: side.held[conn].1 })
        } else {
            None
        },
        _ => None,
    }
}

/// The listener and its connections after an event, at a node with this identity that lets in
/// these peers.
pub open spec fn after_event<S>(
    my_id: Seq<u8>,
    allowed: Seq<Seq<u8>>,
    side: Side<S>,
    event: StreamEvent<S>,
) -> Side<S> {
    Side {
        accepting: side.accepting && match heard(event) {
            Some(e) => !(listen_reaction(e) is End),
            None => true,
        },
        table: match table_step(side, event) {
            Some(step) => after_step(my_id, allowed, side.table, step),
            None => side.table,
        },
        held: match event {
            StreamEvent::Greeted { conn, hello, .. } => match judge(my_id, allowed, hello) {
                Judgement::Far(far) => side.held.insert(conn, (far, side.table.issued + 1)),
                _ => side.held,
            },
            StreamEvent::Ended { conn } => side.held.remove(conn),
            _ => side.held,
        },
        told: match table_step(side, event) {
            Some(step) => match notice(my_id, allowed, side.table, step) {
                Some(n) => side.told.push(n),
                None => side.told,
            },
            None => side.told,
        },
    }
}

/// The listener and its connections after events, one after the other.
pub open spec fn after_events<S>(
    my_id: Seq<u8>,
    allowed: Seq<Seq<u8>>,
    side: Side<S>,
    events: Seq<StreamEvent<S>>,
) -> Side<S>
    decreases events.len(),
{
    if events.len() == 0 {
        side
    } else {
        after_event(
            my_id,
            allowed,
            after_events(my_id, allowed, side, events.drop_last()),
            events.last(),
        )
    }
}

/// The events without those of one connection: what happens if it does not come at all.
pub open spec fn without<S>(events: Seq<StreamEvent<S>>, conn: nat) -> Seq<StreamEvent<S>>
    decreases events.len(),
{
    if events.len() == 0 {
        events
    } else if conn_of(events.last()) == conn {
        without(events.drop_last(), conn)
    } else {
        without(events.drop_last(), conn).push(events.last())
    }
}

/// Every generation in the table, and every one that a connection holds, has been given out.
pub open spec fn settled<S>(side: Side<S>) -> bool {
    &&& forall|p: Seq<u8>| #[trigger]
        side.table.links.contains_key(p) ==> side.table.links[p].0 <= side.table.issued
    &&& forall|c: nat| #[trigger]
        side.held.contains_key(c) ==> side.held[c].1 <= side.table.issued
}

/// Whether an event is the hello that has a connection of this peer let in.
pub open spec fn lets_in<S>(
    my_id: Seq<u8>,
    allowed: Seq<Seq<u8>>,
    event: StreamEvent<S>,
    peer: Seq<u8>,
) -> bool {
    event matches StreamEvent::Greeted { hello, .. } && judge(my_id, allowed, hello)
        == Judgement::Far(peer)
}

/// Whether a connection was let in as this peer in the course of events.
pub open spec fn was_let_in<S>(
    my_id: Seq<u8>,
    allowed: Seq<Seq<u8>>,
    events: Seq<StreamEvent<S>>,
    conn: nat,
    peer: Seq<u8>,
) -> bool {
    exists|i: int|
        0 <= i < events.len() && conn_of(#[trigger] events[i]) == conn && lets_in(
            my_id,
            allowed,
            events[i],
            peer,
        )
}

/// Whether a connection is the one that was last let in as this peer in the course of events.
pub open spec fn was_last_let_in<S>(
    my_id: Seq<u8>,
    allowed: Seq<Seq<u8>>,
    events: Seq<StreamEvent<S>>,
    conn: nat,
    peer: Seq<u8>,
) -> bool
    decreases events.len(),
{
    if events.len() == 0 {
        false
    } else if lets_in(my_id, allowed, events.last(), peer) {
        conn_of(events.last()) == conn
    } else {
        was_last_let_in(my_id, allowed, events.drop_last(), conn, peer)
    }
}

/// What the node has been told of one peer, in order.
pub open spec fn told_of(told: Seq<(Seq<u8>, bool)>, peer: Seq<u8>) -> Seq<bool>
    decreases told.len(),
{
    if told.len() == 0 {
        Seq::empty()
    } else {
        let before = told_of(told.drop_last(), peer);
        if told.last().0 == peer {
            before.push(told.last().1)
        } else {
            before
        }
    }
}

/// A peer is registered alike: in both tables, with the same way to send to it, or in neither.
pub open spec fn registered_alike<S>(a: Table<S>, b: Table<S>, peer: Seq<u8>) -> bool {
    &&& a.links.contains_key(peer) == b.links.contains_key(peer)
    &&& a.links.contains_key(peer) ==> a.links[peer].1 == b.links[peer].1
}

/// What one more notice adds to what the node was told of a peer.
proof fn lemma_told_push(told: Seq<(Seq<u8>, bool)>, n: (Seq<u8>, bool), peer: Seq<u8>)
    ensures
        told_of(told.push(n), peer) == if n.0 == peer {
            told_of(told, peer).push(n.1)
        } else {
            told_of(told, peer)
        },
{
    assert(told.push(n).drop_last() == told);
}

/// Events keep every generation among those that were given out.
proof fn lemma_settled<S>(
    my_id: Seq<u8>,
    allowed: Seq<Seq<u8>>,
    side: Side<S>,
    event: StreamEvent<S>,
)
    requires
        settled(side),
    ensures
        settled(after_event(my_id, allowed, side, event)),
{
}

/// How two courses of events are related of which the second is the first without one connection:
/// seen from one peer, where `last` says whether that connection is the peer's last and `ever`
/// whether it was let in as the peer at all.
spec fn related<S>(
    a: Side<S>,
    b: Side<S>,
    conn: nat,
    peer: Seq<u8>,
    last: bool,
    ever: bool,
) -> bool {
    &&& a.accepting == b.accepting
    &&& forall|c: nat|
        c != conn ==> (#[trigger] a.held.contains_key(c)) == b.held.contains_key(c)
    &&& forall|c: nat|
        c != conn && #[trigger] a.held.contains_key(c) ==> a.held[c].0 == b.held[c].0
    &&& !last ==> registered_alike(a.table, b.table, peer)
    &&& !last ==> forall|c: nat|
        c != conn && #[trigger] a.held.contains_key(c) && a.held[c].0 == peer ==> is_current(
            a.table,
            peer,
            a.held[c].1,
        ) == is_current(b.table, peer, b.held[c].1)
    &&& !last && a.held.contains_key(conn) && a.held[conn].0 == peer ==> !is_current(
        a.table,
        peer,
        a.held[conn].1,
    )
    &&& !ever ==> !(a.held.contains_key(conn) && a.held[conn].0 == peer)
    &&& !ever ==> told_of(a.told, peer) == told_of(b.told, peer)
    &&& last ==> ever
}

/// An event of the connection that the second course is without.
proof fn lemma_own_event<S>(
    my_id: Seq<u8>,
    allowed: Seq<Seq<u8>>,
    a: Side<S>,
    b: Side<S>,
    event: StreamEvent<S>,
    peer: Seq<u8>,
    last: bool,
    ever: bool,
)
    requires
        settled(a),
        settled(b),
        related(a, b, conn_of(event), peer, last, ever),
    ensures
        related(
            after_event(my_id, allowed, a, event),
            b,
            conn_of(event),
            peer,
            lets_in(my_id, allowed, event, peer) || last,
            lets_in(my_id, allowed, event, peer) || ever,
        ),
{
    match table_step(a, event) {
        Some(step) => match notice(my_id, allowed, a.table, step) {
            Some(t) => lemma_told_push(a.told, t, peer),
            None => {},
        },
        None => {},
    }
}

/// An event of another connection, in both courses.
proof fn lemma_other_event<S>(
    my_id: Seq<u8>,
    allowed: Seq<Seq<u8>>,
    a: Side<S>,
    b: Side<S>,
    event: StreamEvent<S>,
    conn: nat,
    peer: Seq<u8>,
    last: bool,
    ever: bool,
)
    requires
        settled(a),
        settled(b),
        conn_of(event) != conn,
        related(a, b, conn, peer, last, ever),
    ensures
        related(
            after_event(my_id, allowed, a, event),
            after_event(my_id, allowed, b, event),
            conn,
            peer,
            last && !lets_in(my_id, allowed, event, peer),
            ever,
        ),
{
    match table_step(a, event) {
        Some(step) => match notice(my_id, allowed, a.table, step) {
            Some(t) => lemma_told_push(a.told, t, peer),
            None => {},
        },
        None => {},
    }
    match table_step(b, event) {
        Some(step) => match notice(my_id, allowed, b.table, step) {
            Some(t) => lemma_told_push(b.told, t, peer),
            None => {},
        },
        None => {},
    }
}

/// A course of events and the same course without one connection, seen from one peer.
proof fn lemma_apart<S>(
    my_id: Seq<u8>,
    allowed: Seq<Seq<u8>>,
    start: Side<S>,
    events: Seq<StreamEvent<S>>,
    conn: nat,
    peer: Seq<u8>,
)
    requires
        settled(start),
        !start.held.contains_key(conn),
    ensures
        settled(after_events(my_id, allowed, start, events)),
        settled(after_events(my_id, allowed, start, without(events, conn))),
        related(
            after_events(my_id, allowed, start, events),
            after_events(my_id, allowed, start, without(events, conn)),
            conn,
            peer,
            was_last_let_in(my_id, allowed, events, conn, peer),
            was_let_in(my_id, allowed, events, conn, peer),
        ),
    decreases events.len(),
{
    if events.len() > 0 {
        let before = events.drop_last();
        let event = events.last();
        lemma_apart(my_id, allowed, start, before, conn, peer);
        let a = after_events(my_id, allowed, start, before);
        let b = after_events(my_id, allowed, start, without(before, conn));
        let last = was_last_let_in(my_id, allowed, before, conn, peer);
        let ever = was_let_in(my_id, allowed, before, conn, peer);
        lemma_settled(my_id, allowed, a, event);
        assert(was_let_in(my_id, allowed, events, conn, peer) == (ever || (conn_of(event) == conn
            && lets_in(my_id, allowed, event, peer)))) by {
            if ever {
                let i = choose|i: int|
                    0 <= i < before.len() && conn_of(#[trigger] before[i]) == conn && lets_in(
                        my_id,
                        allowed,
                        before[i],
                        peer,
                    );
                assert(events[i] == before[i]);
            }
            if was_let_in(my_id, allowed, events, conn, peer) {
                let i = choose|i: int|
                    0 <= i < events.len() && conn_of(#[trigger] events[i]) == conn && lets_in(
                        my_id,
                        allowed,
                        events[i],
                        peer,
                    );
                if i < before.len() {
                    assert(before[i] == events[i]);
                }
            }
            assert(events[events.len() - 1] == event);
        }
        if conn_of(event) == conn {
            lemma_own_event(my_id, allowed, a, b, event, peer, last, ever);
        } else {
            lemma_settled(my_id, allowed, b, event);
            lemma_other_event(my_id, allowed, a, b, event, conn, peer, last, ever);
            assert(without(events, conn).drop_last() == without(before, conn));
        }
    }
}

/// The failure of a connection ends that connection alone. Let connections come in, fail their
/// handshakes, be let in or refused, and end in order or by failures, in any course of events, and
/// hold against it the same course without one of the connections. The listener goes on accepting
/// in both. Every other connection is let in as the same peer or refused, and ended, in both
/// alike. A peer is registered alike in both, with the same connection to send to, unless the
/// connection in question is the one that was last let in as that very peer; and the node is told
/// the same of every peer that the connection was not let in as.
pub proof fn law_failing_connection_ends_alone<S>(
    my_id: Seq<u8>,
    allowed: Seq<Seq<u8>>,
    start: Side<S>,
    events: Seq<StreamEvent<S>>,
    conn: nat,
    peer: Seq<u8>,
    other: nat,
)
    requires
        settled(start),
        !start.held.contains_key(conn),
        other != conn,
    ensures
        ({
            let with = after_events(my_id, allowed, start, events);
            let alone = after_events(my_id, allowed, start, without(events, conn));
            &&& with.accepting == start.accepting
            &&& alone.accepting == start.accepting
            &&& with.held.contains_key(other) == alone.held.contains_key(other)
            &&& with.held.contains_key(other) ==> with.held[other].0 == alone.held[other].0
            &&& !was_last_let_in(my_id, allowed, events, conn, peer) ==> registered_alike(
                with.table,
                alone.table,
                peer,
            )
            &&& !was_let_in(my_id, allowed, events, conn, peer) ==> told_of(with.told, peer)
                == told_of(alone.told, peer)
        }),
{
    lemma_apart(my_id, allowed, start, events, conn, peer);
    lemma_accepting(my_id, allowed, start, events);
}

/// Nothing that happens to a connection ends the listener.
proof fn lemma_accepting<S>(
    my_id: Seq<u8>,
    allowed: Seq<Seq<u8>>,
    start: Side<S>,
    events: Seq<StreamEvent<S>>,
)
    ensures
        after_events(my_id, allowed, start, events).accepting == start.accepting,
    decreases events.len(),
{
    if events.len() > 0 {
        lemma_accepting(my_id, allowed, start, events.drop_last());
    }
}

/// A connection whose handshake fails, or that is refused at its hello, leaves no trace: after any
/// course of events the listener, the table, the other connections and what the node has been told
/// are what they are if it had not come at all.
pub proof fn law_refused_connection_leaves_no_trace<S>(
    my_id: Seq<u8>,
    allowed: Seq<Seq<u8>>,
    start: Side<S>,
    events: Seq<StreamEvent<S>>,
    conn: nat,
)
    requires
        !start.held.contains_key(conn),
        forall|peer: Seq<u8>| !#[trigger] was_let_in(my_id, allowed, events, conn, peer),
    ensures
        after_events(my_id, allowed, start, events) == after_events(
            my_id,
            allowed,
            start,
            without(events, conn),
        ),
        !after_events(my_id, allowed, start, events).held.contains_key(conn),
    decreases events.len(),
{
    if events.len() > 0 {
        let before = events.drop_last();
        let event = events.last();
        assert forall|peer: Seq<u8>| !#[trigger] was_let_in(
            my_id,
            allowed,
            before,
            conn,
            peer,
        ) by {
            if was_let_in(my_id, allowed, before, conn, peer) {
                let i = choose|i: int|
                    0 <= i < before.len() && conn_of(#[trigger] before[i]) == conn && lets_in(
                        my_id,
                        allowed,
                        before[i],
                        peer,
                    );
                assert(events[i] == before[i]);
                assert(was_let_in(my_id, allowed, events, conn, peer));
            }
        }
        law_refused_connection_leaves_no_trace(my_id, allowed, start, before, conn);
        let side = after_events(my_id, allowed, start, before);
        if conn_of(event) == conn {
            match event {
                StreamEvent::Greeted { hello, .. } => {
                    match judge(my_id, allowed, hello) {
                        Judgement::Far(far) => {
                            assert(events[events.len() - 1] == event);
                            assert(was_let_in(my_id, allowed, events, conn, far));
                        },
                        _ => {},
                    }
                },
                _ => {},
            }
            assert(side.held.remove(conn) == side.held);
            assert(after_event(my_id, allowed, side, event) =~= side);
        } else {
            assert(without(events, conn).drop_last() == without(before, conn));
        }
    }
}

/// A failed handshake changes nothing at all: the table stays as it is, the node is told nothing,
/// and the listener goes on accepting.
pub proof fn law_failed_handshake_changes_nothing<S>(
    my_id: Seq<u8>,
    allowed: Seq<Seq<u8>>,
    side: Side<S>,
    conn: nat,
)
    ensures
        after_event(my_id, allowed, side, StreamEvent::HandshakeFailed { conn }) == side,
{
}

} // verus!
