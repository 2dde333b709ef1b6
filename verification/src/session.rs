//! One connection: who is at the far end, what passes over it, and what its end leaves behind.

use vstd::prelude::*;
use vstd::slice::*;
use vstd::string::*;

use crate::conns::{Conns, Table};
use crate::hex_text::{encoded, hex_encode};
use crate::messages::TransportToNode;
use crate::node_id::{id_bytes, id_from_bytes, ids, same_id, NodeId};
use crate::text::text_of;

verus! {

/// How many seconds a connection waits for the far end's hello.
pub const HELLO_TIMEOUT_SECS: u64 = 10;

/// How many frames may wait to be sent over a connection.
pub const QUEUE_FRAMES: usize = 256;

/// What came of the hellos: the far end's first message, or why there is none.
#[derive(Debug, PartialEq, Eq)]
pub enum Hello {
    /// The own hello could not be sent.
    NotSent,
    /// A binary message.
    Binary(Vec<u8>),
    /// A message of another kind, a failed connection or its end.
    Unusable,
    /// Nothing, in time.
    TimedOut,
}

/// Why a connection is refused.
#[derive(Debug, Clone, Copy, PartialEq, Eq)]
pub enum HelloError {
    /// The own hello could not be sent.
    NotSent,
    /// The hello is not the thirty-two bytes of an identity.
    Malformed,
    /// The hello did not come in time.
    TimedOut,
    /// The far end claims the identity of this node.
    OwnId,
    /// The far end is not one of the peers that are let in.
    NotAllowed { far: NodeId },
}

/// What a hello comes to.
pub enum Judgement {
    /// It names a peer that is let in.
    Far(Seq<u8>),
    NotSent,
    Malformed,
    TimedOut,
    OwnId,
    /// It names a peer that is not let in.
    NotAllowed(Seq<u8>),
}

/// What a hello comes to, at a node with this identity that lets in these peers.
pub open spec fn judge(my_id: Seq<u8>, allowed: Seq<Seq<u8>>, hello: Hello) -> Judgement {
    match hello {
        Hello::Binary(bytes) => if bytes@.len() != 32 {
            Judgement::Malformed
        } else if bytes@ == my_id {
            Judgement::OwnId
        } else if !allowed.contains(bytes@) {
            Judgement::NotAllowed(bytes@)
        } else {
            Judgement::Far(bytes@)
        },
        Hello::NotSent => Judgement::NotSent,
        Hello::Unusable => Judgement::Malformed,
        Hello::TimedOut => Judgement::TimedOut,
    }
}

/// The judgement that an error stands for.
pub open spec fn judgement_of(e: HelloError) -> Judgement {
    match e {
        HelloError::NotSent => Judgement::NotSent,
        HelloError::Malformed => Judgement::Malformed,
        HelloError::TimedOut => Judgement::TimedOut,
        HelloError::OwnId => Judgement::OwnId,
        HelloError::NotAllowed { far } => Judgement::NotAllowed(far@),
    }
}

/// The error in words.
pub open spec fn hello_error_text(e: HelloError) -> Seq<char> {
    match e {
        HelloError::NotSent => "send hello"@,
        HelloError::Malformed => "peer hello malformed or missing"@,
        HelloError::TimedOut => "peer hello timed out"@,
        HelloError::OwnId => "peer claims OUR id — refusing"@,
        HelloError::NotAllowed { far } => "peer "@ + encoded(far@.take(8))
            + " is not in CE_WS_PEERS — refusing"@,
    }
}

impl HelloError {
    /// The error in words.
    pub fn message(&self) -> (r: String)
        ensures
            r@ == hello_error_text(*self),
            *self == HelloError::NotSent ==> r@ == "send hello"@,
            *self == HelloError::Malformed ==> r@ == "peer hello malformed or missing"@,
            *self == HelloError::TimedOut ==> r@ == "peer hello timed out"@,
            *self == HelloError::OwnId ==> r@ == "peer claims OUR id — refusing"@,
            *self matches HelloError::NotAllowed { far } ==> r@ == "peer "@ + encoded(far@.take(8))
                + " is not in CE_WS_PEERS — refusing"@,
    {
        match self {
            HelloError::NotSent => "send hello".to_owned(),
            HelloError::Malformed => "peer hello malformed or missing".to_owned(),
            HelloError::TimedOut => "peer hello timed out".to_owned(),
            HelloError::OwnId => "peer claims OUR id — refusing".to_owned(),
            HelloError::NotAllowed { far } => {
                let head = slice_subrange(far.as_slice(), 0, 8);
                assert(head@ == far@.take(8));
                let shown = hex_encode(head);
                "peer ".to_owned().concat(shown.as_str()).concat(
                    " is not in CE_WS_PEERS — refusing",
                )
            },
        }
    }
}

/// The hello that a node with this identity sends: a binary message of these bytes.
pub fn hello(my_id: &NodeId) -> (r: Vec<u8>)
    ensures
        r@ == my_id@,
{
    id_bytes(my_id)
}

/// Whether a list holds an identity.
fn lists(list: &Vec<NodeId>, id: &NodeId) -> (r: bool)
    ensures
        r == ids(list@).contains(id@),
{
    let mut i: usize = 0;
    while i < list.len()
        invariant
            0 <= i <= list@.len(),
            forall|k: int| 0 <= k < i ==> (#[trigger] list@[k])@ != id@,
        decreases list@.len() - i,
    {
        if same_id(&list[i], id) {
            assert(ids(list@)[i as int] == id@);
            return true;
        }
        i = i + 1;
    }
    assert(!ids(list@).contains(id@)) by {
        if ids(list@).contains(id@) {
            let k = choose|k: int| 0 <= k < ids(list@).len() && ids(list@)[k] == id@;
            assert(list@[k]@ == id@);
        }
    }
    false
}

/// Who is at the far end, if the hello names a peer that is let in.
pub fn check_hello(my_id: &NodeId, allowed: &Vec<NodeId>, hello: &Hello) -> (r: Result<
    NodeId,
    HelloError,
>)
    ensures
        judge(my_id@, ids(allowed@), *hello) == match r {
            Ok(far) => Judgement::Far(far@),
            Err(e) => judgement_of(e),
        },
        match r {
            Ok(far) => hello matches Hello::Binary(bytes) && bytes@ == far@ && far@ != my_id@
                && ids(allowed@).contains(far@),
            Err(HelloError::NotSent) => hello is NotSent,
            Err(HelloError::Malformed) => hello is Unusable || (hello matches Hello::Binary(bytes)
                && bytes@.len() != 32),
            Err(HelloError::TimedOut) => hello is TimedOut,
            Err(HelloError::OwnId) => hello matches Hello::Binary(bytes) && bytes@ == my_id@,
            Err(HelloError::NotAllowed { far }) => hello matches Hello::Binary(bytes) && bytes@
                == far@ && far@ != my_id@ && !ids(allowed@).contains(far@),
        },
{
    match hello {
        Hello::Binary(bytes) => match id_from_bytes(bytes) {
            Some(far) => {
                if same_id(&far, my_id) {
                    Err(HelloError::OwnId)
                } else if !lists(allowed, &far) {
                    Err(HelloError::NotAllowed { far })
                } else {
                    Ok(far)
                }
            },
            None => Err(HelloError::Malformed),
        },
        Hello::NotSent => Err(HelloError::NotSent),
        Hello::Unusable => Err(HelloError::Malformed),
        Hello::TimedOut => Err(HelloError::TimedOut),
    }
}

/// A connection that has been let in and registered. Only `welcome` makes one.
#[derive(Debug, PartialEq, Eq)]
pub struct Link {
    far: NodeId,
    generation: u64,
}

impl Link {
    /// The peer at the far end.
    pub closed spec fn far(&self) -> Seq<u8> {
        self.far@
    }

    /// The generation that the connection was registered under.
    pub closed spec fn generation(&self) -> nat {
        self.generation as nat
    }

    /// The peer at the far end.
    pub fn peer(&self) -> (r: NodeId)
        ensures
            r@ == self.far(),
    {
        self.far
    }

    /// What the connection does about an event.
    pub fn pump(&self, event: ConnEvent) -> (r: ConnAction)
        ensures
            r == reaction(event),
    {
        match event {
            ConnEvent::Queued(frame) => ConnAction::Send(frame),
            ConnEvent::Binary(frame) => ConnAction::Forward(TransportToNode::Frame { frame }),
            ConnEvent::Other => ConnAction::Wait,
            ConnEvent::QueueClosed | ConnEvent::Close | ConnEvent::StreamEnded => {
                ConnAction::End(ConnEnd::Done)
            },
            ConnEvent::RecvFailed => ConnAction::End(ConnEnd::RecvFailed),
            ConnEvent::SendFailed => ConnAction::End(ConnEnd::SendFailed),
            ConnEvent::WriterGone => ConnAction::End(ConnEnd::WriterGone),
        }
    }
}

/// What happens to the table of connections.
pub enum Step<S> {
    /// A connection has come to its hello.
    Greet { hello: Hello, sender: S },
    /// A connection of this peer and this generation has ended.
    End { far: Seq<u8>, generation: nat },
}

/// Whether the connection that a peer is registered with is the one of this generation.
pub open spec fn is_current<S>(table: Table<S>, far: Seq<u8>, generation: nat) -> bool {
    table.links.contains_key(far) && table.links[far].0 == generation
}

/// The table once a connection has ended: without it, or as it was where another connection has
/// superseded the one that ended.
pub open spec fn after_end<S>(table: Table<S>, far: Seq<u8>, generation: nat) -> Table<S> {
    if is_current(table, far, generation) {
        Table { links: table.links.remove(far), issued: table.issued }
    } else {
        table
    }
}

/// The table after a step, at a node with this identity that lets in these peers.
pub open spec fn after_step<S>(
    my_id: Seq<u8>,
    allowed: Seq<Seq<u8>>,
    table: Table<S>,
    step: Step<S>,
) -> Table<S> {
    match step {
        Step::Greet { hello, sender } => match judge(my_id, allowed, hello) {
            Judgement::Far(far) => Table {
                links: table.links.insert(far, (table.issued + 1, sender)),
                issued: table.issued + 1,
            },
            _ => table,
        },
        Step::End { far, generation } => after_end(table, far, generation),
    }
}

/// What a step has the node told: that a peer is up (`true`) or down (`false`), if anything.
pub open spec fn notice<S>(
    my_id: Seq<u8>,
    allowed: Seq<Seq<u8>>,
    table: Table<S>,
    step: Step<S>,
) -> Option<(Seq<u8>, bool)> {
    match step {
        Step::Greet { hello, sender } => match judge(my_id, allowed, hello) {
            Judgement::Far(far) => Some((far, true)),
            _ => None,
        },
        Step::End { far, generation } => if is_current(table, far, generation) {
            Some((far, false))
        } else {
            None
        },
    }
}

/// The notice that a message to the node carries, where it carries one on a single peer.
pub open spec fn carried(m: TransportToNode) -> Option<(Seq<u8>, bool)> {
    match m {
        TransportToNode::Up { peers } => if peers@.len() == 1 {
            Some((peers@[0]@, true))
        } else {
            None
        },
        TransportToNode::Down { peers } => if peers@.len() == 1 {
            Some((peers@[0]@, false))
        } else {
            None
        },
        TransportToNode::Frame { frame } => None,
    }
}

/// Lets a connection in by its hello, and registers it; or refuses it, and registers nothing.
/// A registered connection comes with what the node is to be told of it.
pub fn welcome<S>(
    conns: &mut Conns<S>,
    my_id: &NodeId,
    allowed: &Vec<NodeId>,
    hello: &Hello,
    sender: S,
) -> (r: Result<(Link, TransportToNode), HelloError>)
    requires
        old(conns).wf(),
        old(conns)@.issued < u64::MAX,
    ensures
        final(conns).wf(),
        final(conns)@ == after_step(
            my_id@,
            ids(allowed@),
            old(conns)@,
            Step::Greet { hello: *hello, sender },
        ),
        match r {
            Ok((link, told)) => {
                &&& judge(my_id@, ids(allowed@), *hello) == Judgement::Far(link.far())
                &&& link.generation() == old(conns)@.issued + 1
                &&& carried(told) == notice(
                    my_id@,
                    ids(allowed@),
                    old(conns)@,
                    Step::Greet { hello: *hello, sender },
                )
            },
            Err(e) => judge(my_id@, ids(allowed@), *hello) == judgement_of(e),
        },
        match r {
            Ok((link, told)) => {
                &&& told matches TransportToNode::Up { peers } && ids(peers@) == seq![link.far()]
                &&& *hello matches Hello::Binary(bytes) && bytes@ == link.far()
                &&& link.far() != my_id@
                &&& ids(allowed@).contains(link.far())
                &&& final(conns)@.links == old(conns)@.links.insert(
                    link.far(),
                    (link.generation(), sender),
                )
                &&& final(conns)@.issued == old(conns)@.issued + 1
            },
            Err(e) => final(conns)@ == old(conns)@,
        },
{
    match check_hello(my_id, allowed, hello) {
        Ok(far) => {
            let generation = conns.register(far, sender);
            let mut peers: Vec<NodeId> = Vec::new();
            peers.push(far);
            assert(ids(peers@) == seq![far@]);
            Ok((Link { far, generation }, TransportToNode::Up { peers }))
        },
        Err(e) => Err(e),
    }
}

/// Takes a connection that has ended out of the table, unless another has superseded it, and
/// says what the node is to be told then.
pub fn finish<S>(conns: &mut Conns<S>, link: Link) -> (told: Option<TransportToNode>)
    requires
        old(conns).wf(),
    ensures
        final(conns).wf(),
        final(conns)@ == after_end(old(conns)@, link.far(), link.generation()),
        match told {
            Some(m) => is_current(old(conns)@, link.far(), link.generation()) && carried(m)
                == Some((link.far(), false)),
            None => !is_current(old(conns)@, link.far(), link.generation()),
        },
        match told {
            Some(m) => {
                &&& m matches TransportToNode::Down { peers } && ids(peers@) == seq![link.far()]
                &&& old(conns)@.links.contains_key(link.far())
                &&& old(conns)@.links[link.far()].0 == link.generation()
                &&& final(conns)@.links == old(conns)@.links.remove(link.far())
                &&& final(conns)@.issued == old(conns)@.issued
            },
            None => final(conns)@ == old(conns)@ && !(old(conns)@.links.contains_key(link.far())
                && old(conns)@.links[link.far()].0 == link.generation()),
        },
{
    if conns.deregister(&link.far, link.generation) {
        let mut peers: Vec<NodeId> = Vec::new();
        peers.push(link.far);
        assert(ids(peers@) == seq![link.far@]);
        Some(TransportToNode::Down { peers })
    } else {
        None
    }
}

/// What happens on a registered connection.
#[derive(Debug, PartialEq, Eq)]
pub enum ConnEvent {
    /// A frame from the node is next in the queue.
    Queued(Vec<u8>),
    /// No more frames will come from the node: the connection has been superseded.
    QueueClosed,
    /// A binary message came over the wire.
    Binary(Vec<u8>),
    /// A close message came over the wire.
    Close,
    /// A message of another kind came over the wire.
    Other,
    /// The wire has ended.
    StreamEnded,
    /// Receiving from the wire failed.
    RecvFailed,
    /// Sending over the wire failed.
    SendFailed,
    /// There is no way to the node any more.
    WriterGone,
}

/// How the traffic over a connection ends.
#[derive(Debug, Clone, Copy, PartialEq, Eq)]
pub enum ConnEnd {
    /// In order.
    Done,
    /// By a failure to receive.
    RecvFailed,
    /// By a failure to send.
    SendFailed,
    /// For want of the node.
    WriterGone,
}

/// What a connection does about an event.
#[derive(Debug, PartialEq, Eq)]
pub enum ConnAction {
    /// Sends a binary message of these bytes over the wire.
    Send(Vec<u8>),
    /// Hands a message to the node.
    Forward(TransportToNode),
    /// Waits for the next event.
    Wait,
    /// Ends.
    End(ConnEnd),
}

/// What a connection does about an event. Frames pass as they are, in either direction.
pub open spec fn reaction(event: ConnEvent) -> ConnAction {
    match event {
        ConnEvent::Queued(frame) => ConnAction::Send(frame),
        ConnEvent::Binary(frame) => ConnAction::Forward(TransportToNode::Frame { frame }),
        ConnEvent::Other => ConnAction::Wait,
        ConnEvent::QueueClosed => ConnAction::End(ConnEnd::Done),
        ConnEvent::Close => ConnAction::End(ConnEnd::Done),
        ConnEvent::StreamEnded => ConnAction::End(ConnEnd::Done),
        ConnEvent::RecvFailed => ConnAction::End(ConnEnd::RecvFailed),
        ConnEvent::SendFailed => ConnAction::End(ConnEnd::SendFailed),
        ConnEvent::WriterGone => ConnAction::End(ConnEnd::WriterGone),
    }
}

impl ConnEnd {
    /// What went wrong, in words, where something did.
    pub fn message(&self) -> (r: Option<String>)
        ensures
            text_of(r) == match *self {
                ConnEnd::Done => None,
                ConnEnd::RecvFailed => Some("ws recv"@),
                ConnEnd::SendFailed => Some("ws send"@),
                ConnEnd::WriterGone => Some("node writer gone"@),
            },
    {
        match self {
            ConnEnd::Done => None,
            ConnEnd::RecvFailed => Some("ws recv".to_owned()),
            ConnEnd::SendFailed => Some("ws send".to_owned()),
            ConnEnd::WriterGone => Some("node writer gone".to_owned()),
        }
    }
}

/// Whether a connection still passes traffic after these events.
pub open spec fn open_after(events: Seq<ConnEvent>) -> bool
    decreases events.len(),
{
    events.len() == 0 || (open_after(events.drop_last()) && !(reaction(events.last()) is End))
}

/// The frames that a connection hands to the node in the course of these events.
pub open spec fn forwarded(events: Seq<ConnEvent>) -> Seq<Vec<u8>>
    decreases events.len(),
{
    if events.len() == 0 {
        Seq::empty()
    } else {
        let before = forwarded(events.drop_last());
        if open_after(events.drop_last()) {
            match reaction(events.last()) {
                ConnAction::Forward(TransportToNode::Frame { frame }) => before.push(frame),
                _ => before,
            }
        } else {
            before
        }
    }
}

/// The frames that a connection sends over the wire in the course of these events.
pub open spec fn sent(events: Seq<ConnEvent>) -> Seq<Vec<u8>>
    decreases events.len(),
{
    if events.len() == 0 {
        Seq::empty()
    } else {
        let before = sent(events.drop_last());
        if open_after(events.drop_last()) {
            match reaction(events.last()) {
                ConnAction::Send(frame) => before.push(frame),
                _ => before,
            }
        } else {
            before
        }
    }
}

/// An event that ends the traffic: all but frames, in either direction, and messages of other
/// kinds.
pub open spec fn ends_traffic(event: ConnEvent) -> bool {
    !(event is Queued || event is Binary || event is Other)
}

/// The events before the first that ends the traffic.
pub open spec fn before_end(events: Seq<ConnEvent>) -> Seq<ConnEvent>
    decreases events.len(),
{
    if events.len() == 0 || ends_traffic(events.first()) {
        Seq::empty()
    } else {
        seq![events.first()] + before_end(events.drop_first())
    }
}

/// What the binary messages among these events hold, in their order.
pub open spec fn payloads(events: Seq<ConnEvent>) -> Seq<Vec<u8>>
    decreases events.len(),
{
    if events.len() == 0 {
        Seq::empty()
    } else {
        let before = payloads(events.drop_last());
        match events.last() {
            ConnEvent::Binary(frame) => before.push(frame),
            _ => before,
        }
    }
}

/// The frames that come from the queue among these events, in their order.
pub open spec fn queued(events: Seq<ConnEvent>) -> Seq<Vec<u8>>
    decreases events.len(),
{
    if events.len() == 0 {
        Seq::empty()
    } else {
        let before = queued(events.drop_last());
        match events.last() {
            ConnEvent::Queued(frame) => before.push(frame),
            _ => before,
        }
    }
}

/// One more event after others: it counts if none before it has ended the traffic.
proof fn lemma_before_end_push(events: Seq<ConnEvent>, event: ConnEvent)
    ensures
        before_end(events.push(event)) == if before_end(events).len() == events.len()
            && !ends_traffic(event) {
            before_end(events).push(event)
        } else {
            before_end(events)
        },
        before_end(events).len() <= events.len(),
    decreases events.len(),
{
    let more = events.push(event);
    if events.len() == 0 {
        assert(more.drop_first() == Seq::<ConnEvent>::empty());
        assert(before_end(more.drop_first()) == Seq::<ConnEvent>::empty());
        if !ends_traffic(event) {
            assert(before_end(more) == seq![event]);
        }
    } else {
        assert(more.first() == events.first());
        assert(more.drop_first() == events.drop_first().push(event));
        lemma_before_end_push(events.drop_first(), event);
        if !ends_traffic(events.first()) {
            let head = seq![events.first()];
            let rest = before_end(events.drop_first());
            assert(head + rest.push(event) == (head + rest).push(event));
        }
    }
}

/// Over any course of events a connection hands to the node what the binary messages from the
/// wire hold, and sends over the wire the frames from its queue: all of them, each as it is, in
/// their order, up to the first event that ends the traffic, and nothing after it.
pub proof fn law_traffic_passes_in_order(events: Seq<ConnEvent>)
    ensures
        forwarded(events) == payloads(before_end(events)),
        sent(events) == queued(before_end(events)),
        open_after(events) == (before_end(events).len() == events.len()),
    decreases events.len(),
{
    if events.len() > 0 {
        let before = events.drop_last();
        let event = events.last();
        law_traffic_passes_in_order(before);
        lemma_before_end_push(before, event);
        assert(before.push(event) == events);
        let done = before_end(before);
        assert(done.push(event).drop_last() == done);
    }
}

/// What one end takes from its queue is what the other end hands to its node, in the same order:
/// where the wire brings what the one end sent, or the first `n` frames of it, the far node gets
/// just these, and no others.
pub proof fn law_frames_cross_in_order(here: Seq<ConnEvent>, there: Seq<ConnEvent>, n: int)
    requires
        0 <= n <= sent(here).len(),
        payloads(before_end(there)) == sent(here).take(n),
    ensures
        n <= queued(before_end(here)).len(),
        forwarded(there) == queued(before_end(here)).take(n),
{
    law_traffic_passes_in_order(here);
    law_traffic_passes_in_order(there);
}

/// The table that a node starts with.
pub open spec fn no_links<S>() -> Table<S> {
    Table { links: Map::empty(), issued: 0 }
}

/// The table after steps, one after the other.
pub open spec fn after<S>(
    my_id: Seq<u8>,
    allowed: Seq<Seq<u8>>,
    table: Table<S>,
    steps: Seq<Step<S>>,
) -> Table<S>
    decreases steps.len(),
{
    if steps.len() == 0 {
        table
    } else {
        after_step(my_id, allowed, after(my_id, allowed, table, steps.drop_last()), steps.last())
    }
}

/// The last that a node was told of a peer in the course of steps: that it is up, that it is
/// down, or nothing. Notices count in the order in which the table changed.
pub open spec fn last_word<S>(
    my_id: Seq<u8>,
    allowed: Seq<Seq<u8>>,
    steps: Seq<Step<S>>,
    peer: Seq<u8>,
) -> Option<bool>
    decreases steps.len(),
{
    if steps.len() == 0 {
        None
    } else {
        let before = steps.drop_last();
        match notice(my_id, allowed, after(my_id, allowed, no_links(), before), steps.last()) {
            Some((p, up)) => if p == peer {
                Some(up)
            } else {
                last_word(my_id, allowed, before, peer)
            },
            None => last_word(my_id, allowed, before, peer),
        }
    }
}

/// A connection is registered only by the hello of a peer that is let in: whatever connections
/// come and go, no other peer is ever registered, the node itself is not, and the node is told
/// of no other.
pub proof fn law_only_listed_peers<S>(
    my_id: Seq<u8>,
    allowed: Seq<Seq<u8>>,
    steps: Seq<Step<S>>,
    peer: Seq<u8>,
)
    ensures
        after(my_id, allowed, no_links(), steps).links.contains_key(peer) ==> allowed.contains(
            peer,
        ) && peer != my_id && peer.len() == 32,
        last_word(my_id, allowed, steps, peer) is Some ==> allowed.contains(peer) && peer != my_id
            && peer.len() == 32,
    decreases steps.len(),
{
    if steps.len() > 0 {
        law_only_listed_peers(my_id, allowed, steps.drop_last(), peer);
    }
}

/// The node knows what the table holds: the last that it was told of a peer is that it is up
/// exactly when the peer is registered, and a peer that is not registered is one that it was told
/// is down or was told nothing of.
pub proof fn law_node_knows_the_links<S>(
    my_id: Seq<u8>,
    allowed: Seq<Seq<u8>>,
    steps: Seq<Step<S>>,
    peer: Seq<u8>,
)
    ensures
        last_word(my_id, allowed, steps, peer) == Some(true) <==> after(
            my_id,
            allowed,
            no_links(),
            steps,
        ).links.contains_key(peer),
    decreases steps.len(),
{
    if steps.len() > 0 {
        law_node_knows_the_links(my_id, allowed, steps.drop_last(), peer);
    }
}

/// Generations are given out once: in every table that steps lead to, each is at most the number
/// given out so far, and no two peers share one.
pub proof fn law_generations_are_unique<S>(
    my_id: Seq<u8>,
    allowed: Seq<Seq<u8>>,
    steps: Seq<Step<S>>,
    p: Seq<u8>,
    q: Seq<u8>,
)
    ensures
        ({
            let table = after(my_id, allowed, no_links(), steps);
            &&& table.links.contains_key(p) ==> 0 < table.links[p].0 <= table.issued
            &&& table.links.contains_key(p) && table.links.contains_key(q) && p != q
                ==> table.links[p].0 != table.links[q].0
        }),
    decreases steps.len(),
{
    if steps.len() > 0 {
        law_generations_are_unique(my_id, allowed, steps.drop_last(), p, q);
        law_generations_are_unique(my_id, allowed, steps.drop_last(), q, p);
    }
}

/// From a table in which a peer's connection, if it has one, is younger than a generation that
/// has been given out, steps lead only to such tables.
proof fn lemma_younger<S>(
    my_id: Seq<u8>,
    allowed: Seq<Seq<u8>>,
    table: Table<S>,
    steps: Seq<Step<S>>,
    peer: Seq<u8>,
    generation: nat,
)
    requires
        generation <= table.issued,
        table.links.contains_key(peer) ==> table.links[peer].0 > generation,
    ensures
        ({
            let t = after(my_id, allowed, table, steps);
            &&& generation <= t.issued
            &&& t.links.contains_key(peer) ==> t.links[peer].0 > generation
        }),
    decreases steps.len(),
{
    if steps.len() > 0 {
        lemma_younger(my_id, allowed, table, steps.drop_last(), peer, generation);
    }
}

/// Generations that have been given out stay given out.
proof fn lemma_issued_grows<S>(
    my_id: Seq<u8>,
    allowed: Seq<Seq<u8>>,
    table: Table<S>,
    steps: Seq<Step<S>>,
)
    ensures
        table.issued <= after(my_id, allowed, table, steps).issued,
    decreases steps.len(),
{
    if steps.len() > 0 {
        lemma_issued_grows(my_id, allowed, table, steps.drop_last());
    }
}

/// The end of a connection that another of the same peer has superseded changes nothing and is
/// not told to the node, however much later it comes: it does not take down the registration of
/// the connection in its place. Here `first` and `second` are the hellos of the two, `between`
/// is what happens from the one to the other and `later` what happens after that.
pub proof fn law_superseded_end_changes_nothing<S>(
    my_id: Seq<u8>,
    allowed: Seq<Seq<u8>>,
    table: Table<S>,
    first: Step<S>,
    between: Seq<Step<S>>,
    second: Step<S>,
    later: Seq<Step<S>>,
    peer: Seq<u8>,
)
    requires
        first matches Step::Greet { hello, .. } && judge(my_id, allowed, hello) == Judgement::Far(
            peer,
        ),
        second matches Step::Greet { hello, .. } && judge(my_id, allowed, hello)
            == Judgement::Far(peer),
    ensures
        ({
            let ended = Step::<S>::End { far: peer, generation: table.issued + 1 };
            let t = after(
                my_id,
                allowed,
                after_step(
                    my_id,
                    allowed,
                    after(my_id, allowed, after_step(my_id, allowed, table, first), between),
                    second,
                ),
                later,
            );
            &&& after_step(my_id, allowed, t, ended) == t
            &&& notice(my_id, allowed, t, ended) is None
        }),
{
    let one = after_step(my_id, allowed, table, first);
    lemma_issued_grows(my_id, allowed, one, between);
    let two = after_step(my_id, allowed, after(my_id, allowed, one, between), second);
    lemma_younger(my_id, allowed, two, later, peer, table.issued + 1);
}

/// A registered connection keeps its place, and frames for its peer keep going to it, until it
/// ends itself or another connection of the same peer comes to its hello: nothing that happens to
/// other peers, and no end of an older connection, takes it away.
pub proof fn law_link_lasts<S>(
    my_id: Seq<u8>,
    allowed: Seq<Seq<u8>>,
    table: Table<S>,
    steps: Seq<Step<S>>,
    peer: Seq<u8>,
)
    requires
        table.links.contains_key(peer),
        forall|i: int|
            0 <= i < steps.len() ==> match #[trigger] steps[i] {
                Step::Greet { hello, .. } => judge(my_id, allowed, hello) != Judgement::Far(peer),
                Step::End { far, generation } => !(far == peer && generation
                    == table.links[peer].0),
            },
    ensures
        after(my_id, allowed, table, steps).links.contains_key(peer),
        after(my_id, allowed, table, steps).links[peer] == table.links[peer],
    decreases steps.len(),
{
    if steps.len() > 0 {
        let before = steps.drop_last();
        assert forall|i: int| 0 <= i < before.len() implies match #[trigger] before[i] {
            Step::Greet { hello, .. } => judge(my_id, allowed, hello) != Judgement::Far(peer),
            Step::End { far, generation } => !(far == peer && generation == table.links[peer].0),
        } by {
            assert(before[i] == steps[i]);
        }
        law_link_lasts(my_id, allowed, table, before, peer);
        assert(steps.last() == steps[steps.len() - 1]);
    }
}

/// Once a connection has been let in, frames for its peer go to it, and those for other peers go
/// where they went before.
pub proof fn law_newest_connection_carries<S>(
    my_id: Seq<u8>,
    allowed: Seq<Seq<u8>>,
    table: Table<S>,
    hello: Hello,
    sender: S,
    peer: Seq<u8>,
    other: Seq<u8>,
)
    requires
        judge(my_id, allowed, hello) == Judgement::Far(peer),
        other != peer,
    ensures
        ({
            let t = after_step(my_id, allowed, table, Step::Greet { hello, sender });
            &&& t.links.contains_key(peer) && t.links[peer].1 == sender
            &&& t.links.contains_key(other) == table.links.contains_key(other)
            &&& t.links.contains_key(other) ==> t.links[other] == table.links[other]
        }),
{
}

/// A connection that has been let in and has not been superseded is taken out by its own end, and
/// the node is told that its peer is down.
pub proof fn law_end_takes_the_link_down<S>(
    my_id: Seq<u8>,
    allowed: Seq<Seq<u8>>,
    table: Table<S>,
    first: Step<S>,
    steps: Seq<Step<S>>,
    peer: Seq<u8>,
)
    requires
        first matches Step::Greet { hello, .. } && judge(my_id, allowed, hello) == Judgement::Far(
            peer,
        ),
        forall|i: int|
            0 <= i < steps.len() ==> match #[trigger] steps[i] {
                Step::Greet { hello, .. } => judge(my_id, allowed, hello) != Judgement::Far(peer),
                Step::End { far, generation } => !(far == peer && generation == table.issued + 1),
            },
    ensures
        ({
            let ended = Step::<S>::End { far: peer, generation: table.issued + 1 };
            let t = after(my_id, allowed, after_step(my_id, allowed, table, first), steps);
            &&& notice(my_id, allowed, table, first) == Some((peer, true))
            &&& notice(my_id, allowed, t, ended) == Some((peer, false))
            &&& !after_step(my_id, allowed, t, ended).links.contains_key(peer)
        }),
{
    law_link_lasts(my_id, allowed, after_step(my_id, allowed, table, first), steps, peer);
}

/// A refused connection leaves the table as it was, and the node is told nothing.
pub proof fn law_refused_hello_changes_nothing<S>(
    my_id: Seq<u8>,
    allowed: Seq<Seq<u8>>,
    table: Table<S>,
    hello: Hello,
    sender: S,
)
    requires
        !(judge(my_id, allowed, hello) is Far),
    ensures
        after_step(my_id, allowed, table, Step::Greet { hello, sender }) == table,
        notice(my_id, allowed, table, Step::Greet { hello, sender }) is None,
{
}

/// Two nodes that let each other in accept each other's hellos.
pub proof fn law_peers_meet(
    a: Seq<u8>,
    b: Seq<u8>,
    allowed_at_a: Seq<Seq<u8>>,
    allowed_at_b: Seq<Seq<u8>>,
    from_a: Vec<u8>,
    from_b: Vec<u8>,
)
    requires
        a.len() == 32,
        b.len() == 32,
        a != b,
        allowed_at_a.contains(b),
        allowed_at_b.contains(a),
        from_a@ == a,
        from_b@ == b,
    ensures
        judge(a, allowed_at_a, Hello::Binary(from_b)) == Judgement::Far(b),
        judge(b, allowed_at_b, Hello::Binary(from_a)) == Judgement::Far(a),
{
}

/// A message tells that a peer is up exactly when it is the message for that and names this peer
/// alone; and likewise for a peer that is down. A frame tells neither.
pub proof fn law_notices_name_one_peer(m: TransportToNode, peer: Seq<u8>)
    ensures
        carried(m) == Some((peer, true)) <==> (m matches TransportToNode::Up { peers } && ids(
            peers@,
        ) == seq![peer]),
        carried(m) == Some((peer, false)) <==> (m matches TransportToNode::Down { peers } && ids(
            peers@,
        ) == seq![peer]),
        m is Frame ==> carried(m) is None,
{
    match m {
        TransportToNode::Up { peers } | TransportToNode::Down { peers } => {
            if ids(peers@) == seq![peer] {
                assert(ids(peers@).len() == 1 && ids(peers@)[0] == peer);
            }
            if peers@.len() == 1 && peers@[0]@ == peer {
                assert(ids(peers@) == seq![peer]);
            }
        },
        TransportToNode::Frame { frame } => {},
    }
}

/// When a connection is let in, and why it is refused: it is let in exactly for a hello of
/// thirty-two bytes that are the identity of a listed peer other than the node itself.
pub proof fn law_hellos_are_judged(
    my_id: Seq<u8>,
    allowed: Seq<Seq<u8>>,
    hello: Hello,
    peer: Seq<u8>,
)
    ensures
        judge(my_id, allowed, hello) == Judgement::Far(peer) <==> (hello matches Hello::Binary(bytes)
            && bytes@ == peer && peer.len() == 32 && peer != my_id && allowed.contains(peer)),
        judge(my_id, allowed, hello) == Judgement::NotAllowed(peer) <==> (hello matches Hello::Binary(
            bytes,
        ) && bytes@ == peer && peer.len() == 32 && peer != my_id && !allowed.contains(peer)),
        judge(my_id, allowed, hello) is OwnId <==> (hello matches Hello::Binary(bytes) && bytes@
            == my_id && my_id.len() == 32),
        judge(my_id, allowed, hello) is Malformed <==> hello is Unusable || (hello matches Hello::Binary(
            bytes,
        ) && bytes@.len() != 32),
        judge(my_id, allowed, hello) is TimedOut <==> hello is TimedOut,
        judge(my_id, allowed, hello) is NotSent <==> hello is NotSent,
{
}

/// A refusal tells the reason that the hello was judged by, and different refusals tell different
/// reasons.
pub proof fn law_refusals_tell_the_reason(e: HelloError)
    ensures
        judgement_of(e) is NotSent <==> e is NotSent,
        judgement_of(e) is Malformed <==> e is Malformed,
        judgement_of(e) is TimedOut <==> e is TimedOut,
        judgement_of(e) is OwnId <==> e is OwnId,
        !(judgement_of(e) is Far),
        e matches HelloError::NotAllowed { far } ==> judgement_of(e) == Judgement::NotAllowed(far@),
{
}

/// The node is told of what changes in the table, and of nothing else: that a peer is up when a
/// connection is registered for it, with a generation that no connection had before; that it is
/// down when its connection is taken out. Without notice the table stays as it is, and no step
/// changes the links of any other peer.
pub proof fn law_notices_follow_the_table<S>(
    my_id: Seq<u8>,
    allowed: Seq<Seq<u8>>,
    table: Table<S>,
    step: Step<S>,
)
    ensures
        ({
            let next = after_step(my_id, allowed, table, step);
            match notice(my_id, allowed, table, step) {
                None => next == table,
                Some((peer, up)) => {
                    &&& up <==> step is Greet
                    &&& step matches Step::Greet { hello, sender } ==> {
                        &&& judge(my_id, allowed, hello) == Judgement::Far(peer)
                        &&& next.links == table.links.insert(peer, (next.issued, sender))
                        &&& next.issued == table.issued + 1
                    }
                    &&& step matches Step::End { far, generation } ==> {
                        &&& far == peer
                        &&& table.links.contains_key(peer)
                        &&& table.links[peer].0 == generation
                        &&& next.links == table.links.remove(peer)
                        &&& next.issued == table.issued
                    }
                },
            }
        }),
        notice(my_id, allowed, table, step) is None <==> match step {
            Step::Greet { hello, sender } => !(judge(my_id, allowed, hello) is Far),
            Step::End { far, generation } => !(table.links.contains_key(far)
                && table.links[far].0 == generation),
        },
{
}

/// What each event of a connection leads to: a frame from the queue is sent as it is, a binary
/// message is handed to the node as it is, a message of another kind is passed over; anything
/// else ends the connection, in order where the queue or the wire ended, and else with what
/// failed.
pub proof fn law_every_event_has_its_answer(event: ConnEvent, frame: Vec<u8>)
    ensures
        reaction(event) == ConnAction::Send(frame) <==> event == ConnEvent::Queued(frame),
        reaction(event) == ConnAction::Forward(TransportToNode::Frame { frame }) <==> event
            == ConnEvent::Binary(frame),
        reaction(event) is Forward <==> event is Binary,
        reaction(event) == ConnAction::Wait <==> event == ConnEvent::Other,
        reaction(event) == ConnAction::End(ConnEnd::Done) <==> event == ConnEvent::QueueClosed
            || event == ConnEvent::Close || event == ConnEvent::StreamEnded,
        reaction(event) == ConnAction::End(ConnEnd::RecvFailed) <==> event
            == ConnEvent::RecvFailed,
        reaction(event) == ConnAction::End(ConnEnd::SendFailed) <==> event
            == ConnEvent::SendFailed,
        reaction(event) == ConnAction::End(ConnEnd::WriterGone) <==> event
            == ConnEvent::WriterGone,
{
}

/// What is said of a peer that is not let in shows the first eight bytes of its identity, in
/// hexadecimal, whichever peer it is.
pub proof fn law_stranger_is_shown(far: NodeId)
    ensures
        hello_error_text(HelloError::NotAllowed { far }) == "peer "@ + encoded(
            far@.subrange(0, 8),
        ) + " is not in CE_WS_PEERS — refusing"@,
        encoded(far@.subrange(0, 8)).len() == 16,
{
}

} // verus!
