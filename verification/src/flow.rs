//! The node's lane flow: what the one thread that reads it and the one that writes it decide.

use vstd::prelude::*;

use crate::conns::{sender_of, Table};
use crate::messages::{NodeToTransport, TransportToNode};
use crate::node_id::NodeId;
use crate::session::{
    after, after_step, judge, law_link_lasts, reaction, ConnAction, ConnEvent, Hello, Judgement,
    Step,
};

verus! {

/// How many seconds the writer waits for a message before it looks whether the flow is closed.
pub const WRITER_POLL_SECS: u64 = 1;

/// How many seconds the reader waits for a message at a time.
pub const READER_POLL_SECS: u64 = 3600;

/// How many bytes of a slot are left to the framing around a message.
pub const SLOT_MARGIN: u32 = 128;

/// The longest message that a slot of this size takes, in bytes.
pub open spec fn limit_of(slot_size: u32) -> int {
    if slot_size >= SLOT_MARGIN {
        slot_size - SLOT_MARGIN
    } else {
        0
    }
}

/// The longest message that a slot of this size takes, in bytes.
pub fn frame_limit(slot_size: u32) -> (r: usize)
    ensures
        r == limit_of(slot_size),
        slot_size >= 128 ==> r + 128 == slot_size,
        slot_size < 128 ==> r == 0,
{
    slot_size.saturating_sub(SLOT_MARGIN) as usize
}

/// What the writer waits for.
#[derive(Debug, PartialEq, Eq)]
pub enum WriterEvent {
    /// A message for the node, encoded.
    Encoded(Vec<u8>),
    /// The flow did not take a message.
    SendFailed,
    /// No message came for a while.
    Idle { closed: bool },
    /// No more messages will come.
    Disconnected,
}

/// What the writer does.
#[derive(Debug, PartialEq, Eq)]
pub enum WriterAction {
    /// Sends a message to the node.
    Send(Vec<u8>),
    /// Drops a message of this length.
    Discard { len: usize },
    /// Waits for the next event.
    Wait,
    /// Closes the flow and ends.
    Close,
}

/// What the writer does about an event, where a slot takes messages up to `limit`.
pub open spec fn writer_reaction(limit: usize, event: WriterEvent) -> WriterAction {
    match event {
        WriterEvent::Encoded(bytes) => if bytes@.len() > limit {
            WriterAction::Discard { len: bytes@.len() as usize }
        } else {
            WriterAction::Send(bytes)
        },
        WriterEvent::SendFailed => WriterAction::Close,
        WriterEvent::Idle { closed } => if closed {
            WriterAction::Close
        } else {
            WriterAction::Wait
        },
        WriterEvent::Disconnected => WriterAction::Close,
    }
}

/// What the writer does about an event, where a slot takes messages up to `limit`.
pub fn write_step(limit: usize, event: WriterEvent) -> (r: WriterAction)
    ensures
        r == writer_reaction(limit, event),
        event matches WriterEvent::Encoded(bytes) ==> {
            &&& bytes@.len() <= limit ==> r == WriterAction::Send(bytes)
            &&& bytes@.len() > limit ==> (r matches WriterAction::Discard { len } && len
                == bytes@.len())
        },
{
    match event {
        WriterEvent::Encoded(bytes) => {
            if bytes.len() > limit {
                WriterAction::Discard { len: bytes.len() }
            } else {
                WriterAction::Send(bytes)
            }
        },
        WriterEvent::Idle { closed: false } => WriterAction::Wait,
        WriterEvent::Idle { closed: true } | WriterEvent::SendFailed | WriterEvent::Disconnected => {
            WriterAction::Close
        },
    }
}

/// What the reader gets from the flow.
#[derive(Debug, PartialEq, Eq)]
pub enum FlowEvent {
    /// A message from the node.
    Message(NodeToTransport),
    /// Something that is no message.
    Undecodable,
    /// The end of the flow.
    Closed,
    /// Nothing, for a while.
    TimedOut,
}

/// What the reader does.
#[derive(Debug, PartialEq, Eq)]
pub enum FlowAction {
    /// Tells the transport the identity of its node.
    Announce(NodeId),
    /// Offers a frame to the connection of a peer, if it has one.
    Route { to: NodeId, frame: Vec<u8> },
    /// Waits for the next event.
    Wait,
    /// Ends.
    Stop,
}

/// What the reader does about an event, once it has announced its node or before.
pub open spec fn reader_reaction(announced: bool, event: FlowEvent) -> FlowAction {
    match event {
        FlowEvent::Message(NodeToTransport::Hello { node_id }) => if announced {
            FlowAction::Wait
        } else {
            FlowAction::Announce(node_id)
        },
        FlowEvent::Message(NodeToTransport::Frame { to, frame }) => FlowAction::Route { to, frame },
        FlowEvent::Undecodable => FlowAction::Stop,
        FlowEvent::Closed => FlowAction::Stop,
        FlowEvent::TimedOut => FlowAction::Wait,
    }
}

/// Whether the reader has announced its node once an event is over.
pub open spec fn announced_after(announced: bool, event: FlowEvent) -> bool {
    announced || (event matches FlowEvent::Message(NodeToTransport::Hello { .. }))
}

/// The reader of the flow.
pub struct Reader {
    announced: bool,
}

impl Reader {
    /// Whether it has announced its node.
    pub closed spec fn announced(&self) -> bool {
        self.announced
    }

    /// A reader that has announced nothing.
    pub fn new() -> (r: Reader)
        ensures
            !r.announced(),
    {
        Reader { announced: false }
    }

    /// What the reader does about an event.
    pub fn step(&mut self, event: FlowEvent) -> (r: FlowAction)
        ensures
            r == reader_reaction(old(self).announced(), event),
            final(self).announced() == announced_after(old(self).announced(), event),
    {
        match event {
            FlowEvent::Message(NodeToTransport::Hello { node_id }) => {
                if self.announced {
                    FlowAction::Wait
                } else {
                    self.announced = true;
                    FlowAction::Announce(node_id)
                }
            },
            FlowEvent::Message(NodeToTransport::Frame { to, frame }) => {
                FlowAction::Route { to, frame }
            },
            FlowEvent::Undecodable | FlowEvent::Closed => FlowAction::Stop,
            FlowEvent::TimedOut => FlowAction::Wait,
        }
    }
}

/// A message goes to the node exactly as it was encoded, and only if the framing around it fits
/// into a slot with it; one that does not fit is dropped, and the flow goes on.
pub proof fn law_messages_fit_the_slot(slot_size: u32, limit: usize, bytes: Vec<u8>)
    requires
        limit == limit_of(slot_size),
    ensures
        match writer_reaction(limit, WriterEvent::Encoded(bytes)) {
            WriterAction::Send(sent) => sent == bytes && (bytes@.len() == 0 || bytes@.len()
                + SLOT_MARGIN <= slot_size),
            WriterAction::Discard { len } => len == bytes@.len() && bytes@.len() + SLOT_MARGIN
                > slot_size,
            _ => false,
        },
{
    assert(bytes.len() == bytes@.len());
}

/// Whether a reader has announced its node after these events.
pub open spec fn announced_in(events: Seq<FlowEvent>) -> bool
    decreases events.len(),
{
    events.len() > 0 && announced_after(announced_in(events.drop_last()), events.last())
}

/// The identities that a reader announces in the course of these events.
pub open spec fn announcements(events: Seq<FlowEvent>) -> Seq<NodeId>
    decreases events.len(),
{
    if events.len() == 0 {
        Seq::empty()
    } else {
        let before = announcements(events.drop_last());
        match reader_reaction(announced_in(events.drop_last()), events.last()) {
            FlowAction::Announce(id) => before.push(id),
            _ => before,
        }
    }
}

/// The identity in the first hello among these events: one that came earlier stands before one
/// that comes last.
pub open spec fn first_hello(events: Seq<FlowEvent>) -> Option<NodeId>
    decreases events.len(),
{
    if events.len() == 0 {
        None
    } else {
        match first_hello(events.drop_last()) {
            Some(id) => Some(id),
            None => match events.last() {
                FlowEvent::Message(NodeToTransport::Hello { node_id }) => Some(node_id),
                _ => None,
            },
        }
    }
}

/// The node is announced once at most, by the first hello that it sends: what a later hello says
/// is not heeded.
pub proof fn law_first_hello_counts(events: Seq<FlowEvent>)
    ensures
        announcements(events) == match first_hello(events) {
            Some(id) => seq![id],
            None => Seq::<NodeId>::empty(),
        },
        announced_in(events) == (first_hello(events) is Some),
    decreases events.len(),
{
    if events.len() > 0 {
        law_first_hello_counts(events.drop_last());
    }
}

/// A frame that a node addresses to a peer is routed to that peer, to be sent over the connection
/// that the table has of it, if it has one; what that connection takes from its queue it sends,
/// and what comes in at the far end is handed to the node there, byte for byte the same all the
/// way.
pub proof fn law_frame_crosses_intact<S>(
    announced: bool,
    table: Table<S>,
    to: NodeId,
    frame: Vec<u8>,
)
    ensures
        reader_reaction(announced, FlowEvent::Message(NodeToTransport::Frame { to, frame }))
            == (FlowAction::Route { to, frame }),
        table.links.contains_key(to@) ==> sender_of(table, to@) == Some(table.links[to@].1),
        !table.links.contains_key(to@) ==> sender_of(table, to@) is None,
        reaction(ConnEvent::Queued(frame)) == ConnAction::Send(frame),
        reaction(ConnEvent::Binary(frame)) == ConnAction::Forward(
            TransportToNode::Frame { frame },
        ),
{
}

/// Once a connection has been let in, a frame for its peer is routed to that connection and to no
/// other, until it ends or another connection of the same peer comes to its hello.
pub proof fn law_frame_goes_to_the_newest_connection<S>(
    my_id: Seq<u8>,
    allowed: Seq<Seq<u8>>,
    table: Table<S>,
    hello: Hello,
    sender: S,
    steps: Seq<Step<S>>,
    announced: bool,
    to: NodeId,
    frame: Vec<u8>,
)
    requires
        judge(my_id, allowed, hello) == Judgement::Far(to@),
        forall|i: int|
            0 <= i < steps.len() ==> match #[trigger] steps[i] {
                Step::Greet { hello, .. } => judge(my_id, allowed, hello) != Judgement::Far(to@),
                Step::End { far, generation } => !(far == to@ && generation == table.issued + 1),
            },
    ensures
        reader_reaction(announced, FlowEvent::Message(NodeToTransport::Frame { to, frame }))
            == (FlowAction::Route { to, frame }),
        sender_of(
            after(
                my_id,
                allowed,
                after_step(my_id, allowed, table, Step::Greet { hello, sender }),
                steps,
            ),
            to@,
        ) == Some(sender),
{
    law_link_lasts(
        my_id,
        allowed,
        after_step(my_id, allowed, table, Step::Greet { hello, sender }),
        steps,
        to@,
    );
}

/// The adapter makes up no frame and changes none: it routes only what the node addressed, sends
/// over a connection only what was queued for it, hands to the node as a frame only what came over
/// the wire, and writes to the flow only what was encoded.
pub proof fn law_nothing_is_made_up(
    announced: bool,
    limit: usize,
    heard: FlowEvent,
    event: ConnEvent,
    writing: WriterEvent,
)
    ensures
        reader_reaction(announced, heard) matches FlowAction::Route { to, frame } ==> heard
            == FlowEvent::Message(NodeToTransport::Frame { to, frame }),
        reaction(event) matches ConnAction::Send(frame) ==> event == ConnEvent::Queued(frame),
        reaction(event) matches ConnAction::Forward(m) ==> m matches TransportToNode::Frame {
            frame,
        } && event == ConnEvent::Binary(frame),
        writer_reaction(limit, writing) matches WriterAction::Send(bytes) ==> writing
            == WriterEvent::Encoded(bytes),
{
}

/// Whether the writer still writes after these events.
pub open spec fn writing_after(limit: usize, events: Seq<WriterEvent>) -> bool
    decreases events.len(),
{
    events.len() == 0 || (writing_after(limit, events.drop_last()) && writer_reaction(
        limit,
        events.last(),
    ) != WriterAction::Close)
}

/// What the writer sends to the node in the course of these events.
pub open spec fn written(limit: usize, events: Seq<WriterEvent>) -> Seq<Vec<u8>>
    decreases events.len(),
{
    if events.len() == 0 {
        Seq::empty()
    } else {
        let before = written(limit, events.drop_last());
        if writing_after(limit, events.drop_last()) {
            match writer_reaction(limit, events.last()) {
                WriterAction::Send(bytes) => before.push(bytes),
                _ => before,
            }
        } else {
            before
        }
    }
}

/// An event that ends the writing: the flow takes no more, or nothing more can come.
pub open spec fn ends_writing(event: WriterEvent) -> bool {
    match event {
        WriterEvent::Encoded(_) => false,
        WriterEvent::SendFailed => true,
        WriterEvent::Idle { closed } => closed,
        WriterEvent::Disconnected => true,
    }
}

/// The events before the first that ends the writing.
pub open spec fn before_close(events: Seq<WriterEvent>) -> Seq<WriterEvent>
    decreases events.len(),
{
    if events.len() == 0 || ends_writing(events.first()) {
        Seq::empty()
    } else {
        seq![events.first()] + before_close(events.drop_first())
    }
}

/// The encoded messages among these events that are within the limit, in their order.
pub open spec fn fitting(limit: usize, events: Seq<WriterEvent>) -> Seq<Vec<u8>>
    decreases events.len(),
{
    if events.len() == 0 {
        Seq::empty()
    } else {
        let before = fitting(limit, events.drop_last());
        match events.last() {
            WriterEvent::Encoded(bytes) => if bytes@.len() <= limit {
                before.push(bytes)
            } else {
                before
            },
            _ => before,
        }
    }
}

/// One more event after others: it counts if none before it has ended the writing.
proof fn lemma_before_close_push(events: Seq<WriterEvent>, event: WriterEvent)
    ensures
        before_close(events.push(event)) == if before_close(events).len() == events.len()
            && !ends_writing(event) {
            before_close(events).push(event)
        } else {
            before_close(events)
        },
        before_close(events).len() <= events.len(),
    decreases events.len(),
{
    let more = events.push(event);
    if events.len() == 0 {
        assert(more.drop_first() == Seq::<WriterEvent>::empty());
        assert(before_close(more.drop_first()) == Seq::<WriterEvent>::empty());
        if !ends_writing(event) {
            assert(before_close(more) == seq![event]);
        }
    } else {
        assert(more.first() == events.first());
        assert(more.drop_first() == events.drop_first().push(event));
        lemma_before_close_push(events.drop_first(), event);
        if !ends_writing(events.first()) {
            let head = seq![events.first()];
            let rest = before_close(events.drop_first());
            assert(head + rest.push(event) == (head + rest).push(event));
        }
    }
}

/// Over any course of events the writer sends the messages that are within the limit, all of
/// them, in their order, up to the first event that ends the writing, and none after it.
pub proof fn law_fitting_messages_are_written_in_order(limit: usize, events: Seq<WriterEvent>)
    ensures
        written(limit, events) == fitting(limit, before_close(events)),
        writing_after(limit, events) == (before_close(events).len() == events.len()),
    decreases events.len(),
{
    if events.len() > 0 {
        let before = events.drop_last();
        let event = events.last();
        law_fitting_messages_are_written_in_order(limit, before);
        lemma_before_close_push(before, event);
        assert(before.push(event) == events);
        let done = before_close(before);
        assert(done.push(event).drop_last() == done);
        if let WriterEvent::Encoded(bytes) = event {
            assert(bytes.len() == bytes@.len());
        }
    }
}

/// Whether the reader still reads after these events.
pub open spec fn reading_after(events: Seq<FlowEvent>) -> bool
    decreases events.len(),
{
    events.len() == 0 || (reading_after(events.drop_last()) && reader_reaction(
        announced_in(events.drop_last()),
        events.last(),
    ) != FlowAction::Stop)
}

/// The frames that the reader routes in the course of these events, with their addresses.
pub open spec fn routed(events: Seq<FlowEvent>) -> Seq<(NodeId, Vec<u8>)>
    decreases events.len(),
{
    if events.len() == 0 {
        Seq::empty()
    } else {
        let before = routed(events.drop_last());
        if reading_after(events.drop_last()) {
            match reader_reaction(announced_in(events.drop_last()), events.last()) {
                FlowAction::Route { to, frame } => before.push((to, frame)),
                _ => before,
            }
        } else {
            before
        }
    }
}

/// The events before the first that is no message or the end of the flow.
pub open spec fn before_stop(events: Seq<FlowEvent>) -> Seq<FlowEvent>
    decreases events.len(),
{
    if events.len() == 0 || events.first() == FlowEvent::Undecodable || events.first()
        == FlowEvent::Closed {
        Seq::empty()
    } else {
        seq![events.first()] + before_stop(events.drop_first())
    }
}

/// The frames among these events, with their addresses, in their order.
pub open spec fn addressed(events: Seq<FlowEvent>) -> Seq<(NodeId, Vec<u8>)>
    decreases events.len(),
{
    if events.len() == 0 {
        Seq::empty()
    } else {
        let before = addressed(events.drop_last());
        match events.last() {
            FlowEvent::Message(NodeToTransport::Frame { to, frame }) => before.push((to, frame)),
            _ => before,
        }
    }
}

/// One more event after others: it counts if none before it has ended the reading.
proof fn lemma_before_stop_push(events: Seq<FlowEvent>, event: FlowEvent)
    ensures
        before_stop(events.push(event)) == if before_stop(events).len() == events.len() && event
            != FlowEvent::Undecodable && event != FlowEvent::Closed {
            before_stop(events).push(event)
        } else {
            before_stop(events)
        },
        before_stop(events).len() <= events.len(),
    decreases events.len(),
{
    let more = events.push(event);
    if events.len() == 0 {
        assert(more.drop_first() == Seq::<FlowEvent>::empty());
        assert(before_stop(more.drop_first()) == Seq::<FlowEvent>::empty());
        if event != FlowEvent::Undecodable && event != FlowEvent::Closed {
            assert(before_stop(more) == seq![event]);
        }
    } else {
        assert(more.first() == events.first());
        assert(more.drop_first() == events.drop_first().push(event));
        lemma_before_stop_push(events.drop_first(), event);
        if events.first() != FlowEvent::Undecodable && events.first() != FlowEvent::Closed {
            let head = seq![events.first()];
            let rest = before_stop(events.drop_first());
            assert(head + rest.push(event) == (head + rest).push(event));
        }
    }
}

/// Over any course of events the reader routes the frames of the node, all of them, in their
/// order, up to the first event that ends the reading, and none after it; whether the node has
/// said its hello makes no difference.
pub proof fn law_frames_are_routed_in_order(events: Seq<FlowEvent>)
    ensures
        routed(events) == addressed(before_stop(events)),
        reading_after(events) == (before_stop(events).len() == events.len()),
    decreases events.len(),
{
    if events.len() > 0 {
        let before = events.drop_last();
        let event = events.last();
        law_frames_are_routed_in_order(before);
        lemma_before_stop_push(before, event);
        assert(before.push(event) == events);
        let done = before_stop(before);
        assert(done.push(event).drop_last() == done);
    }
}

/// A slot leaves all but 128 of its bytes to a message, and a smaller slot leaves none.
pub proof fn law_slot_leaves_room_for_the_framing(slot_size: u32)
    ensures
        slot_size >= 128 ==> limit_of(slot_size) + 128 == slot_size,
        slot_size < 128 ==> limit_of(slot_size) == 0,
{
}

/// What the writer does, whatever the limit: a message up to the limit is sent as it is and a
/// longer one is dropped; the flow is closed exactly when it takes no message, when it is found
/// closed, or when no more messages will come; and the writer waits exactly when none came for a
/// while over an open flow.
pub proof fn law_writer_closes_with_the_flow(
    limit: usize,
    event: WriterEvent,
    bytes: Vec<u8>,
)
    ensures
        writer_reaction(limit, event) == WriterAction::Send(bytes) <==> event
            == WriterEvent::Encoded(bytes) && bytes@.len() <= limit,
        event == WriterEvent::Encoded(bytes) && bytes@.len() > limit ==> (writer_reaction(
            limit,
            event,
        ) matches WriterAction::Discard { len } && len == bytes@.len()),
        writer_reaction(limit, event) is Discard ==> event is Encoded,
        writer_reaction(limit, event) == WriterAction::Close <==> event == WriterEvent::SendFailed
            || event == WriterEvent::Disconnected || event == (WriterEvent::Idle { closed: true }),
        writer_reaction(limit, event) == WriterAction::Wait <==> event == (WriterEvent::Idle {
            closed: false,
        }),
{
    assert(bytes.len() == bytes@.len());
}

/// What the reader does: it announces exactly the identity of a hello, and only if it has not
/// announced one; it routes exactly the frames, each to the peer that it is for; it stops exactly
/// at the end of the flow and at what is no message.
pub proof fn law_reader_stops_with_the_flow(
    announced: bool,
    event: FlowEvent,
    id: NodeId,
    frame: Vec<u8>,
)
    ensures
        reader_reaction(announced, event) == FlowAction::Announce(id) <==> !announced && event
            == FlowEvent::Message(NodeToTransport::Hello { node_id: id }),
        reader_reaction(announced, event) == (FlowAction::Route { to: id, frame }) <==> event
            == FlowEvent::Message(NodeToTransport::Frame { to: id, frame }),
        reader_reaction(announced, event) == FlowAction::Stop <==> event == FlowEvent::Closed
            || event == FlowEvent::Undecodable,
        announced_after(announced, event) <==> announced || (event matches FlowEvent::Message(m)
            && m is Hello),
{
}

} // verus!
