//! Two transports with a wire between them that lives in memory: each side has its node's end of
//! the flow, its table of connections and its connection to the other.

use std::sync::mpsc::{channel, Receiver, Sender};

use ce_protocol_ws::conns::Conns;
use ce_protocol_ws::flow::{FlowAction, FlowEvent, Reader};
use ce_protocol_ws::links::{listen_step, ListenAction, ListenEvent};
use ce_protocol_ws::messages::{NodeToTransport, TransportToNode};
use ce_protocol_ws::node_id::NodeId;
use ce_protocol_ws::session::{
    check_hello, finish, hello, welcome, ConnAction, ConnEnd, ConnEvent, Hello, HelloError, Link,
    HELLO_TIMEOUT_SECS, QUEUE_FRAMES,
};

const ID_A: NodeId = [0xAA; 32];
const ID_B: NodeId = [0xBB; 32];
const ID_EVIL: NodeId = [0xEE; 32];

struct Side {
    id: NodeId,
    peers: Vec<NodeId>,
    reader: Reader,
    conns: Conns<Sender<Vec<u8>>>,
    told: Vec<TransportToNode>,
}

impl Side {
    fn new(id: NodeId, peers: Vec<NodeId>) -> Side {
        let mut side =
            Side { id, peers, reader: Reader::new(), conns: Conns::new(), told: Vec::new() };
        let event = FlowEvent::Message(NodeToTransport::Hello { node_id: id });
        assert_eq!(side.reader.step(event), FlowAction::Announce(id));
        side
    }

    fn connect(&mut self, first: Hello) -> Result<(Link, Receiver<Vec<u8>>), HelloError> {
        let (tx, rx) = channel();
        assert!(!self.conns.exhausted());
        let (link, up) = welcome(&mut self.conns, &self.id, &self.peers, &first, tx)?;
        self.told.push(up);
        Ok((link, rx))
    }

    fn say(&mut self, to: NodeId, frame: Vec<u8>) -> bool {
        let event = FlowEvent::Message(NodeToTransport::Frame { to, frame });
        match self.reader.step(event) {
            FlowAction::Route { to, frame } => match self.conns.sender(&to) {
                Some(queue) => queue.send(frame).is_ok(),
                None => false,
            },
            _ => panic!("a frame is routed"),
        }
    }

    fn end(&mut self, link: Link) {
        if let Some(down) = finish(&mut self.conns, link) {
            self.told.push(down);
        }
    }
}

/// Carries the next frame that waits at one end to the node at the other.
fn carry(from: &Link, queue: &Receiver<Vec<u8>>, to: &Link, node: &mut Side) {
    let frame = queue.recv().unwrap();
    match from.pump(ConnEvent::Queued(frame)) {
        ConnAction::Send(sent) => match to.pump(ConnEvent::Binary(sent)) {
            ConnAction::Forward(m) => node.told.push(m),
            _ => panic!("a binary message is forwarded"),
        },
        _ => panic!("a frame is sent"),
    }
}

#[test]
fn frames_cross_a_real_ws_link_with_up_down_lifecycle() {
    let mut a = Side::new(ID_A, vec![ID_B]);
    let mut b = Side::new(ID_B, vec![ID_A]);

    let (link_a, queue_a) = a.connect(Hello::Binary(hello(&ID_B))).unwrap();
    let (link_b, queue_b) = b.connect(Hello::Binary(hello(&ID_A))).unwrap();
    assert_eq!(a.told.remove(0), TransportToNode::Up { peers: vec![ID_B] });
    assert_eq!(b.told.remove(0), TransportToNode::Up { peers: vec![ID_A] });

    let payload = b"opaque-signed-envelope-bytes".to_vec();
    assert!(a.say(ID_B, payload.clone()));
    carry(&link_a, &queue_a, &link_b, &mut b);
    assert_eq!(b.told.remove(0), TransportToNode::Frame { frame: payload });

    let back = b"reply-bytes".to_vec();
    assert!(b.say(ID_A, back.clone()));
    carry(&link_b, &queue_b, &link_a, &mut a);
    assert_eq!(a.told.remove(0), TransportToNode::Frame { frame: back });

    assert_eq!(link_a.pump(ConnEvent::StreamEnded), ConnAction::End(ConnEnd::Done));
    a.end(link_a);
    assert_eq!(a.told.remove(0), TransportToNode::Down { peers: vec![ID_B] });
    assert!(!a.say(ID_B, vec![1]));
}

#[test]
fn a_peer_outside_the_allow_list_is_never_registered() {
    let mut a = Side::new(ID_A, vec![ID_B]);
    let refused = a.connect(Hello::Binary(hello(&ID_EVIL))).unwrap_err();
    assert_eq!(refused, HelloError::NotAllowed { far: ID_EVIL });
    assert!(
        a.told.is_empty(),
        "an unlisted peer must never produce an Up registration"
    );
    assert!(a.conns.sender(&ID_EVIL).is_none());
    assert!(!a.say(ID_EVIL, vec![1]));
}

#[test]
fn peers_that_let_each_other_in_meet() {
    assert_eq!(check_hello(&ID_A, &vec![ID_B], &Hello::Binary(hello(&ID_B))), Ok(ID_B));
    assert_eq!(check_hello(&ID_B, &vec![ID_A], &Hello::Binary(hello(&ID_A))), Ok(ID_A));
}

#[test]
fn hellos_are_refused_for_a_reason() {
    let allowed = vec![ID_A, ID_B];
    let check = |h: Hello| check_hello(&ID_A, &allowed, &h);
    assert_eq!(check(Hello::Binary(vec![0xBB; 31])), Err(HelloError::Malformed));
    assert_eq!(check(Hello::Binary(vec![0xBB; 33])), Err(HelloError::Malformed));
    assert_eq!(check(Hello::Binary(vec![])), Err(HelloError::Malformed));
    assert_eq!(check(Hello::Unusable), Err(HelloError::Malformed));
    assert_eq!(check(Hello::TimedOut), Err(HelloError::TimedOut));
    assert_eq!(check(Hello::NotSent), Err(HelloError::NotSent));
    assert_eq!(check(Hello::Binary(hello(&ID_A))), Err(HelloError::OwnId));
    assert_eq!(
        check(Hello::Binary(hello(&ID_EVIL))),
        Err(HelloError::NotAllowed { far: ID_EVIL })
    );
    assert_eq!(HELLO_TIMEOUT_SECS, 10);
    assert_eq!(QUEUE_FRAMES, 256);
}

#[test]
fn refusals_in_words() {
    assert_eq!(HelloError::NotSent.message(), "send hello");
    assert_eq!(HelloError::Malformed.message(), "peer hello malformed or missing");
    assert_eq!(HelloError::TimedOut.message(), "peer hello timed out");
    assert_eq!(HelloError::OwnId.message(), "peer claims OUR id — refusing");
    let mut far = [0; 32];
    far[0] = 0x0f;
    far[7] = 0xf0;
    far[8] = 0x11;
    assert_eq!(
        HelloError::NotAllowed { far }.message(),
        "peer 0f000000000000f0 is not in CE_WS_PEERS — refusing"
    );
}

#[test]
fn a_refused_hello_changes_nothing() {
    let mut a = Side::new(ID_A, vec![ID_B]);
    let (link, queue) = a.connect(Hello::Binary(hello(&ID_B))).unwrap();
    assert!(a.connect(Hello::TimedOut).is_err());
    assert!(a.connect(Hello::NotSent).is_err());
    assert!(a.connect(Hello::Unusable).is_err());
    assert!(a.connect(Hello::Binary(hello(&ID_EVIL))).is_err());
    assert!(a.say(ID_B, vec![5]));
    assert_eq!(queue.recv().unwrap(), vec![5]);
    assert_eq!(link.peer(), ID_B);
    assert_eq!(a.told.len(), 1);
}

#[test]
fn the_end_of_a_superseded_connection_changes_nothing() {
    let mut a = Side::new(ID_A, vec![ID_B]);
    let (first, old_queue) = a.connect(Hello::Binary(hello(&ID_B))).unwrap();
    let (second, new_queue) = a.connect(Hello::Binary(hello(&ID_B))).unwrap();
    assert!(first != second);

    assert!(a.say(ID_B, vec![1]));
    assert_eq!(new_queue.recv().unwrap(), vec![1]);
    assert!(old_queue.recv().is_err(), "nobody sends to the superseded connection any more");
    assert_eq!(first.pump(ConnEvent::QueueClosed), ConnAction::End(ConnEnd::Done));

    a.end(first);
    assert!(a.say(ID_B, vec![2]));
    a.end(second);
    assert!(!a.say(ID_B, vec![3]));
    assert_eq!(
        a.told,
        vec![
            TransportToNode::Up { peers: vec![ID_B] },
            TransportToNode::Up { peers: vec![ID_B] },
            TransportToNode::Down { peers: vec![ID_B] },
        ]
    );
}

#[test]
fn links_of_other_peers_last() {
    let mut a = Side::new(ID_A, vec![ID_B, [1; 32], [2; 32]]);
    let (one, _q1) = a.connect(Hello::Binary(vec![1; 32])).unwrap();
    let (_b, queue) = a.connect(Hello::Binary(hello(&ID_B))).unwrap();
    let (two, _q2) = a.connect(Hello::Binary(vec![2; 32])).unwrap();
    a.end(one);
    a.end(two);
    assert!(a.say(ID_B, vec![7]));
    assert_eq!(queue.recv().unwrap(), vec![7]);
    assert!(!a.say([1; 32], vec![7]));
    assert!(!a.say([2; 32], vec![7]));
}

#[test]
fn generations_are_given_out_once() {
    let mut conns: Conns<u8> = Conns::new();
    assert_eq!(conns.register(ID_A, 1), 1);
    assert_eq!(conns.register(ID_B, 2), 2);
    assert_eq!(conns.register(ID_A, 3), 3);
    assert_eq!(conns.sender(&ID_A), Some(&3));
    assert!(!conns.deregister(&ID_A, 1));
    assert!(!conns.deregister(&ID_B, 3));
    assert!(conns.deregister(&ID_A, 3));
    assert!(!conns.deregister(&ID_A, 3));
    assert_eq!(conns.sender(&ID_A), None);
    assert_eq!(conns.sender(&ID_B), Some(&2));
    assert_eq!(conns.register(ID_A, 4), 4);
}

#[test]
fn a_connection_passes_frames_and_ends() {
    let mut a = Side::new(ID_A, vec![ID_B]);
    let (link, _queue) = a.connect(Hello::Binary(hello(&ID_B))).unwrap();
    assert_eq!(link.pump(ConnEvent::Other), ConnAction::Wait);
    assert_eq!(link.pump(ConnEvent::Close), ConnAction::End(ConnEnd::Done));
    assert_eq!(link.pump(ConnEvent::RecvFailed), ConnAction::End(ConnEnd::RecvFailed));
    assert_eq!(link.pump(ConnEvent::SendFailed), ConnAction::End(ConnEnd::SendFailed));
    assert_eq!(link.pump(ConnEvent::WriterGone), ConnAction::End(ConnEnd::WriterGone));
    assert_eq!(ConnEnd::Done.message(), None);
    assert_eq!(ConnEnd::RecvFailed.message().unwrap(), "ws recv");
    assert_eq!(ConnEnd::SendFailed.message().unwrap(), "ws send");
    assert_eq!(ConnEnd::WriterGone.message().unwrap(), "node writer gone");
}

/// Runs a listening side over connections of which some fail, and tells what came of the rest.
fn serve(with_failures: bool) -> (Side, Vec<Receiver<Vec<u8>>>) {
    let mut a = Side::new(ID_A, vec![ID_B, [1; 32], [2; 32]]);
    let mut queues = Vec::new();
    if with_failures {
        // One fails its handshake: it never comes to a hello.
        assert_eq!(listen_step(ListenEvent::Accepted), ListenAction::ServeAndAccept);
        assert_eq!(listen_step(ListenEvent::HandshakeFailed), ListenAction::Accept);
        // One is refused at its hello.
        assert_eq!(listen_step(ListenEvent::Accepted), ListenAction::ServeAndAccept);
        assert!(a.connect(Hello::Binary(hello(&ID_EVIL))).is_err());
        assert_eq!(listen_step(ListenEvent::LinkEnded), ListenAction::Accept);
    }
    let (link, queue) = a.connect(Hello::Binary(hello(&ID_B))).unwrap();
    assert_eq!(link.peer(), ID_B);
    queues.push(queue);
    if with_failures {
        // One is let in and fails while it is served.
        let (failing, _) = a.connect(Hello::Binary(vec![1; 32])).unwrap();
        assert_eq!(failing.pump(ConnEvent::RecvFailed), ConnAction::End(ConnEnd::RecvFailed));
        a.end(failing);
        assert_eq!(listen_step(ListenEvent::LinkEnded), ListenAction::Accept);
        a.told.retain(|m| {
            let peers = vec![[1; 32]];
            *m != TransportToNode::Up { peers: peers.clone() } && *m != TransportToNode::Down { peers }
        });
    }
    let (link, queue) = a.connect(Hello::Binary(vec![2; 32])).unwrap();
    assert_eq!(link.peer(), [2; 32]);
    queues.push(queue);
    (a, queues)
}

#[test]
fn a_failing_connection_ends_alone() {
    let (mut with, with_queues) = serve(true);
    let (mut alone, alone_queues) = serve(false);
    assert_eq!(with.told, alone.told);
    for (side, queues) in [(&mut with, with_queues), (&mut alone, alone_queues)] {
        assert!(side.say(ID_B, vec![1]));
        assert!(side.say([2; 32], vec![2]));
        assert!(!side.say([1; 32], vec![3]));
        assert!(!side.say(ID_EVIL, vec![4]));
        assert_eq!(queues[0].recv().unwrap(), vec![1]);
        assert_eq!(queues[1].recv().unwrap(), vec![2]);
    }
}

/// Runs a connection over events, and gives what it sent and what it handed to the node.
fn course(link: &Link, events: Vec<ConnEvent>) -> (Vec<Vec<u8>>, Vec<Vec<u8>>) {
    let (mut sent, mut forwarded) = (Vec::new(), Vec::new());
    for event in events {
        match link.pump(event) {
            ConnAction::Send(frame) => sent.push(frame),
            ConnAction::Forward(TransportToNode::Frame { frame }) => forwarded.push(frame),
            ConnAction::Forward(_) => panic!("only frames are forwarded"),
            ConnAction::Wait => {}
            ConnAction::End(_) => break,
        }
    }
    (sent, forwarded)
}

#[test]
fn traffic_passes_in_order() {
    let mut a = Side::new(ID_A, vec![ID_B]);
    let mut b = Side::new(ID_B, vec![ID_A]);
    let (link_a, _queue_a) = a.connect(Hello::Binary(hello(&ID_B))).unwrap();
    let (link_b, _queue_b) = b.connect(Hello::Binary(hello(&ID_A))).unwrap();
    let (sent, forwarded) = course(
        &link_a,
        vec![
            ConnEvent::Queued(vec![1]),
            ConnEvent::Binary(vec![9]),
            ConnEvent::Other,
            ConnEvent::Queued(vec![]),
            ConnEvent::Binary(vec![8]),
            ConnEvent::Queued(vec![2, 3]),
            ConnEvent::Close,
            ConnEvent::Queued(vec![4]),
            ConnEvent::Binary(vec![7]),
        ],
    );
    assert_eq!(sent, vec![vec![1], vec![], vec![2, 3]]);
    assert_eq!(forwarded, vec![vec![9], vec![8]]);

    let mut wire: Vec<ConnEvent> = sent.clone().into_iter().map(ConnEvent::Binary).collect();
    wire.push(ConnEvent::StreamEnded);
    assert_eq!(course(&link_b, wire), (vec![], sent));
}

#[test]
fn frames_go_to_the_newest_connection() {
    let mut a = Side::new(ID_A, vec![ID_B, [1; 32]]);
    let (_first, old_queue) = a.connect(Hello::Binary(hello(&ID_B))).unwrap();
    let (_second, new_queue) = a.connect(Hello::Binary(hello(&ID_B))).unwrap();
    let (other, _) = a.connect(Hello::Binary(vec![1; 32])).unwrap();
    a.end(other);
    assert!(a.say(ID_B, vec![6]));
    assert_eq!(new_queue.recv().unwrap(), vec![6]);
    assert!(old_queue.recv().is_err());
}
