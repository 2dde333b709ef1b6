use ce_protocol_ws::flow::{
    frame_limit, write_step, FlowAction, FlowEvent, Reader, WriterAction, WriterEvent,
    READER_POLL_SECS, SLOT_MARGIN, WRITER_POLL_SECS,
};
use ce_protocol_ws::links::{
    listen_step, DialAction, DialEvent, Dialer, ListenAction, ListenError, ListenEvent,
};
use ce_protocol_ws::messages::NodeToTransport;
use ce_protocol_ws::transport::{run, Config, RunAction, RunError, RunEvent, Task};

fn config() -> Config {
    Config {
        listen: Some("0.0.0.0:4820".to_string()),
        dial: vec!["ws://a".to_string(), "ws://b".to_string()],
        peers: vec![[0xBB; 32]],
    }
}

#[test]
fn a_transport_needs_work_and_peers() {
    assert!(matches!(run(Config::default()), Err(RunError::NothingToDo)));
    let no_work = Config { listen: None, dial: vec![], peers: vec![[1; 32]] };
    assert_eq!(no_work.check(), Err(RunError::NothingToDo));
    let no_peers = Config { peers: vec![], ..config() };
    assert_eq!(no_peers.check(), Err(RunError::PeersRequired));
    let dial_only = Config { listen: None, ..config() };
    assert_eq!(dial_only.check(), Ok(()));
    let listen_only = Config { dial: vec![], ..config() };
    assert_eq!(listen_only.check(), Ok(()));
}

#[test]
fn run_errors_in_words() {
    assert_eq!(
        RunError::NothingToDo.message(),
        "nothing to do: set CE_WS_LISTEN and/or CE_WS_DIAL"
    );
    assert_eq!(
        RunError::PeersRequired.message(),
        "CE_WS_PEERS is required: this transport only registers operator-named peers"
    );
    assert_eq!(RunError::HelloNeverArrived.message(), "node hello never arrived");
    assert_eq!(
        RunError::FlowClosed.message(),
        "lane flow closed (node gone or flow revoked)"
    );
}

#[test]
fn a_configuration_is_served_once_the_node_is_known() {
    let mut r = run(config()).ok().unwrap();
    assert_eq!(r.step(RunEvent::FlowDead), RunAction::Wait);
    assert_eq!(
        r.step(RunEvent::Hello([7; 32])),
        RunAction::Serve {
            my_id: [7; 32],
            peers: vec![[0xBB; 32]],
            tasks: vec![
                Task::Listen("0.0.0.0:4820".to_string()),
                Task::Dial("ws://a".to_string()),
                Task::Dial("ws://b".to_string()),
            ],
        }
    );
    assert_eq!(r.step(RunEvent::Hello([8; 32])), RunAction::Wait);
    assert_eq!(
        r.step(RunEvent::FlowDead),
        RunAction::Stop {
            error: RunError::FlowClosed,
            tasks: vec![
                Task::Listen("0.0.0.0:4820".to_string()),
                Task::Dial("ws://a".to_string()),
                Task::Dial("ws://b".to_string()),
            ],
        }
    );
    assert_eq!(r.step(RunEvent::FlowDead), RunAction::Wait);
    assert_eq!(r.step(RunEvent::Hello([7; 32])), RunAction::Wait);
}

#[test]
fn a_node_that_says_no_hello_is_not_served() {
    let mut r = run(config()).ok().unwrap();
    assert_eq!(
        r.step(RunEvent::HelloLost),
        RunAction::Stop { error: RunError::HelloNeverArrived, tasks: vec![] }
    );
    assert_eq!(r.step(RunEvent::Hello([7; 32])), RunAction::Wait);
}

#[test]
fn nothing_to_listen_on_is_no_task() {
    let c = Config { listen: None, ..config() };
    assert_eq!(
        c.tasks(),
        vec![Task::Dial("ws://a".to_string()), Task::Dial("ws://b".to_string())]
    );
}

#[test]
fn messages_fit_the_slot() {
    assert_eq!(SLOT_MARGIN, 128);
    assert_eq!(frame_limit(64 * 1024), 65408);
    assert_eq!(frame_limit(128), 0);
    assert_eq!(frame_limit(5), 0);
    let limit = frame_limit(131);
    assert_eq!(
        write_step(limit, WriterEvent::Encoded(vec![1, 2, 3])),
        WriterAction::Send(vec![1, 2, 3])
    );
    assert_eq!(
        write_step(limit, WriterEvent::Encoded(vec![1, 2, 3, 4])),
        WriterAction::Discard { len: 4 }
    );
}

#[test]
fn the_writer_closes_with_the_flow() {
    assert_eq!(WRITER_POLL_SECS, 1);
    assert_eq!(write_step(10, WriterEvent::SendFailed), WriterAction::Close);
    assert_eq!(write_step(10, WriterEvent::Disconnected), WriterAction::Close);
    assert_eq!(write_step(10, WriterEvent::Idle { closed: true }), WriterAction::Close);
    assert_eq!(write_step(10, WriterEvent::Idle { closed: false }), WriterAction::Wait);
}

#[test]
fn the_first_hello_counts() {
    let mut reader = Reader::new();
    let hello = |b: u8| FlowEvent::Message(NodeToTransport::Hello { node_id: [b; 32] });
    assert_eq!(READER_POLL_SECS, 3600);
    assert_eq!(reader.step(FlowEvent::TimedOut), FlowAction::Wait);
    assert_eq!(reader.step(hello(1)), FlowAction::Announce([1; 32]));
    assert_eq!(reader.step(hello(2)), FlowAction::Wait);
    assert_eq!(reader.step(FlowEvent::Undecodable), FlowAction::Stop);
    assert_eq!(reader.step(FlowEvent::Closed), FlowAction::Stop);
}

#[test]
fn frames_are_routed_by_their_address() {
    let mut reader = Reader::new();
    let event =
        FlowEvent::Message(NodeToTransport::Frame { to: [3; 32], frame: vec![9, 0, 255] });
    assert_eq!(reader.step(event), FlowAction::Route { to: [3; 32], frame: vec![9, 0, 255] });
}

#[test]
fn failures_double_the_delay() {
    let mut dialer = Dialer::new();
    for expected in [1, 2, 4, 8, 16, 30, 30, 30] {
        assert_eq!(dialer.step(DialEvent::DialFailed), DialAction::Sleep { secs: expected });
        assert_eq!(dialer.step(DialEvent::Slept), DialAction::Dial);
    }
}

#[test]
fn a_handshake_resets_the_delay() {
    let mut dialer = Dialer::new();
    for _ in 0..4 {
        let _ = dialer.step(DialEvent::DialFailed);
        let _ = dialer.step(DialEvent::Slept);
    }
    assert_eq!(dialer.step(DialEvent::Connected), DialAction::Serve);
    assert_eq!(dialer.step(DialEvent::LinkEnded), DialAction::Sleep { secs: 1 });
    assert_eq!(dialer.step(DialEvent::Slept), DialAction::Dial);
    assert_eq!(dialer.step(DialEvent::DialFailed), DialAction::Sleep { secs: 2 });
}

#[test]
fn only_its_own_failures_end_a_listener() {
    assert_eq!(listen_step(ListenEvent::Bound), ListenAction::Accept);
    assert_eq!(listen_step(ListenEvent::Accepted), ListenAction::ServeAndAccept);
    assert_eq!(listen_step(ListenEvent::HandshakeFailed), ListenAction::Accept);
    assert_eq!(listen_step(ListenEvent::LinkEnded), ListenAction::Accept);
    assert_eq!(listen_step(ListenEvent::BindFailed), ListenAction::End(ListenError::Bind));
    assert_eq!(listen_step(ListenEvent::AcceptFailed), ListenAction::End(ListenError::Accept));
    assert_eq!(ListenError::Bind.message("0.0.0.0:4820"), "bind 0.0.0.0:4820");
    assert_eq!(ListenError::Accept.message("0.0.0.0:4820"), "accept");
}

#[test]
fn fitting_messages_are_written_in_order() {
    let events = vec![
        WriterEvent::Encoded(vec![1]),
        WriterEvent::Encoded(vec![2; 4]),
        WriterEvent::Idle { closed: false },
        WriterEvent::Encoded(vec![3; 3]),
        WriterEvent::SendFailed,
        WriterEvent::Encoded(vec![4]),
    ];
    let mut written = Vec::new();
    for event in events {
        match write_step(3, event) {
            WriterAction::Send(bytes) => written.push(bytes),
            WriterAction::Close => break,
            WriterAction::Discard { .. } | WriterAction::Wait => {}
        }
    }
    assert_eq!(written, vec![vec![1], vec![3; 3]]);
}

#[test]
fn frames_are_routed_in_order() {
    let frame = |b: u8| FlowEvent::Message(NodeToTransport::Frame { to: [b; 32], frame: vec![b] });
    let hello = FlowEvent::Message(NodeToTransport::Hello { node_id: [7; 32] });
    let events =
        vec![frame(2), hello, frame(1), FlowEvent::TimedOut, frame(3), FlowEvent::Closed, frame(4)];
    let mut reader = Reader::new();
    let mut routed = Vec::new();
    for event in events {
        match reader.step(event) {
            FlowAction::Route { to, frame } => routed.push((to, frame)),
            FlowAction::Stop => break,
            FlowAction::Announce(_) | FlowAction::Wait => {}
        }
    }
    assert_eq!(routed, vec![([2; 32], vec![2]), ([1; 32], vec![1]), ([3; 32], vec![3])]);
}
