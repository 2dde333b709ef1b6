//! The transport core: what it is configured with, and what it decides between the node's lane
//! flow and the links.
//!
//! The wire is not trusted and the core looks into no frame: it moves bytes. The nodes sign and
//! check what is in the frames themselves, so all that a broken wire can do is to lose frames or
//! to repeat them.

use vstd::prelude::*;
use vstd::string::*;

use crate::node_id::{copy_ids, NodeId};

verus! {

/// What the transport listens on, dials and lets in.
#[derive(Debug, Clone)]
pub struct Config {
    /// Accept inbound connections here (`ip:port`).
    pub listen: Option<String>,
    /// Dial these URLs (`ws://host:port` or `wss://...`).
    pub dial: Vec<String>,
    /// The only peers that the transport registers.
    pub peers: Vec<NodeId>,
}

impl Default for Config {
    fn default() -> (r: Config)
        ensures
            r.listen is None,
            r.dial@ == Seq::<String>::empty(),
            r.peers@ == Seq::<NodeId>::empty(),
    {
        Config { listen: None, dial: Vec::new(), peers: Vec::new() }
    }
}

/// Why the transport does not run, or runs no longer.
#[derive(Debug, Clone, Copy, PartialEq, Eq, Structural)]
pub enum RunError {
    /// There is nothing to listen on and nothing to dial.
    NothingToDo,
    /// There are no peers to let in.
    PeersRequired,
    /// The node's flow ended before the node had said who it is.
    HelloNeverArrived,
    /// The node's flow has ended.
    FlowClosed,
}

/// The error in words.
pub open spec fn run_error_text(e: RunError) -> Seq<char> {
    match e {
        RunError::NothingToDo => "nothing to do: set CE_WS_LISTEN and/or CE_WS_DIAL"@,
        RunError::PeersRequired =>
            "CE_WS_PEERS is required: this transport only registers operator-named peers"@,
        RunError::HelloNeverArrived => "node hello never arrived"@,
        RunError::FlowClosed => "lane flow closed (node gone or flow revoked)"@,
    }
}

impl RunError {
    /// The error in words.
    pub fn message(&self) -> (r: String)
        ensures
            r@ == run_error_text(*self),
            *self == RunError::NothingToDo ==> r@
                == "nothing to do: set CE_WS_LISTEN and/or CE_WS_DIAL"@,
            *self == RunError::PeersRequired ==> r@
                == "CE_WS_PEERS is required: this transport only registers operator-named peers"@,
            *self == RunError::HelloNeverArrived ==> r@ == "node hello never arrived"@,
            *self == RunError::FlowClosed ==> r@ == "lane flow closed (node gone or flow revoked)"@,
    {
        match self {
            RunError::NothingToDo => {
                "nothing to do: set CE_WS_LISTEN and/or CE_WS_DIAL".to_owned()
            },
            RunError::PeersRequired => {
                "CE_WS_PEERS is required: this transport only registers operator-named peers".to_owned()
            },
            RunError::HelloNeverArrived => "node hello never arrived".to_owned(),
            RunError::FlowClosed => "lane flow closed (node gone or flow revoked)".to_owned(),
        }
    }
}

/// One thing that the transport serves.
#[derive(Debug, PartialEq, Eq)]
pub enum Task {
    /// Accept connections at this address.
    Listen(String),
    /// Keep a connection to this URL.
    Dial(String),
}

/// What a configuration has the transport serve: the address that it listens on, if there is one,
/// and each URL that it dials.
pub open spec fn planned(config: Config) -> Seq<Task> {
    let listening = match config.listen {
        Some(address) => seq![Task::Listen(address)],
        None => Seq::<Task>::empty(),
    };
    listening + config.dial@.map_values(|url: String| Task::Dial(url))
}

/// What is wrong with a configuration, if anything is: it gives the transport nothing to do, or
/// it lets no peer in.
pub open spec fn config_fault(config: Config) -> Option<RunError> {
    if config.listen is None && config.dial@.len() == 0 {
        Some(RunError::NothingToDo)
    } else if config.peers@.len() == 0 {
        Some(RunError::PeersRequired)
    } else {
        None
    }
}

impl Config {
    /// Whether the transport can run with this configuration.
    pub fn check(&self) -> (r: Result<(), RunError>)
        ensures
            r == match config_fault(*self) {
                Some(e) => Err::<(), RunError>(e),
                None => Ok::<(), RunError>(()),
            },
            r == Err::<(), RunError>(RunError::NothingToDo) <==> self.listen is None
                && self.dial@.len() == 0,
            r == Err::<(), RunError>(RunError::PeersRequired) <==> (self.listen is Some
                || self.dial@.len() > 0) && self.peers@.len() == 0,
    {
        if self.listen.is_none() && self.dial.is_empty() {
            return Err(RunError::NothingToDo);
        }
        if self.peers.is_empty() {
            return Err(RunError::PeersRequired);
        }
        Ok(())
    }

    /// What the transport serves.
    pub fn tasks(&self) -> (r: Vec<Task>)
        ensures
            r@ == planned(*self),
            r@.len() == self.dial@.len() + if self.listen is Some {
                1int
            } else {
                0
            },
            self.listen matches Some(address) ==> r@[0] == Task::Listen(address),
            forall|i: int|
                0 <= i < self.dial@.len() ==> r@[r@.len() - self.dial@.len() + i] == Task::Dial(
                    #[trigger] self.dial@[i],
                ),
    {
        let mut out: Vec<Task> = Vec::new();
        if let Some(address) = &self.listen {
            out.push(Task::Listen(address.clone()));
        }
        let ghost listening = out@;
        let ghost dialing = self.dial@.map_values(|url: String| Task::Dial(url));
        let mut i: usize = 0;
        assert(dialing.take(0) == Seq::<Task>::empty());
        while i < self.dial.len()
            invariant
                0 <= i <= self.dial@.len(),
                dialing == self.dial@.map_values(|url: String| Task::Dial(url)),
                out@ == listening + dialing.take(i as int),
            decreases self.dial@.len() - i,
        {
            out.push(Task::Dial(self.dial[i].clone()));
            assert(dialing.take(i + 1) == dialing.take(i as int).push(dialing[i as int]));
            i = i + 1;
        }
        assert(dialing.take(i as int) == dialing);
        out
    }
}

/// How far a running transport has come.
#[derive(Debug, Clone, Copy, PartialEq, Eq)]
pub enum Phase {
    /// The node has not said yet who it is.
    AwaitingHello,
    /// Links are served for the node with this identity.
    Serving { my_id: NodeId },
    /// The transport has stopped.
    Over,
}

/// What a running transport waits for.
#[derive(Debug, Clone, Copy, PartialEq, Eq)]
pub enum RunEvent {
    /// The node has said who it is.
    Hello(NodeId),
    /// The node will not say who it is any more.
    HelloLost,
    /// The node's flow has ended.
    FlowDead,
}

/// What a running transport does.
#[derive(Debug, PartialEq, Eq)]
pub enum RunAction {
    /// Serves these tasks for the node with this identity, and lets these peers in.
    Serve { my_id: NodeId, peers: Vec<NodeId>, tasks: Vec<Task> },
    /// Stops these tasks, which are all that it serves, and ends.
    Stop { error: RunError, tasks: Vec<Task> },
    /// Waits for the next event.
    Wait,
}

/// The transport, from its start to its end.
pub struct Run {
    config: Config,
    phase: Phase,
}

/// The phase that an event leads to.
pub open spec fn next_phase(phase: Phase, event: RunEvent) -> Phase {
    match (phase, event) {
        (Phase::AwaitingHello, RunEvent::Hello(my_id)) => Phase::Serving { my_id },
        (Phase::AwaitingHello, RunEvent::HelloLost) => Phase::Over,
        (Phase::Serving { .. }, RunEvent::FlowDead) => Phase::Over,
        _ => phase,
    }
}

impl Run {
    /// What the transport is configured with.
    pub closed spec fn config(&self) -> Config {
        self.config
    }

    /// How far it has come.
    pub closed spec fn phase(&self) -> Phase {
        self.phase
    }

    /// What the transport does about an event.
    pub fn step(&mut self, event: RunEvent) -> (r: RunAction)
        ensures
            final(self).config() == old(self).config(),
            final(self).phase() == next_phase(old(self).phase(), event),
            match (old(self).phase(), event) {
                (Phase::AwaitingHello, RunEvent::Hello(id)) => r matches RunAction::Serve {
                    my_id,
                    peers,
                    tasks,
                } && my_id == id && peers@ == old(self).config().peers@ && tasks@ == planned(
                    old(self).config(),
                ),
                (Phase::AwaitingHello, RunEvent::HelloLost) => r matches RunAction::Stop {
                    error,
                    tasks,
                } && error == RunError::HelloNeverArrived && tasks@ == Seq::<Task>::empty(),
                (Phase::Serving { .. }, RunEvent::FlowDead) => r matches RunAction::Stop {
                    error,
                    tasks,
                } && error == RunError::FlowClosed && tasks@ == planned(old(self).config()),
                _ => r == RunAction::Wait,
            },
    {
        match (self.phase, event) {
            (Phase::AwaitingHello, RunEvent::Hello(my_id)) => {
                self.phase = Phase::Serving { my_id };
                let peers = copy_ids(&self.config.peers);
                let tasks = self.config.tasks();
                RunAction::Serve { my_id, peers, tasks }
            },
            (Phase::AwaitingHello, RunEvent::HelloLost) => {
                self.phase = Phase::Over;
                RunAction::Stop { error: RunError::HelloNeverArrived, tasks: Vec::new() }
            },
            (Phase::Serving { .. }, RunEvent::FlowDead) => {
                self.phase = Phase::Over;
                let tasks = self.config.tasks();
                RunAction::Stop { error: RunError::FlowClosed, tasks }
            },
            _ => RunAction::Wait,
        }
    }
}

/// Starts the transport, if it can run with its configuration.
pub fn run(config: Config) -> (r: Result<Run, RunError>)
    ensures
        match r {
            Ok(run) => config_fault(config) is None && run.config() == config && run.phase()
                == Phase::AwaitingHello,
            Err(e) => config_fault(config) == Some(e),
        },
        r is Ok <==> (config.listen is Some || config.dial@.len() > 0) && config.peers@.len() > 0,
{
    match config.check() {
        Ok(()) => Ok(Run { config, phase: Phase::AwaitingHello }),
        Err(e) => Err(e),
    }
}

/// How far a transport has come after events, from its start on.
pub open spec fn phase_in(events: Seq<RunEvent>) -> Phase
    decreases events.len(),
{
    if events.len() == 0 {
        Phase::AwaitingHello
    } else {
        next_phase(phase_in(events.drop_last()), events.last())
    }
}

/// Whether the event at a place has the transport serve its tasks.
pub open spec fn serves_at(events: Seq<RunEvent>, i: int) -> bool {
    phase_in(events.take(i)) == Phase::AwaitingHello && events[i] is Hello
}

/// Whether the event at a place has the transport stop its tasks.
pub open spec fn stops_at(events: Seq<RunEvent>, i: int) -> bool {
    phase_in(events.take(i)) is Serving && events[i] == RunEvent::FlowDead
}

/// What is served is served once, after the node's hello, and is stopped when the node's flow
/// ends: in any course of events the transport serves its tasks at one place at most, and at the
/// first end of the flow after that it stops them.
pub proof fn law_served_once_and_stopped(events: Seq<RunEvent>, i: int, j: int)
    requires
        0 <= i < j < events.len(),
        serves_at(events, i),
        forall|k: int| i < k < j ==> #[trigger] events[k] != RunEvent::FlowDead,
    ensures
        !serves_at(events, j),
        events[j] == RunEvent::FlowDead ==> stops_at(events, j),
        events[j] != RunEvent::FlowDead ==> phase_in(events.take(j + 1)) is Serving,
{
    lemma_serving(events, i, j);
    assert(events.take(j + 1).drop_last() == events.take(j));
}

/// From the hello on the transport serves, as long as the flow lasts.
proof fn lemma_serving(events: Seq<RunEvent>, i: int, j: int)
    requires
        0 <= i < j < events.len(),
        serves_at(events, i),
        forall|k: int| i < k < j ==> #[trigger] events[k] != RunEvent::FlowDead,
    ensures
        phase_in(events.take(j)) is Serving,
    decreases j - i,
{
    assert(events.take(j).drop_last() == events.take(j - 1));
    if j > i + 1 {
        lemma_serving(events, i, j - 1);
    }
}

/// A transport that has stopped stays so: nothing is served after the end.
pub proof fn law_over_is_over(events: Seq<RunEvent>, event: RunEvent)
    requires
        phase_in(events) == Phase::Over,
    ensures
        phase_in(events.push(event)) == Phase::Over,
{
    assert(events.push(event).drop_last() == events);
}

/// All that a configuration names is served, each thing once, and nothing else: the address that
/// it listens on, whether there is something to dial or not, and then each URL in its place. So a
/// configuration that the transport runs with always gives it something to serve.
pub proof fn law_all_that_is_named_is_served(config: Config)
    ensures
        planned(config).len() == config.dial@.len() + if config.listen is Some {
            1int
        } else {
            0
        },
        forall|address: String|
            #[trigger] planned(config).contains(Task::Listen(address)) <==> config.listen == Some(
                address,
            ),
        forall|url: String|
            #[trigger] planned(config).contains(Task::Dial(url)) <==> config.dial@.contains(url),
        config.listen matches Some(address) ==> planned(config)[0] == Task::Listen(address),
        forall|i: int|
            0 <= i < config.dial@.len() ==> planned(config)[planned(config).len()
                - config.dial@.len() + i] == Task::Dial(#[trigger] config.dial@[i]),
        config_fault(config) is None ==> planned(config).len() > 0,
{
    let tasks = planned(config);
    let first = tasks.len() - config.dial@.len();
    assert forall|i: int| 0 <= i < config.dial@.len() implies tasks[first + i] == Task::Dial(
        #[trigger] config.dial@[i],
    ) by {}
    assert forall|address: String| config.listen == Some(address) implies #[trigger] tasks.contains(
        Task::Listen(address),
    ) by {
        assert(tasks[0] == Task::Listen(address));
    }
    assert forall|url: String| #[trigger]
        tasks.contains(Task::Dial(url)) <==> config.dial@.contains(url) by {
        if config.dial@.contains(url) {
            let i = choose|i: int| 0 <= i < config.dial@.len() && config.dial@[i] == url;
            assert(tasks[first + i] == Task::Dial(config.dial@[i]));
        }
        if tasks.contains(Task::Dial(url)) {
            let k = choose|k: int| 0 <= k < tasks.len() && tasks[k] == Task::Dial(url);
            assert(config.dial@[k - first] == url);
        }
    }
}

/// When a configuration is refused, and why: it names nothing to listen on and nothing to dial;
/// or, where it names something, no peer to let in.
pub proof fn law_refused_configurations(config: Config)
    ensures
        config_fault(config) == Some(RunError::NothingToDo) <==> config.listen is None
            && config.dial@.len() == 0,
        config_fault(config) == Some(RunError::PeersRequired) <==> (config.listen is Some
            || config.dial@.len() > 0) && config.peers@.len() == 0,
        config_fault(config) is None <==> (config.listen is Some || config.dial@.len() > 0)
            && config.peers@.len() > 0,
{
}

/// A transport serves exactly for the node whose hello came first, and serves for it until the
/// flow ends: another hello, or word that none will come, changes nothing then. Before the hello
/// nothing but the hello, or word that none will come, matters.
pub proof fn law_first_hello_names_the_node(my_id: NodeId, other: NodeId)
    ensures
        next_phase(Phase::AwaitingHello, RunEvent::Hello(my_id)) == (Phase::Serving { my_id }),
        next_phase(Phase::AwaitingHello, RunEvent::HelloLost) == Phase::Over,
        next_phase(Phase::AwaitingHello, RunEvent::FlowDead) == Phase::AwaitingHello,
        next_phase(Phase::Serving { my_id }, RunEvent::Hello(other)) == (Phase::Serving { my_id }),
        next_phase(Phase::Serving { my_id }, RunEvent::HelloLost) == (Phase::Serving { my_id }),
        next_phase(Phase::Serving { my_id }, RunEvent::FlowDead) == Phase::Over,
{
}

} // verus!
