//! How links come about: connections that are accepted, and connections that are dialed and
//! dialed again.

use vstd::arithmetic::power2::*;
use vstd::prelude::*;
use vstd::string::*;

verus! {

/// How many seconds pass before the first attempt to dial again.
pub const FIRST_DELAY_SECS: u64 = 1;

/// The most seconds that pass before an attempt to dial again.
pub const LONGEST_DELAY_SECS: u64 = 30;

/// What happens to a link that is dialed.
#[derive(Debug, Clone, Copy, PartialEq, Eq)]
pub enum DialEvent {
    /// The handshake was completed.
    Connected,
    /// There is no connection.
    DialFailed,
    /// The connection has ended.
    LinkEnded,
    /// The wait is over.
    Slept,
}

/// What is done about a link that is dialed.
#[derive(Debug, Clone, Copy, PartialEq, Eq)]
pub enum DialAction {
    /// Serves the connection.
    Serve,
    /// Waits so many seconds.
    Sleep { secs: u64 },
    /// Dials.
    Dial,
}

/// The delay after one of `secs` seconds: twice as long, up to the longest.
pub open spec fn doubled(secs: nat) -> nat {
    if 2 * secs < LONGEST_DELAY_SECS {
        2 * secs
    } else {
        LONGEST_DELAY_SECS as nat
    }
}

/// The delay that stands next after an event, where `secs` stood before it.
pub open spec fn delay_after(secs: nat, event: DialEvent) -> nat {
    match event {
        DialEvent::Connected => FIRST_DELAY_SECS as nat,
        DialEvent::DialFailed => doubled(secs),
        DialEvent::LinkEnded => doubled(secs),
        DialEvent::Slept => secs,
    }
}

/// A link that is dialed whenever it is not there.
pub struct Dialer {
    delay: u64,
}

impl Dialer {
    /// The seconds that the next wait takes.
    pub closed spec fn delay(&self) -> nat {
        self.delay as nat
    }

    /// No delay is shorter than the first or longer than the longest.
    pub open spec fn wf(&self) -> bool {
        FIRST_DELAY_SECS <= self.delay() <= LONGEST_DELAY_SECS
    }

    /// A link that has not been dialed yet.
    pub fn new() -> (r: Dialer)
        ensures
            r.wf(),
            r.delay() == FIRST_DELAY_SECS,
    {
        Dialer { delay: FIRST_DELAY_SECS }
    }

    /// What is done about an event.
    pub fn step(&mut self, event: DialEvent) -> (r: DialAction)
        requires
            old(self).wf(),
        ensures
            final(self).wf(),
            final(self).delay() == delay_after(old(self).delay(), event),
            event == DialEvent::Connected ==> final(self).delay() == 1,
            event == DialEvent::DialFailed || event == DialEvent::LinkEnded ==> {
                &&& 2 * old(self).delay() <= 30 ==> final(self).delay() == 2 * old(self).delay()
                &&& 2 * old(self).delay() > 30 ==> final(self).delay() == 30
            },
            event == DialEvent::Slept ==> final(self).delay() == old(self).delay(),
            match event {
                DialEvent::Connected => r == DialAction::Serve,
                DialEvent::DialFailed | DialEvent::LinkEnded => r matches DialAction::Sleep { secs }
                    && secs == old(self).delay() && FIRST_DELAY_SECS <= secs
                    <= LONGEST_DELAY_SECS,
                DialEvent::Slept => r == DialAction::Dial,
            },
    {
        match event {
            DialEvent::Connected => {
                self.delay = FIRST_DELAY_SECS;
                DialAction::Serve
            },
            DialEvent::DialFailed | DialEvent::LinkEnded => {
                let secs = self.delay;
                let twice = secs * 2;
                self.delay = if twice < LONGEST_DELAY_SECS {
                    twice
                } else {
                    LONGEST_DELAY_SECS
                };
                DialAction::Sleep { secs }
            },
            DialEvent::Slept => DialAction::Dial,
        }
    }
}

/// The delay that stands next after events, from the first on.
pub open spec fn delay_in(events: Seq<DialEvent>) -> nat
    decreases events.len(),
{
    if events.len() == 0 {
        FIRST_DELAY_SECS as nat
    } else {
        delay_after(delay_in(events.drop_last()), events.last())
    }
}

/// Whatever happens to a link, it is dialed again after at least the first delay and at most the
/// longest.
pub proof fn law_delays_stay_in_bounds(events: Seq<DialEvent>)
    ensures
        FIRST_DELAY_SECS <= delay_in(events) <= LONGEST_DELAY_SECS,
    decreases events.len(),
{
    if events.len() > 0 {
        law_delays_stay_in_bounds(events.drop_last());
    }
}

/// Whatever came before, the first wait after a completed handshake takes the first delay.
pub proof fn law_handshake_resets_the_delay(events: Seq<DialEvent>)
    ensures
        delay_in(events.push(DialEvent::Connected)) == FIRST_DELAY_SECS,
{
    assert(events.push(DialEvent::Connected).drop_last() == events);
}

/// The delay after `n` failures to dial, each followed by its wait.
pub open spec fn delay_after_failures(n: nat) -> nat
    decreases n,
{
    if n == 0 {
        FIRST_DELAY_SECS as nat
    } else {
        delay_after(
            delay_after(delay_after_failures((n - 1) as nat), DialEvent::DialFailed),
            DialEvent::Slept,
        )
    }
}

/// While dialing fails the delay doubles each time, until it is the longest.
pub proof fn law_failures_double_the_delay(n: nat)
    ensures
        delay_after_failures(n) == if pow2(n) < LONGEST_DELAY_SECS {
            pow2(n)
        } else {
            LONGEST_DELAY_SECS as nat
        },
    decreases n,
{
    if n == 0 {
        lemma2_to64();
    } else {
        law_failures_double_the_delay((n - 1) as nat);
        lemma_pow2_unfold(n);
    }
}

/// What happens to a listener, and to the connections that have come in by it.
#[derive(Debug, Clone, Copy, PartialEq, Eq)]
pub enum ListenEvent {
    /// It has its address.
    Bound,
    /// It does not get its address.
    BindFailed,
    /// A connection has come in.
    Accepted,
    /// No connection can come in any more.
    AcceptFailed,
    /// The handshake of a connection that had come in failed.
    HandshakeFailed,
    /// A connection that had come in has been served to its end, in order or by a failure.
    LinkEnded,
}

/// Why a listener ends.
#[derive(Debug, Clone, Copy, PartialEq, Eq)]
pub enum ListenError {
    /// It did not get its address.
    Bind,
    /// It could not accept.
    Accept,
}

/// What a listener does.
#[derive(Debug, Clone, Copy, PartialEq, Eq)]
pub enum ListenAction {
    /// Waits for a connection.
    Accept,
    /// Serves the connection that came in, and waits for the next.
    ServeAndAccept,
    /// Ends, and all connections that came in with it.
    End(ListenError),
}

/// What a listener does about an event: only its own failures end it. After the failure of a
/// connection that came in, it goes on accepting.
pub open spec fn listen_reaction(event: ListenEvent) -> ListenAction {
    match event {
        ListenEvent::Accepted => ListenAction::ServeAndAccept,
        ListenEvent::BindFailed => ListenAction::End(ListenError::Bind),
        ListenEvent::AcceptFailed => ListenAction::End(ListenError::Accept),
        ListenEvent::Bound => ListenAction::Accept,
        ListenEvent::HandshakeFailed => ListenAction::Accept,
        ListenEvent::LinkEnded => ListenAction::Accept,
    }
}

/// What a listener does about an event.
pub fn listen_step(event: ListenEvent) -> (r: ListenAction)
    ensures
        r == listen_reaction(event),
        r == ListenAction::ServeAndAccept <==> event == ListenEvent::Accepted,
        r == ListenAction::End(ListenError::Bind) <==> event == ListenEvent::BindFailed,
        r == ListenAction::End(ListenError::Accept) <==> event == ListenEvent::AcceptFailed,
{
    match event {
        ListenEvent::Accepted => ListenAction::ServeAndAccept,
        ListenEvent::BindFailed => ListenAction::End(ListenError::Bind),
        ListenEvent::AcceptFailed => ListenAction::End(ListenError::Accept),
        ListenEvent::Bound | ListenEvent::HandshakeFailed | ListenEvent::LinkEnded => {
            ListenAction::Accept
        },
    }
}

impl ListenError {
    /// The error in words, at a listener with this address.
    pub fn message(&self, address: &str) -> (r: String)
        ensures
            r@ == match *self {
                ListenError::Bind => "bind "@ + address@,
                ListenError::Accept => "accept"@,
            },
    {
        match self {
            ListenError::Bind => "bind ".to_owned().concat(address),
            ListenError::Accept => "accept".to_owned(),
        }
    }
}

/// A failure to dial and the end of a connection make the next delay longer alike: twice as long
/// as the one before, but never over thirty seconds. A completed handshake makes it one second,
/// and waiting leaves it as it is.
pub proof fn law_every_failure_doubles_the_delay(secs: nat)
    ensures
        delay_after(secs, DialEvent::DialFailed) == delay_after(secs, DialEvent::LinkEnded),
        2 * secs <= 30 ==> delay_after(secs, DialEvent::LinkEnded) == 2 * secs,
        2 * secs > 30 ==> delay_after(secs, DialEvent::LinkEnded) == 30,
        delay_after(secs, DialEvent::Connected) == 1,
        delay_after(secs, DialEvent::Slept) == secs,
{
}

/// A listener ends exactly when it does not get its address or can accept no more, and says which;
/// it serves exactly the connections that come in; a connection that fails or ends leaves it
/// accepting.
pub proof fn law_listener_ends_by_its_own_failures(event: ListenEvent)
    ensures
        listen_reaction(event) == ListenAction::End(ListenError::Bind) <==> event
            == ListenEvent::BindFailed,
        listen_reaction(event) == ListenAction::End(ListenError::Accept) <==> event
            == ListenEvent::AcceptFailed,
        listen_reaction(event) == ListenAction::ServeAndAccept <==> event == ListenEvent::Accepted,
        listen_reaction(event) == ListenAction::Accept <==> event == ListenEvent::Bound || event
            == ListenEvent::HandshakeFailed || event == ListenEvent::LinkEnded,
{
}

} // verus!
