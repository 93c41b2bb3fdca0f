//! The life of a server: it accepts connections until it is told to stop, and
//! lets the open ones finish until a deadline.

use vstd::prelude::*;

verus! {

/// What a server is doing.
#[derive(Clone, Copy, Debug, PartialEq, Eq, Structural)]
pub enum Phase {
    /// It accepts connections.
    Accepting,
    /// It waits for the open connections.
    Draining,
    /// It is done.
    Stopped,
}

/// What happened.
#[derive(Clone, Copy, Debug, PartialEq, Eq, Structural)]
pub enum ServeEvent {
    /// A connection was accepted.
    Accepted,
    /// Accepting a connection failed.
    AcceptFailed,
    /// The task of a connection ended.
    Closed,
    /// The task of a connection panicked.
    Panicked,
    /// The task of a connection was cancelled.
    Cancelled,
    /// The server was told to stop.
    Shutdown,
    /// The time for open connections is over.
    DrainDeadline,
}

/// What is to be done.
#[derive(Clone, Copy, Debug, PartialEq, Eq, Structural)]
pub enum ServeAction {
    /// Nothing.
    Wait,
    /// Serve the connection in a task of its own.
    Spawn,
    /// Report that accepting failed.
    ReportAccept,
    /// Report that a task panicked.
    ReportPanic,
    /// Report that a task failed.
    ReportFailure,
    /// Stop accepting, and ask every open connection to finish.
    StopAccepting,
    /// Abort the connections that are left.
    AbortAll(usize),
}

/// The state of a serving loop: the phase, the connections that are open, and
/// how many there may be.
#[derive(Clone, Copy, Debug, PartialEq, Eq, Structural)]
pub struct Serving {
    phase: Phase,
    open: usize,
    cap: Option<usize>,
}

/// What the state of a serving loop says.
pub struct ServingView {
    pub phase: Phase,
    pub open: nat,
    pub cap: Option<usize>,
}

impl View for Serving {
    type V = ServingView;

    closed spec fn view(&self) -> ServingView {
        ServingView { phase: self.phase, open: self.open as nat, cap: self.cap }
    }
}

/// Whether a state has room for one more connection.
pub open spec fn has_permit(s: ServingView) -> bool {
    match s.cap {
        Some(n) => s.open < n,
        None => s.open < usize::MAX,
    }
}

/// Whether an event can happen in a state: connections come only while the
/// server accepts and has room, one can end only where one is open, and the
/// deadline passes only while the server drains.
pub open spec fn can_happen(s: ServingView, event: ServeEvent) -> bool {
    match event {
        ServeEvent::Accepted => s.phase == Phase::Accepting && has_permit(s),
        ServeEvent::AcceptFailed => s.phase == Phase::Accepting && has_permit(s),
        ServeEvent::Closed => s.open > 0 && s.phase != Phase::Stopped,
        ServeEvent::Panicked => s.open > 0 && s.phase != Phase::Stopped,
        ServeEvent::Cancelled => s.open > 0 && s.phase != Phase::Stopped,
        ServeEvent::Shutdown => s.phase == Phase::Accepting,
        ServeEvent::DrainDeadline => s.phase == Phase::Draining,
    }
}

/// The state with one connection less. A server that drains stops with the
/// last one.
pub open spec fn one_less(s: ServingView) -> ServingView {
    ServingView {
        open: (s.open - 1) as nat,
        phase: if s.phase == Phase::Draining && s.open == 1 {
            Phase::Stopped
        } else {
            s.phase
        },
        ..s
    }
}

/// What an event leads to.
pub open spec fn served(s: ServingView, event: ServeEvent) -> (ServingView, ServeAction) {
    match event {
        ServeEvent::Accepted => (ServingView { open: s.open + 1, ..s }, ServeAction::Spawn),
        ServeEvent::AcceptFailed => (s, ServeAction::ReportAccept),
        ServeEvent::Closed => (one_less(s), ServeAction::Wait),
        ServeEvent::Panicked => (one_less(s), ServeAction::ReportPanic),
        ServeEvent::Cancelled => (one_less(s), ServeAction::ReportFailure),
        ServeEvent::Shutdown => (
            ServingView {
                phase: if s.open == 0 {
                    Phase::Stopped
                } else {
                    Phase::Draining
                },
                ..s
            },
            ServeAction::StopAccepting,
        ),
        ServeEvent::DrainDeadline => (
            ServingView { phase: Phase::Stopped, open: 0, ..s },
            ServeAction::AbortAll(s.open as usize),
        ),
    }
}

impl Serving {
    #[verifier::type_invariant]
    spec fn within_cap(self) -> bool {
        &&& self.cap matches Some(n) ==> self.open <= n
        &&& self.phase == Phase::Draining ==> self.open > 0
        &&& self.phase == Phase::Stopped ==> self.open == 0
    }

    /// A server that accepts connections, at most `cap` at once.
    pub fn new(cap: Option<usize>) -> (r: Self)
        ensures
            r@ == (ServingView { phase: Phase::Accepting, open: 0, cap }),
    {
        Serving { phase: Phase::Accepting, open: 0, cap }
    }

    /// What the server is doing.
    pub fn phase(&self) -> (r: Phase)
        ensures
            r == self@.phase,
    {
        self.phase
    }

    /// How many connections are open: no more than there may be, at least one
    /// while the server drains, and none when it is done.
    pub fn open(&self) -> (r: usize)
        ensures
            r == self@.open,
            self@.cap matches Some(n) ==> r <= n,
            self@.phase == Phase::Draining ==> r > 0,
            self@.phase == Phase::Stopped ==> r == 0,
    {
        proof {
            use_type_invariant(self);
        }
        self.open
    }

    /// Whether the server takes one more connection.
    pub fn may_accept(&self) -> (r: bool)
        ensures
            r == (self@.phase == Phase::Accepting && has_permit(self@)),
    {
        self.phase == Phase::Accepting && match self.cap {
            Some(n) => self.open < n,
            None => self.open < usize::MAX,
        }
    }

    /// Takes note of an event, and says what is to be done.
    pub fn step(&mut self, event: ServeEvent) -> (r: ServeAction)
        requires
            can_happen(old(self)@, event),
        ensures
            (final(self)@, r) == served(old(self)@, event),
    {
        proof {
            use_type_invariant(&*self);
        }
        let open: usize = self.open;
        match event {
            ServeEvent::Accepted => {
                *self = Serving { phase: self.phase, open: open + 1, cap: self.cap };
                ServeAction::Spawn
            },
            ServeEvent::AcceptFailed => ServeAction::ReportAccept,
            ServeEvent::Shutdown => {
                let phase = if open == 0 {
                    Phase::Stopped
                } else {
                    Phase::Draining
                };
                *self = Serving { phase, open, cap: self.cap };
                ServeAction::StopAccepting
            },
            ServeEvent::DrainDeadline => {
                *self = Serving { phase: Phase::Stopped, open: 0, cap: self.cap };
                ServeAction::AbortAll(open)
            },
            ended => {
                let phase = if self.phase == Phase::Draining && open == 1 {
                    Phase::Stopped
                } else {
                    self.phase
                };
                *self = Serving { phase, open: open - 1, cap: self.cap };
                match ended {
                    ServeEvent::Panicked => ServeAction::ReportPanic,
                    ServeEvent::Cancelled => ServeAction::ReportFailure,
                    _ => ServeAction::Wait,
                }
            },
        }
    }
}

/// Whether a state keeps to the cap, drains only what is open, and is done
/// only with nothing open.
pub open spec fn in_order(s: ServingView) -> bool {
    &&& s.cap matches Some(n) ==> s.open <= n
    &&& s.phase == Phase::Draining ==> s.open > 0
    &&& s.phase == Phase::Stopped ==> s.open == 0
}

/// No event takes a server out of order: there are never more connections than
/// there may be, and a server that is done has none.
pub proof fn law_never_more_than_the_cap(s: ServingView, event: ServeEvent)
    requires
        in_order(s),
        can_happen(s, event),
    ensures
        in_order(served(s, event).0),
        served(s, event).0.cap == s.cap,
{
}

/// A server that was told to stop accepts no more: it never goes back to
/// accepting, and no connection is added.
pub proof fn law_no_new_connections_while_draining(s: ServingView, event: ServeEvent)
    requires
        s.phase != Phase::Accepting,
        can_happen(s, event),
    ensures
        served(s, event).0.phase != Phase::Accepting,
        served(s, event).0.open < s.open || served(s, event).0.phase == Phase::Stopped,
        served(s, event).1 != ServeAction::Spawn,
{
}

/// The deadline ends it: whatever is open is aborted, and the server is done.
pub proof fn law_the_deadline_ends_it(s: ServingView)
    requires
        s.phase == Phase::Draining,
        s.open <= usize::MAX,
    ensures
        can_happen(s, ServeEvent::DrainDeadline),
        served(s, ServeEvent::DrainDeadline).0.phase == Phase::Stopped,
        served(s, ServeEvent::DrainDeadline).1 == ServeAction::AbortAll(s.open as usize),
{
}

/// Connections are counted: one more with each that is accepted, one less with
/// each that ends, and no change otherwise but at the deadline, which aborts as
/// many as are open. A connection is served exactly where it was accepted.
pub proof fn law_connections_are_counted(s: ServingView, event: ServeEvent)
    requires
        in_order(s),
        can_happen(s, event),
        s.open <= usize::MAX,
    ensures
        ({
            let (t, action) = served(s, event);
            let ends = event == ServeEvent::Closed || event == ServeEvent::Panicked || event
                == ServeEvent::Cancelled;
            &&& event == ServeEvent::Accepted ==> t.open == s.open + 1
            &&& ends ==> t.open == s.open - 1
            &&& event == ServeEvent::AcceptFailed || event == ServeEvent::Shutdown ==> t.open
                == s.open
            &&& action is Spawn <==> event == ServeEvent::Accepted
            &&& action is ReportPanic <==> event == ServeEvent::Panicked
            &&& action is ReportFailure <==> event == ServeEvent::Cancelled
            &&& action is ReportAccept <==> event == ServeEvent::AcceptFailed
            &&& action is StopAccepting <==> event == ServeEvent::Shutdown
            &&& event == ServeEvent::DrainDeadline <==> action is AbortAll
            &&& action matches ServeAction::AbortAll(n) ==> n == s.open
        }),
{
}

/// A server goes on accepting until it is told to stop; it is then done at once
/// where nothing is open, and otherwise with the last connection that ends, and
/// not before.
pub proof fn law_when_a_server_is_done(s: ServingView, event: ServeEvent)
    requires
        in_order(s),
        can_happen(s, event),
    ensures
        s.phase == Phase::Accepting && event != ServeEvent::Shutdown ==> served(s, event).0.phase
            == Phase::Accepting,
        event == ServeEvent::Shutdown ==> (served(s, event).0.phase == Phase::Stopped <==> s.open
            == 0) && served(s, event).0.phase != Phase::Accepting,
        s.phase == Phase::Draining && event != ServeEvent::DrainDeadline ==> (served(
            s,
            event,
        ).0.phase == Phase::Stopped <==> served(s, event).0.open == 0),
{
}

/// Every place is used: while a server accepts, a connection may come wherever
/// fewer are open than there may be, and none where there are as many.
pub proof fn law_every_place_is_used(s: ServingView)
    ensures
        s.cap matches Some(n) ==> (can_happen(s, ServeEvent::Accepted) <==> s.phase
            == Phase::Accepting && s.open < n),
        s.cap is None && s.open < usize::MAX ==> (can_happen(s, ServeEvent::Accepted) <==> s.phase
            == Phase::Accepting),
        has_permit(s) && s.phase == Phase::Accepting <==> can_happen(s, ServeEvent::Accepted),
        can_happen(s, ServeEvent::Shutdown) <==> s.phase == Phase::Accepting,
        s.open > 0 && s.phase != Phase::Stopped ==> can_happen(s, ServeEvent::Closed) && can_happen(
            s,
            ServeEvent::Panicked,
        ) && can_happen(s, ServeEvent::Cancelled),
        s.phase == Phase::Draining ==> can_happen(s, ServeEvent::DrainDeadline),
{
}

} // verus!
