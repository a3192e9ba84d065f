//! The tunnel's state machine.
//!
//! The engine makes every decision of a tunnel and no I/O of its own. Its
//! driver registers the socket and standard input with a poller, hands each
//! readiness notification to [`Engine::step`], performs the one operation
//! that the returned [`Action`] names, and hands its outcome back as the
//! next [`Event`], until the engine says [`Action::Stop`].
use vstd::prelude::*;
use crate::reply::{accepts_reply, reply_accepted};

verus! {

/// Capacity of the buffer that each read fills; a read delivers at most this many bytes.
pub const TRANSFER_BUFFER_SIZE: usize = 4096;

/// Where a tunnel stands. States are entered in this order and never revisited.
#[derive(Clone, Copy, Debug, PartialEq, Eq, Structural)]
pub enum TunnelState {
    /// The sources are not yet registered with the poller.
    Connecting,
    /// The request waits for the socket to become writable.
    AwaitingWritable,
    /// The request is sent; the proxy's answer is awaited.
    AwaitingResponse,
    /// The proxy opened the tunnel; bytes flow both ways.
    Relaying,
    /// The tunnel is over.
    Closed,
}

/// The operation handed to the driver whose outcome the engine awaits.
#[derive(Clone, Copy, Debug, PartialEq, Eq, Structural)]
pub enum Pending {
    /// None: the next event is a readiness notification.
    Idle,
    /// The request is being written to the socket.
    RequestWrite,
    /// The proxy's answer is being read.
    ReplyRead,
    /// A relay read from the socket.
    SocketRead,
    /// A relay write of this many bytes to standard output.
    OutputWrite(usize),
    /// A flush of standard output.
    OutputFlush,
    /// A relay read from standard input.
    InputRead,
    /// A relay write of this many bytes to the socket.
    SocketWrite(usize),
    /// A flush of the socket.
    SocketFlush,
}

/// What the driver reports to the engine.
#[derive(Clone, Debug, PartialEq, Eq)]
pub enum Event {
    /// Standard input and the socket are registered with the poller.
    Registered,
    /// The poller reported the socket ready.
    SocketReady { readable: bool, writable: bool },
    /// The poller reported standard input ready.
    InputReady { readable: bool },
    /// The bytes that the last read delivered; none when it hit the end or failed.
    Received(Vec<u8>),
    /// How many bytes the last write took; 0 when it failed.
    Written(usize),
    /// Whether the last flush succeeded.
    Flushed(bool),
}

/// What the engine asks the driver to do next.
#[derive(Clone, Debug, PartialEq, Eq)]
pub enum Action {
    /// Nothing: wait for the next readiness notification.
    Wait,
    /// Read once from the socket into the transfer buffer.
    ReadSocket,
    /// Read once from standard input into the transfer buffer.
    ReadInput,
    /// Write these bytes to the socket in one write.
    WriteSocket(Vec<u8>),
    /// Write these bytes to standard output in one write.
    WriteOutput(Vec<u8>),
    /// Flush the socket.
    FlushSocket,
    /// Flush standard output.
    FlushOutput,
    /// End the tunnel.
    Stop,
}

/// An [`Event`] with its bytes as a sequence.
pub ghost enum EventView {
    Registered,
    SocketReady { readable: bool, writable: bool },
    InputReady { readable: bool },
    Received(Seq<u8>),
    Written(usize),
    Flushed(bool),
}

/// An [`Action`] with its bytes as a sequence.
pub ghost enum ActionView {
    Wait,
    ReadSocket,
    ReadInput,
    WriteSocket(Seq<u8>),
    WriteOutput(Seq<u8>),
    FlushSocket,
    FlushOutput,
    Stop,
}

impl View for Event {
    type V = EventView;

    open spec fn view(&self) -> EventView {
        match self {
            Event::Registered => EventView::Registered,
            Event::SocketReady { readable, writable } => EventView::SocketReady {
                readable: *readable,
                writable: *writable,
            },
            Event::InputReady { readable } => EventView::InputReady { readable: *readable },
            Event::Received(d) => EventView::Received(d@),
            Event::Written(n) => EventView::Written(*n),
            Event::Flushed(ok) => EventView::Flushed(*ok),
        }
    }
}

impl View for Action {
    type V = ActionView;

    open spec fn view(&self) -> ActionView {
        match self {
            Action::Wait => ActionView::Wait,
            Action::ReadSocket => ActionView::ReadSocket,
            Action::ReadInput => ActionView::ReadInput,
            Action::WriteSocket(d) => ActionView::WriteSocket(d@),
            Action::WriteOutput(d) => ActionView::WriteOutput(d@),
            Action::FlushSocket => ActionView::FlushSocket,
            Action::FlushOutput => ActionView::FlushOutput,
            Action::Stop => ActionView::Stop,
        }
    }
}

/// The engine as a value: its state, the operation it awaits, and the request it sends.
pub ghost struct EngineView {
    pub state: TunnelState,
    pub pending: Pending,
    pub request: Seq<u8>,
}

/// A tunnel that sends `request` to the proxy, then relays.
pub struct Engine {
    state: TunnelState,
    pending: Pending,
    request: Vec<u8>,
}

impl View for Engine {
    type V = EngineView;

    closed spec fn view(&self) -> EngineView {
        EngineView { state: self.state, pending: self.pending, request: self.request@ }
    }
}

/// The engine before anything has happened.
pub open spec fn initial(request: Seq<u8>) -> EngineView {
    EngineView { state: TunnelState::Connecting, pending: Pending::Idle, request }
}

/// Each awaited operation belongs to the state that hands it out.
pub open spec fn well_formed(e: EngineView) -> bool {
    match e.pending {
        Pending::Idle => true,
        Pending::RequestWrite => e.state == TunnelState::AwaitingWritable,
        Pending::ReplyRead => e.state == TunnelState::AwaitingResponse,
        _ => e.state == TunnelState::Relaying,
    }
}

/// `e` in `state` with nothing awaited.
pub open spec fn idle_in(e: EngineView, state: TunnelState) -> EngineView {
    EngineView { state, pending: Pending::Idle, ..e }
}

/// `e` awaiting the outcome of `p`.
pub open spec fn awaiting(e: EngineView, p: Pending) -> EngineView {
    EngineView { pending: p, ..e }
}

/// The end of the tunnel.
pub open spec fn stopped(e: EngineView) -> (EngineView, ActionView) {
    (idle_in(e, TunnelState::Closed), ActionView::Stop)
}

/// A readiness notification, with nothing awaited.
pub open spec fn on_ready(e: EngineView, ev: EventView) -> (EngineView, ActionView) {
    match ev {
        EventView::Registered => if e.state == TunnelState::Connecting {
            (idle_in(e, TunnelState::AwaitingWritable), ActionView::Wait)
        } else {
            stopped(e)
        },
        EventView::SocketReady { readable, writable } => match e.state {
            TunnelState::AwaitingWritable => if writable {
                (awaiting(e, Pending::RequestWrite), ActionView::WriteSocket(e.request))
            } else {
                (e, ActionView::Wait)
            },
            TunnelState::AwaitingResponse => if readable {
                (awaiting(e, Pending::ReplyRead), ActionView::ReadSocket)
            } else {
                (e, ActionView::Wait)
            },
            TunnelState::Relaying => if readable {
                (awaiting(e, Pending::SocketRead), ActionView::ReadSocket)
            } else {
                (e, ActionView::Wait)
            },
            _ => stopped(e),
        },
        EventView::InputReady { readable } => match e.state {
            TunnelState::Connecting => stopped(e),
            TunnelState::Relaying => if readable {
                (awaiting(e, Pending::InputRead), ActionView::ReadInput)
            } else {
                (e, ActionView::Wait)
            },
            _ => (e, ActionView::Wait),
        },
        _ => stopped(e),
    }
}

/// The outcome of the awaited operation.
pub open spec fn on_outcome(e: EngineView, ev: EventView) -> (EngineView, ActionView) {
    match (e.pending, ev) {
        (Pending::RequestWrite, EventView::Written(n)) => if n == e.request.len() {
            (idle_in(e, TunnelState::AwaitingResponse), ActionView::Wait)
        } else {
            stopped(e)
        },
        (Pending::ReplyRead, EventView::Received(d)) => if reply_accepted(d) {
            (idle_in(e, TunnelState::Relaying), ActionView::Wait)
        } else {
            stopped(e)
        },
        (Pending::SocketRead, EventView::Received(d)) => if d.len() > 0 {
            (awaiting(e, Pending::OutputWrite(d.len() as usize)), ActionView::WriteOutput(d))
        } else {
            stopped(e)
        },
        (Pending::OutputWrite(k), EventView::Written(n)) => if n == k {
            (awaiting(e, Pending::OutputFlush), ActionView::FlushOutput)
        } else {
            stopped(e)
        },
        (Pending::InputRead, EventView::Received(d)) => if d.len() > 0 {
            (awaiting(e, Pending::SocketWrite(d.len() as usize)), ActionView::WriteSocket(d))
        } else {
            stopped(e)
        },
        (Pending::SocketWrite(k), EventView::Written(n)) => if n == k {
            (awaiting(e, Pending::SocketFlush), ActionView::FlushSocket)
        } else {
            stopped(e)
        },
        (Pending::OutputFlush, EventView::Flushed(ok)) | (Pending::SocketFlush, EventView::Flushed(ok)) => if ok {
            (awaiting(e, Pending::Idle), ActionView::Wait)
        } else {
            stopped(e)
        },
        _ => stopped(e),
    }
}

/// One transition: the engine after `ev`, and what it asks for next. A
/// closed tunnel stays closed; any failure, and any event that does not
/// answer what the engine awaits, closes it.
pub open spec fn step_spec(e: EngineView, ev: EventView) -> (EngineView, ActionView) {
    if e.state == TunnelState::Closed {
        stopped(e)
    } else if e.pending == Pending::Idle {
        on_ready(e, ev)
    } else {
        on_outcome(e, ev)
    }
}

impl Engine {
    /// A tunnel that will send `request` once the socket is writable.
    pub fn new(request: Vec<u8>) -> (r: Engine)
        ensures
            r@ == initial(request@),
    {
        Engine { state: TunnelState::Connecting, pending: Pending::Idle, request }
    }

    #[verifier::type_invariant]
    closed spec fn wf(&self) -> bool {
        well_formed(self@)
    }

    /// Where the tunnel stands.
    pub fn state(&self) -> (r: TunnelState)
        ensures
            r == self@.state,
    {
        self.state
    }

    /// The operation whose outcome the engine awaits.
    pub fn pending(&self) -> (r: Pending)
        ensures
            r == self@.pending,
    {
        self.pending
    }

    /// Whether the socket's writability still matters: only until the request is sent.
    pub fn wants_writable(&self) -> (r: bool)
        ensures
            r == (self@.state == TunnelState::Connecting || self@.state
                == TunnelState::AwaitingWritable),
    {
        self.state == TunnelState::Connecting || self.state == TunnelState::AwaitingWritable
    }

    fn stop(&mut self) -> (a: Action)
        ensures
            (final(self)@, a@) == stopped(old(self)@),
    {
        proof {
            use_type_invariant(&*self);
        }
        self.pending = Pending::Idle;
        self.state = TunnelState::Closed;
        Action::Stop
    }

    /// Takes one event and says what to do next.
    pub fn step(&mut self, ev: Event) -> (a: Action)
        ensures
            well_formed(final(self)@),
            (final(self)@, a@) == step_spec(old(self)@, ev@),
    {
        proof {
            use_type_invariant(&*self);
        }
        if self.state == TunnelState::Closed {
            return self.stop();
        }
        match self.pending {
            Pending::Idle => self.on_ready(ev),
            _ => self.on_outcome(ev),
        }
    }

    fn on_ready(&mut self, ev: Event) -> (a: Action)
        requires
            old(self)@.state != TunnelState::Closed,
            old(self)@.pending == Pending::Idle,
        ensures
            well_formed(final(self)@),
            (final(self)@, a@) == on_ready(old(self)@, ev@),
    {
        match ev {
            Event::Registered => {
                if self.state == TunnelState::Connecting {
                    self.state = TunnelState::AwaitingWritable;
                    Action::Wait
                } else {
                    self.stop()
                }
            },
            Event::SocketReady { readable, writable } => match self.state {
                TunnelState::AwaitingWritable => {
                    if writable {
                        self.pending = Pending::RequestWrite;
                        let out = self.request.clone();
                        assert(out@ =~= self.request@);
                        Action::WriteSocket(out)
                    } else {
                        Action::Wait
                    }
                },
                TunnelState::AwaitingResponse => {
                    if readable {
                        self.pending = Pending::ReplyRead;
                        Action::ReadSocket
                    } else {
                        Action::Wait
                    }
                },
                TunnelState::Relaying => {
                    if readable {
                        self.pending = Pending::SocketRead;
                        Action::ReadSocket
                    } else {
                        Action::Wait
                    }
                },
                _ => self.stop(),
            },
            Event::InputReady { readable } => match self.state {
                TunnelState::Connecting => self.stop(),
                TunnelState::Relaying => {
                    if readable {
                        self.pending = Pending::InputRead;
                        Action::ReadInput
                    } else {
                        Action::Wait
                    }
                },
                _ => Action::Wait,
            },
            _ => self.stop(),
        }
    }

    fn on_outcome(&mut self, ev: Event) -> (a: Action)
        requires
            old(self)@.state != TunnelState::Closed,
            old(self)@.pending != Pending::Idle,
        ensures
            well_formed(final(self)@),
            (final(self)@, a@) == on_outcome(old(self)@, ev@),
    {
        proof {
            use_type_invariant(&*self);
        }
        match (self.pending, ev) {
            (Pending::RequestWrite, Event::Written(n)) => {
                if n == self.request.len() {
                    self.pending = Pending::Idle;
                    self.state = TunnelState::AwaitingResponse;
                    Action::Wait
                } else {
                    self.stop()
                }
            },
            (Pending::ReplyRead, Event::Received(d)) => {
                if accepts_reply(d.as_slice()) {
                    self.pending = Pending::Idle;
                    self.state = TunnelState::Relaying;
                    Action::Wait
                } else {
                    self.stop()
                }
            },
            (Pending::SocketRead, Event::Received(d)) => {
                if d.len() > 0 {
                    self.pending = Pending::OutputWrite(d.len());
                    Action::WriteOutput(d)
                } else {
                    self.stop()
                }
            },
            (Pending::OutputWrite(k), Event::Written(n)) => {
                if n == k {
                    self.pending = Pending::OutputFlush;
                    Action::FlushOutput
                } else {
                    self.stop()
                }
            },
            (Pending::InputRead, Event::Received(d)) => {
                if d.len() > 0 {
                    self.pending = Pending::SocketWrite(d.len());
                    Action::WriteSocket(d)
                } else {
                    self.stop()
                }
            },
            (Pending::SocketWrite(k), Event::Written(n)) => {
                if n == k {
                    self.pending = Pending::SocketFlush;
                    Action::FlushSocket
                } else {
                    self.stop()
                }
            },
            (Pending::OutputFlush, Event::Flushed(ok)) | (Pending::SocketFlush, Event::Flushed(ok)) => {
                if ok {
                    self.pending = Pending::Idle;
                    Action::Wait
                } else {
                    self.stop()
                }
            },
            _ => self.stop(),
        }
    }
}

} // verus!
