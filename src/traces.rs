//! Runs of the engine over sequences of events, and what holds of them.
use vstd::prelude::*;
use crate::engine::{
    ActionView, EngineView, EventView, Pending, TunnelState, idle_in, initial, step_spec, stopped,
    well_formed,
};
use crate::reply::reply_accepted;

verus! {

/// The engine after each event of `evs` in turn, and the actions it asked for.
pub open spec fn run(e: EngineView, evs: Seq<EventView>) -> (EngineView, Seq<ActionView>)
    decreases evs.len(),
{
    if evs.len() == 0 {
        (e, Seq::empty())
    } else {
        let first = step_spec(e, evs[0]);
        let rest = run(first.0, evs.skip(1));
        (rest.0, seq![first.1] + rest.1)
    }
}

/// The bytes that one action hands out for writing to the socket
/// (`to_socket`) or to standard output.
pub open spec fn payload(to_socket: bool, a: ActionView) -> Seq<u8> {
    match a {
        ActionView::WriteSocket(d) => if to_socket {
            d
        } else {
            Seq::empty()
        },
        ActionView::WriteOutput(d) => if to_socket {
            Seq::empty()
        } else {
            d
        },
        _ => Seq::empty(),
    }
}

/// The bytes handed out for writing to the socket (`to_socket`) or to standard
/// output, in order.
pub open spec fn delivered(to_socket: bool, acts: Seq<ActionView>) -> Seq<u8>
    decreases acts.len(),
{
    if acts.len() == 0 {
        Seq::empty()
    } else {
        payload(to_socket, acts[0]) + delivered(to_socket, acts.skip(1))
    }
}

/// Every action is `Stop`.
pub open spec fn all_stop(acts: Seq<ActionView>) -> bool {
    forall|i: int| 0 <= i < acts.len() ==> acts[i] == ActionView::Stop
}

/// The chunks one after another.
pub open spec fn concat(chunks: Seq<Seq<u8>>) -> Seq<u8>
    decreases chunks.len(),
{
    if chunks.len() == 0 {
        Seq::empty()
    } else {
        chunks[0] + concat(chunks.skip(1))
    }
}

/// A notification that the socket (`from_socket`) or standard input has bytes to read.
pub open spec fn readable(from_socket: bool) -> EventView {
    if from_socket {
        EventView::SocketReady { readable: true, writable: false }
    } else {
        EventView::InputReady { readable: true }
    }
}

/// One chunk read from one side, written whole to the other, and flushed.
pub open spec fn relay_round(from_socket: bool, chunk: Seq<u8>) -> Seq<EventView> {
    seq![
        readable(from_socket),
        EventView::Received(chunk),
        EventView::Written(chunk.len() as usize),
        EventView::Flushed(true),
    ]
}

/// Rounds of [`relay_round`], one per chunk.
pub open spec fn relay_rounds(from_socket: bool, chunks: Seq<Seq<u8>>) -> Seq<EventView>
    decreases chunks.len(),
{
    if chunks.len() == 0 {
        Seq::empty()
    } else {
        relay_round(from_socket, chunks[0]) + relay_rounds(from_socket, chunks.skip(1))
    }
}

/// The handshake as a proxy plays it: registration, the request written
/// whole, and one read that delivers `reply`.
pub open spec fn handshake(request_len: usize, reply: Seq<u8>) -> Seq<EventView> {
    seq![
        EventView::Registered,
        EventView::SocketReady { readable: false, writable: true },
        EventView::Written(request_len),
        EventView::SocketReady { readable: true, writable: false },
        EventView::Received(reply),
    ]
}

/// An outcome that reports the failure of the awaited operation `p`: a write
/// that took fewer or more bytes than handed out, a read that delivered
/// nothing, or a failed flush.
pub open spec fn is_failure(p: Pending, request_len: nat, ev: EventView) -> bool {
    match (p, ev) {
        (Pending::RequestWrite, EventView::Written(n)) => n != request_len,
        (Pending::OutputWrite(k), EventView::Written(n)) => n != k,
        (Pending::SocketWrite(k), EventView::Written(n)) => n != k,
        (Pending::ReplyRead, EventView::Received(d)) => d.len() == 0,
        (Pending::SocketRead, EventView::Received(d)) => d.len() == 0,
        (Pending::InputRead, EventView::Received(d)) => d.len() == 0,
        (Pending::OutputFlush, EventView::Flushed(ok)) => !ok,
        (Pending::SocketFlush, EventView::Flushed(ok)) => !ok,
        _ => false,
    }
}

/// The position of a state in the order in which a tunnel passes through them.
pub open spec fn rank(s: TunnelState) -> nat {
    match s {
        TunnelState::Connecting => 0,
        TunnelState::AwaitingWritable => 1,
        TunnelState::AwaitingResponse => 2,
        TunnelState::Relaying => 3,
        TunnelState::Closed => 4,
    }
}

/// States only move forward: no event takes the engine back to an earlier state.
pub proof fn lemma_step_moves_forward(e: EngineView, ev: EventView)
    requires
        well_formed(e),
    ensures
        rank(step_spec(e, ev).0.state) >= rank(e.state),
{
}

/// Running two traces one after the other is running their concatenation.
pub proof fn lemma_run_append(e: EngineView, a: Seq<EventView>, b: Seq<EventView>)
    ensures
        run(e, a + b) == (run(run(e, a).0, b).0, run(e, a).1 + run(run(e, a).0, b).1),
    decreases a.len(),
{
    if a.len() == 0 {
        assert(a + b =~= b);
        assert(run(e, a).1 + run(run(e, a).0, b).1 =~= run(run(e, a).0, b).1);
    } else {
        let first = step_spec(e, a[0]);
        assert((a + b).skip(1) =~= a.skip(1) + b);
        lemma_run_append(first.0, a.skip(1), b);
        assert(seq![first.1] + (run(first.0, a.skip(1)).1 + run(run(first.0, a.skip(1)).0, b).1)
            =~= (seq![first.1] + run(first.0, a.skip(1)).1) + run(run(first.0, a.skip(1)).0, b).1);
    }
}

/// What is delivered by two runs one after the other is what each delivers, in order.
pub proof fn lemma_delivered_append(to_socket: bool, a: Seq<ActionView>, b: Seq<ActionView>)
    ensures
        delivered(to_socket, a + b) == delivered(to_socket, a) + delivered(to_socket, b),
    decreases a.len(),
{
    if a.len() == 0 {
        assert(a + b =~= b);
    } else {
        assert((a + b).skip(1) =~= a.skip(1) + b);
        assert((a + b)[0] == a[0]);
        lemma_delivered_append(to_socket, a.skip(1), b);
        let here = payload(to_socket, a[0]);
        assert(delivered(to_socket, a + b) == here + delivered(to_socket, a.skip(1) + b));
        assert(here + (delivered(to_socket, a.skip(1)) + delivered(to_socket, b)) =~= (here
            + delivered(to_socket, a.skip(1))) + delivered(to_socket, b));
    }
}

/// A closed tunnel stays closed: whatever happens next, it only ever asks to stop.
pub proof fn lemma_closed_stays_closed(e: EngineView, evs: Seq<EventView>)
    requires
        e.state == TunnelState::Closed,
    ensures
        run(e, evs).0.state == TunnelState::Closed,
        all_stop(run(e, evs).1),
        delivered(true, run(e, evs).1) == Seq::<u8>::empty(),
        delivered(false, run(e, evs).1) == Seq::<u8>::empty(),
    decreases evs.len(),
{
    if evs.len() > 0 {
        lemma_closed_stays_closed(idle_in(e, TunnelState::Closed), evs.skip(1));
        let acts = run(e, evs).1;
        assert(acts.skip(1) == run(idle_in(e, TunnelState::Closed), evs.skip(1)).1);
        assert forall|i: int| 0 <= i < acts.len() implies acts[i] == ActionView::Stop by {
            if i > 0 {
                assert(acts[i] == acts.skip(1)[i - 1]);
            }
        }
    }
}

/// The handshake: a fresh engine sends its request whole once the socket is
/// writable, then reads once; an accepted answer opens the relay, and any
/// other answer, an empty read included, closes the tunnel before a byte is relayed.
pub proof fn lemma_handshake(request: Seq<u8>, reply: Seq<u8>)
    requires
        request.len() <= usize::MAX,
    ensures
        ({
            let r = run(initial(request), handshake(request.len() as usize, reply));
            &&& r.1.subrange(0, 4) == seq![
                ActionView::Wait,
                ActionView::WriteSocket(request),
                ActionView::Wait,
                ActionView::ReadSocket,
            ]
            &&& r.1.len() == 5
            &&& reply_accepted(reply) ==> r.0 == idle_in(initial(request), TunnelState::Relaying)
                && r.1[4] == ActionView::Wait
            &&& !reply_accepted(reply) ==> r.0.state == TunnelState::Closed && r.1[4]
                == ActionView::Stop
        }),
{
    reveal_with_fuel(run, 6);
    let evs = handshake(request.len() as usize, reply);
    let e0 = initial(request);
    let s1 = step_spec(e0, evs[0]);
    let s2 = step_spec(s1.0, evs[1]);
    let s3 = step_spec(s2.0, evs[2]);
    let s4 = step_spec(s3.0, evs[3]);
    let s5 = step_spec(s4.0, evs[4]);
    assert(evs.skip(1).skip(1).skip(1).skip(1).skip(1) =~= Seq::<EventView>::empty());
    assert(evs.skip(1)[0] == evs[1]);
    assert(evs.skip(1).skip(1)[0] == evs[2]);
    assert(evs.skip(1).skip(1).skip(1)[0] == evs[3]);
    assert(evs.skip(1).skip(1).skip(1).skip(1)[0] == evs[4]);
    let r = run(e0, evs);
    assert(r.1 =~= seq![s1.1, s2.1, s3.1, s4.1, s5.1]);
    assert(r.1.subrange(0, 4) =~= seq![
        ActionView::Wait,
        ActionView::WriteSocket(request),
        ActionView::Wait,
        ActionView::ReadSocket,
    ]);
}

/// A refused handshake opens nothing: after an answer that does not accept the
/// request, a connection closed before any byte included, the tunnel is closed
/// for good, and whatever happens next, nothing but the request itself is ever
/// handed out for writing.
pub proof fn lemma_refused_handshake_relays_nothing(
    request: Seq<u8>,
    reply: Seq<u8>,
    later: Seq<EventView>,
)
    requires
        request.len() <= usize::MAX,
        !reply_accepted(reply),
    ensures
        ({
            let r = run(initial(request), handshake(request.len() as usize, reply) + later);
            &&& r.0.state == TunnelState::Closed
            &&& delivered(true, r.1) == request
            &&& delivered(false, r.1) == Seq::<u8>::empty()
            &&& forall|i: int| 4 <= i < r.1.len() ==> r.1[i] == ActionView::Stop
        }),
{
    let evs = handshake(request.len() as usize, reply);
    let e0 = initial(request);
    lemma_handshake(request, reply);
    lemma_run_append(e0, evs, later);
    let first = run(e0, evs);
    let rest = run(first.0, later);
    lemma_closed_stays_closed(first.0, later);
    lemma_delivered_append(true, first.1, rest.1);
    lemma_delivered_append(false, first.1, rest.1);
    reveal_with_fuel(delivered, 6);
    let acts = first.1;
    assert(acts.skip(1).skip(1).skip(1).skip(1).skip(1) =~= Seq::<ActionView>::empty());
    assert(acts.skip(1)[0] == acts[1]);
    assert(acts.skip(1).skip(1)[0] == acts[2]);
    assert(acts.skip(1).skip(1).skip(1)[0] == acts[3]);
    assert(acts.skip(1).skip(1).skip(1).skip(1)[0] == acts[4]);
    assert(delivered(true, acts) =~= request);
    assert(delivered(false, acts) =~= Seq::<u8>::empty());
    assert(request + Seq::<u8>::empty() =~= request);
    assert(Seq::<u8>::empty() + Seq::<u8>::empty() =~= Seq::<u8>::empty());
    let all = run(e0, evs + later).1;
    assert forall|i: int| 4 <= i < all.len() implies all[i] == ActionView::Stop by {
        if i >= 5 {
            assert(all[i] == rest.1[i - 5]);
        }
    }
}

/// No retry: an operation that fails ends the tunnel at once, and after it the
/// engine asks for no read, write or flush again, whatever happens.
pub proof fn lemma_failure_ends_tunnel(e: EngineView, ev: EventView, later: Seq<EventView>)
    requires
        is_failure(e.pending, e.request.len(), ev),
    ensures
        step_spec(e, ev) == stopped(e),
        run(step_spec(e, ev).0, later).0.state == TunnelState::Closed,
        all_stop(run(step_spec(e, ev).0, later).1),
        delivered(true, run(step_spec(e, ev).0, later).1) == Seq::<u8>::empty(),
        delivered(false, run(step_spec(e, ev).0, later).1) == Seq::<u8>::empty(),
{
    lemma_closed_stays_closed(step_spec(e, ev).0, later);
}

/// One round of the relay: the chunk read from one side is handed whole to the
/// other side, which is then flushed, and the engine is back where it was.
proof fn lemma_relay_round(e: EngineView, from_socket: bool, chunk: Seq<u8>)
    requires
        e.state == TunnelState::Relaying,
        e.pending == Pending::Idle,
        chunk.len() > 0,
    ensures
        run(e, relay_round(from_socket, chunk)).0 == e,
        delivered(!from_socket, run(e, relay_round(from_socket, chunk)).1) == chunk,
        delivered(from_socket, run(e, relay_round(from_socket, chunk)).1) == Seq::<u8>::empty(),
{
    reveal_with_fuel(run, 5);
    reveal_with_fuel(delivered, 5);
    let evs = relay_round(from_socket, chunk);
    assert(evs.skip(1).skip(1).skip(1).skip(1) =~= Seq::<EventView>::empty());
    assert(evs.skip(1)[0] == evs[1]);
    assert(evs.skip(1).skip(1)[0] == evs[2]);
    assert(evs.skip(1).skip(1).skip(1)[0] == evs[3]);
    let acts = run(e, evs).1;
    assert(acts.len() == 4);
    assert(acts.skip(1).skip(1).skip(1).skip(1) =~= Seq::<ActionView>::empty());
    assert(acts.skip(1)[0] == acts[1]);
    assert(acts.skip(1).skip(1)[0] == acts[2]);
    assert(acts.skip(1).skip(1).skip(1)[0] == acts[3]);
    assert(delivered(!from_socket, acts) =~= chunk);
    assert(delivered(from_socket, acts) =~= Seq::<u8>::empty());
}

/// Relaying keeps every byte and its order: chunks of any sizes read from one
/// side arrive at the other, through one write each, as exactly their
/// concatenation, and nothing goes back the other way.
pub proof fn lemma_relay_round_trip(e: EngineView, from_socket: bool, chunks: Seq<Seq<u8>>)
    requires
        e.state == TunnelState::Relaying,
        e.pending == Pending::Idle,
        forall|i: int| 0 <= i < chunks.len() ==> (#[trigger] chunks[i]).len() > 0,
    ensures
        run(e, relay_rounds(from_socket, chunks)).0 == e,
        delivered(!from_socket, run(e, relay_rounds(from_socket, chunks)).1) == concat(chunks),
        delivered(from_socket, run(e, relay_rounds(from_socket, chunks)).1) == Seq::<u8>::empty(),
    decreases chunks.len(),
{
    if chunks.len() == 0 {
        assert(relay_rounds(from_socket, chunks) =~= Seq::<EventView>::empty());
    } else {
        let head = relay_round(from_socket, chunks[0]);
        let tail = relay_rounds(from_socket, chunks.skip(1));
        assert(chunks[0].len() > 0);
        lemma_relay_round(e, from_socket, chunks[0]);
        assert forall|i: int| 0 <= i < chunks.skip(1).len() implies (#[trigger] chunks.skip(
            1,
        )[i]).len() > 0 by {
            assert(chunks.skip(1)[i] == chunks[i + 1]);
        }
        lemma_relay_round_trip(e, from_socket, chunks.skip(1));
        lemma_run_append(e, head, tail);
        let a1 = run(e, head).1;
        let a2 = run(e, tail).1;
        lemma_delivered_append(true, a1, a2);
        lemma_delivered_append(false, a1, a2);
        assert(Seq::<u8>::empty() + Seq::<u8>::empty() =~= Seq::<u8>::empty());
    }
}

} // verus!
