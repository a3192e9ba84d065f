use corkscrew::engine::{Action, Engine, Event, Pending, TunnelState, TRANSFER_BUFFER_SIZE};

const REQUEST: &[u8] = b"CONNECT example.com:22 HTTP/1.0\r\n\r\n";
const ESTABLISHED: &[u8] = b"HTTP/1.1 200 Connection established\r\n\r\n";

fn sent_request() -> Engine {
    let mut e = Engine::new(REQUEST.to_vec());
    assert_eq!(e.step(Event::Registered), Action::Wait);
    assert_eq!(e.state(), TunnelState::AwaitingWritable);
    let a = e.step(Event::SocketReady { readable: false, writable: true });
    assert_eq!(a, Action::WriteSocket(REQUEST.to_vec()));
    assert_eq!(e.step(Event::Written(REQUEST.len())), Action::Wait);
    assert_eq!(e.state(), TunnelState::AwaitingResponse);
    e
}

fn established() -> Engine {
    let mut e = sent_request();
    assert_eq!(e.step(Event::SocketReady { readable: true, writable: true }), Action::ReadSocket);
    assert_eq!(e.step(Event::Received(ESTABLISHED.to_vec())), Action::Wait);
    assert_eq!(e.state(), TunnelState::Relaying);
    e
}

/// Feeds `data` read from one side in reads of at most one buffer, with every
/// write taken whole, and collects the writes handed to the other side.
fn relay(e: &mut Engine, from_socket: bool, data: &[u8]) -> Vec<Vec<u8>> {
    let mut writes = Vec::new();
    for chunk in data.chunks(TRANSFER_BUFFER_SIZE) {
        let ready = if from_socket {
            Event::SocketReady { readable: true, writable: false }
        } else {
            Event::InputReady { readable: true }
        };
        let read = e.step(ready);
        assert_eq!(read, if from_socket { Action::ReadSocket } else { Action::ReadInput });
        let write = e.step(Event::Received(chunk.to_vec()));
        let bytes = match (from_socket, write) {
            (true, Action::WriteOutput(b)) => b,
            (false, Action::WriteSocket(b)) => b,
            (_, other) => panic!("unexpected action {:?}", other),
        };
        let flush = e.step(Event::Written(bytes.len()));
        assert_eq!(flush, if from_socket { Action::FlushOutput } else { Action::FlushSocket });
        assert_eq!(e.step(Event::Flushed(true)), Action::Wait);
        writes.push(bytes);
    }
    writes
}

#[test]
fn established_tunnel_relays_both_ways() {
    let mut e = established();
    let up = relay(&mut e, false, b"SSH-2.0-client\r\n");
    assert_eq!(up, vec![b"SSH-2.0-client\r\n".to_vec()]);
    let down = relay(&mut e, true, b"SSH-2.0-server\r\n");
    assert_eq!(down, vec![b"SSH-2.0-server\r\n".to_vec()]);
    let up = relay(&mut e, false, b"\x00\x01\x02\xff");
    assert_eq!(up, vec![b"\x00\x01\x02\xff".to_vec()]);
    assert_eq!(e.state(), TunnelState::Relaying);
}

#[test]
fn forbidden_reply_closes_tunnel() {
    let mut e = sent_request();
    assert_eq!(e.step(Event::SocketReady { readable: true, writable: false }), Action::ReadSocket);
    let a = e.step(Event::Received(b"HTTP/1.1 403 Forbidden\r\n\r\n".to_vec()));
    assert_eq!(a, Action::Stop);
    assert_eq!(e.state(), TunnelState::Closed);
    assert_eq!(e.step(Event::InputReady { readable: true }), Action::Stop);
    assert_eq!(e.step(Event::SocketReady { readable: true, writable: true }), Action::Stop);
    assert_eq!(e.state(), TunnelState::Closed);
}

#[test]
fn proxy_closing_before_reply_closes_tunnel() {
    let mut e = sent_request();
    assert_eq!(e.step(Event::SocketReady { readable: true, writable: false }), Action::ReadSocket);
    assert_eq!(e.step(Event::Received(Vec::new())), Action::Stop);
    assert_eq!(e.state(), TunnelState::Closed);
}

#[test]
fn input_is_ignored_before_tunnel_opens() {
    let mut e = Engine::new(REQUEST.to_vec());
    e.step(Event::Registered);
    assert_eq!(e.step(Event::InputReady { readable: true }), Action::Wait);
    assert_eq!(e.step(Event::SocketReady { readable: true, writable: false }), Action::Wait);
    assert_eq!(e.state(), TunnelState::AwaitingWritable);
    let mut e = sent_request();
    assert_eq!(e.step(Event::InputReady { readable: true }), Action::Wait);
    assert_eq!(e.step(Event::SocketReady { readable: false, writable: true }), Action::Wait);
    assert_eq!(e.state(), TunnelState::AwaitingResponse);
}

#[test]
fn writable_interest_ends_with_request() {
    let mut e = Engine::new(REQUEST.to_vec());
    assert!(e.wants_writable());
    e.step(Event::Registered);
    assert!(e.wants_writable());
    e.step(Event::SocketReady { readable: false, writable: true });
    e.step(Event::Written(REQUEST.len()));
    assert!(!e.wants_writable());
}

#[test]
fn short_request_write_is_not_retried() {
    let mut e = Engine::new(REQUEST.to_vec());
    e.step(Event::Registered);
    e.step(Event::SocketReady { readable: false, writable: true });
    assert_eq!(e.step(Event::Written(REQUEST.len() - 1)), Action::Stop);
    assert_eq!(e.step(Event::SocketReady { readable: false, writable: true }), Action::Stop);
    assert_eq!(e.state(), TunnelState::Closed);

    let mut e = Engine::new(REQUEST.to_vec());
    e.step(Event::Registered);
    e.step(Event::SocketReady { readable: true, writable: true });
    assert_eq!(e.step(Event::Written(0)), Action::Stop);
    assert_eq!(e.state(), TunnelState::Closed);
}

#[test]
fn relay_failures_are_not_retried() {
    // a failed read from the socket
    let mut e = established();
    e.step(Event::SocketReady { readable: true, writable: false });
    assert_eq!(e.step(Event::Received(Vec::new())), Action::Stop);
    assert_eq!(e.step(Event::SocketReady { readable: true, writable: false }), Action::Stop);

    // a failed read from standard input
    let mut e = established();
    e.step(Event::InputReady { readable: true });
    assert_eq!(e.step(Event::Received(Vec::new())), Action::Stop);
    assert_eq!(e.step(Event::InputReady { readable: true }), Action::Stop);

    // a short write to the socket
    let mut e = established();
    e.step(Event::InputReady { readable: true });
    assert_eq!(e.step(Event::Received(b"abc".to_vec())), Action::WriteSocket(b"abc".to_vec()));
    assert_eq!(e.pending(), Pending::SocketWrite(3));
    assert_eq!(e.step(Event::Written(2)), Action::Stop);
    assert_eq!(e.step(Event::Written(3)), Action::Stop);

    // a short write to standard output
    let mut e = established();
    e.step(Event::SocketReady { readable: true, writable: true });
    assert_eq!(e.step(Event::Received(b"xyz".to_vec())), Action::WriteOutput(b"xyz".to_vec()));
    assert_eq!(e.step(Event::Written(0)), Action::Stop);

    // a failed flush
    let mut e = established();
    e.step(Event::InputReady { readable: true });
    e.step(Event::Received(b"abc".to_vec()));
    assert_eq!(e.step(Event::Written(3)), Action::FlushSocket);
    assert_eq!(e.step(Event::Flushed(false)), Action::Stop);
    assert_eq!(e.step(Event::Flushed(true)), Action::Stop);
    assert_eq!(e.state(), TunnelState::Closed);
}

#[test]
fn unexpected_event_closes_tunnel() {
    let mut e = established();
    e.step(Event::InputReady { readable: true });
    assert_eq!(e.step(Event::InputReady { readable: true }), Action::Stop);
    assert_eq!(e.state(), TunnelState::Closed);
}

#[test]
fn long_input_arrives_whole_and_in_order() {
    let mut e = established();
    let data: Vec<u8> = (0..3 * TRANSFER_BUFFER_SIZE + 123).map(|i| (i * 7 % 251) as u8).collect();
    let writes = relay(&mut e, false, &data);
    assert_eq!(writes.len(), 4);
    assert_eq!(writes.concat(), data);
    let back = relay(&mut e, true, &data);
    assert_eq!(back.concat(), data);
    assert_eq!(e.state(), TunnelState::Relaying);
}
