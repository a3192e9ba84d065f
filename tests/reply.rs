use corkscrew::reply::{accepts_reply, reply_status};

#[test]
fn established_reply_is_accepted() {
    assert!(accepts_reply(b"HTTP/1.1 200 Connection established\r\n\r\n"));
    assert!(accepts_reply(b"HTTP/1.0 200 OK\r\n\r\n"));
    assert!(accepts_reply(b"HTTP/1.1 299"));
}

#[test]
fn other_statuses_are_rejected() {
    assert!(!accepts_reply(b"HTTP/1.1 403 Forbidden\r\n\r\n"));
    assert!(!accepts_reply(b"HTTP/1.1 300 Multiple Choices\r\n\r\n"));
    assert!(!accepts_reply(b"HTTP/1.1 199 \r\n\r\n"));
    assert!(!accepts_reply(b"HTTP/1.1 407 Proxy Authentication Required\r\n\r\n"));
}

#[test]
fn malformed_replies_are_rejected() {
    assert!(!accepts_reply(b""));
    assert!(!accepts_reply(b"HTTP/1.1 20"));
    assert!(!accepts_reply(b"HTTP/2 200 OK\r\n\r\n"));
    assert!(!accepts_reply(b"SSH-2.0-OpenSSH\r\n"));
    assert!(!accepts_reply(b"HTTP/1.1 2x0 OK\r\n"));
    assert!(!accepts_reply(b"HTTP/1.1 200 \xff\xfe\r\n"));
}

#[test]
fn status_code_values() {
    assert_eq!(reply_status(b"HTTP/1.1 200 Connection established"), 200);
    assert_eq!(reply_status(b"HTTP/1.1 403 Forbidden"), 403);
    assert_eq!(reply_status(b"HTTP/1.0 999"), 999);
    assert_eq!(reply_status(b"HTTP/1.1 abc"), 0);
    assert_eq!(reply_status(b"HTTP/1.1 +20"), 0);
    assert_eq!(reply_status(b"HTTP/1.1 20"), 0);
}
