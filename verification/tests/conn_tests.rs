use plaintext_server::conn::{Action, Connection, Interest};
use plaintext_server::http::{ServeError, Variant};

const REQ11: &[u8] = b"GET /plaintext HTTP/1.1\r\nHost: h\r\n\r\n";
const REQ10: &[u8] = b"GET /plaintext HTTP/1.0\r\n\r\n";

fn answer(variant: Variant, date: &str) -> Vec<u8> {
    let body = match variant {
        Variant::Shared => "Hello, World!",
        Variant::PerThread => "Hello, World!\r\n",
    };
    format!(
        "HTTP/1.1 200 OK\r\nServer: Example\r\nDate: {}\r\nContent-Length: {}\r\nContent-Type: text/plain; charset=UTF-8\r\n\r\n{}",
        date,
        body.len(),
        body
    )
    .into_bytes()
}

#[test]
fn fresh_connection() {
    let mut c = Connection::new(Variant::Shared);
    assert!(!c.is_closed());
    assert!(c.pending_output().is_empty());
    assert!(c.take_first());
    assert!(!c.take_first());
    assert_eq!(c.interest(), Interest::Readable);
}

#[test]
fn one_request_keepalive_round_trip() {
    let mut c = Connection::new(Variant::Shared);
    assert_eq!(c.ready(true, false), Action::Read);
    assert_eq!(c.received(REQ11, "D"), Ok(Action::Read));
    assert_eq!(c.pending_output(), &answer(Variant::Shared, "D")[..]);
    assert_eq!(c.read_blocked(), Action::Done);
    assert!(!c.is_closed());
    assert_eq!(c.interest(), Interest::Both);
    assert_eq!(c.ready(false, true), Action::Write);
    let n = c.pending_output().len();
    assert_eq!(c.wrote(n), Ok(Action::Done));
    assert!(!c.is_closed());
    assert_eq!(c.interest(), Interest::Readable);
}

#[test]
fn pipelined_requests_are_answered_in_order() {
    let mut c = Connection::new(Variant::Shared);
    c.ready(true, true);
    let mut data = REQ11.to_vec();
    data.extend_from_slice(REQ11);
    data.extend_from_slice(b"GET /plain");
    assert_eq!(c.received(&data, "D"), Ok(Action::Done));
    let mut two = answer(Variant::Shared, "D");
    two.extend_from_slice(&answer(Variant::Shared, "D"));
    assert_eq!(c.pending_output(), &two[..]);
    assert_eq!(c.received(b"text HTTP/1.1\r\n\r\n", "E"), Ok(Action::Read));
    two.extend_from_slice(&answer(Variant::Shared, "E"));
    assert_eq!(c.pending_output(), &two[..]);
}

#[test]
fn partial_request_waits() {
    let mut c = Connection::new(Variant::Shared);
    c.ready(true, true);
    assert_eq!(c.received(b"GET /plaintext HT", "D"), Ok(Action::Done));
    assert!(c.pending_output().is_empty());
    assert_eq!(c.received(b"TP/1.1\r\n\r\n", "D"), Ok(Action::Read));
    assert_eq!(c.pending_output(), &answer(Variant::Shared, "D")[..]);
}

#[test]
fn http10_without_keepalive_closes_after_the_answer() {
    let mut c = Connection::new(Variant::Shared);
    c.ready(true, false);
    assert_eq!(c.received(REQ10, "D"), Ok(Action::Done));
    assert!(!c.is_closed());
    assert_eq!(c.interest(), Interest::Writable);
    assert_eq!(c.ready(false, true), Action::Write);
    assert_eq!(c.wrote(10), Ok(Action::Write));
    let n = c.pending_output().len();
    assert_eq!(c.wrote(n), Ok(Action::Done));
    assert!(c.is_closed());
}

#[test]
fn http10_with_keepalive_stays_open() {
    let mut c = Connection::new(Variant::Shared);
    c.ready(true, true);
    assert_eq!(
        c.received(b"GET /plaintext HTTP/1.0\r\nConnection: Keep-Alive\r\n\r\n", "D"),
        Ok(Action::Read)
    );
    assert_eq!(c.read_blocked(), Action::Write);
    let n = c.pending_output().len();
    assert_eq!(c.wrote(n), Ok(Action::Done));
    assert!(!c.is_closed());
}

#[test]
fn end_of_stream_closes_once_everything_is_sent() {
    let mut c = Connection::new(Variant::Shared);
    c.ready(true, false);
    assert_eq!(c.eof(), Action::Done);
    assert!(c.is_closed());
    let mut d = Connection::new(Variant::Shared);
    d.ready(true, true);
    assert_eq!(d.received(REQ11, "D"), Ok(Action::Read));
    assert_eq!(d.eof(), Action::Write);
    assert!(!d.is_closed());
    let n = d.pending_output().len();
    assert_eq!(d.wrote(n), Ok(Action::Done));
    assert!(d.is_closed());
}

#[test]
fn write_blocked_keeps_the_answer() {
    let mut c = Connection::new(Variant::Shared);
    c.ready(true, true);
    c.received(REQ11, "D").unwrap();
    assert_eq!(c.read_blocked(), Action::Write);
    assert_eq!(c.write_blocked(), Action::Done);
    assert_eq!(c.pending_output(), &answer(Variant::Shared, "D")[..]);
    assert_eq!(c.ready(false, false), Action::Done);
    assert_eq!(c.ready(false, true), Action::Write);
}

#[test]
fn errors() {
    let mut c = Connection::new(Variant::Shared);
    c.ready(true, true);
    assert!(c.would_ask_other_path(b"GET /other HTTP/1.1\r\n\r\n"));
    assert!(!c.would_ask_other_path(REQ11));
    assert!(!c.would_ask_other_path(b"GET /other HTTP/1.1\r\n"));
    let mut two = REQ11.to_vec();
    two.extend_from_slice(b"GET /json HTTP/1.1\r\n\r\n");
    assert!(c.would_ask_other_path(&two));
    let mut bad_first = b"GET /plaintext HTTP/9.9\r\n\r\n".to_vec();
    bad_first.extend_from_slice(b"GET /json HTTP/1.1\r\n\r\n");
    assert!(!c.would_ask_other_path(&bad_first));
    assert_eq!(c.received(b"GET /plainte", "D"), Ok(Action::Done));
    assert!(c.would_ask_other_path(b"xt2 HTTP/1.1\r\n\r\n"));
    assert!(!c.would_ask_other_path(b"xt HTTP/1.1\r\n\r\n"));
    let mut d = Connection::new(Variant::Shared);
    d.ready(true, true);
    assert_eq!(d.received(b"GET /plaintext HTTP/9.9\r\n\r\n", "D"), Err(ServeError::ParseFailed));
    let mut e = Connection::new(Variant::Shared);
    e.ready(true, true);
    e.received(REQ11, "D").unwrap();
    assert_eq!(e.wrote(0), Err(ServeError::EarlyEof));
}

#[test]
fn per_thread_events_do_not_accumulate() {
    let mut c = Connection::new(Variant::PerThread);
    assert_eq!(c.ready(true, true), Action::Read);
    c.received(REQ11, "D").unwrap();
    assert_eq!(c.pending_output(), &answer(Variant::PerThread, "D")[..]);
    // A round with no readiness does nothing here, while a shared-queue
    // connection would still write.
    assert_eq!(c.ready(false, false), Action::Done);
    let mut s = Connection::new(Variant::Shared);
    s.ready(true, true);
    s.received(REQ11, "D").unwrap();
    assert_eq!(s.ready(false, false), Action::Read);
}

#[test]
fn received_now_dates_the_answer() {
    let mut c = Connection::new(Variant::PerThread);
    c.ready(true, true);
    c.received_now(REQ11).unwrap();
    let text = String::from_utf8(c.pending_output().to_vec()).unwrap();
    assert!(text.starts_with("HTTP/1.1 200 OK\r\nServer: Example\r\nDate: "));
    let date = &text["HTTP/1.1 200 OK\r\nServer: Example\r\nDate: ".len()..text.find("\r\nContent-Length").unwrap()];
    assert!(!date.is_empty());
    assert!(text.ends_with("\r\n\r\nHello, World!\r\n"));
}
