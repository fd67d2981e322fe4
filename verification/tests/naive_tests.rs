use plaintext_server::naive::{
    has_trailing_bytes, naive_response_bytes, parse_whole, NaiveConnection, NaiveIo,
};

fn naive_answer(date: &str) -> Vec<u8> {
    format!(
        "HTTP/1.1 200 OK\r\nContent-Type: text/plain\r\nContent-Lenth: 15\r\nServer: wut\r\nDate: {}\r\n\r\nHello, World!",
        date
    )
    .into_bytes()
}

#[test]
fn naive_answer_bytes() {
    assert_eq!(naive_response_bytes("D"), naive_answer("D"));
}

#[test]
fn parse_whole_cases() {
    let r = parse_whole(b"GET /plaintext HTTP/1.1\r\n\r\n").unwrap();
    assert_eq!(r.path, "/plaintext");
    assert_eq!(r.version, 1);
    assert!(parse_whole(b"GET / HTTP/1.1\r\n").is_none());
    assert!(parse_whole(b"GET / HTTP/7.1\r\n\r\n").is_none());
    assert!(has_trailing_bytes(b"GET /plaintext HTTP/1.1\r\n\r\nGET"));
    assert!(!has_trailing_bytes(b"GET /plaintext HTTP/1.1\r\n\r\n"));
    assert!(!has_trailing_bytes(b"GET /plaintext HTTP/1.1\r\n"));
    assert!(!has_trailing_bytes(b"garbage\r\n\r\nmore"));
}

#[test]
fn one_request_then_close() {
    let mut c = NaiveConnection::new();
    assert_eq!(c.interest(), Some(NaiveIo::Read));
    assert!(c.unsent().is_empty());
    c.on_read(None, "D");
    assert_eq!(c.interest(), Some(NaiveIo::Read));
    c.on_read(Some(b"GET / HTTP/1.1\r\n"), "D");
    assert_eq!(c.interest(), Some(NaiveIo::Read));
    c.on_read(Some(b"\r\n"), "D");
    assert_eq!(c.interest(), Some(NaiveIo::Write));
    let all = naive_answer("D");
    assert_eq!(c.unsent(), &all[..]);
    c.on_write(None);
    c.on_write(Some(5));
    assert_eq!(c.unsent(), &all[5..]);
    let rest = c.unsent().len();
    c.on_write(Some(rest));
    assert!(c.is_closed());
    assert_eq!(c.interest(), None);
}

#[test]
fn end_of_stream_still_answers() {
    let mut c = NaiveConnection::new();
    c.on_read(Some(b""), "D");
    assert_eq!(c.unsent(), &naive_answer("D")[..]);
}

#[test]
fn invalid_bytes_keep_reading_and_trailing_bytes_are_detected() {
    let mut c = NaiveConnection::new();
    c.on_read(Some(b"\x00\x00\x00"), "D");
    assert_eq!(c.interest(), Some(NaiveIo::Read));
    let mut d = NaiveConnection::new();
    assert!(d.read_overruns(Some(b"GET / HTTP/1.1\r\n\r\nGET")));
    assert!(!d.read_overruns(Some(b"GET / HTTP/1.1\r\n\r\n")));
    assert!(!d.read_overruns(Some(b"")));
    assert!(!d.read_overruns(None));
    d.on_read(Some(b"GET / HTTP/1.1\r\n"), "D");
    assert!(d.read_overruns(Some(b"\r\nX")));
}

#[test]
fn move_forward_steps() {
    let mut c = NaiveConnection::new();
    c.move_forward("X");
    assert_eq!(c.unsent(), &naive_answer("X")[..]);
    c.move_forward("X");
    assert!(c.is_closed());
}

#[test]
fn on_read_now_dates_the_answer() {
    let mut c = NaiveConnection::new();
    c.on_read_now(Some(b"GET / HTTP/1.1\r\n\r\n"));
    let text = String::from_utf8(c.unsent().to_vec()).unwrap();
    assert!(text.contains("\r\nServer: wut\r\nDate: "));
    assert!(!text.contains("Date: \r\n"));
}
