use plaintext_server::http::{
    asks_plaintext, head_asks_plaintext, path_is_plaintext,
    bytes_eq, bytes_eq_ignore_ascii_case, extend, interpret_httparse, keepalive, parse, process,
    push_decimal, HttparseFields, RawRequest, Request, Response, ServeError, Variant,
};

fn head(buf: &[u8]) -> (RawRequest, usize) {
    parse(buf).unwrap().unwrap()
}

#[test]
fn parse_complete_head() {
    let buf = b"GET /plaintext HTTP/1.1\r\nHost: example\r\nAccept: */*\r\n\r\n";
    let (raw, n) = head(buf);
    assert_eq!(n, buf.len());
    assert_eq!(raw.method, "GET");
    assert_eq!(raw.path, "/plaintext");
    assert_eq!(raw.version, 1);
    assert_eq!(raw.headers.len(), 2);
    assert_eq!(raw.headers[0].0, "Host");
    assert_eq!(raw.headers[0].1, b"example".to_vec());
    assert_eq!(raw.headers[1].0, "Accept");
}

#[test]
fn parse_head_followed_by_more() {
    let buf = b"GET /a HTTP/1.0\r\n\r\nGET /b HTTP/1.1\r\n\r\n";
    let (raw, n) = head(buf);
    assert_eq!(n, 19);
    assert_eq!(raw.path, "/a");
    assert_eq!(raw.version, 0);
}

#[test]
fn parse_partial_head() {
    assert!(matches!(parse(b"GET /plaintext HTTP/1.1\r\nHost:"), Ok(None)));
    assert!(matches!(parse(b""), Ok(None)));
}

#[test]
fn parse_invalid_head() {
    assert_eq!(parse(b"GET /plaintext HTTP/2.5\r\n\r\n").err(), Some(ServeError::ParseFailed));
    assert_eq!(parse(b"\x01\x02 / HTTP/1.1\r\n\r\n").err(), Some(ServeError::ParseFailed));
}

#[test]
fn parse_refuses_too_many_headers() {
    let mut buf = b"GET / HTTP/1.1\r\n".to_vec();
    for _ in 0..17 {
        buf.extend_from_slice(b"X: y\r\n");
    }
    buf.extend_from_slice(b"\r\n");
    assert_eq!(parse(&buf).err(), Some(ServeError::ParseFailed));
    let mut ok = b"GET / HTTP/1.1\r\n".to_vec();
    for _ in 0..16 {
        ok.extend_from_slice(b"X: y\r\n");
    }
    ok.extend_from_slice(b"\r\n");
    assert_eq!(head(&ok).0.headers.len(), 16);
}

#[test]
fn interpret_maps_each_outcome() {
    assert_eq!(interpret_httparse(Err(httparse::Error::Token)).err(), Some(ServeError::ParseFailed));
    assert!(matches!(interpret_httparse(Ok(None)), Ok(None)));
    let fields = HttparseFields {
        method: Some("PUT".to_string()),
        path: Some("/x".to_string()),
        version: Some(0),
        headers: vec![("A".to_string(), b"b".to_vec())],
    };
    let (raw, n) = interpret_httparse(Ok(Some((7, fields)))).unwrap().unwrap();
    assert_eq!(n, 7);
    assert_eq!(raw.method, "PUT");
    assert_eq!(raw.path, "/x");
    assert_eq!(raw.version, 0);
    assert_eq!(raw.headers, vec![("A".to_string(), b"b".to_vec())]);
}

fn request(buf: &[u8]) -> Request {
    let (raw, n) = head(buf);
    Request::new(raw, buf.to_vec(), n)
}

#[test]
fn request_accessors() {
    let r = request(b"POST /p HTTP/1.1\r\nA: 1\r\nB: 2\r\n\r\nrest");
    assert_eq!(r.method(), "POST");
    assert_eq!(r.path(), "/p");
    assert_eq!(r.version(), 1);
    let mut hs = r.headers();
    assert_eq!(hs.next(), Some(("A", &b"1"[..])));
    assert_eq!(hs.next(), Some(("B", &b"2"[..])));
    assert_eq!(hs.next(), None);
    assert_eq!(hs.next(), None);
    assert_eq!(r.into_input_buf(), b"rest".to_vec());
}

#[test]
fn keepalive_rules() {
    assert!(keepalive(&request(b"GET / HTTP/1.1\r\n\r\n")));
    assert!(!keepalive(&request(b"GET / HTTP/1.0\r\n\r\n")));
    assert!(keepalive(&request(b"GET / HTTP/1.0\r\nConnection: keep-alive\r\n\r\n")));
    assert!(keepalive(&request(b"GET / HTTP/1.0\r\nX: y\r\ncOnNeCtIoN: Keep-Alive\r\n\r\n")));
    assert!(!keepalive(&request(b"GET / HTTP/1.0\r\nConnection: close\r\n\r\n")));
    assert!(!keepalive(&request(b"GET / HTTP/1.0\r\nKeep-Alive: connection\r\n\r\n")));
}

#[test]
fn byte_comparisons() {
    assert!(bytes_eq(b"abc", b"abc"));
    assert!(!bytes_eq(b"abc", b"abd"));
    assert!(!bytes_eq(b"abc", b"ab"));
    assert!(bytes_eq_ignore_ascii_case(b"Hello-World", b"hELLO-wORLD"));
    assert!(!bytes_eq_ignore_ascii_case(b"[", b"{"));
    assert!(!bytes_eq_ignore_ascii_case(b"a", b"aa"));
}

#[test]
fn decimal_and_extend() {
    let mut v = b"x".to_vec();
    push_decimal(&mut v, 0);
    push_decimal(&mut v, 7);
    v.push(b' ');
    push_decimal(&mut v, 1234567890);
    assert_eq!(v, b"x07 1234567890".to_vec());
    let mut w = Vec::new();
    push_decimal(&mut w, usize::MAX);
    assert_eq!(String::from_utf8(w).unwrap(), usize::MAX.to_string());
    let mut e = b"ab".to_vec();
    extend(&mut e, b"");
    extend(&mut e, b"cd");
    assert_eq!(e, b"abcd".to_vec());
}

#[test]
fn response_bytes_with_date() {
    let mut r = Response::new();
    r.header("Content-Type", "text/plain").header("X", "y").body("hi there");
    let mut out = b"prefix".to_vec();
    r.to_bytes("Thu, 01 Jan 1970 00:00:00", &mut out);
    let expected = "prefixHTTP/1.1 200 OK\r\nServer: Example\r\nDate: Thu, 01 Jan 1970 00:00:00\r\n\
                    Content-Length: 8\r\nContent-Type: text/plain\r\nX: y\r\n\r\nhi there";
    assert_eq!(String::from_utf8(out).unwrap(), expected);
}

#[test]
fn response_content_length_counts_bytes() {
    let mut r = Response::new();
    r.body("héllo");
    let mut out = Vec::new();
    r.to_bytes("D", &mut out);
    let text = String::from_utf8(out).unwrap();
    assert!(text.contains("Content-Length: 6\r\n"));
    assert!(text.ends_with("\r\n\r\nhéllo"));
}

#[test]
fn bare_response_bytes() {
    let mut r = Response::new();
    r.header("A", "b").body("body");
    assert_eq!(r.to_bare_bytes(), b"HTTP/1.1 200 OK\r\nA: b\r\n\r\nbody".to_vec());
    let empty = Response::new();
    assert_eq!(empty.to_bare_bytes(), b"HTTP/1.1 200 OK\r\n\r\n".to_vec());
}

#[test]
fn plaintext_answers() {
    let r = request(b"GET /plaintext HTTP/1.1\r\n\r\n");
    let mut out = Vec::new();
    process(&r, Variant::Shared).to_bytes("D", &mut out);
    assert_eq!(
        String::from_utf8(out).unwrap(),
        "HTTP/1.1 200 OK\r\nServer: Example\r\nDate: D\r\nContent-Length: 13\r\n\
         Content-Type: text/plain; charset=UTF-8\r\n\r\nHello, World!"
    );
    let mut out2 = Vec::new();
    process(&r, Variant::PerThread).to_bytes("D", &mut out2);
    assert!(String::from_utf8(out2).unwrap().ends_with("Content-Length: 15\r\nContent-Type: text/plain; charset=UTF-8\r\n\r\nHello, World!\r\n"));
}

#[test]
fn plaintext_path_checks() {
    assert!(path_is_plaintext("/plaintext"));
    assert!(!path_is_plaintext("/plaintext/"));
    assert!(!path_is_plaintext("/PLAINTEXT"));
    assert!(!path_is_plaintext(""));
    let r = request(b"GET /plaintext HTTP/1.1\r\n\r\n");
    assert!(asks_plaintext(&r));
    let (raw, _) = head(b"GET /json HTTP/1.1\r\n\r\n");
    assert!(!head_asks_plaintext(&raw));
}
