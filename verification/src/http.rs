use vstd::prelude::*;
use vstd::string::*;

verus! {

/// The most headers a request may carry; a request with more is refused.
pub const MAX_HEADERS: usize = 16;

/// The UTF-8 bytes of a string.
pub open spec fn utf8(s: Seq<char>) -> Seq<u8> {
    vstd::utf8::encode_utf8(s)
}

/// Errors that end a connection.
#[derive(PartialEq, Eq, Structural, Debug)]
pub enum ServeError {
    /// The bytes received are not a well-formed request.
    ParseFailed,
    /// A request asked for a path other than `/plaintext` (`Connection::received`
    /// leaves such input out).
    NotPlaintext,
    /// The peer accepted no byte of a non-empty write.
    EarlyEof,
}

// ----------------------------------------------------------------------
// The request parser of the `httparse` crate.
// ----------------------------------------------------------------------

/// The error type of `httparse`, carried through without looking inside.
#[verifier::external_type_specification]
#[verifier::external_body]
pub struct ExHttparseError(httparse::Error);

/// The fields that `httparse` fills in when it has read a whole request head.
pub struct HttparseFields {
    pub method: Option<String>,
    pub path: Option<String>,
    pub version: Option<u8>,
    pub headers: Vec<(String, Vec<u8>)>,
}

/// The fields of `HttparseFields` as plain values.
pub type FieldsView = (Option<Seq<char>>, Option<Seq<char>>, Option<u8>, Seq<(Seq<char>, Seq<u8>)>);

pub open spec fn opt_string_view(s: Option<String>) -> Option<Seq<char>> {
    match s {
        Some(t) => Some(t@),
        None => None,
    }
}

pub open spec fn header_pairs(hs: Seq<(String, Vec<u8>)>) -> Seq<(Seq<char>, Seq<u8>)> {
    hs.map_values(|h: (String, Vec<u8>)| (h.0@, h.1@))
}

impl View for HttparseFields {
    type V = FieldsView;

    open spec fn view(&self) -> FieldsView {
        (
            opt_string_view(self.method),
            opt_string_view(self.path),
            self.version,
            header_pairs(self.headers@),
        )
    }
}

/// What `httparse::Request::parse` makes of `buf` with room for `max_headers`
/// headers: `None` for an error, `Some(None)` for an incomplete head, and
/// `Some(Some((n, fields)))` for a head of `n` bytes.
pub uninterp spec fn httparse_request(buf: Seq<u8>, max_headers: usize) -> Option<
    Option<(usize, FieldsView)>,
>;

/// Calls `httparse::Request::parse` on `buf` with room for `max_headers`
/// headers. Trusted: the result is the one `httparse_request` names; for a
/// complete head the length is at least one byte and at most `buf`, the
/// method, path and version are filled in, and at most `max_headers` headers
/// were read (as `httparse`'s source shows).
#[verifier::external_body]
fn call_httparse(buf: &[u8], max_headers: usize) -> (res: Result<
    Option<(usize, HttparseFields)>,
    httparse::Error,
>)
    requires
        max_headers <= 1024,
    ensures
        match res {
            Err(_) => httparse_request(buf@, max_headers) is None,
            Ok(None) => httparse_request(buf@, max_headers) == Some(None::<(usize, FieldsView)>),
            Ok(Some((n, f))) => {
                &&& httparse_request(buf@, max_headers) == Some(Some((n, f@)))
                &&& 0 < n <= buf@.len()
                &&& f.method is Some && f.path is Some && f.version is Some
                &&& f.headers@.len() <= max_headers
            },
        },
{
    let mut headers = vec![httparse::EMPTY_HEADER; max_headers];
    let mut r = httparse::Request::new(&mut headers);
    let n = match r.parse(buf)? {
        httparse::Status::Complete(n) => n,
        httparse::Status::Partial => return Ok(None),
    };
    let headers = r.headers.iter().map(|h| (h.name.to_string(), h.value.to_vec())).collect();
    let (method, path) = (r.method.map(String::from), r.path.map(String::from));
    Ok(Some((n, HttparseFields { method, path, version: r.version, headers })))
}

// ----------------------------------------------------------------------
// Request heads.
// ----------------------------------------------------------------------

/// A request head: method, path, minor HTTP version and headers.
pub struct RawRequest {
    pub method: String,
    pub path: String,
    pub version: u8,
    pub headers: Vec<(String, Vec<u8>)>,
}

/// The abstract value of a request head.
pub struct HeadView {
    pub method: Seq<char>,
    pub path: Seq<char>,
    pub version: u8,
    pub headers: Seq<(Seq<char>, Seq<u8>)>,
}

impl View for RawRequest {
    type V = HeadView;

    open spec fn view(&self) -> HeadView {
        HeadView {
            method: self.method@,
            path: self.path@,
            version: self.version,
            headers: header_pairs(self.headers@),
        }
    }
}

/// What parsing a buffer yields.
pub enum ParseStep {
    /// The buffer does not start with a well-formed request head.
    Invalid,
    /// The buffer holds the beginning of a request head but not all of it.
    Partial,
    /// The buffer starts with a complete head of the given length.
    Complete(HeadView, usize),
}

/// The head that `httparse` fields stand for.
pub open spec fn head_of(f: FieldsView) -> HeadView {
    HeadView { method: f.0.unwrap(), path: f.1.unwrap(), version: f.2.unwrap(), headers: f.3 }
}

/// What `parse` yields for a buffer, in terms of `httparse`'s result.
pub open spec fn parse_step(buf: Seq<u8>) -> ParseStep {
    match httparse_request(buf, MAX_HEADERS) {
        None => ParseStep::Invalid,
        Some(None) => ParseStep::Partial,
        Some(Some((n, f))) => ParseStep::Complete(head_of(f), n),
    }
}

/// Turns what `httparse` returned into a parse result: its error becomes
/// `ParseFailed`, an incomplete head `None`, a complete one the head and its
/// length.
pub fn interpret_httparse(res: Result<Option<(usize, HttparseFields)>, httparse::Error>) -> (out:
    Result<Option<(RawRequest, usize)>, ServeError>)
    requires
        res matches Ok(Some((_, f))) ==> f.method is Some && f.path is Some && f.version is Some,
    ensures
        match res {
            Err(_) => out == Err::<Option<(RawRequest, usize)>, ServeError>(ServeError::ParseFailed),
            Ok(None) => out matches Ok(None),
            Ok(Some((n, f))) => out matches Ok(Some((r, m))) && m == n && r@ == head_of(f@),
        },
{
    match res {
        Err(_) => Err(ServeError::ParseFailed),
        Ok(None) => Ok(None),
        Ok(Some((n, f))) => {
            let HttparseFields { method, path, version, headers } = f;
            let raw = RawRequest {
                method: method.unwrap(),
                path: path.unwrap(),
                version: version.unwrap(),
                headers,
            };
            Ok(Some((raw, n)))
        },
    }
}

/// Parses the request head at the start of `buf`.
pub fn parse(buf: &[u8]) -> (out: Result<Option<(RawRequest, usize)>, ServeError>)
    ensures
        match parse_step(buf@) {
            ParseStep::Invalid => out == Err::<Option<(RawRequest, usize)>, ServeError>(ServeError::ParseFailed),
            ParseStep::Partial => out matches Ok(None),
            ParseStep::Complete(h, n) => out matches Ok(Some((r, m))) && r@ == h && m == n
                && 0 < n <= buf@.len(),
        },
{
    let res = call_httparse(buf, MAX_HEADERS);
    interpret_httparse(res)
}


// ----------------------------------------------------------------------
// Byte helpers.
// ----------------------------------------------------------------------

/// Appends `data` to `dst`.
pub fn extend(dst: &mut Vec<u8>, data: &[u8])
    ensures
        final(dst)@ == old(dst)@ + data@,
{
    let mut i: usize = 0;
    while i < data.len()
        invariant
            i <= data@.len(),
            dst@ == old(dst)@ + data@.subrange(0, i as int),
        decreases data@.len() - i,
    {
        dst.push(data[i]);
        i = i + 1;
        assert(data@.subrange(0, i as int) == data@.subrange(0, (i - 1) as int).push(data@[i - 1]));
    }
    assert(data@.subrange(0, data@.len() as int) == data@);
}

/// The ASCII lower-case form of a byte.
pub open spec fn ascii_lower(b: u8) -> u8 {
    if 65 <= b <= 90 {
        (b + 32) as u8
    } else {
        b
    }
}

/// Two byte strings are equal once ASCII letters are folded to lower case.
pub open spec fn eq_ignore_ascii_case(a: Seq<u8>, b: Seq<u8>) -> bool {
    &&& a.len() == b.len()
    &&& forall|i: int| 0 <= i < a.len() ==> ascii_lower(#[trigger] a[i]) == ascii_lower(b[i])
}

fn to_ascii_lower(b: u8) -> (l: u8)
    ensures
        l == ascii_lower(b),
{
    if 65 <= b && b <= 90 {
        b + 32
    } else {
        b
    }
}

/// Compares two byte strings, ignoring the case of ASCII letters.
pub fn bytes_eq_ignore_ascii_case(a: &[u8], b: &[u8]) -> (eq: bool)
    ensures
        eq == eq_ignore_ascii_case(a@, b@),
{
    if a.len() != b.len() {
        return false;
    }
    let mut i: usize = 0;
    while i < a.len()
        invariant
            a@.len() == b@.len(),
            i <= a@.len(),
            forall|j: int| 0 <= j < i ==> ascii_lower(#[trigger] a@[j]) == ascii_lower(b@[j]),
        decreases a@.len() - i,
    {
        if to_ascii_lower(a[i]) != to_ascii_lower(b[i]) {
            return false;
        }
        i = i + 1;
    }
    true
}

/// Compares two byte strings.
pub fn bytes_eq(a: &[u8], b: &[u8]) -> (eq: bool)
    ensures
        eq == (a@ == b@),
{
    if a.len() != b.len() {
        return false;
    }
    let mut i: usize = 0;
    while i < a.len()
        invariant
            a@.len() == b@.len(),
            i <= a@.len(),
            forall|j: int| 0 <= j < i ==> a@[j] == b@[j],
        decreases a@.len() - i,
    {
        if a[i] != b[i] {
            return false;
        }
        i = i + 1;
    }
    assert(a@ =~= b@);
    true
}

/// The decimal digits of `n`, most significant first.
pub open spec fn decimal(n: nat) -> Seq<u8>
    decreases n,
{
    if n < 10 {
        seq![(48 + n) as u8]
    } else {
        decimal(n / 10).push((48 + n % 10) as u8)
    }
}

/// The number that a string of ASCII decimal digits stands for.
pub open spec fn digits_value(s: Seq<u8>) -> nat
    decreases s.len(),
{
    if s.len() == 0 {
        0
    } else {
        digits_value(s.drop_last()) * 10 + (s.last() - 48) as nat
    }
}

/// The decimal form of a number is a non-empty string of ASCII digits that
/// reads back as the number, with no leading zero.
pub proof fn lemma_decimal_round_trip(n: nat)
    ensures
        decimal(n).len() > 0,
        forall|i: int| 0 <= i < decimal(n).len() ==> 48 <= #[trigger] decimal(n)[i] <= 57,
        digits_value(decimal(n)) == n,
        decimal(n).len() > 1 ==> decimal(n)[0] != 48,
        decimal(n).len() == 1 <==> n < 10,
    decreases n,
{
    if n >= 10 {
        lemma_decimal_round_trip(n / 10);
        let d = decimal(n);
        assert(d.drop_last() =~= decimal(n / 10));
        assert((n / 10) * 10 + n % 10 == n);
        assert(d[0] == decimal(n / 10)[0]);
        assert(digits_value(d) == digits_value(decimal(n / 10)) * 10 + (d.last() - 48) as nat);
        if decimal(n / 10).len() == 1 {
            assert(n / 10 < 10);
            assert(n / 10 > 0);
        }
    } else {
        let d = decimal(n);
        assert(d.drop_last() =~= Seq::<u8>::empty());
        assert(digits_value(d.drop_last()) == 0);
        assert(d.last() == (48 + n) as u8);
        assert(digits_value(d) == (d.last() - 48) as nat);
    }
}

/// Appends the decimal digits of `n` to `dst`.
pub fn push_decimal(dst: &mut Vec<u8>, n: usize)
    ensures
        final(dst)@ == old(dst)@ + decimal(n as nat),
    decreases n,
{
    if n >= 10 {
        push_decimal(dst, n / 10);
    }
    let d: u8 = (n % 10) as u8;
    dst.push(48 + d);
    assert(dst@ =~= old(dst)@ + decimal(n as nat));
}


// ----------------------------------------------------------------------
// Requests.
// ----------------------------------------------------------------------

/// A request whose head has been parsed, together with the buffer it was
/// read from; the head spans the first `amt` bytes of that buffer.
pub struct Request {
    inner: RawRequest,
    data: Vec<u8>,
    amt: usize,
}

/// The abstract value of a request.
pub struct RequestView {
    pub head: HeadView,
    pub data: Seq<u8>,
    pub amt: nat,
}

impl View for Request {
    type V = RequestView;

    closed spec fn view(&self) -> RequestView {
        RequestView { head: self.inner@, data: self.data@, amt: self.amt as nat }
    }
}

impl Request {
    #[verifier::type_invariant]
    closed spec fn head_in_buffer(self) -> bool {
        self.amt <= self.data@.len()
    }

    /// A request of head `inner` read from `data`, whose first `amt` bytes it spans.
    pub fn new(inner: RawRequest, data: Vec<u8>, amt: usize) -> (r: Request)
        requires
            amt <= data@.len(),
        ensures
            r@ == (RequestView { head: inner@, data: data@, amt: amt as nat }),
    {
        Request { inner, data, amt }
    }

    /// The request method, such as `GET`.
    pub fn method(&self) -> (m: &str)
        ensures
            m@ == self@.head.method,
    {
        self.inner.method.as_str()
    }

    /// The request path, such as `/plaintext`.
    pub fn path(&self) -> (p: &str)
        ensures
            p@ == self@.head.path,
    {
        self.inner.path.as_str()
    }

    /// The minor HTTP version: 1 for HTTP/1.1.
    pub fn version(&self) -> (v: u8)
        ensures
            v == self@.head.version,
    {
        self.inner.version
    }

    /// The headers, one at a time, in the order they were received.
    pub fn headers(&self) -> (h: Headers<'_>)
        ensures
            h.request() == self,
            h.position() == 0,
    {
        Headers { req: self, pos: 0 }
    }

    /// The bytes of the buffer that follow this request's head.
    pub fn into_input_buf(self) -> (rest: Vec<u8>)
        ensures
            rest@ == self@.data.skip(self@.amt as int),
    {
        proof {
            use_type_invariant(&self);
        }
        let mut data = self.data;
        let rest = data.split_off(self.amt);
        rest
    }
}

/// Walks through the headers of a request.
pub struct Headers<'a> {
    req: &'a Request,
    pos: usize,
}

impl<'a> Headers<'a> {
    /// The request whose headers are walked.
    pub closed spec fn request(self) -> &'a Request {
        self.req
    }

    /// How many headers have been handed out.
    pub closed spec fn position(self) -> nat {
        self.pos as nat
    }

    /// The next header as its name and value, or `None` after the last one.
    pub fn next(&mut self) -> (h: Option<(&'a str, &'a [u8])>)
        ensures
            final(self).request() == old(self).request(),
            old(self).position() < old(self).request()@.head.headers.len() ==> {
                &&& h matches Some((k, v))
                &&& k@ == old(self).request()@.head.headers[old(self).position() as int].0
                &&& v@ == old(self).request()@.head.headers[old(self).position() as int].1
                &&& final(self).position() == old(self).position() + 1
            },
            old(self).position() >= old(self).request()@.head.headers.len() ==> {
                &&& h is None
                &&& final(self).position() == old(self).position()
            },
    {
        if self.pos < self.req.inner.headers.len() {
            let i = self.pos;
            let h = &self.req.inner.headers[i];
            self.pos = i + 1;
            Some((h.0.as_str(), h.1.as_slice()))
        } else {
            None
        }
    }
}

/// Whether a header asks to keep the connection open.
pub open spec fn is_keepalive_header(h: (Seq<char>, Seq<u8>)) -> bool {
    &&& eq_ignore_ascii_case(utf8(h.0), utf8("connection"@))
    &&& eq_ignore_ascii_case(h.1, utf8("keep-alive"@))
}

/// Whether a connection stays open after answering a request with this head:
/// HTTP/1.1 always, HTTP/1.0 when a `Connection: keep-alive` header asks so.
pub open spec fn wants_keepalive(h: HeadView) -> bool {
    ||| h.version >= 1
    ||| exists|i: int| 0 <= i < h.headers.len() && is_keepalive_header(#[trigger] h.headers[i])
}

/// The keep-alive decision looks at every header alike: for an HTTP/1.0
/// head, one `Connection: keep-alive` header anywhere keeps the connection
/// open, none closes it, and inserting a header at any position changes the
/// decision only if that header asks to keep the connection open. An
/// HTTP/1.1 head always keeps it open.
pub proof fn lemma_keepalive_any_header(h: HeadView, i: int, x: (Seq<char>, Seq<u8>))
    requires
        0 <= i <= h.headers.len(),
    ensures
        h.version >= 1 ==> wants_keepalive(h),
        h.version < 1 ==> (wants_keepalive(h) <==> exists|j: int|
            0 <= j < h.headers.len() && is_keepalive_header(#[trigger] h.headers[j])),
        i < h.headers.len() && is_keepalive_header(h.headers[i]) ==> wants_keepalive(h),
        wants_keepalive(HeadView { headers: h.headers.insert(i, x), ..h }) == (wants_keepalive(h)
            || is_keepalive_header(x)),
{
    let g = HeadView { headers: h.headers.insert(i, x), ..h };
    if h.version < 1 {
        if wants_keepalive(h) {
            let j = choose|j: int| 0 <= j < h.headers.len() && is_keepalive_header(h.headers[j]);
            if j < i {
                assert(g.headers[j] == h.headers[j]);
            } else {
                assert(g.headers[j + 1] == h.headers[j]);
            }
        }
        if is_keepalive_header(x) {
            assert(g.headers[i] == x);
        }
        if wants_keepalive(g) {
            let j = choose|j: int| 0 <= j < g.headers.len() && is_keepalive_header(g.headers[j]);
            if j < i {
                assert(g.headers[j] == h.headers[j]);
            } else if j > i {
                assert(g.headers[j] == h.headers[j - 1]);
            }
        }
    }
}

/// Decides whether the connection stays open after answering `r`.
pub fn keepalive(r: &Request) -> (ka: bool)
    ensures
        ka == wants_keepalive(r@.head),
{
    if r.version() >= 1 {
        return true;
    }
    let connection = "connection";
    let keep_alive = "keep-alive";
    let mut hs = r.headers();
    loop
        invariant
            hs.request() == r,
            hs.position() <= r@.head.headers.len(),
            r@.head.version < 1,
            connection@ == "connection"@,
            keep_alive@ == "keep-alive"@,
            forall|j: int| 0 <= j < hs.position() ==> !is_keepalive_header(#[trigger] r@.head.headers[j]),
        decreases r@.head.headers.len() - hs.position(),
    {
        let ghost p = hs.position();
        match hs.next() {
            None => {
                return false;
            },
            Some((k, v)) => {
                if bytes_eq_ignore_ascii_case(k.as_bytes(), connection.as_bytes())
                    && bytes_eq_ignore_ascii_case(v, keep_alive.as_bytes()) {
                    assert(is_keepalive_header(r@.head.headers[p as int]));
                    return true;
                }
            },
        }
    }
}

/// Whether a path is exactly `/plaintext`.
pub open spec fn is_plaintext_path(path: Seq<char>) -> bool {
    utf8(path) == utf8("/plaintext"@)
}

/// Checks that a path is exactly `/plaintext`.
pub fn path_is_plaintext(path: &str) -> (ok: bool)
    ensures
        ok == is_plaintext_path(path@),
{
    bytes_eq(path.as_bytes(), "/plaintext".as_bytes())
}

/// Checks that a request asks for `/plaintext`.
pub fn asks_plaintext(r: &Request) -> (ok: bool)
    ensures
        ok == is_plaintext_path(r@.head.path),
{
    path_is_plaintext(r.path())
}


// ----------------------------------------------------------------------
// Responses.
// ----------------------------------------------------------------------

/// A `200 OK` response: extra headers and a body.
pub struct Response {
    headers: Vec<(String, String)>,
    response: String,
}

/// The abstract value of a response.
pub struct ResponseView {
    pub headers: Seq<(Seq<char>, Seq<char>)>,
    pub body: Seq<char>,
}

pub open spec fn string_pairs(hs: Seq<(String, String)>) -> Seq<(Seq<char>, Seq<char>)> {
    hs.map_values(|h: (String, String)| (h.0@, h.1@))
}

impl View for Response {
    type V = ResponseView;

    closed spec fn view(&self) -> ResponseView {
        ResponseView { headers: string_pairs(self.headers@), body: self.response@ }
    }
}

/// One header line: `name: value` and a line break.
pub open spec fn header_line(h: (Seq<char>, Seq<char>)) -> Seq<u8> {
    utf8(h.0) + utf8(": "@) + utf8(h.1) + utf8("\r\n"@)
}

/// The header lines of a list of headers, in order.
pub open spec fn header_lines(hs: Seq<(Seq<char>, Seq<char>)>) -> Seq<u8>
    decreases hs.len(),
{
    if hs.len() == 0 {
        Seq::empty()
    } else {
        header_lines(hs.drop_last()) + header_line(hs.last())
    }
}

/// The bytes of a response as the pipelined servers send it: status line,
/// `Server`, `Date` and `Content-Length` headers, the extra headers, a blank
/// line and the body.
pub open spec fn response_bytes(r: ResponseView, date: Seq<char>) -> Seq<u8> {
    utf8("HTTP/1.1 200 OK\r\nServer: Example\r\nDate: "@) + utf8(date) + utf8(
        "\r\nContent-Length: "@,
    ) + decimal(utf8(r.body).len()) + utf8("\r\n"@) + header_lines(r.headers) + utf8("\r\n"@)
        + utf8(r.body)
}

/// The bytes of a response as the one-request-per-connection server sends
/// it: status line, the headers, a blank line and the body.
pub open spec fn bare_response_bytes(r: ResponseView) -> Seq<u8> {
    utf8("HTTP/1.1 200 OK\r\n"@) + header_lines(r.headers) + utf8("\r\n"@) + utf8(r.body)
}

impl Response {
    /// A response with no extra header and an empty body.
    pub fn new() -> (r: Response)
        ensures
            r@.headers == Seq::<(Seq<char>, Seq<char>)>::empty(),
            r@.body == Seq::<char>::empty(),
    {
        Response { headers: Vec::new(), response: String::new() }
    }

    /// Adds the header `name: val` after those already there.
    pub fn header(&mut self, name: &str, val: &str) -> (r: &mut Response)
        ensures
            r@.headers == old(self)@.headers.push((name@, val@)),
            r@.body == old(self)@.body,
            *final(self) == *final(r),
    {
        self.headers.push((name.to_owned(), val.to_owned()));
        proof {
            assert(string_pairs(self.headers@) =~= string_pairs(old(self).headers@).push(
                (name@, val@),
            ));
        }
        self
    }

    /// Sets the body to `s`.
    pub fn body(&mut self, s: &str) -> (r: &mut Response)
        ensures
            r@.headers == old(self)@.headers,
            r@.body == s@,
            *final(self) == *final(r),
    {
        self.response = s.to_owned();
        self
    }

    /// Appends the response, dated `date`, to `into`.
    pub fn to_bytes(&self, date: &str, into: &mut Vec<u8>)
        ensures
            final(into)@ == old(into)@ + response_bytes(self@, date@),
    {
        let body = self.response.as_str().as_bytes();
        extend(into, "HTTP/1.1 200 OK\r\nServer: Example\r\nDate: ".as_bytes());
        extend(into, date.as_bytes());
        extend(into, "\r\nContent-Length: ".as_bytes());
        push_decimal(into, body.len());
        extend(into, "\r\n".as_bytes());
        self.push_header_lines(into);
        extend(into, "\r\n".as_bytes());
        extend(into, body);
        proof {
            let r = self@;
            assert(into@ =~= old(into)@ + response_bytes(r, date@));
        }
    }

    /// Builds the bytes of the response with no `Server`, `Date` or
    /// `Content-Length` header of its own.
    pub fn to_bare_bytes(&self) -> (bytes: Vec<u8>)
        ensures
            bytes@ == bare_response_bytes(self@),
    {
        let mut into: Vec<u8> = Vec::new();
        extend(&mut into, "HTTP/1.1 200 OK\r\n".as_bytes());
        self.push_header_lines(&mut into);
        extend(&mut into, "\r\n".as_bytes());
        extend(&mut into, self.response.as_str().as_bytes());
        proof {
            assert(into@ =~= bare_response_bytes(self@));
        }
        into
    }

    fn push_header_lines(&self, into: &mut Vec<u8>)
        ensures
            final(into)@ == old(into)@ + header_lines(self@.headers),
    {
        let ghost hs = self@.headers;
        let mut i: usize = 0;
        while i < self.headers.len()
            invariant
                hs == string_pairs(self.headers@),
                i <= self.headers@.len(),
                into@ == old(into)@ + header_lines(hs.take(i as int)),
            decreases self.headers@.len() - i,
        {
            let h = &self.headers[i];
            extend(into, h.0.as_str().as_bytes());
            extend(into, ": ".as_bytes());
            extend(into, h.1.as_str().as_bytes());
            extend(into, "\r\n".as_bytes());
            proof {
                assert(hs.take(i + 1).drop_last() =~= hs.take(i as int));
                assert(hs.take(i + 1).last() == hs[i as int]);
            }
            i = i + 1;
            proof {
                assert(into@ =~= old(into)@ + header_lines(hs.take(i as int)));
            }
        }
        proof {
            assert(hs.take(i as int) =~= hs);
        }
    }
}


// ----------------------------------------------------------------------
// The plaintext answer.
// ----------------------------------------------------------------------

/// The two pipelined servers, which differ in how they dispatch readiness
/// events and in the body they answer with.
#[derive(Clone, Copy, PartialEq, Eq, Structural, Debug)]
pub enum Variant {
    /// Several threads share one event queue; readiness accumulates on a
    /// connection until it is used up.
    Shared,
    /// Each thread has an event queue of its own; each round of events
    /// stands alone.
    PerThread,
}

/// The body of the plaintext answer.
pub open spec fn plaintext_body(v: Variant) -> Seq<char> {
    match v {
        Variant::Shared => "Hello, World!"@,
        Variant::PerThread => "Hello, World!\r\n"@,
    }
}

/// The plaintext answer: one `Content-Type` header and the body.
pub open spec fn plaintext_response(v: Variant) -> ResponseView {
    ResponseView {
        headers: seq![("Content-Type"@, "text/plain; charset=UTF-8"@)],
        body: plaintext_body(v),
    }
}

/// Checks that a request head asks for `/plaintext`.
pub fn head_asks_plaintext(h: &RawRequest) -> (ok: bool)
    ensures
        ok == is_plaintext_path(h@.path),
{
    path_is_plaintext(h.path.as_str())
}

/// Answers a request for `/plaintext`.
pub fn process(r: &Request, variant: Variant) -> (resp: Response)
    requires
        is_plaintext_path(r@.head.path),
    ensures
        resp@ == plaintext_response(variant),
{
    let mut resp = Response::new();
    let body = match variant {
        Variant::Shared => "Hello, World!",
        Variant::PerThread => "Hello, World!\r\n",
    };
    resp.header("Content-Type", "text/plain; charset=UTF-8").body(body);
    proof {
        assert(resp@.headers =~= plaintext_response(variant).headers);
    }
    resp
}

// ----------------------------------------------------------------------
// The clock.
// ----------------------------------------------------------------------

/// Calls `time::now()` and formats the local time with `rfc822()`. Trusted,
/// and nothing is stated of the text: it depends on the clock and on the
/// machine's time zone.
#[verifier::external_body]
pub(crate) fn now_rfc822() -> String {
    time::now().rfc822().to_string()
}

} // verus!
