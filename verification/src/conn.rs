use vstd::prelude::*;

use crate::http::{
    extend, head_asks_plaintext, is_plaintext_path, keepalive, now_rfc822, parse, parse_step,
    plaintext_response, process, response_bytes, wants_keepalive, HeadView, ParseStep, Request,
    ServeError, Variant,
};

verus! {

/// What the connection asks its driver to do next.
#[derive(Clone, Copy, PartialEq, Eq, Structural, Debug)]
pub enum Action {
    /// Read from the socket and report what came with `received`, `eof` or
    /// `read_blocked`.
    Read,
    /// Write `pending_output` to the socket and report with `wrote` or
    /// `write_blocked`.
    Write,
    /// Nothing more until the next readiness event.
    Done,
}

/// The readiness to wait for when the connection is registered again.
#[derive(Clone, Copy, PartialEq, Eq, Structural, Debug)]
pub enum Interest {
    Readable,
    Writable,
    Both,
}

/// One connection of a pipelined plaintext server, without its socket:
/// received bytes not yet answered, answers not yet sent, and the flags that
/// decide when the connection ends.
pub struct Connection {
    input: Vec<u8>,
    output: Vec<u8>,
    keepalive: bool,
    closed: bool,
    read_closed: bool,
    first: bool,
    readable: bool,
    writable: bool,
    variant: Variant,
}

/// The abstract value of a connection.
pub struct ConnView {
    pub input: Seq<u8>,
    pub output: Seq<u8>,
    pub keepalive: bool,
    pub closed: bool,
    pub read_closed: bool,
    pub first: bool,
    pub readable: bool,
    pub writable: bool,
    pub variant: Variant,
}

impl View for Connection {
    type V = ConnView;

    closed spec fn view(&self) -> ConnView {
        ConnView {
            input: self.input@,
            output: self.output@,
            keepalive: self.keepalive,
            closed: self.closed,
            read_closed: self.read_closed,
            first: self.first,
            readable: self.readable,
            writable: self.writable,
            variant: self.variant,
        }
    }
}

/// How a run of request handling ended.
pub enum Served {
    /// Every received byte was answered.
    Drained,
    /// The bytes left are the beginning of a request still incomplete.
    NeedMore,
    /// The connection must end.
    Failed(ServeError),
}

/// A connection just accepted.
pub open spec fn fresh(variant: Variant) -> ConnView {
    ConnView {
        input: Seq::empty(),
        output: Seq::empty(),
        keepalive: false,
        closed: false,
        read_closed: false,
        first: true,
        readable: false,
        writable: false,
        variant,
    }
}

/// Once reading has ended and every answer has gone out, the connection is closed.
pub open spec fn finish(v: ConnView) -> ConnView {
    if v.read_closed && v.output.len() == 0 {
        ConnView { closed: true, ..v }
    } else {
        v
    }
}

/// After reading: write if the socket is writable and answers wait, else finish.
pub open spec fn write_phase(v: ConnView) -> (ConnView, Action) {
    if v.writable && v.output.len() > 0 {
        (v, Action::Write)
    } else {
        (finish(v), Action::Done)
    }
}

/// Read while the socket is readable and reading has not ended, else go on to writing.
pub open spec fn loop_head(v: ConnView) -> (ConnView, Action) {
    if v.readable && !v.read_closed {
        (v, Action::Read)
    } else {
        write_phase(v)
    }
}

/// A readiness event arrives.
pub open spec fn on_ready(v: ConnView, readable: bool, writable: bool) -> (ConnView, Action) {
    let v1 = match v.variant {
        Variant::Shared => ConnView {
            readable: v.readable || readable,
            writable: v.writable || writable,
            ..v
        },
        Variant::PerThread => ConnView { readable, writable, ..v },
    };
    loop_head(v1)
}

/// The connection after answering the request with head `h` that spans the
/// first `n` received bytes.
pub open spec fn answer(v: ConnView, h: HeadView, n: nat, date: Seq<char>) -> ConnView {
    ConnView {
        input: v.input.skip(n as int),
        output: v.output + response_bytes(plaintext_response(v.variant), date),
        keepalive: wants_keepalive(h),
        read_closed: v.read_closed || !wants_keepalive(h),
        ..v
    }
}

/// Answers the received requests one after the other, all dated `date`.
/// (A complete head is never empty nor longer than the bytes parsed; the
/// second guard below only makes the definition total.)
pub open spec fn serve(v: ConnView, date: Seq<char>) -> (ConnView, Served)
    decreases v.input.len(),
{
    if v.input.len() == 0 {
        (v, Served::Drained)
    } else {
        match parse_step(v.input) {
            ParseStep::Invalid => (v, Served::Failed(ServeError::ParseFailed)),
            ParseStep::Partial => (v, Served::NeedMore),
            ParseStep::Complete(h, n) => {
                if n == 0 || n > v.input.len() {
                    (v, Served::Failed(ServeError::ParseFailed))
                } else if !is_plaintext_path(h.path) {
                    (v, Served::Failed(ServeError::NotPlaintext))
                } else {
                    serve(answer(v, h, n as nat, date), date)
                }
            },
        }
    }
}

/// Whether serving `input` would reach a complete request for a path other
/// than `/plaintext` before stopping.
pub open spec fn asks_other_path(input: Seq<u8>) -> bool
    decreases input.len(),
{
    if input.len() == 0 {
        false
    } else {
        match parse_step(input) {
            ParseStep::Complete(h, n) => {
                if n == 0 || n > input.len() {
                    false
                } else if !is_plaintext_path(h.path) {
                    true
                } else {
                    asks_other_path(input.skip(n as int))
                }
            },
            _ => false,
        }
    }
}

/// Serving ends on a request for another path exactly when
/// `asks_other_path` says so, whatever the date.
pub proof fn lemma_serve_other_path(v: ConnView, date: Seq<char>)
    ensures
        (serve(v, date).1 == Served::Failed(ServeError::NotPlaintext)) == asks_other_path(v.input),
    decreases v.input.len(),
{
    if v.input.len() > 0 {
        if let ParseStep::Complete(h, n) = parse_step(v.input) {
            if n != 0 && n <= v.input.len() && is_plaintext_path(h.path) {
                lemma_serve_other_path(answer(v, h, n as nat, date), date);
            }
        }
    }
}

/// A read brought `data`.
pub open spec fn on_received(v: ConnView, data: Seq<u8>, date: Seq<char>) -> (
    ConnView,
    Result<Action, ServeError>,
) {
    let v1 = ConnView { input: v.input + data, read_closed: false, ..v };
    let (v2, s) = serve(v1, date);
    match s {
        Served::Drained => {
            let (v3, a) = loop_head(v2);
            (v3, Ok(a))
        },
        Served::NeedMore => (v2, Ok(Action::Done)),
        Served::Failed(e) => (v2, Err(e)),
    }
}

/// A read found the end of the stream.
pub open spec fn on_eof(v: ConnView) -> (ConnView, Action) {
    write_phase(ConnView { read_closed: true, ..v })
}

/// A read would have blocked.
pub open spec fn on_read_blocked(v: ConnView) -> (ConnView, Action) {
    write_phase(ConnView { readable: false, ..v })
}

/// A write sent the first `n` pending bytes.
pub open spec fn on_written(v: ConnView, n: nat) -> (ConnView, Result<Action, ServeError>) {
    if n == 0 {
        (v, Err(ServeError::EarlyEof))
    } else {
        let v1 = ConnView { output: v.output.skip(n as int), ..v };
        if v1.output.len() == 0 {
            let v2 = if !v.keepalive || v.read_closed {
                ConnView { closed: true, ..v1 }
            } else {
                v1
            };
            (finish(v2), Ok(Action::Done))
        } else {
            (v1, Ok(Action::Write))
        }
    }
}

/// A write would have blocked.
pub open spec fn on_write_blocked(v: ConnView) -> (ConnView, Action) {
    (finish(ConnView { writable: false, ..v }), Action::Done)
}

/// Whether the connection can be registered again: it is closed, or it has
/// answers to send, or reading has not ended.
pub open spec fn can_register(v: ConnView) -> bool {
    v.closed || v.output.len() > 0 || !v.read_closed
}

/// The bytes of a non-empty string are not empty.
proof fn lemma_utf8_nonempty(s: Seq<char>)
    requires
        s.len() > 0,
    ensures
        crate::http::utf8(s).len() > 0,
{
    reveal_with_fuel(vstd::utf8::encode_utf8, 2);
}

/// Every answer has at least one byte.
proof fn lemma_response_nonempty(variant: Variant, date: Seq<char>)
    ensures
        response_bytes(plaintext_response(variant), date).len() > 0,
{
    reveal_strlit("HTTP/1.1 200 OK\r\nServer: Example\r\nDate: ");
    lemma_utf8_nonempty("HTTP/1.1 200 OK\r\nServer: Example\r\nDate: "@);
}

/// Answers queued for a connection that will not be kept open mean that
/// reading has ended.
pub open spec fn answers_end_reading(v: ConnView) -> bool {
    v.output.len() > 0 && !v.keepalive ==> v.read_closed
}

/// Serving keeps the answers already queued and appends to them, leaves a
/// suffix of the received bytes, touches nothing but the buffers, the
/// keep-alive flag and the end of reading, and ends reading only by
/// answering a request.
pub proof fn lemma_serve_appends(v: ConnView, date: Seq<char>)
    ensures
        ({
            let (w, _) = serve(v, date);
            &&& w.output.len() >= v.output.len()
            &&& w.output.subrange(0, v.output.len() as int) == v.output
            &&& w.input.len() <= v.input.len()
            &&& w.input == v.input.skip(v.input.len() - w.input.len())
            &&& w.closed == v.closed
            &&& w.first == v.first
            &&& w.readable == v.readable
            &&& w.writable == v.writable
            &&& w.variant == v.variant
            &&& (w.read_closed ==> v.read_closed || w.output.len() > v.output.len())
            &&& (v.read_closed ==> w.read_closed)
            &&& (answers_end_reading(v) ==> answers_end_reading(w))
        }),
    decreases v.input.len(),
{
    if v.input.len() == 0 {
        assert(v.output.subrange(0, v.output.len() as int) =~= v.output);
        assert(v.input.skip(0) =~= v.input);
    } else {
        match parse_step(v.input) {
            ParseStep::Complete(h, n) => {
                if n == 0 || n > v.input.len() || !is_plaintext_path(h.path) {
                    assert(v.output.subrange(0, v.output.len() as int) =~= v.output);
                    assert(v.input.skip(0) =~= v.input);
                } else {
                    let u = answer(v, h, n as nat, date);
                    lemma_serve_appends(u, date);
                    lemma_response_nonempty(v.variant, date);
                    let (w, _) = serve(u, date);
                    assert(w.output.subrange(0, v.output.len() as int) =~= w.output.subrange(
                        0,
                        u.output.len() as int,
                    ).subrange(0, v.output.len() as int));
                    assert(w.input =~= v.input.skip(v.input.len() - w.input.len()));
                }
            },
            _ => {
                assert(v.output.subrange(0, v.output.len() as int) =~= v.output);
                assert(v.input.skip(0) =~= v.input);
            },
        }
    }
}

/// Whatever a step does, a closed connection stays closed, and a step that
/// ends a round leaves a connection that can be registered again (so the
/// checks of `interest` always hold for a connection still open).
pub proof fn lemma_steps_keep_connection_sound(
    v: ConnView,
    readable: bool,
    writable: bool,
    data: Seq<u8>,
    date: Seq<char>,
    n: nat,
)
    ensures
        v.closed ==> on_ready(v, readable, writable).0.closed,
        v.closed ==> on_received(v, data, date).0.closed,
        v.closed ==> on_eof(v).0.closed,
        v.closed ==> on_read_blocked(v).0.closed,
        v.closed ==> on_written(v, n).0.closed,
        v.closed ==> on_write_blocked(v).0.closed,
        on_ready(v, readable, writable).1 == Action::Done ==> can_register(
            on_ready(v, readable, writable).0,
        ),
        on_received(v, data, date).1 == Ok::<Action, ServeError>(Action::Done) ==> can_register(
            on_received(v, data, date).0,
        ),
        on_eof(v).1 == Action::Done ==> can_register(on_eof(v).0),
        on_read_blocked(v).1 == Action::Done ==> can_register(on_read_blocked(v).0),
        on_written(v, n).1 == Ok::<Action, ServeError>(Action::Done) ==> can_register(
            on_written(v, n).0,
        ),
        can_register(on_write_blocked(v).0),
{
    let v1 = ConnView { input: v.input + data, read_closed: false, ..v };
    lemma_serve_appends(v1, date);
}

/// One step of driving a connection: a readiness event, or the outcome of
/// the read or write it asked for.
pub enum Step {
    Ready(bool, bool),
    Received(Seq<u8>, Seq<char>),
    Eof,
    ReadBlocked,
    Wrote(nat),
    WriteBlocked,
}

/// What a step does to a connection and what it asks for next.
pub open spec fn apply(v: ConnView, s: Step) -> (ConnView, Result<Action, ServeError>) {
    match s {
        Step::Ready(r, w) => {
            let (u, a) = on_ready(v, r, w);
            (u, Ok(a))
        },
        Step::Received(d, date) => on_received(v, d, date),
        Step::Eof => {
            let (u, a) = on_eof(v);
            (u, Ok(a))
        },
        Step::ReadBlocked => {
            let (u, a) = on_read_blocked(v);
            (u, Ok(a))
        },
        Step::Wrote(n) => on_written(v, n),
        Step::WriteBlocked => {
            let (u, a) = on_write_blocked(v);
            (u, Ok(a))
        },
    }
}

/// Whether a step follows what the connection asked for: after `Done` only a
/// readiness event; after `Read` a read that brought bytes (completing no
/// request for another path than `/plaintext`), found the end, or would have
/// blocked; after `Write` a write of at most the pending bytes
/// or one that would have blocked.
pub open spec fn allowed(v: ConnView, asked: Action, s: Step) -> bool {
    match asked {
        Action::Done => s is Ready,
        Action::Read => match s {
            Step::Received(d, _) => d.len() > 0 && !asks_other_path(v.input + d),
            Step::Eof => true,
            Step::ReadBlocked => true,
            _ => false,
        },
        Action::Write => match s {
            Step::Wrote(n) => n <= v.output.len(),
            Step::WriteBlocked => true,
            _ => false,
        },
    }
}

/// What holds of a connection driven by the rules of `allowed` when it asks
/// for `asked`: a closed connection has ended reading and sent everything;
/// answers for a connection not kept open come with the end of reading; it
/// reads only while reading has not ended, writes only while answers wait;
/// and at the end of each round it is closed exactly when reading has ended
/// and no answer waits.
pub open spec fn sound(v: ConnView, asked: Action) -> bool {
    &&& (v.closed ==> v.read_closed && v.output.len() == 0)
    &&& answers_end_reading(v)
    &&& (asked == Action::Read ==> !v.read_closed)
    &&& (asked == Action::Write ==> v.output.len() > 0)
    &&& (asked == Action::Done ==> (v.closed <==> v.read_closed && v.output.len() == 0))
}

/// Readiness is remembered as the queue reports it: on the shared queue a
/// readiness event only adds to what is known (the socket is readable after
/// it iff it was before or the event says so, and likewise writable); on a
/// per-thread queue the event replaces it. After that, readability is lost
/// only by a read that would have blocked, and writability only by a write
/// that would have blocked; no other step touches either.
pub proof fn lemma_readiness_is_remembered(v: ConnView, s: Step)
    ensures
        s matches Step::Ready(r, w) ==> {
            let u = apply(v, s).0;
            &&& v.variant == Variant::Shared ==> u.readable == (v.readable || r) && u.writable == (
            v.writable || w)
            &&& v.variant == Variant::PerThread ==> u.readable == r && u.writable == w
        },
        !(s is Ready) ==> apply(v, s).0.readable == (v.readable && !(s is ReadBlocked)),
        !(s is Ready) ==> apply(v, s).0.writable == (v.writable && !(s is WriteBlocked)),
        apply(v, s).0.variant == v.variant,
{
    match s {
        Step::Received(d, date) => {
            let v1 = ConnView { input: v.input + d, read_closed: false, ..v };
            lemma_serve_appends(v1, date);
        },
        _ => {},
    }
}

/// Writing never reorders nor loses answers: the `n` bytes a write sent,
/// followed by what is still pending afterwards, are exactly what was
/// pending before; nothing but the pending bytes and the closed flag changes.
pub proof fn lemma_written_bytes_leave_the_front(v: ConnView, n: nat)
    requires
        0 < n <= v.output.len(),
    ensures
        ({
            let u = on_written(v, n).0;
            &&& v.output.subrange(0, n as int) + u.output == v.output
            &&& u.output.len() == v.output.len() - n
            &&& u.input == v.input && u.keepalive == v.keepalive && u.read_closed == v.read_closed
            &&& u.readable == v.readable && u.writable == v.writable && u.first == v.first
        }),
{
    let u = on_written(v, n).0;
    assert(v.output.subrange(0, n as int) + u.output =~= v.output);
}

/// Two writes in a row send consecutive pieces of the pending bytes: after
/// writes of `n1` and then `n2` bytes, what is pending is what was pending
/// before without its first `n1 + n2` bytes.
pub proof fn lemma_two_writes(v: ConnView, n1: nat, n2: nat)
    requires
        0 < n1,
        0 < n2,
        n1 + n2 <= v.output.len(),
    ensures
        on_written(on_written(v, n1).0, n2).0.output == v.output.subrange(
            (n1 + n2) as int,
            v.output.len() as int,
        ),
{
    lemma_written_bytes_leave_the_front(v, n1);
    let u = on_written(v, n1).0;
    lemma_written_bytes_leave_the_front(u, n2);
    let w = on_written(u, n2).0;
    assert(v.output.subrange(0, n1 as int) + u.output.subrange(0, n2 as int) =~= v.output.subrange(0, (n1 + n2) as int));
    assert(w.output =~= v.output.subrange((n1 + n2) as int, v.output.len() as int));
}

/// A new connection, waiting for its first readiness event, is sound.
pub proof fn lemma_fresh_sound(variant: Variant)
    ensures
        sound(fresh(variant), Action::Done),
{
}

/// Every step that follows the rules keeps the connection sound, so a
/// connection reached from `new` ends every round closed exactly when
/// reading has ended and no answer waits.
pub proof fn lemma_step_keeps_sound(v: ConnView, asked: Action, s: Step)
    requires
        sound(v, asked),
        allowed(v, asked, s),
    ensures
        apply(v, s).1 matches Ok(a) ==> sound(apply(v, s).0, a),
{
    match s {
        Step::Received(d, date) => {
            let v1 = ConnView { input: v.input + d, read_closed: false, ..v };
            lemma_serve_appends(v1, date);
        },
        _ => {},
    }
}

impl Connection {
    /// A connection just accepted.
    pub fn new(variant: Variant) -> (c: Connection)
        ensures
            c@ == fresh(variant),
    {
        Connection {
            input: Vec::new(),
            output: Vec::new(),
            keepalive: false,
            closed: false,
            read_closed: false,
            first: true,
            readable: false,
            writable: false,
            variant,
        }
    }

    /// Whether the connection has ended and can be dropped.
    pub fn is_closed(&self) -> (c: bool)
        ensures
            c == self@.closed,
    {
        self.closed
    }

    /// Whether the connection can be registered again (see `interest`).
    pub fn can_register(&self) -> (ok: bool)
        ensures
            ok == can_register(self@),
    {
        self.closed || self.output.len() > 0 || !self.read_closed
    }

    /// The answers not yet sent.
    pub fn pending_output(&self) -> (out: &[u8])
        ensures
            out@ == self@.output,
    {
        self.output.as_slice()
    }

    /// Whether the socket still has to be registered; the first call answers
    /// `true`, every later one `false`.
    pub fn take_first(&mut self) -> (first: bool)
        ensures
            first == old(self)@.first,
            final(self)@ == (ConnView { first: false, ..old(self)@ }),
    {
        let f = self.first;
        self.first = false;
        f
    }

    fn finish(&mut self)
        ensures
            final(self)@ == finish(old(self)@),
    {
        if self.read_closed && self.output.len() == 0 {
            self.closed = true;
        }
    }

    fn write_phase(&mut self) -> (a: Action)
        ensures
            (final(self)@, a) == write_phase(old(self)@),
    {
        if self.writable && self.output.len() > 0 {
            Action::Write
        } else {
            self.finish();
            Action::Done
        }
    }

    fn loop_head(&mut self) -> (a: Action)
        ensures
            (final(self)@, a) == loop_head(old(self)@),
    {
        if self.readable && !self.read_closed {
            Action::Read
        } else {
            self.write_phase()
        }
    }

    /// Starts a round for a readiness event.
    pub fn ready(&mut self, readable: bool, writable: bool) -> (a: Action)
        ensures
            (final(self)@, a) == on_ready(old(self)@, readable, writable),
    {
        match self.variant {
            Variant::Shared => {
                self.readable = self.readable || readable;
                self.writable = self.writable || writable;
            },
            Variant::PerThread => {
                self.readable = readable;
                self.writable = writable;
            },
        }
        self.loop_head()
    }

    /// Answers every complete request received, in order.
    fn serve(&mut self, date: &str) -> (s: Served)
        ensures
            (final(self)@, s) == serve(old(self)@, date@),
    {
        loop
            invariant
                serve(self@, date@) == serve(old(self)@, date@),
            decreases self@.input.len(),
        {
            if self.input.len() == 0 {
                return Served::Drained;
            }
            let parsed = parse(self.input.as_slice());
            let (raw, n) = match parsed {
                Err(e) => {
                    return Served::Failed(e);
                },
                Ok(None) => {
                    return Served::NeedMore;
                },
                Ok(Some(pair)) => pair,
            };
            if !head_asks_plaintext(&raw) {
                return Served::Failed(ServeError::NotPlaintext);
            }
            let ghost before = self@;
            let ghost h = raw@;
            let mut data: Vec<u8> = Vec::new();
            std::mem::swap(&mut data, &mut self.input);
            let request = Request::new(raw, data, n);
            let ka = keepalive(&request);
            self.keepalive = ka;
            let response = process(&request, self.variant);
            response.to_bytes(date, &mut self.output);
            self.input = request.into_input_buf();
            if !ka {
                self.read_closed = true;
            }
            assert(self@ == answer(before, h, n as nat, date@));
        }
    }

    /// A read brought `data`; the requests it completes are answered with
    /// responses dated `date`.
    pub fn received(&mut self, data: &[u8], date: &str) -> (r: Result<Action, ServeError>)
        requires
            data@.len() > 0,
            !asks_other_path(old(self)@.input + data@),
        ensures
            (final(self)@, r) == on_received(old(self)@, data@, date@),
            r != Err::<Action, ServeError>(ServeError::NotPlaintext),
    {
        proof {
            lemma_serve_other_path(
                ConnView { input: old(self)@.input + data@, read_closed: false, ..old(self)@ },
                date@,
            );
        }
        extend(&mut self.input, data);
        self.read_closed = false;
        match self.serve(date) {
            Served::Drained => Ok(self.loop_head()),
            Served::NeedMore => Ok(Action::Done),
            Served::Failed(e) => Err(e),
        }
    }

    /// As `received`, dating the responses with the current local time.
    pub fn received_now(&mut self, data: &[u8]) -> (r: Result<Action, ServeError>)
        requires
            data@.len() > 0,
            !asks_other_path(old(self)@.input + data@),
        ensures
            exists|date: Seq<char>| (final(self)@, r) == on_received(old(self)@, data@, date),
    {
        let date = now_rfc822();
        self.received(data, date.as_str())
    }

    /// Checks whether the bytes received, followed by `data`, would reach a
    /// complete request for a path other than `/plaintext` (see `received`).
    pub fn would_ask_other_path(&self, data: &[u8]) -> (o: bool)
        ensures
            o == asks_other_path(self@.input + data@),
    {
        let mut rest: Vec<u8> = Vec::new();
        extend(&mut rest, self.input.as_slice());
        extend(&mut rest, data);
        loop
            invariant
                asks_other_path(rest@) == asks_other_path(self@.input + data@),
            decreases rest@.len(),
        {
            if rest.len() == 0 {
                return false;
            }
            match parse(rest.as_slice()) {
                Ok(Some((raw, n))) => {
                    if !head_asks_plaintext(&raw) {
                        return true;
                    }
                    let tail = rest.split_off(n);
                    rest = tail;
                },
                _ => {
                    return false;
                },
            }
        }
    }

    /// A read found the end of the stream.
    pub fn eof(&mut self) -> (a: Action)
        ensures
            (final(self)@, a) == on_eof(old(self)@),
    {
        self.read_closed = true;
        self.write_phase()
    }

    /// A read would have blocked.
    pub fn read_blocked(&mut self) -> (a: Action)
        ensures
            (final(self)@, a) == on_read_blocked(old(self)@),
    {
        self.readable = false;
        self.write_phase()
    }

    /// A write sent the first `n` pending bytes.
    pub fn wrote(&mut self, n: usize) -> (r: Result<Action, ServeError>)
        requires
            n <= old(self)@.output.len(),
        ensures
            (final(self)@, r) == on_written(old(self)@, n as nat),
    {
        if n == 0 {
            return Err(ServeError::EarlyEof);
        }
        let rest = self.output.split_off(n);
        self.output = rest;
        if self.output.len() == 0 {
            if !self.keepalive || self.read_closed {
                self.closed = true;
            }
            self.finish();
            Ok(Action::Done)
        } else {
            Ok(Action::Write)
        }
    }

    /// A write would have blocked.
    pub fn write_blocked(&mut self) -> (a: Action)
        ensures
            (final(self)@, a) == on_write_blocked(old(self)@),
    {
        self.writable = false;
        self.finish();
        Action::Done
    }

    /// The readiness to wait for next: writability while answers wait, and
    /// readability while reading has not ended.
    pub fn interest(&self) -> (i: Interest)
        requires
            !self@.closed,
            self@.output.len() > 0 || !self@.read_closed,
        ensures
            i == (if self@.output.len() > 0 {
                if self@.read_closed {
                    Interest::Writable
                } else {
                    Interest::Both
                }
            } else {
                Interest::Readable
            }),
    {
        if self.output.len() > 0 {
            if self.read_closed {
                Interest::Writable
            } else {
                Interest::Both
            }
        } else {
            Interest::Readable
        }
    }
}

} // verus!
