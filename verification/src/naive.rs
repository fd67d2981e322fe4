use vstd::prelude::*;

use crate::http::{
    bare_response_bytes, extend, now_rfc822, parse, parse_step, ParseStep, RawRequest,
    Response, ResponseView,
};

verus! {

/// Parses a buffer that holds a request head and nothing after it: an
/// invalid or incomplete head gives `None`. A buffer with bytes after a
/// complete head is left out (test it with `has_trailing_bytes`).
pub fn parse_whole(buf: &[u8]) -> (out: Option<RawRequest>)
    requires
        !trailing_bytes(buf@),
    ensures
        match parse_step(buf@) {
            ParseStep::Complete(h, _) => out matches Some(r) && r@ == h,
            _ => out is None,
        },
{
    match parse(buf) {
        Ok(Some((raw, _))) => Some(raw),
        _ => None,
    }
}

/// Checks whether a buffer holds a complete request head followed by more
/// bytes.
pub fn has_trailing_bytes(buf: &[u8]) -> (t: bool)
    ensures
        t == trailing_bytes(buf@),
{
    match parse(buf) {
        Ok(Some((_, n))) => n != buf.len(),
        _ => false,
    }
}

/// Whether a buffer holds one whole request head, as `parse_whole` decides.
pub open spec fn whole_request(buf: Seq<u8>) -> bool {
    parse_step(buf) matches ParseStep::Complete(_, n) && n == buf.len()
}

/// Whether a buffer holds a complete head followed by more bytes.
pub open spec fn trailing_bytes(buf: Seq<u8>) -> bool {
    parse_step(buf) matches ParseStep::Complete(_, n) && n != buf.len()
}

/// The answer of the one-request-per-connection server, dated `date`.
pub open spec fn naive_response(date: Seq<char>) -> ResponseView {
    ResponseView {
        headers: seq![
            ("Content-Type"@, "text/plain"@),
            ("Content-Lenth"@, "15"@),
            ("Server"@, "wut"@),
            ("Date"@, date),
        ],
        body: "Hello, World!"@,
    }
}

/// Builds the answer of the one-request-per-connection server.
pub fn naive_response_bytes(date: &str) -> (bytes: Vec<u8>)
    ensures
        bytes@ == bare_response_bytes(naive_response(date@)),
{
    let mut r = Response::new();
    r.header("Content-Type", "text/plain").header("Content-Lenth", "15").header(
        "Server",
        "wut",
    ).header("Date", date).body("Hello, World!");
    proof {
        assert(r@.headers =~= naive_response(date@).headers);
    }
    r.to_bare_bytes()
}

/// An answer being sent: its bytes and how many have gone out.
pub struct Output {
    buf: Vec<u8>,
    pos: usize,
}

/// Where a connection of the one-request-per-connection server stands.
pub enum State {
    /// Reading the request; the bytes received so far.
    Request(Vec<u8>),
    /// Writing the answer.
    Response(Output),
    /// Done; the connection can be dropped.
    Closed,
}

/// The abstract value of a `State`.
pub enum StateView {
    Request(Seq<u8>),
    Response(Seq<u8>, nat),
    Closed,
}

/// The I/O a connection waits for.
#[derive(Clone, Copy, PartialEq, Eq, Structural, Debug)]
pub enum NaiveIo {
    Read,
    Write,
}

/// A connection of the server that answers one request and then closes.
pub struct NaiveConnection {
    state: State,
}

impl View for NaiveConnection {
    type V = StateView;

    closed spec fn view(&self) -> StateView {
        match self.state {
            State::Request(input) => StateView::Request(input@),
            State::Response(out) => StateView::Response(out.buf@, out.pos as nat),
            State::Closed => StateView::Closed,
        }
    }
}

/// The state after the current one: a request (complete or not) is followed
/// by the answer dated `date`, the answer by the end.
pub open spec fn advance(s: StateView, date: Seq<char>) -> StateView {
    match s {
        StateView::Request(_) => StateView::Response(
            bare_response_bytes(naive_response(date)),
            0,
        ),
        StateView::Response(_, _) => StateView::Closed,
        StateView::Closed => StateView::Closed,
    }
}

/// Whether the bytes a read reported would leave the bytes received with
/// more after a complete request head.
pub open spec fn read_overruns(s: StateView, got: Option<Seq<u8>>) -> bool {
    s matches StateView::Request(input) && got matches Some(d) && d.len() > 0 && trailing_bytes(
        input + d,
    )
}

/// A read reported `got`: `None` when it would have blocked, the bytes
/// otherwise (none at the end of the stream).
pub open spec fn after_read(s: StateView, got: Option<Seq<u8>>, date: Seq<char>) -> StateView {
    match s {
        StateView::Request(input) => match got {
            None => s,
            Some(d) => if d.len() == 0 {
                advance(s, date)
            } else if whole_request(input + d) {
                advance(StateView::Request(input + d), date)
            } else {
                StateView::Request(input + d)
            },
        },
        _ => s,
    }
}

/// A write reported `sent`: `None` when it would have blocked, else the
/// number of bytes that went out.
pub open spec fn after_write(s: StateView, sent: Option<nat>) -> StateView {
    match s {
        StateView::Response(buf, pos) => match sent {
            None => s,
            Some(n) => if pos + n == buf.len() {
                StateView::Closed
            } else {
                StateView::Response(buf, pos + n)
            },
        },
        _ => s,
    }
}

/// The bytes a read reported, if any.
pub open spec fn bytes_opt(got: Option<&[u8]>) -> Option<Seq<u8>> {
    match got {
        Some(d) => Some(d@),
        None => None,
    }
}

/// Whether a state is sound: an answer is never sent past its end.
pub open spec fn state_wf(s: StateView) -> bool {
    s matches StateView::Response(buf, pos) ==> pos <= buf.len()
}

/// How far a connection has come: reading, writing, done.
pub open spec fn stage(s: StateView) -> nat {
    match s {
        StateView::Request(_) => 0,
        StateView::Response(_, _) => 1,
        StateView::Closed => 2,
    }
}

/// A connection only moves forward: reading, then writing the answer, then
/// done; a done connection stays done; and an answer starts unsent and is
/// never sent past its end.
pub proof fn lemma_naive_moves_forward(s: StateView, got: Option<Seq<u8>>, date: Seq<char>, sent: Option<nat>)
    requires
        state_wf(s),
        sent matches Some(n) ==> s matches StateView::Response(buf, pos) ==> pos + n <= buf.len(),
    ensures
        stage(after_read(s, got, date)) >= stage(s),
        state_wf(after_read(s, got, date)),
        stage(after_write(s, sent)) >= stage(s),
        state_wf(after_write(s, sent)),
        s is Closed ==> after_read(s, got, date) == s && after_write(s, sent) == s,
        s is Request ==> (after_read(s, got, date) matches StateView::Response(_, pos) ==> pos == 0),
{
}

/// While reading, every non-empty read is added after the bytes already
/// held, and the connection moves to the answer exactly when the bytes held
/// with the new ones are one whole request head; a read that would have
/// blocked changes nothing, and the end of the stream moves to the answer.
pub proof fn lemma_reads_accumulate(input: Seq<u8>, d: Seq<u8>, date: Seq<char>)
    ensures
        after_read(StateView::Request(input), None, date) == StateView::Request(input),
        d.len() == 0 ==> after_read(StateView::Request(input), Some(d), date) is Response,
        d.len() > 0 ==> (after_read(StateView::Request(input), Some(d), date) is Response
            <==> whole_request(input + d)),
        d.len() > 0 && !whole_request(input + d) ==> after_read(
            StateView::Request(input),
            Some(d),
            date,
        ) == StateView::Request(input + d),
{
}

/// How a head is split across reads does not matter: reading `d1` and then
/// `d2` (neither completing a head on its own) leaves the connection where
/// reading `d1 + d2` at once does.
pub proof fn lemma_split_reads(input: Seq<u8>, d1: Seq<u8>, d2: Seq<u8>, date: Seq<char>)
    requires
        d1.len() > 0,
        d2.len() > 0,
        !whole_request(input + d1),
    ensures
        after_read(after_read(StateView::Request(input), Some(d1), date), Some(d2), date)
            == after_read(StateView::Request(input), Some(d1 + d2), date),
{
    assert(input + d1 + d2 =~= input + (d1 + d2));
}

/// The position in the answer is the sum of the bytes reported sent: after
/// writes of `n1` and `n2` bytes that do not finish it, the unsent part is
/// the answer from `pos + n1 + n2` on; the write that reaches the end closes.
pub proof fn lemma_writes_add_up(buf: Seq<u8>, pos: nat, n1: nat, n2: nat)
    requires
        pos + n1 + n2 <= buf.len(),
    ensures
        pos + n1 < buf.len() ==> after_write(StateView::Response(buf, pos), Some(n1))
            == StateView::Response(buf, pos + n1),
        pos + n1 + n2 < buf.len() ==> after_write(
            after_write(StateView::Response(buf, pos), Some(n1)),
            Some(n2),
        ) == StateView::Response(buf, pos + n1 + n2),
        pos + n1 == buf.len() ==> after_write(StateView::Response(buf, pos), Some(n1)) is Closed,
        after_write(StateView::Response(buf, pos), None) == StateView::Response(buf, pos),
{
}

impl NaiveConnection {
    #[verifier::type_invariant]
    closed spec fn wf(self) -> bool {
        state_wf(self@)
    }

    /// A connection just accepted: reading, nothing received.
    pub fn new() -> (c: NaiveConnection)
        ensures
            c@ == StateView::Request(Seq::empty()),
    {
        NaiveConnection { state: State::Request(Vec::new()) }
    }

    /// Whether the connection is done.
    pub fn is_closed(&self) -> (c: bool)
        ensures
            c == (self@ is Closed),
    {
        match self.state {
            State::Closed => true,
            _ => false,
        }
    }

    /// The I/O the connection waits for; `None` once it is done.
    pub fn interest(&self) -> (io: Option<NaiveIo>)
        ensures
            io == match self@ {
                StateView::Request(_) => Some(NaiveIo::Read),
                StateView::Response(_, _) => Some(NaiveIo::Write),
                StateView::Closed => None::<NaiveIo>,
            },
    {
        match self.state {
            State::Request(_) => Some(NaiveIo::Read),
            State::Response(_) => Some(NaiveIo::Write),
            State::Closed => None,
        }
    }

    /// The bytes of the answer not sent yet; empty unless writing.
    pub fn unsent(&self) -> (out: &[u8])
        ensures
            self@ matches StateView::Response(buf, pos) ==> out@ == buf.skip(pos as int),
            !(self@ is Response) ==> out@.len() == 0,
    {
        proof {
            use_type_invariant(self);
        }
        match &self.state {
            State::Response(out) => slice_from(out.buf.as_slice(), out.pos),
            _ => empty_slice(),
        }
    }

    /// Moves to the next state: from reading to the answer dated `date`,
    /// from the answer to the end.
    pub fn move_forward(&mut self, date: &str)
        requires
            !(old(self)@ is Closed),
        ensures
            final(self)@ == advance(old(self)@, date@),
    {
        let next = match self.state {
            State::Request(_) => State::Response(Output { buf: naive_response_bytes(date), pos: 0 }),
            State::Response(_) => State::Closed,
            State::Closed => State::Closed,
        };
        self.state = next;
    }

    /// Checks whether what a read reported would leave the bytes received
    /// with more after a complete request head.
    pub fn read_overruns(&self, got: Option<&[u8]>) -> (o: bool)
        ensures
            o == read_overruns(self@, bytes_opt(got)),
    {
        match (&self.state, got) {
            (State::Request(input), Some(d)) => {
                if d.len() == 0 {
                    return false;
                }
                let mut all: Vec<u8> = Vec::new();
                extend(&mut all, input.as_slice());
                extend(&mut all, d);
                has_trailing_bytes(all.as_slice())
            },
            _ => false,
        }
    }

    /// Handles what a read brought while reading requests.
    pub fn on_read(&mut self, got: Option<&[u8]>, date: &str)
        requires
            !read_overruns(old(self)@, bytes_opt(got)),
        ensures
            final(self)@ == after_read(old(self)@, bytes_opt(got), date@),
    {
        proof {
            use_type_invariant(&*self);
        }
        let d = match got {
            None => {
                return ;
            },
            Some(d) => d,
        };
        let mut st = State::Closed;
        std::mem::swap(&mut st, &mut self.state);
        match st {
            State::Request(mut input) => {
                if d.len() == 0 {
                    self.state = State::Request(input);
                    self.move_forward(date);
                    return ;
                }
                extend(&mut input, d);
                let parsed = parse_whole(input.as_slice());
                self.state = State::Request(input);
                if parsed.is_some() {
                    self.move_forward(date);
                }
            },
            other => {
                self.state = other;
            },
        }
    }

    /// As `on_read`, dating the answer with the current local time.
    pub fn on_read_now(&mut self, got: Option<&[u8]>)
        requires
            !read_overruns(old(self)@, bytes_opt(got)),
        ensures
            exists|date: Seq<char>|
                final(self)@ == #[trigger] after_read(old(self)@, bytes_opt(got), date),
    {
        let date = now_rfc822();
        self.on_read(got, date.as_str())
    }

    /// Handles what a write of `unsent` reported.
    pub fn on_write(&mut self, sent: Option<usize>)
        requires
            sent matches Some(n) ==> n <= old(self).unsent_len(),
        ensures
            final(self)@ == after_write(
                old(self)@,
                match sent {
                    Some(n) => Some(n as nat),
                    None => None,
                },
            ),
    {
        proof {
            use_type_invariant(&*self);
        }
        let n = match sent {
            None => {
                return;
            },
            Some(n) => n,
        };
        let mut st = State::Closed;
        std::mem::swap(&mut st, &mut self.state);
        match st {
            State::Response(out) => {
                let len = out.buf.len();
                let pos = out.pos + n;
                if pos == len {
                    self.state = State::Closed;
                } else {
                    self.state = State::Response(Output { buf: out.buf, pos });
                }
            },
            other => {
                self.state = other;
            },
        }
    }

    /// How many bytes of the answer are still to be sent.
    pub open spec fn unsent_len(self) -> nat {
        match self@ {
            StateView::Response(buf, pos) => (buf.len() - pos) as nat,
            _ => 0,
        }
    }
}

fn slice_from(s: &[u8], from: usize) -> (out: &[u8])
    requires
        from <= s@.len(),
    ensures
        out@ == s@.skip(from as int),
{
    let (_, rest) = s.split_at(from);
    rest
}

fn empty_slice<'a>() -> (out: &'a [u8])
    ensures
        out@.len() == 0,
{
    &[]
}

} // verus!
