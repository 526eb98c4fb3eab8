//! Telnet line handling: the framing of incoming data into lines, the
//! rewriting of outgoing text to CR LF line ends, and the queue of events
//! that a connection hands to the game.

use crate::text::{from_utf8_lossy, utf8_lossy};
use vstd::prelude::*;
use vstd::string::*;

verus! {

/// A telnet command byte that the game sends or reacts to.
#[derive(Clone, Copy, Debug, PartialEq, Eq, Structural)]
pub enum TelnetCmd {
    GoAhead,
    Will,
    Wont,
    Do,
    Dont,
    Other(u8),
}

/// A telnet option.
#[derive(Clone, Copy, Debug, PartialEq, Eq, Structural)]
pub enum TelnetOpt {
    Echo,
    Gmcp,
    Other(u8),
}

/// An event of the telnet stream.
#[derive(Clone, Debug)]
pub enum TelnetEvent {
    /// A line of text (incoming) or a piece of text (outgoing).
    Data(Vec<u8>),
    Cmd(TelnetCmd),
    Negotiation(TelnetCmd, TelnetOpt),
    Subnegotiation(TelnetOpt, Vec<u8>),
}

// ---------------------------------------------------------------------------
// Outgoing text

/// The bytes of byte `i` of `b` after line-end rewriting: a line feed that
/// does not follow a carriage return becomes CR LF.
pub open spec fn normalized_at(b: Seq<u8>, i: int) -> Seq<u8> {
    if b[i] == 10u8 && (i == 0 || b[i - 1] != 13u8) {
        seq![13u8, 10u8]
    } else {
        seq![b[i]]
    }
}

/// The first `n` bytes of `b` after line-end rewriting.
pub open spec fn normalized_prefix(b: Seq<u8>, n: int) -> Seq<u8>
    decreases n,
{
    if n <= 0 {
        Seq::empty()
    } else {
        normalized_prefix(b, n - 1) + normalized_at(b, n - 1)
    }
}

/// `b` with every bare line feed turned into CR LF.
pub open spec fn normalized(b: Seq<u8>) -> Seq<u8> {
    normalized_prefix(b, b.len() as int)
}

/// Every line feed of `b` follows a carriage return.
pub open spec fn crlf_only(b: Seq<u8>) -> bool {
    forall|j: int| 0 <= j < b.len() && #[trigger] b[j] == 10u8 ==> j > 0 && b[j - 1] == 13u8
}

/// The bytes sent for a line: the rewritten text, ended by CR LF unless it
/// already ends with a line feed.
pub open spec fn line_bytes(b: Seq<u8>) -> Seq<u8> {
    let n = normalized(b);
    if n.len() > 0 && n.last() == 10u8 {
        n
    } else {
        n + seq![13u8, 10u8]
    }
}

/// Rewrites the line ends of `s` for the telnet stream.
pub fn normalize_string(s: &str) -> (data: Vec<u8>)
    ensures
        data@ == normalized(s.spec_bytes()),
{
    let b = s.as_bytes();
    let mut data: Vec<u8> = Vec::new();
    let mut i: usize = 0;
    while i < b.len()
        invariant
            i <= b@.len(),
            b@ == s.spec_bytes(),
            data@ == normalized_prefix(b@, i as int),
        decreases b@.len() - i,
    {
        if b[i] == 10u8 && (i == 0 || b[i - 1] != 13u8) {
            data.push(13u8);
            data.push(10u8);
        } else {
            data.push(b[i]);
        }
        proof {
            assert(data@ =~= normalized_prefix(b@, i + 1));
        }
        i = i + 1;
    }
    data
}

/// The bytes that `TelnetOut::line` sends for `s`.
pub fn line_data(s: &str) -> (data: Vec<u8>)
    ensures
        data@ == line_bytes(s.spec_bytes()),
{
    let mut data = normalize_string(s);
    let n = data.len();
    if !(n > 0 && data[n - 1] == 10u8) {
        data.push(13u8);
        data.push(10u8);
    }
    proof {
        assert(data@ =~= line_bytes(s.spec_bytes()));
    }
    data
}

proof fn lemma_normalized_prefix_crlf(b: Seq<u8>, n: int)
    requires
        0 <= n <= b.len(),
    ensures
        crlf_only(normalized_prefix(b, n)),
        n > 0 && b[n - 1] == 13u8 ==> normalized_prefix(b, n).last() == 13u8,
        n > 0 ==> normalized_prefix(b, n).len() > 0,
    decreases n,
{
    if n > 0 {
        lemma_normalized_prefix_crlf(b, n - 1);
        let p = normalized_prefix(b, n - 1);
        let q = normalized_prefix(b, n);
        let a = normalized_at(b, n - 1);
        assert(q == p + a);
        assert forall|j: int| 0 <= j < q.len() && #[trigger] q[j] == 10u8 implies j > 0 && q[j - 1] == 13u8 by {
            if j < p.len() {
                assert(q[j] == p[j]);
                assert(q[j - 1] == p[j - 1]);
            } else if a.len() == 2 {
                assert(j == p.len() + 1);
            } else {
                assert(j == p.len());
                assert(b[n - 1] == 10u8);
                assert(n - 1 > 0 && b[n - 2] == 13u8);
                lemma_normalized_prefix_crlf(b, n - 1);
                assert(q[j - 1] == p.last());
            }
        }
    }
}

/// Outgoing text never holds a bare line feed: every line feed that
/// `normalize_string` sends follows a carriage return.
pub proof fn lemma_normalized_crlf(b: Seq<u8>)
    ensures
        crlf_only(normalized(b)),
{
    lemma_normalized_prefix_crlf(b, b.len() as int);
}

/// How many of the first `n` bytes of `b` are bare line feeds: line feeds
/// that do not follow a carriage return.
pub open spec fn bare_line_feeds(b: Seq<u8>, n: int) -> nat
    decreases n,
{
    if n <= 0 {
        0
    } else {
        bare_line_feeds(b, n - 1) + (if b[n - 1] == 10u8 && (n - 1 == 0 || b[n - 2] != 13u8) {
            1nat
        } else {
            0nat
        })
    }
}

proof fn lemma_normalized_prefix_len(b: Seq<u8>, n: int)
    requires
        0 <= n <= b.len(),
    ensures
        normalized_prefix(b, n).len() == n + bare_line_feeds(b, n),
    decreases n,
{
    if n > 0 {
        lemma_normalized_prefix_len(b, n - 1);
    }
}

proof fn lemma_normalized_prefix_same(b: Seq<u8>, n: int)
    requires
        0 <= n <= b.len(),
        crlf_only(b),
    ensures
        normalized_prefix(b, n) == b.take(n),
    decreases n,
{
    if n > 0 {
        lemma_normalized_prefix_same(b, n - 1);
        if b[n - 1] == 10u8 {
            assert(n - 1 > 0 && b[n - 2] == 13u8);
        }
        assert(normalized_at(b, n - 1) == seq![b[n - 1]]);
        assert(b.take(n - 1) + seq![b[n - 1]] =~= b.take(n));
    }
}

/// Rewriting line ends adds one byte, a carriage return, for each bare line
/// feed, and rewriting text that was rewritten already changes nothing.
pub proof fn lemma_normalized_len_idempotent(b: Seq<u8>)
    ensures
        normalized(b).len() == b.len() + bare_line_feeds(b, b.len() as int),
        normalized(normalized(b)) == normalized(b),
{
    lemma_normalized_prefix_len(b, b.len() as int);
    let n = normalized(b);
    lemma_normalized_crlf(b);
    lemma_normalized_prefix_same(n, n.len() as int);
    assert(n.take(n.len() as int) =~= n);
}

/// Every line that `TelnetOut::line` sends ends with CR LF and holds no
/// bare line feed.
pub proof fn lemma_line_bytes_end(b: Seq<u8>)
    ensures
        crlf_only(line_bytes(b)),
        line_bytes(b).len() >= 2,
        line_bytes(b)[line_bytes(b).len() - 2] == 13u8,
        line_bytes(b).last() == 10u8,
{
    let n = normalized(b);
    lemma_normalized_crlf(b);
    if n.len() > 0 && n.last() == 10u8 {
        assert(n[n.len() - 1] == 10u8);
    } else {
        let l = n + seq![13u8, 10u8];
        assert forall|j: int| 0 <= j < l.len() && #[trigger] l[j] == 10u8 implies j > 0 && l[j - 1] == 13u8 by {
            if j < n.len() {
                assert(l[j] == n[j]);
                assert(l[j - 1] == n[j - 1]);
            }
        }
    }
}

// ---------------------------------------------------------------------------
// Incoming lines

/// The complete lines of `s` (each with its line feed) and what follows
/// the last line feed.
pub open spec fn frame(s: Seq<u8>) -> (Seq<Seq<u8>>, Seq<u8>)
    decreases s.len(),
{
    if s.len() == 0 {
        (Seq::empty(), Seq::empty())
    } else {
        let (ls, cur) = frame(s.drop_last());
        if s.last() == 10u8 {
            (ls.push(cur.push(10u8)), Seq::empty())
        } else {
            (ls, cur.push(s.last()))
        }
    }
}

/// `l` without its trailing carriage returns and line feeds.
pub open spec fn strip_line_end(l: Seq<u8>) -> Seq<u8>
    decreases l.len(),
{
    if l.len() > 0 && (l.last() == 13u8 || l.last() == 10u8) {
        strip_line_end(l.drop_last())
    } else {
        l
    }
}

/// Whether `s` holds no line feed.
pub open spec fn no_line_feed(s: Seq<u8>) -> bool {
    forall|j: int| 0 <= j < s.len() ==> s[j] != 10u8
}

/// Collects the bytes of a telnet stream into lines.
pub struct LineBuffer {
    buffer: Vec<u8>,
}

impl View for LineBuffer {
    type V = Seq<u8>;

    /// The bytes received after the last line feed.
    closed spec fn view(&self) -> Seq<u8> {
        self.buffer@
    }
}

impl LineBuffer {
    /// An empty buffer.
    pub fn new() -> (b: LineBuffer)
        ensures
            b@ == Seq::<u8>::empty(),
    {
        LineBuffer { buffer: Vec::new() }
    }

    /// Adds `data` to the buffer and takes out every line it completes,
    /// without its line end.
    pub fn push_data(&mut self, data: &[u8]) -> (lines: Vec<Vec<u8>>)
        ensures
            final(self)@ == frame(old(self)@ + data@).1,
            lines@.len() == frame(old(self)@ + data@).0.len(),
            forall|k: int|
                0 <= k < lines@.len() ==> #[trigger] lines@[k]@ == strip_line_end(
                    frame(old(self)@ + data@).0[k],
                ),
    {
        let mut all: Vec<u8> = Vec::new();
        all.append(&mut self.buffer);
        let mut i: usize = 0;
        while i < data.len()
            invariant
                i <= data@.len(),
                all@ == old(self)@ + data@.take(i as int),
            decreases data@.len() - i,
        {
            all.push(data[i]);
            proof {
                assert(data@.take(i + 1) =~= data@.take(i as int).push(data@[i as int]));
            }
            i = i + 1;
        }
        proof {
            assert(data@.take(data@.len() as int) =~= data@);
        }
        let ghost whole = all@;
        let mut lines: Vec<Vec<u8>> = Vec::new();
        let ghost mut raw: Seq<Seq<u8>> = Seq::empty();
        let mut start: usize = 0;
        let mut j: usize = 0;
        while j < all.len()
            invariant
                start <= j <= all@.len(),
                all@ == whole,
                frame(whole.take(j as int)) == (raw, whole.subrange(start as int, j as int)),
                lines@.len() == raw.len(),
                forall|k: int| 0 <= k < lines@.len() ==> #[trigger] lines@[k]@ == strip_line_end(raw[k]),
            decreases all@.len() - j,
        {
            proof {
                assert(whole.take(j + 1).drop_last() =~= whole.take(j as int));
                assert(whole.take(j + 1).last() == whole[j as int]);
            }
            if all[j] == 10u8 {
                let line = strip_end(all.as_slice(), start, j + 1);
                proof {
                    assert(whole.subrange(start as int, j as int).push(10u8) =~= whole.subrange(
                        start as int,
                        j + 1,
                    ));
                    raw = raw.push(whole.subrange(start as int, j + 1));
                    assert(whole.subrange(j + 1, j + 1) =~= Seq::<u8>::empty());
                }
                lines.push(line);
                start = j + 1;
            } else {
                proof {
                    assert(whole.subrange(start as int, j as int).push(whole[j as int])
                        =~= whole.subrange(start as int, j + 1));
                }
            }
            j = j + 1;
        }
        proof {
            assert(whole.take(whole.len() as int) =~= whole);
        }
        let mut rest: Vec<u8> = Vec::new();
        let mut k: usize = start;
        while k < all.len()
            invariant
                start <= k <= all@.len(),
                all@ == whole,
                rest@ == whole.subrange(start as int, k as int),
            decreases all@.len() - k,
        {
            rest.push(all[k]);
            proof {
                assert(rest@ =~= whole.subrange(start as int, k + 1));
            }
            k = k + 1;
        }
        self.buffer = rest;
        lines
    }
}

/// The bytes `v[from..to]` without their trailing CR and LF bytes.
fn strip_end(v: &[u8], from: usize, to: usize) -> (r: Vec<u8>)
    requires
        from <= to <= v@.len(),
    ensures
        r@ == strip_line_end(v@.subrange(from as int, to as int)),
{
    let mut end = to;
    while end > from && (v[end - 1] == 13u8 || v[end - 1] == 10u8)
        invariant
            from <= end <= to <= v@.len(),
            strip_line_end(v@.subrange(from as int, end as int)) == strip_line_end(
                v@.subrange(from as int, to as int),
            ),
        decreases end,
    {
        proof {
            assert(v@.subrange(from as int, end as int).drop_last() =~= v@.subrange(
                from as int,
                end - 1,
            ));
        }
        end = end - 1;
    }
    let mut r: Vec<u8> = Vec::new();
    let mut i = from;
    while i < end
        invariant
            from <= i <= end <= v@.len(),
            r@ == v@.subrange(from as int, i as int),
        decreases end - i,
    {
        r.push(v[i]);
        proof {
            assert(r@ =~= v@.subrange(from as int, i + 1));
        }
        i = i + 1;
    }
    r
}

proof fn lemma_frame_no_line_feed(s: Seq<u8>)
    requires
        no_line_feed(s),
    ensures
        frame(s) == (Seq::<Seq<u8>>::empty(), s),
    decreases s.len(),
{
    if s.len() > 0 {
        lemma_frame_no_line_feed(s.drop_last());
        assert(s.drop_last().push(s.last()) =~= s);
    }
}

/// What remains after the last line feed holds no line feed.
pub proof fn lemma_frame_rest(s: Seq<u8>)
    ensures
        no_line_feed(frame(s).1),
    decreases s.len(),
{
    if s.len() > 0 {
        lemma_frame_rest(s.drop_last());
    }
}

/// Data may arrive in any pieces: framing `a` and then the rest of `a`
/// followed by `b` gives the lines and the remainder that framing `a + b`
/// at once gives.
pub proof fn lemma_frame_split(a: Seq<u8>, b: Seq<u8>)
    ensures
        frame(a + b).0 == frame(a).0 + frame(frame(a).1 + b).0,
        frame(a + b).1 == frame(frame(a).1 + b).1,
    decreases b.len(),
{
    if b.len() == 0 {
        assert(a + b =~= a);
        assert(frame(a).1 + b =~= frame(a).1);
        lemma_frame_rest(a);
        lemma_frame_no_line_feed(frame(a).1);
        assert(frame(a).0 + Seq::<Seq<u8>>::empty() =~= frame(a).0);
    } else {
        let b0 = b.drop_last();
        lemma_frame_split(a, b0);
        assert((a + b).drop_last() =~= a + b0);
        assert((a + b).last() == b.last());
        let r = frame(a).1;
        assert((r + b).drop_last() =~= r + b0);
        assert((r + b).last() == b.last());
        if b.last() == 10u8 {
            let (ls, cur) = frame(r + b0);
            assert(frame(a).0 + ls.push(cur.push(10u8)) =~= (frame(a).0 + ls).push(cur.push(10u8)));
        }
    }
}

/// Nothing is lost or added: the complete lines, joined, followed by the
/// remainder, are the bytes that came in.
pub proof fn lemma_frame_concat(s: Seq<u8>)
    ensures
        frame(s).0.flatten() + frame(s).1 == s,
    decreases s.len(),
{
    if s.len() > 0 {
        let s0 = s.drop_last();
        lemma_frame_concat(s0);
        let (ls, cur) = frame(s0);
        if s.last() == 10u8 {
            let l = cur.push(10u8);
            ls.lemma_flatten_push(l);
            assert(ls.push(l).flatten() + Seq::<u8>::empty() =~= ls.flatten() + cur + seq![10u8]);
        } else {
            assert(ls.flatten() + cur.push(s.last()) =~= (ls.flatten() + cur).push(s.last()));
        }
        assert(s0.push(s.last()) =~= s);
    }
}

// ---------------------------------------------------------------------------
// Incoming event queue

/// What a poll of the connection's channel gave.
#[derive(Debug)]
pub enum Received {
    Event(TelnetEvent),
    Empty,
    Disconnected,
}

/// The receiving side of a connection: one event held back for peeking and
/// whether the connection has closed.
pub struct TelnetIn {
    peek: Option<TelnetEvent>,
    closed: bool,
}

impl TelnetIn {
    /// The event held back, if any.
    pub closed spec fn peeked(&self) -> Option<TelnetEvent> {
        self.peek
    }

    /// Whether the channel has reported that it closed.
    pub closed spec fn channel_closed(&self) -> bool {
        self.closed
    }

    /// A fresh connection with nothing received.
    pub fn new() -> (t: TelnetIn)
        ensures
            t.peeked() is None,
            !t.channel_closed(),
    {
        TelnetIn { peek: None, closed: false }
    }

    /// Whether a poll of the channel is wanted: only while no event is held.
    pub fn wants_event(&self) -> (b: bool)
        ensures
            b == self.peeked() is None,
    {
        self.peek.is_none()
    }

    /// Takes in what a poll of the channel gave.
    pub fn update(&mut self, r: Received)
        requires
            old(self).peeked() is None,
        ensures
            match r {
                Received::Event(e) => final(self).peeked() == Some(e) && final(self).channel_closed()
                    == old(self).channel_closed(),
                Received::Empty => final(self).peeked() is None && final(self).channel_closed()
                    == old(self).channel_closed(),
                Received::Disconnected => final(self).peeked() is None
                    && final(self).channel_closed(),
            },
    {
        match r {
            Received::Event(e) => self.peek = Some(e),
            Received::Disconnected => self.closed = true,
            Received::Empty => {},
        }
    }

    /// The connection is over: the channel closed and nothing is held.
    pub fn closed(&self) -> (b: bool)
        ensures
            b == (self.channel_closed() && self.peeked() is None),
    {
        self.closed && self.peek.is_none()
    }

    /// Offers the held event to `f`: what `f` makes of it (`Ok`) is
    /// returned, and an event that `f` hands back (`Err`) is held again in
    /// its place, to be offered first on the next call. With nothing held,
    /// `f` is not called.
    pub fn next<T, F: FnOnce(TelnetEvent) -> Result<T, TelnetEvent>>(&mut self, f: F) -> (r: Option<T>)
        requires
            old(self).peeked() matches Some(e) ==> f.requires((e,)),
        ensures
            final(self).channel_closed() == old(self).channel_closed(),
            match old(self).peeked() {
                None => r is None && final(self).peeked() is None,
                Some(e) => match r {
                    Some(v) => f.ensures((e,), Ok(v)) && final(self).peeked() is None,
                    None => final(self).peeked() matches Some(back) && f.ensures((e,), Err(back)),
                },
            },
    {
        match self.peek.take() {
            None => None,
            Some(event) => match f(event) {
                Ok(v) => Some(v),
                Err(back) => {
                    self.peek = Some(back);
                    None
                },
            },
        }
    }

    /// Takes the held event if it is a line of text, decoded as UTF-8.
    pub fn next_line(&mut self) -> (line: Option<String>)
        ensures
            final(self).channel_closed() == old(self).channel_closed(),
            match old(self).peeked() {
                Some(TelnetEvent::Data(d)) => line matches Some(l) && l@ == utf8_lossy(d@)
                    && final(self).peeked() is None,
                _ => line is None && final(self).peeked() == old(self).peeked(),
            },
    {
        match self.peek.take() {
            Some(TelnetEvent::Data(d)) => Some(from_utf8_lossy(d.as_slice())),
            other => {
                self.peek = other;
                None
            },
        }
    }

    /// Takes the held event if it is a telnet command or negotiation.
    pub fn next_telnet(&mut self) -> (event: Option<TelnetEvent>)
        ensures
            final(self).channel_closed() == old(self).channel_closed(),
            match old(self).peeked() {
                Some(e) => if e is Data {
                    event is None && final(self).peeked() == old(self).peeked()
                } else {
                    event == Some(e) && final(self).peeked() is None
                },
                None => event is None && final(self).peeked() is None,
            },
    {
        match self.peek.take() {
            Some(TelnetEvent::Data(d)) => {
                self.peek = Some(TelnetEvent::Data(d));
                None
            },
            other => other,
        }
    }
}

/// An event that is held, whether it was just received or handed back by
/// a taker, keeps the connection open: `closed` is false while it is held,
/// and no poll of the channel is wanted until it is taken.
pub proof fn lemma_held_event_keeps_connection_open(t: TelnetIn)
    requires
        t.peeked() is Some,
    ensures
        !(t.channel_closed() && t.peeked() is None),
        !(t.peeked() is None),
{
}

/// Whether an event asks for GMCP: `Some(true)` for DO GMCP, `Some(false)`
/// for DONT GMCP, `None` for anything else.
pub fn gmcp_request(event: &TelnetEvent) -> (r: Option<bool>)
    ensures
        r == match event {
            TelnetEvent::Negotiation(TelnetCmd::Do, TelnetOpt::Gmcp) => Some(true),
            TelnetEvent::Negotiation(TelnetCmd::Dont, TelnetOpt::Gmcp) => Some(false),
            _ => None::<bool>,
        },
{
    match event {
        TelnetEvent::Negotiation(TelnetCmd::Do, TelnetOpt::Gmcp) => Some(true),
        TelnetEvent::Negotiation(TelnetCmd::Dont, TelnetOpt::Gmcp) => Some(false),
        _ => None,
    }
}

} // verus!
