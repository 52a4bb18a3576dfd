//! A connection: requests are read from a buffer and answered in their order,
//! a batch at a time.
use vstd::prelude::*;
use vstd::utf8::encode_utf8;

use crate::bytes;
use crate::config::ServerConfig;
use crate::head;
use crate::head::{Parsed, MAX_HEAD};
use crate::metrics::{Metrics, MetricsView};
use crate::response;
use crate::route;
use crate::route::{Routed, RoutedView, Site, WriteOutcome};
use crate::store::Store;

verus! {

/// The most requests answered before the responses are sent.
pub const MAX_BATCH: usize = 256;

/// A request that waits for its URL to be stored.
struct Pending {
    url: String,
    total: usize,
    close: bool,
}

pub struct PendingView {
    pub url: Seq<char>,
    /// The length of the request, in bytes.
    pub total: nat,
    pub close: bool,
}

/// The state of a connection between reads and writes.
pub struct Connection {
    buf: Vec<u8>,
    start: usize,
    out: Vec<u8>,
    processed: usize,
    continued: bool,
    close: bool,
    pending: Option<Pending>,
}

pub struct ConnectionView {
    /// Bytes that were received.
    pub buf: Seq<u8>,
    /// How many of them belong to requests that were answered.
    pub start: nat,
    /// Bytes to be sent.
    pub out: Seq<u8>,
    /// The requests answered in this batch.
    pub processed: nat,
    /// Whether the client was told to send the body of the next request.
    pub continued: bool,
    /// Whether the connection ends.
    pub close: bool,
    pub pending: Option<PendingView>,
}

impl View for Connection {
    type V = ConnectionView;

    closed spec fn view(&self) -> ConnectionView {
        ConnectionView {
            buf: self.buf@,
            start: self.start as nat,
            out: self.out@,
            processed: self.processed as nat,
            continued: self.continued,
            close: self.close,
            pending: match self.pending {
                None => None,
                Some(p) => Some(
                    PendingView { url: p.url@, total: p.total as nat, close: p.close },
                ),
            },
        }
    }
}

/// What the connection needs next. What is in `out` is sent first, except
/// before a write.
pub enum Action {
    /// More bytes. Where requests were answered, the client has its full time
    /// for the next.
    Read { progressed: bool },
    /// To go on, after others had their turn.
    Yield,
    /// The URL stored.
    Write { url: String },
    /// To be closed.
    Close,
}

pub enum ActionView {
    Read { progressed: bool },
    Yield,
    Write { url: Seq<char> },
    Close,
}

impl View for Action {
    type V = ActionView;

    open spec fn view(&self) -> ActionView {
        match self {
            Action::Read { progressed } => ActionView::Read { progressed: *progressed },
            Action::Yield => ActionView::Yield,
            Action::Write { url } => ActionView::Write { url: url@ },
            Action::Close => ActionView::Close,
        }
    }
}

/// A connection with the counters it adds to.
pub struct Served {
    pub conn: ConnectionView,
    pub counters: MetricsView,
}

/// Where one request leads.
pub enum Step {
    /// It was answered; the next may be.
    Next(Served),
    /// The connection needs something first.
    Stop(Served, ActionView),
}

impl ConnectionView {
    pub open spec fn wf(self) -> bool {
        &&& self.start <= self.buf.len()
        &&& self.processed <= MAX_BATCH
        &&& self.pending matches Some(p) ==> 0 < p.total && self.start + p.total <= self.buf.len()
            && self.processed < MAX_BATCH
    }

    /// The bytes that were received and not answered.
    pub open spec fn rest(self) -> Seq<u8> {
        self.buf.skip(self.start as int)
    }

    /// The batch ends: what was answered leaves the buffer.
    pub open spec fn compacted(self) -> ConnectionView {
        ConnectionView { buf: self.rest(), start: 0, processed: 0, ..self }
    }
}

impl Served {
    /// The request is refused, and the connection with it.
    pub open spec fn refused(self, status: u16) -> Served {
        Served {
            conn: ConnectionView {
                out: self.conn.out + response::error_reply(status, true).bytes(),
                close: true,
                ..self.conn
            },
            counters: self.counters.record(status),
        }
    }

    /// The batch ends because more bytes are needed.
    pub open spec fn waiting(self) -> Step {
        Step::Stop(
            Served { conn: self.conn.compacted(), ..self },
            ActionView::Read { progressed: self.conn.start > 0 },
        )
    }

    /// A request of so many bytes is answered.
    pub open spec fn answered(self, bytes: Seq<u8>, status: u16, total: nat, close: bool) -> Served {
        Served {
            conn: ConnectionView {
                start: self.conn.start + total,
                out: self.conn.out + bytes,
                processed: self.conn.processed + 1,
                continued: false,
                close,
                pending: None,
                ..self.conn
            },
            counters: self.counters.record(status),
        }
    }
}

/// The site as the counters have it.
pub open spec fn counted(site: Site, counters: MetricsView) -> Site {
    Site { counters, ..site }
}

/// The site that a server with these parts is, its counters aside.
pub open spec fn place(store: Store, config: ServerConfig, uptime_s: u64) -> Site {
    route::site(store, config, config.metrics@, uptime_s)
}

/// What becomes of a request whose head has `n` bytes and is served.
pub open spec fn step_request(s: Served, site: Site, n: int, parsed: head::ParsedView) -> Step {
    let rest = s.conn.rest();
    let total = n + parsed.content_length;
    if rest.len() < total {
        if parsed.expect && !s.conn.continued {
            Served {
                conn: ConnectionView {
                    out: s.conn.out + encode_utf8("HTTP/1.1 100 Continue\r\n\r\n"@),
                    continued: true,
                    ..s.conn
                },
                ..s
            }.waiting()
        } else {
            s.waiting()
        }
    } else {
        match route::routed(counted(site, s.counters), parsed, rest.subrange(n, total)) {
            RoutedView::Replied(reply) => Step::Next(
                s.answered(
                    if parsed.method == encode_utf8("HEAD"@) {
                        reply.head()
                    } else {
                        reply.bytes()
                    },
                    reply.status,
                    total as nat,
                    parsed.close,
                ),
            ),
            RoutedView::Write(url) => Step::Stop(
                Served {
                    conn: ConnectionView {
                        pending: Some(
                            PendingView { url, total: total as nat, close: parsed.close },
                        ),
                        ..s.conn
                    },
                    ..s
                },
                ActionView::Write { url },
            ),
        }
    }
}

/// What becomes of the next request in the buffer.
#[verifier::opaque]
pub open spec fn step(s: Served, site: Site) -> Step {
    let rest = s.conn.rest();
    match bytes::find(rest, response::head_end()) {
        None => if rest.len() >= MAX_HEAD {
            Step::Stop(s.refused(431), ActionView::Close)
        } else {
            s.waiting()
        },
        Some(at) => {
            let n = at + 4;
            if n > MAX_HEAD {
                Step::Stop(s.refused(431), ActionView::Close)
            } else {
                match head::parsed_head(rest.take(n)) {
                    Err(status) => Step::Stop(s.refused(status), ActionView::Close),
                    Ok(parsed) => step_request(s, site, n, parsed),
                }
            }
        },
    }
}

/// What becomes of the requests in the buffer, up to what is needed next.
pub open spec fn run(s: Served, site: Site) -> (Served, ActionView)
    decreases MAX_BATCH - s.conn.processed,
{
    if s.conn.pending is Some {
        (s, ActionView::Write { url: s.conn.pending.unwrap().url })
    } else if s.conn.close {
        (s, ActionView::Close)
    } else if s.conn.processed >= MAX_BATCH {
        (Served { conn: s.conn.compacted(), ..s }, ActionView::Yield)
    } else {
        proof {
            reveal(step);
        }
        match step(s, site) {
            Step::Next(next) => run(next, site),
            Step::Stop(last, action) => (last, action),
        }
    }
}

/// After a request that was answered, fewer may follow in the batch.
proof fn lemma_step(s: Served, site: Site)
    requires
        s.conn.pending is None,
    ensures
        step(s, site) matches Step::Next(next) ==> next.conn.processed == s.conn.processed + 1,
{
    reveal(step);
}

/// Whether a step leads to the state, and stops with the action if there is one.
pub open spec fn step_is(
    step: Step,
    conn: ConnectionView,
    counters: MetricsView,
    action: Option<Action>,
) -> bool {
    match step {
        Step::Next(next) => action is None && next == (Served { conn, counters }),
        Step::Stop(last, needed) => action is Some && action.unwrap()@ == needed && last == (
        Served { conn, counters }),
    }
}

/// What becomes of a request whose URL was to be stored.
pub open spec fn after_write(s: Served, public_base: Seq<char>, outcome: WriteOutcome) -> Served {
    match s.conn.pending {
        None => s,
        Some(p) => {
            let reply = route::write_reply(public_base, p.url, outcome, p.close);
            s.answered(reply.bytes(), reply.status, p.total, p.close)
        },
    }
}

/// The length of the head that the bytes begin with, if it is complete.
pub fn find_head(buf: &[u8]) -> (res: Option<usize>)
    ensures
        match res {
            Some(n) => 4 <= n <= buf@.len() && bytes::find(buf@, response::head_end()) == Some(
                n - 4,
            ),
            None => bytes::find(buf@, response::head_end()) is None,
        },
{
    proof {
        reveal_strlit("\r\n\r\n");
        vstd::utf8::is_ascii_chars_encode_utf8("\r\n\r\n"@);
    }
    match bytes::find_bytes(buf, "\r\n\r\n".as_bytes()) {
        Some(at) => Some(at + 4),
        None => None,
    }
}

impl Connection {
    /// A connection on which nothing has happened.
    pub fn new() -> (res: Connection)
        ensures
            res@.wf(),
            res@ == (ConnectionView {
                buf: Seq::empty(),
                start: 0,
                out: Seq::empty(),
                processed: 0,
                continued: false,
                close: false,
                pending: None,
            }),
    {
        Connection {
            buf: Vec::new(),
            start: 0,
            out: Vec::new(),
            processed: 0,
            continued: false,
            close: false,
            pending: None,
        }
    }

    /// Takes in bytes that were received.
    pub fn feed(&mut self, bytes: &[u8])
        requires
            old(self)@.wf(),
        ensures
            final(self)@.wf(),
            final(self)@ == (ConnectionView { buf: old(self)@.buf + bytes@, ..old(self)@ }),
    {
        self.buf.extend_from_slice(bytes);
        assert(self@.buf =~= old(self)@.buf + bytes@);
    }

    /// The bytes to be sent.
    pub fn output(&self) -> (res: &[u8])
        ensures
            res@ == self@.out,
    {
        self.out.as_slice()
    }

    /// Notes that they were sent.
    pub fn sent(&mut self)
        requires
            old(self)@.wf(),
        ensures
            final(self)@.wf(),
            final(self)@ == (ConnectionView { out: Seq::empty(), ..old(self)@ }),
    {
        self.out.clear();
    }

    fn refuse(&mut self, metrics: &mut Metrics, status: u16)
        requires
            old(self)@.wf(),
        ensures
            final(self)@.wf(),
            (Served { conn: final(self)@, counters: final(metrics)@ }) == (Served {
                conn: old(self)@,
                counters: old(metrics)@,
            }).refused(status),
    {
        response::error(&mut self.out, status, true);
        metrics.record(status);
        self.close = true;
    }

    fn compact(&mut self) -> (progressed: bool)
        requires
            old(self)@.wf(),
            old(self)@.pending is None,
        ensures
            final(self)@.wf(),
            final(self)@ == old(self)@.compacted(),
            progressed == (old(self)@.start > 0),
    {
        let progressed = self.start > 0;
        if progressed {
            let rest = self.buf.split_off(self.start);
            self.buf = rest;
        }
        assert(self.buf@ =~= old(self)@.rest());
        self.start = 0;
        self.processed = 0;
        progressed
    }

    /// Answers a request whose head has `n` bytes.
    fn answer(
        &mut self,
        store: &Store,
        config: &ServerConfig,
        metrics: &mut Metrics,
        uptime_s: u64,
        n: usize,
        head: &Parsed,
    ) -> (res: Option<Action>)
        requires
            old(self)@.wf(),
            old(self)@.pending is None,
            old(self)@.processed < MAX_BATCH,
            0 < n <= old(self)@.rest().len(),
            store.wf(),
        ensures
            final(self)@.wf(),
            step_is(
                step_request(
                    Served { conn: old(self)@, counters: old(metrics)@ },
                    place(*store, *config, uptime_s),
                    n as int,
                    head@,
                ),
                final(self)@,
                final(metrics)@,
                res,
            ),
    {
        let rest = &self.buf.as_slice()[self.start..self.buf.len()];
        assert(rest@ =~= self@.rest());
        if rest.len() - n < head.content_length {
            if head.expect && !self.continued {
                self.out.extend_from_slice("HTTP/1.1 100 Continue\r\n\r\n".as_bytes());
                self.continued = true;
                assert(self.out@ =~= old(self)@.out + encode_utf8(
                    "HTTP/1.1 100 Continue\r\n\r\n"@,
                ));
            }
            let progressed = self.compact();
            return Some(Action::Read { progressed });
        }
        let total = n + head.content_length;
        let body = &rest[n..total];
        assert(body@ =~= self@.rest().subrange(n as int, total as int));
        let ghost site = route::site(*store, *config, metrics@, uptime_s);
        let ghost reply = route::routed(site, head@, body@)->Replied_0;
        proof {
            store.law_store_is_sound();
            if route::routed(site, head@, body@) is Replied {
                route::law_replies_are_framed(site, head@, body@);
                response::law_head_ends_at_first_empty_line(reply);
            }
        }
        let before = self.out.len();
        match route::route(&mut self.out, store, config, metrics, uptime_s, head, body) {
            Routed::Replied(status) => {
                metrics.record(status);
                if bytes::equal(head.method.as_slice(), "HEAD".as_bytes()) {
                    let response = &self.out.as_slice()[before..self.out.len()];
                    assert(response@ =~= reply.bytes());
                    match find_head(response) {
                        Some(end) => {
                            self.out.truncate(before + end);
                            assert(self.out@ =~= old(self)@.out + reply.head());
                        },
                        None => {},
                    }
                }
                self.start = self.start + total;
                self.processed = self.processed + 1;
                self.continued = false;
                self.close = head.close;
                None
            },
            Routed::Write(url) => {
                let copy = url.clone();
                self.pending = Some(Pending { url: copy, total, close: head.close });
                Some(Action::Write { url })
            },
        }
    }

    /// Answers the next request in the buffer.
    fn step_once(
        &mut self,
        store: &Store,
        config: &ServerConfig,
        metrics: &mut Metrics,
        uptime_s: u64,
    ) -> (res: Option<Action>)
        requires
            old(self)@.wf(),
            old(self)@.pending is None,
            old(self)@.processed < MAX_BATCH,
            store.wf(),
        ensures
            final(self)@.wf(),
            step_is(
                step(
                    Served { conn: old(self)@, counters: old(metrics)@ },
                    place(*store, *config, uptime_s),
                ),
                final(self)@,
                final(metrics)@,
                res,
            ),
    {
        proof {
            reveal(step);
        }
        let rest = &self.buf.as_slice()[self.start..self.buf.len()];
        assert(rest@ =~= self@.rest());
        match find_head(rest) {
            None => {
                if rest.len() >= MAX_HEAD {
                    self.refuse(metrics, 431);
                    return Some(Action::Close);
                }
                let progressed = self.compact();
                Some(Action::Read { progressed })
            },
            Some(n) => {
                if n > MAX_HEAD {
                    self.refuse(metrics, 431);
                    return Some(Action::Close);
                }
                let front = &rest[0..n];
                assert(front@ =~= self@.rest().take(n as int));
                match head::parse_head(front) {
                    Err(status) => {
                        self.refuse(metrics, status);
                        Some(Action::Close)
                    },
                    Ok(parsed) => self.answer(store, config, metrics, uptime_s, n, &parsed),
                }
            },
        }
    }

    /// Answers the requests in the buffer, in their order, and says what is
    /// needed next.
    pub fn advance(
        &mut self,
        store: &Store,
        config: &ServerConfig,
        metrics: &mut Metrics,
        uptime_s: u64,
    ) -> (res: Action)
        requires
            old(self)@.wf(),
            store.wf(),
        ensures
            final(self)@.wf(),
            run(
                Served { conn: old(self)@, counters: old(metrics)@ },
                place(*store, *config, uptime_s),
            ) == (Served { conn: final(self)@, counters: final(metrics)@ }, res@),
    {
        let ghost site = place(*store, *config, uptime_s);
        let ghost all = run(Served { conn: self@, counters: metrics@ }, site);
        loop
            invariant
                self@.wf(),
                store.wf(),
                site == place(*store, *config, uptime_s),
                all == run(Served { conn: old(self)@, counters: old(metrics)@ }, site),
                run(Served { conn: self@, counters: metrics@ }, site) == all,
            decreases MAX_BATCH - self@.processed,
        {
            match &self.pending {
                Some(pending) => {
                    return Action::Write { url: pending.url.clone() };
                },
                None => {},
            }
            if self.close {
                return Action::Close;
            }
            if self.processed >= MAX_BATCH {
                self.compact();
                return Action::Yield;
            }
            let ghost before = Served { conn: self@, counters: metrics@ };
            proof {
                lemma_step(before, site);
            }
            match self.step_once(store, config, metrics, uptime_s) {
                Some(action) => {
                    return action;
                },
                None => {},
            }
        }
    }

    /// Answers the request that waited for its URL to be stored. Where none
    /// does, nothing happens.
    pub fn complete_write(
        &mut self,
        config: &ServerConfig,
        metrics: &mut Metrics,
        outcome: &WriteOutcome,
    )
        requires
            old(self)@.wf(),
        ensures
            final(self)@.wf(),
            (Served { conn: final(self)@, counters: final(metrics)@ }) == after_write(
                Served { conn: old(self)@, counters: old(metrics)@ },
                config.public_base@,
                *outcome,
            ),
    {
        match self.pending.take() {
            None => {},
            Some(pending) => {
                let status = route::answer_write(
                    &mut self.out,
                    config,
                    pending.url.as_str(),
                    outcome,
                    pending.close,
                );
                metrics.record(status);
                assert(self.start + pending.total <= self.buf.len());
                self.start = self.start + pending.total;
                self.processed = self.processed + 1;
                self.continued = false;
                self.close = pending.close;
            },
        }
    }
}

/// What was received and not answered when a batch began is what was not
/// answered when it ended, without the requests at its front; and what is to
/// be sent is only added to.
pub open spec fn goes_on(before: ConnectionView, after: ConnectionView) -> bool {
    &&& exists|k: int| 0 <= k <= before.rest().len() && after.rest() == #[trigger] before.rest().skip(k)
    &&& before.out.len() <= after.out.len()
    &&& after.out.take(before.out.len() as int) == before.out
}

proof fn lemma_goes_on(before: ConnectionView, after: ConnectionView, k: int)
    requires
        0 <= k <= before.rest().len(),
        after.rest() == before.rest().skip(k),
        before.out.len() <= after.out.len(),
        after.out.take(before.out.len() as int) == before.out,
    ensures
        goes_on(before, after),
{
}

pub proof fn lemma_step_goes_on(s: Served, site: Site)
    requires
        s.conn.wf(),
        s.conn.pending is None,
        s.conn.processed < MAX_BATCH,
    ensures
        match step(s, site) {
            Step::Next(next) => next.conn.wf() && goes_on(s.conn, next.conn),
            Step::Stop(last, _) => last.conn.wf() && goes_on(s.conn, last.conn),
        },
{
    reveal(step);
    let rest = s.conn.rest();
    assert(rest.skip(0) =~= rest);
    match step(s, site) {
        Step::Next(next) => {
            let k = next.conn.start - s.conn.start;
            match bytes::find(rest, response::head_end()) {
                Some(at) => {
                    lemma_find_bounds(rest);
                    assert(next.conn.rest() =~= rest.skip(k));
                    assert(next.conn.out.take(s.conn.out.len() as int) =~= s.conn.out);
                    lemma_goes_on(s.conn, next.conn, k);
                },
                None => {},
            }
        },
        Step::Stop(last, _) => {
            if bytes::find(rest, response::head_end()) is Some {
                lemma_find_bounds(rest);
            }
            assert(last.conn.rest() =~= rest);
            assert(last.conn.out.take(s.conn.out.len() as int) =~= s.conn.out);
            lemma_goes_on(s.conn, last.conn, 0);
        },
    }
}

pub proof fn lemma_find_bounds(s: Seq<u8>)
    requires
        bytes::find(s, response::head_end()) is Some,
    ensures
        0 <= bytes::find(s, response::head_end()).unwrap() <= s.len() - 4,
        bytes::first_at(s, response::head_end(), bytes::find(s, response::head_end()).unwrap()),
{
    reveal_strlit("\r\n\r\n");
    vstd::utf8::is_ascii_chars_encode_utf8("\r\n\r\n"@);
}

/// A batch loses no byte: it takes requests from the front of what was
/// received, and adds to what is to be sent.
pub proof fn law_batch_loses_nothing(s: Served, site: Site)
    requires
        s.conn.wf(),
    ensures
        run(s, site).0.conn.wf(),
        goes_on(s.conn, run(s, site).0.conn),
    decreases MAX_BATCH - s.conn.processed,
{
    assert(s.conn.rest().skip(0) =~= s.conn.rest());
    assert(s.conn.out.take(s.conn.out.len() as int) =~= s.conn.out);
    if s.conn.pending is Some || s.conn.close {
        lemma_goes_on(s.conn, s.conn, 0);
    } else if s.conn.processed >= MAX_BATCH {
        assert(s.conn.compacted().rest() =~= s.conn.rest());
        lemma_goes_on(s.conn, s.conn.compacted(), 0);
    } else {
        lemma_step_goes_on(s, site);
        match step(s, site) {
            Step::Next(next) => {
                lemma_step(s, site);
                law_batch_loses_nothing(next, site);
                let last = run(next, site).0;
                let j = choose|j: int|
                    0 <= j <= s.conn.rest().len() && next.conn.rest() == #[trigger] s.conn.rest().skip(j);
                let k = choose|k: int|
                    0 <= k <= next.conn.rest().len() && last.conn.rest()
                        == #[trigger] next.conn.rest().skip(k);
                assert(s.conn.rest().skip(j).skip(k) =~= s.conn.rest().skip(j + k));
                assert(last.conn.out.take(s.conn.out.len() as int) =~= last.conn.out.take(
                    next.conn.out.len() as int,
                ).take(s.conn.out.len() as int));
                lemma_goes_on(s.conn, last.conn, j + k);
            },
            Step::Stop(_, _) => {},
        }
    }
}

/// Whether what was received begins with a whole request, with a head of `n`
/// bytes that is served.
pub open spec fn begins_with(conn: ConnectionView, n: int, parsed: head::ParsedView) -> bool {
    &&& bytes::find(conn.rest(), response::head_end()) == Some(n - 4)
    &&& n <= MAX_HEAD
    &&& head::parsed_head(conn.rest().take(n)) == Ok::<head::ParsedView, u16>(parsed)
    &&& n + parsed.content_length <= conn.rest().len()
}

/// Whether requests are answered now.
pub open spec fn is_ready(conn: ConnectionView) -> bool {
    conn.pending is None && !conn.close && conn.processed < MAX_BATCH
}

/// Requests are answered in their order: the answer to the first is added to
/// what is to be sent before the next is looked at. Of the answer to a `HEAD`
/// request it is the head alone.
pub proof fn law_answers_in_order(
    s: Served,
    site: Site,
    n: int,
    parsed: head::ParsedView,
    reply: response::Reply,
)
    requires
        is_ready(s.conn),
        begins_with(s.conn, n, parsed),
        route::routed(
            counted(site, s.counters),
            parsed,
            s.conn.rest().subrange(n, n + parsed.content_length),
        ) == RoutedView::Replied(reply),
    ensures
        ({
            let bytes = if parsed.method == encode_utf8("HEAD"@) {
                reply.head()
            } else {
                reply.bytes()
            };
            run(s, site) == run(
                s.answered(
                    bytes,
                    reply.status,
                    (n + parsed.content_length) as nat,
                    parsed.close,
                ),
                site,
            )
        }),
{
    reveal(step);
}

/// A request that asks to store a URL waits for that, and is answered when it
/// was tried.
pub proof fn law_write_waits(
    s: Served,
    site: Site,
    n: int,
    parsed: head::ParsedView,
    url: Seq<char>,
    outcome: WriteOutcome,
)
    requires
        is_ready(s.conn),
        begins_with(s.conn, n, parsed),
        route::routed(
            counted(site, s.counters),
            parsed,
            s.conn.rest().subrange(n, n + parsed.content_length),
        ) == RoutedView::Write(url),
    ensures
        run(s, site).1 == (ActionView::Write { url }),
        run(run(s, site).0, site) == run(s, site),
        ({
            let reply = route::write_reply(site.public_base, url, outcome, parsed.close);
            after_write(run(s, site).0, site.public_base, outcome) == s.answered(
                reply.bytes(),
                reply.status,
                (n + parsed.content_length) as nat,
                parsed.close,
            )
        }),
{
    reveal(step);
}

/// A head that is not served is answered with its error, and the connection
/// closes.
pub proof fn law_refused_head_closes(s: Served, site: Site, n: int, status: u16)
    requires
        is_ready(s.conn),
        bytes::find(s.conn.rest(), response::head_end()) == Some(n - 4),
        n <= MAX_HEAD,
        head::parsed_head(s.conn.rest().take(n)) == Err::<head::ParsedView, u16>(status),
    ensures
        run(s, site) == (s.refused(status), ActionView::Close),
{
    reveal(step);
}

/// A connection that closes answers nothing more.
pub proof fn law_closed_stays_closed(s: Served, site: Site)
    requires
        s.conn.close,
        s.conn.pending is None,
    ensures
        run(s, site) == (s, ActionView::Close),
{
}

/// A head that is too long is refused, and so is one that has as many bytes as
/// a head may have and is not at its end.
pub proof fn law_long_head_is_refused(s: Served, site: Site)
    requires
        is_ready(s.conn),
        match bytes::find(s.conn.rest(), response::head_end()) {
            Some(at) => at + 4 > MAX_HEAD,
            None => s.conn.rest().len() >= MAX_HEAD,
        },
    ensures
        run(s, site) == (s.refused(431), ActionView::Close),
{
    reveal(step);
}

/// Whether a head is too long does not depend on how its bytes arrive: where
/// a part of it is refused as too long, so is all of it.
pub proof fn law_long_head_in_parts(part: Seq<u8>, more: Seq<u8>)
    requires
        bytes::find(part, response::head_end()) is None,
        part.len() >= MAX_HEAD,
    ensures
        match bytes::find(part + more, response::head_end()) {
            Some(at) => at + 4 > MAX_HEAD,
            None => (part + more).len() >= MAX_HEAD,
        },
{
    let all = part + more;
    if bytes::find(all, response::head_end()) is Some {
        lemma_find_bounds(all);
        let at = bytes::find(all, response::head_end()).unwrap();
        if at + 4 <= MAX_HEAD {
            reveal_strlit("\r\n\r\n");
            vstd::utf8::is_ascii_chars_encode_utf8("\r\n\r\n"@);
            assert(part.subrange(at, at + 4) =~= all.subrange(at, at + 4));
            assert forall|j: int| 0 <= j < at implies !bytes::occurs_at(
                part,
                response::head_end(),
                j,
            ) by {
                assert(!bytes::occurs_at(all, response::head_end(), j));
                assert(part.subrange(j, j + 4) =~= all.subrange(j, j + 4));
            }
            bytes::lemma_find_is(part, response::head_end(), at);
        }
    }
}

/// A client is told to go on with a body at most once.
pub proof fn law_continue_is_sent_once(s: Served, site: Site)
    requires
        is_ready(s.conn),
        s.conn.continued,
        step(s, site) matches Step::Stop(_, ActionView::Read { .. }),
    ensures
        run(s, site).0.conn.out == s.conn.out,
        run(s, site).0.conn.continued,
{
    reveal(step);
}

/// How many requests are answered in a batch, refusals among them.
pub open spec fn answers(s: Served, site: Site) -> nat
    decreases MAX_BATCH - s.conn.processed,
{
    if s.conn.pending is Some || s.conn.close || s.conn.processed >= MAX_BATCH {
        0
    } else {
        proof {
            reveal(step);
        }
        match step(s, site) {
            Step::Next(next) => 1 + answers(next, site),
            Step::Stop(_, ActionView::Close) => 1,
            Step::Stop(_, _) => 0,
        }
    }
}

pub proof fn lemma_record_first(m: MetricsView, status: u16, rest: Seq<u16>)
    ensures
        m.record(status).record_all(rest) == m.record_all(seq![status] + rest),
    decreases rest.len(),
{
    let all = seq![status] + rest;
    if rest.len() == 0 {
        assert(all.drop_last() =~= Seq::<u16>::empty());
        assert(m.record_all(all.drop_last()) == m);
    } else {
        lemma_record_first(m, status, rest.drop_last());
        assert(all.drop_last() =~= seq![status] + rest.drop_last());
    }
}

/// A batch answers at most so many requests, and every answer is counted.
pub proof fn law_batch_is_bounded_and_counted(s: Served, site: Site)
    requires
        s.conn.wf(),
    ensures
        answers(s, site) + s.conn.processed <= MAX_BATCH,
        exists|statuses: Seq<u16>|
            statuses.len() == answers(s, site) && run(s, site).0.counters
                == #[trigger] s.counters.record_all(statuses),
    decreases MAX_BATCH - s.conn.processed,
{
    let none = Seq::<u16>::empty();
    assert(s.counters.record_all(none) == s.counters);
    if s.conn.pending is Some || s.conn.close || s.conn.processed >= MAX_BATCH {
        assert(none.len() == answers(s, site));
    } else {
        reveal(step);
        lemma_step(s, site);
        lemma_step_goes_on(s, site);
        match step(s, site) {
            Step::Next(next) => {
                law_batch_is_bounded_and_counted(next, site);
                let rest = choose|rest: Seq<u16>|
                    rest.len() == answers(next, site) && run(next, site).0.counters
                        == #[trigger] next.counters.record_all(rest);
                let status = lemma_next_is_counted(s, site);
                lemma_record_first(s.counters, status, rest);
                assert((seq![status] + rest).len() == answers(s, site));
            },
            Step::Stop(last, ActionView::Close) => {
                let status = lemma_close_is_counted(s, site);
                lemma_record_first(s.counters, status, none);
                assert(last.counters.record_all(none) == last.counters);
                assert((seq![status] + none).len() == answers(s, site));
            },
            Step::Stop(_, _) => {
                assert(none.len() == answers(s, site));
            },
        }
    }
}

proof fn lemma_next_is_counted(s: Served, site: Site) -> (status: u16)
    requires
        step(s, site) is Next,
    ensures
        step(s, site)->Next_0.counters == s.counters.record(status),
{
    reveal(step);
    let rest = s.conn.rest();
    let n = bytes::find(rest, response::head_end()).unwrap() + 4;
    let parsed = head::parsed_head(rest.take(n)).unwrap();
    let body = rest.subrange(n, n + parsed.content_length);
    route::routed(counted(site, s.counters), parsed, body)->Replied_0.status
}

proof fn lemma_close_is_counted(s: Served, site: Site) -> (status: u16)
    requires
        step(s, site) matches Step::Stop(_, ActionView::Close),
    ensures
        step(s, site)->Stop_0.counters == s.counters.record(status),
{
    reveal(step);
    let rest = s.conn.rest();
    match bytes::find(rest, response::head_end()) {
        None => 431,
        Some(at) => if at + 4 > MAX_HEAD {
            431
        } else {
            head::parsed_head(rest.take(at + 4))->Err_0
        },
    }
}

/// A whole request that is answered takes its bytes from the front of what was
/// received, adds its answer to what is to be sent, of a `HEAD` request the head
/// alone, and is counted by its status; then the next is looked at.
pub proof fn law_request_is_answered(
    s: Served,
    site: Site,
    n: int,
    parsed: head::ParsedView,
    reply: response::Reply,
)
    requires
        s.conn.pending is None && !s.conn.close && s.conn.processed < 256,
        bytes::find(s.conn.buf.skip(s.conn.start as int), encode_utf8("\r\n\r\n"@)) == Some(n - 4),
        n <= 16384,
        head::parsed_head(s.conn.buf.skip(s.conn.start as int).take(n)) == Ok::<
            head::ParsedView,
            u16,
        >(parsed),
        s.conn.start + n + parsed.content_length <= s.conn.buf.len(),
        s.conn.start <= s.conn.buf.len(),
        route::routed(
            Site { counters: s.counters, ..site },
            parsed,
            s.conn.buf.skip(s.conn.start as int).subrange(n, n + parsed.content_length),
        ) == RoutedView::Replied(reply),
    ensures
        run(s, site) == run(
            Served {
                conn: ConnectionView {
                    buf: s.conn.buf,
                    start: (s.conn.start + n + parsed.content_length) as nat,
                    out: s.conn.out + if parsed.method == encode_utf8("HEAD"@) {
                        reply.head()
                    } else {
                        reply.head() + reply.body
                    },
                    processed: s.conn.processed + 1,
                    continued: false,
                    close: parsed.close,
                    pending: None,
                },
                counters: s.counters.record(reply.status),
            },
            site,
        ),
{
    law_answers_in_order(s, site, n, parsed, reply);
    lemma_find_bounds(s.conn.rest());
}

/// A whole request that asks to store a URL waits, with its bytes not yet taken.
pub proof fn law_write_is_asked_for(
    s: Served,
    site: Site,
    n: int,
    parsed: head::ParsedView,
    url: Seq<char>,
)
    requires
        s.conn.pending is None && !s.conn.close && s.conn.processed < 256,
        bytes::find(s.conn.buf.skip(s.conn.start as int), encode_utf8("\r\n\r\n"@)) == Some(n - 4),
        n <= 16384,
        head::parsed_head(s.conn.buf.skip(s.conn.start as int).take(n)) == Ok::<
            head::ParsedView,
            u16,
        >(parsed),
        s.conn.start + n + parsed.content_length <= s.conn.buf.len(),
        s.conn.start <= s.conn.buf.len(),
        route::routed(
            Site { counters: s.counters, ..site },
            parsed,
            s.conn.buf.skip(s.conn.start as int).subrange(n, n + parsed.content_length),
        ) == RoutedView::Write(url),
    ensures
        run(s, site) == (
            Served {
                conn: ConnectionView {
                    pending: Some(
                        PendingView {
                            url,
                            total: (n + parsed.content_length) as nat,
                            close: parsed.close,
                        },
                    ),
                    ..s.conn
                },
                counters: s.counters,
            },
            ActionView::Write { url },
        ),
{
    reveal(step);
}

/// Once its URL was tried to be stored, the request that waited is answered like
/// any other; where none waited, nothing changes.
pub proof fn law_write_is_answered(s: Served, public_base: Seq<char>, outcome: WriteOutcome)
    ensures
        s.conn.pending is None ==> after_write(s, public_base, outcome) == s,
        s.conn.pending matches Some(p) ==> {
            let reply = route::write_reply(public_base, p.url, outcome, p.close);
            after_write(s, public_base, outcome) == (Served {
                conn: ConnectionView {
                    buf: s.conn.buf,
                    start: s.conn.start + p.total,
                    out: s.conn.out + (reply.head() + reply.body),
                    processed: s.conn.processed + 1,
                    continued: false,
                    close: p.close,
                    pending: None,
                },
                counters: s.counters.record(reply.status),
            })
        },
{
}

/// Without the end of a head, and while less than 16384 bytes wait, more are read;
/// what was answered leaves the buffer, and nothing else changes.
pub proof fn law_head_is_waited_for(s: Served, site: Site)
    requires
        s.conn.pending is None && !s.conn.close && s.conn.processed < 256,
        s.conn.start <= s.conn.buf.len(),
        bytes::find(s.conn.buf.skip(s.conn.start as int), encode_utf8("\r\n\r\n"@)) is None,
        s.conn.buf.len() - s.conn.start < 16384,
    ensures
        run(s, site) == (
            Served {
                conn: ConnectionView {
                    buf: s.conn.buf.skip(s.conn.start as int),
                    start: 0,
                    processed: 0,
                    ..s.conn
                },
                counters: s.counters,
            },
            ActionView::Read { progressed: s.conn.start > 0 },
        ),
{
    reveal(step);
}

/// Without the whole body more bytes are read. A client that waits to be told to
/// send it is told so, once.
pub proof fn law_body_is_waited_for(s: Served, site: Site, n: int, parsed: head::ParsedView)
    requires
        s.conn.pending is None && !s.conn.close && s.conn.processed < 256,
        s.conn.start <= s.conn.buf.len(),
        bytes::find(s.conn.buf.skip(s.conn.start as int), encode_utf8("\r\n\r\n"@)) == Some(n - 4),
        n <= 16384,
        head::parsed_head(s.conn.buf.skip(s.conn.start as int).take(n)) == Ok::<
            head::ParsedView,
            u16,
        >(parsed),
        s.conn.start + n + parsed.content_length > s.conn.buf.len(),
    ensures
        run(s, site) == (
            Served {
                conn: ConnectionView {
                    buf: s.conn.buf.skip(s.conn.start as int),
                    start: 0,
                    out: if parsed.expect && !s.conn.continued {
                        s.conn.out + encode_utf8("HTTP/1.1 100 Continue\r\n\r\n"@)
                    } else {
                        s.conn.out
                    },
                    processed: 0,
                    continued: s.conn.continued || parsed.expect,
                    close: false,
                    pending: None,
                },
                counters: s.counters,
            },
            ActionView::Read { progressed: s.conn.start > 0 },
        ),
{
    reveal(step);
}

/// A head that is not served is answered with its error, which is counted, and the
/// connection closes; one that is longer than 16384 bytes, or has that many without
/// its end, with 431.
pub proof fn law_head_is_refused(s: Served, site: Site, status: u16)
    requires
        s.conn.pending is None && !s.conn.close && s.conn.processed < 256,
        s.conn.start <= s.conn.buf.len(),
        match bytes::find(s.conn.buf.skip(s.conn.start as int), encode_utf8("\r\n\r\n"@)) {
            None => s.conn.buf.len() - s.conn.start >= 16384 && status == 431,
            Some(at) => if at + 4 > 16384 {
                status == 431
            } else {
                head::parsed_head(s.conn.buf.skip(s.conn.start as int).take(at + 4)) == Err::<
                    head::ParsedView,
                    u16,
                >(status)
            },
        },
    ensures
        run(s, site) == (
            Served {
                conn: ConnectionView {
                    out: s.conn.out + (response::error_reply(status, true).head()
                        + response::error_reply(status, true).body),
                    close: true,
                    ..s.conn
                },
                counters: s.counters.record(status),
            },
            ActionView::Close,
        ),
{
    reveal(step);
}

/// A request that waits for its URL is asked about again, a connection that ends is
/// closed, and after 256 answers others have their turn.
pub proof fn law_turns(s: Served, site: Site)
    ensures
        s.conn.pending matches Some(p) ==> run(s, site) == (s, ActionView::Write { url: p.url }),
        s.conn.pending is None && s.conn.close ==> run(s, site) == (s, ActionView::Close),
        s.conn.pending is None && !s.conn.close && s.conn.processed >= 256 ==> run(s, site) == (
            Served {
                conn: ConnectionView {
                    buf: s.conn.buf.skip(s.conn.start as int),
                    start: 0,
                    processed: 0,
                    ..s.conn
                },
                counters: s.counters,
            },
            ActionView::Yield,
        ),
{
}

/// What is needed is told as it is.
pub proof fn law_actions(progressed: bool, url: String)
    ensures
        (Action::Read { progressed })@ == (ActionView::Read { progressed }),
        Action::Yield@ == ActionView::Yield,
        (Action::Write { url })@ == (ActionView::Write { url: url@ }),
        Action::Close@ == ActionView::Close,
{
}

/// A server's connections see its store, its settings and its uptime.
pub proof fn law_place(store: Store, config: ServerConfig, uptime_s: u64, counters: MetricsView)
    ensures
        place(store, config, uptime_s) == route::site(store, config, config.metrics@, uptime_s),
        counted(place(store, config, uptime_s), counters) == route::site(
            store,
            config,
            counters,
            uptime_s,
        ),
{
}

} // verus!
