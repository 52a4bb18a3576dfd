//! A connection from its first byte to its last: what is sent in all, however
//! the requests fall into batches and however their bytes arrive.
use vstd::prelude::*;
use vstd::utf8::encode_utf8;

use crate::bytes;
use crate::conn;
use crate::conn::{ActionView, ConnectionView, Served, Step, MAX_BATCH};
use crate::head;
use crate::head::{ParsedView, MAX_HEAD};
use crate::metrics::MetricsView;
use crate::response;
use crate::route;
use crate::route::{RoutedView, Site, WriteOutcome};

verus! {

/// What a connection meets outside itself.
pub struct Outside {
    /// How the attempt to store a URL ends where these are stored, and which
    /// are stored then.
    pub write: spec_fn(Seq<Seq<char>>, Seq<char>) -> (WriteOutcome, Seq<Seq<char>>),
    /// The uptime at each turn, in seconds.
    pub uptime: spec_fn(nat) -> u64,
}

/// Where a connection is when it needs more bytes, or closes.
pub struct Ended {
    pub served: Served,
    pub site: Site,
    pub turn: nat,
    /// All that was sent.
    pub sent: Seq<u8>,
    pub closed: bool,
}

/// The site at a turn.
pub open spec fn at_turn(site: Site, outside: Outside, turn: nat) -> Site {
    Site { uptime_s: (outside.uptime)(turn), ..site }
}

/// After what was to be sent was sent.
pub open spec fn emptied(s: Served) -> Served {
    Served { conn: ConnectionView { out: Seq::empty(), ..s.conn }, ..s }
}

/// After bytes were received.
pub open spec fn fed(s: Served, received: Seq<u8>) -> Served {
    Served { conn: ConnectionView { buf: s.conn.buf + received, ..s.conn }, ..s }
}

/// The connection has its turns until it needs more bytes or closes: URLs are
/// stored as it asks for that, and what is to be sent is sent otherwise.
pub open spec fn drive(
    s: Served,
    site: Site,
    outside: Outside,
    turn: nat,
    sent: Seq<u8>,
) -> Ended
    decreases s.conn.rest().len(), s.conn.processed,
    when s.conn.wf()
{
    proof {
        lemma_run_advances(s, at_turn(site, outside, turn));
    }
    let (t, action) = conn::run(s, at_turn(site, outside, turn));
    match action {
        ActionView::Write { url } => {
            let (outcome, urls) = (outside.write)(site.urls, url);
            drive(
                conn::after_write(t, site.public_base, outcome),
                Site { urls, ..site },
                outside,
                turn + 1,
                sent,
            )
        },
        ActionView::Yield => drive(emptied(t), site, outside, turn + 1, sent + t.conn.out),
        ActionView::Read { .. } => Ended {
            served: emptied(t),
            site,
            turn: turn + 1,
            sent: sent + t.conn.out,
            closed: false,
        },
        ActionView::Close => Ended {
            served: emptied(t),
            site,
            turn: turn + 1,
            sent: sent + t.conn.out,
            closed: true,
        },
    }
}

/// The connection from where it is, with the bytes that arrive after that, in
/// the pieces in which they arrive.
pub open spec fn serve(
    s: Served,
    site: Site,
    outside: Outside,
    turn: nat,
    sent: Seq<u8>,
    pieces: Seq<Seq<u8>>,
) -> Ended
    decreases pieces.len(),
{
    let e = drive(s, site, outside, turn, sent);
    if e.closed || pieces.len() == 0 {
        e
    } else {
        serve(
            fed(e.served, pieces.first()),
            e.site,
            outside,
            e.turn,
            e.sent,
            pieces.drop_first(),
        )
    }
}

/// A batch takes bytes from the front, or makes room for the next batch.
pub proof fn lemma_run_advances(s: Served, site: Site)
    requires
        s.conn.wf(),
    ensures
        ({
            let (t, action) = conn::run(s, site);
            &&& t.conn.wf()
            &&& t.conn.rest().len() <= s.conn.rest().len()
            &&& action is Write <==> t.conn.pending is Some
            &&& action is Yield ==> t.conn.processed == 0 && (t.conn.rest().len()
                < s.conn.rest().len() || s.conn.processed > 0)
        }),
    decreases MAX_BATCH - s.conn.processed,
{
    conn::law_batch_loses_nothing(s, site);
    if s.conn.pending is None && !s.conn.close && s.conn.processed < MAX_BATCH {
        reveal(conn::step);
        let rest = s.conn.rest();
        if bytes::find(rest, response::head_end()) is Some {
            conn::lemma_find_bounds(rest);
        }
        match conn::step(s, site) {
            Step::Next(next) => {
                conn::lemma_step_goes_on(s, site);
                lemma_run_advances(next, site);
            },
            Step::Stop(_, _) => {},
        }
    }
}

/// The answer to a request: its bytes, its status, and the URLs that are
/// stored then.
pub struct Answer {
    pub bytes: Seq<u8>,
    pub status: u16,
    pub urls: Seq<Seq<char>>,
}

/// The answer to a request with this head and body.
pub open spec fn answer(
    site: Site,
    counters: MetricsView,
    parsed: ParsedView,
    body: Seq<u8>,
    write: spec_fn(Seq<Seq<char>>, Seq<char>) -> (WriteOutcome, Seq<Seq<char>>),
) -> Answer {
    match route::routed(conn::counted(site, counters), parsed, body) {
        RoutedView::Replied(reply) => Answer {
            bytes: if parsed.method == encode_utf8("HEAD"@) {
                reply.head()
            } else {
                reply.bytes()
            },
            status: reply.status,
            urls: site.urls,
        },
        RoutedView::Write(url) => {
            let (outcome, urls) = write(site.urls, url);
            let reply = route::write_reply(site.public_base, url, outcome, parsed.close);
            Answer { bytes: reply.bytes(), status: reply.status, urls }
        },
    }
}

/// The turn after a request that was looked at in a turn: a write ends it.
pub open spec fn turn_after(
    site: Site,
    counters: MetricsView,
    parsed: ParsedView,
    body: Seq<u8>,
    turn: nat,
) -> nat {
    if route::routed(conn::counted(site, counters), parsed, body) is Write {
        turn + 1
    } else {
        turn
    }
}

/// The head that bytes begin with, and its length, where it is whole.
pub open spec fn first_head(b: Seq<u8>) -> Option<(int, Result<ParsedView, u16>)> {
    match bytes::find(b, response::head_end()) {
        None => if b.len() >= MAX_HEAD {
            Some((b.len() as int, Err(431)))
        } else {
            None
        },
        Some(at) => if at + 4 > MAX_HEAD {
            Some((at + 4, Err(431)))
        } else {
            Some((at + 4, head::parsed_head(b.take(at + 4))))
        },
    }
}

/// What becomes of the requests that bytes hold.
pub struct Account {
    pub sent: Seq<u8>,
    pub counters: MetricsView,
    pub urls: Seq<Seq<char>>,
    /// The bytes of a request that is not whole.
    pub rest: Seq<u8>,
    pub closed: bool,
}

pub proof fn lemma_first_head(b: Seq<u8>)
    ensures
        first_head(b) matches Some((n, h)) ==> 4 <= n <= b.len(),
{
    if bytes::find(b, response::head_end()) is Some {
        conn::lemma_find_bounds(b);
    }
}

/// The answers to the requests that bytes hold, one after the other.
pub open spec fn account(
    b: Seq<u8>,
    site: Site,
    counters: MetricsView,
    write: spec_fn(Seq<Seq<char>>, Seq<char>) -> (WriteOutcome, Seq<Seq<char>>),
) -> Account
    decreases b.len(),
{
    proof {
        lemma_first_head(b);
    }
    let idle = Account { sent: Seq::empty(), counters, urls: site.urls, rest: b, closed: false };
    match first_head(b) {
        None => idle,
        Some((_, Err(status))) => Account {
            sent: response::error_reply(status, true).bytes(),
            counters: counters.record(status),
            urls: site.urls,
            rest: b,
            closed: true,
        },
        Some((n, Ok(parsed))) => {
            let total = n + parsed.content_length;
            if b.len() < total {
                idle
            } else {
                let a = answer(site, counters, parsed, b.subrange(n, total), write);
                let after = counters.record(a.status);
                if parsed.close {
                    Account {
                        sent: a.bytes,
                        counters: after,
                        urls: a.urls,
                        rest: b.skip(total),
                        closed: true,
                    }
                } else {
                    let more = account(b.skip(total), Site { urls: a.urls, ..site }, after, write);
                    Account { sent: a.bytes + more.sent, ..more }
                }
            }
        },
    }
}

/// Whether every request that bytes begin, up to the one that ends the
/// connection, has a head with a property.
pub open spec fn all_heads(b: Seq<u8>, property: spec_fn(ParsedView) -> bool) -> bool
    decreases b.len(),
{
    proof {
        lemma_first_head(b);
    }
    match first_head(b) {
        Some((n, Ok(parsed))) => {
            let total = n + parsed.content_length;
            property(parsed) && (!parsed.close && total <= b.len() ==> all_heads(
                b.skip(total),
                property,
            ))
        },
        _ => true,
    }
}

/// Whether a request that is not whole, where there is one, does not wait to be
/// told to go on.
pub open spec fn waits_for_nothing(b: Seq<u8>) -> bool
    decreases b.len(),
{
    proof {
        lemma_first_head(b);
    }
    match first_head(b) {
        Some((n, Ok(parsed))) => {
            let total = n + parsed.content_length;
            if b.len() < total {
                !parsed.expect
            } else {
                parsed.close || waits_for_nothing(b.skip(total))
            }
        },
        _ => true,
    }
}

/// A request whose answer does not tell the uptime.
pub open spec fn timeless() -> spec_fn(ParsedView) -> bool {
    |parsed: ParsedView|
        !(route::is_get(parsed.method) && bytes::before(parsed.path, 63) == encode_utf8(
            "/api/metrics"@,
        ))
}

/// A request that does not ask to be told to go on.
pub open spec fn without_expect() -> spec_fn(ParsedView) -> bool {
    |parsed: ParsedView| !parsed.expect
}

/// Whether the uptime does not show in the answers: it does not change, or
/// none tells it.
pub open spec fn untimed(b: Seq<u8>, site: Site, outside: Outside) -> bool {
    ||| forall|turn: nat| #[trigger] (outside.uptime)(turn) == site.uptime_s
    ||| all_heads(b, timeless())
}

/// Without a whole request at the front the connection waits, or closes on what
/// it cannot serve.
proof fn lemma_run_stops(s: Served, site: Site)
    requires
        conn::is_ready(s.conn),
        s.conn.wf(),
    ensures
        match first_head(s.conn.rest()) {
            None => conn::run(s, site) == (
                Served { conn: s.conn.compacted(), ..s },
                ActionView::Read { progressed: s.conn.start > 0 },
            ),
            Some((_, Err(status))) => conn::run(s, site) == (s.refused(status), ActionView::Close),
            Some((n, Ok(parsed))) => s.conn.rest().len() < n + parsed.content_length
                && !parsed.expect ==> conn::run(s, site) == (
                Served { conn: s.conn.compacted(), ..s },
                ActionView::Read { progressed: s.conn.start > 0 },
            ),
        },
{
    reveal(conn::step);
}

/// Where the connection is once the request at the front is answered.
spec fn after_answer(s: Served, a: Answer, total: int, close: bool) -> Served {
    s.answered(a.bytes, a.status, total as nat, close)
}

/// A whole request at the front is answered, and the connection goes on from
/// there.
proof fn lemma_drive_answers(
    s: Served,
    site: Site,
    outside: Outside,
    turn: nat,
    sent: Seq<u8>,
    n: int,
    parsed: ParsedView,
) -> (then: nat)
    requires
        conn::is_ready(s.conn),
        s.conn.wf(),
        first_head(s.conn.rest()) == Some((n, Ok::<ParsedView, u16>(parsed))),
        n + parsed.content_length <= s.conn.rest().len(),
    ensures
        ({
            let total = n + parsed.content_length;
            let body = s.conn.rest().subrange(n, total);
            let now = at_turn(site, outside, turn);
            let a = answer(now, s.counters, parsed, body, outside.write);
            let next = after_answer(s, a, total, parsed.close);
            &&& then == turn_after(now, s.counters, parsed, body, turn)
            &&& next.conn.wf()
            &&& next.conn.rest() == s.conn.rest().skip(total)
            &&& drive(s, site, outside, turn, sent) == drive(
                next,
                Site { urls: a.urls, ..site },
                outside,
                then,
                sent,
            )
        }),
{
    let now = at_turn(site, outside, turn);
    let total = n + parsed.content_length;
    let body = s.conn.rest().subrange(n, total);
    let a = answer(now, s.counters, parsed, body, outside.write);
    let next = after_answer(s, a, total, parsed.close);
    lemma_first_head(s.conn.rest());
    assert(next.conn.rest() =~= s.conn.rest().skip(total));
    assert(Site { urls: site.urls, ..site } == site);
    match route::routed(conn::counted(now, s.counters), parsed, body) {
        RoutedView::Replied(reply) => {
            conn::law_answers_in_order(s, now, n, parsed, reply);
            assert(conn::run(s, now) == conn::run(next, now));
            turn
        },
        RoutedView::Write(url) => {
            let (outcome, urls) = (outside.write)(site.urls, url);
            conn::law_write_waits(s, now, n, parsed, url, outcome);
            turn + 1
        },
    }
}

/// The turns of a connection come to what the requests in its buffer do one
/// after the other.
proof fn lemma_drive(s: Served, site: Site, outside: Outside, turn: nat, sent: Seq<u8>)
    requires
        s.conn.wf(),
        s.conn.pending is None,
        !s.conn.close,
        waits_for_nothing(s.conn.rest()),
        untimed(s.conn.rest(), site, outside),
    ensures
        ({
            let e = drive(s, site, outside, turn, sent);
            let a = account(s.conn.rest(), site, s.counters, outside.write);
            &&& e.sent == sent + s.conn.out + a.sent
            &&& e.served.counters == a.counters
            &&& e.site == (Site { urls: a.urls, ..site })
            &&& e.closed == a.closed
            &&& e.served.conn.wf()
            &&& e.served.conn.out == Seq::<u8>::empty()
            &&& !a.closed ==> conn::is_ready(e.served.conn) && e.served.conn.rest() == a.rest
        }),
    decreases s.conn.rest().len(), s.conn.processed,
{
    let now = at_turn(site, outside, turn);
    let rest = s.conn.rest();
    let empty = Seq::<u8>::empty();
    lemma_first_head(rest);
    assert(Site { urls: site.urls, ..site } == site);
    assert(s.conn.compacted().rest() =~= rest);
    assert(sent + s.conn.out + empty =~= sent + s.conn.out);
    if s.conn.processed >= MAX_BATCH {
        let t = Served { conn: s.conn.compacted(), ..s };
        assert(conn::run(s, now) == (t, ActionView::Yield));
        assert(emptied(t).conn.rest() =~= rest);
        lemma_drive(emptied(t), site, outside, turn + 1, sent + s.conn.out);
    } else {
        lemma_run_stops(s, now);
        match first_head(rest) {
            None => {
                let t = Served { conn: s.conn.compacted(), ..s };
                assert(emptied(t).conn.rest() =~= rest);
            },
            Some((_, Err(status))) => {
                let reply = response::error_reply(status, true).bytes();
                assert(sent + (s.conn.out + reply) =~= sent + s.conn.out + reply);
            },
            Some((n, Ok(parsed))) => {
                let total = n + parsed.content_length;
                if rest.len() < total {
                    let t = Served { conn: s.conn.compacted(), ..s };
                    assert(emptied(t).conn.rest() =~= rest);
                } else {
                    let body = rest.subrange(n, total);
                    let a = answer(site, s.counters, parsed, body, outside.write);
                    assert(route::routed(conn::counted(now, s.counters), parsed, body)
                        == route::routed(conn::counted(site, s.counters), parsed, body)) by {
                        assert((outside.uptime)(turn) == site.uptime_s || timeless()(parsed));
                    }
                    let next = after_answer(s, a, total, parsed.close);
                    let then = lemma_drive_answers(s, site, outside, turn, sent, n, parsed);
                    let site2 = Site { urls: a.urls, ..site };
                    if parsed.close {
                        assert(conn::run(next, at_turn(site2, outside, then)) == (
                            next,
                            ActionView::Close,
                        ));
                        assert(sent + (s.conn.out + a.bytes) =~= sent + s.conn.out + a.bytes);
                    } else {
                        lemma_drive(next, site2, outside, then, sent);
                        let more = account(rest.skip(total), site2, next.counters, outside.write);
                        assert(sent + (s.conn.out + a.bytes) + more.sent =~= sent + s.conn.out + (
                        a.bytes + more.sent));
                    }
                }
            },
        }
    }
}

/// A head that is whole, or too long, stays so with more bytes behind it.
proof fn lemma_first_head_extends(b: Seq<u8>, more: Seq<u8>)
    requires
        first_head(b) is Some,
    ensures
        first_head(b) matches Some((n, Ok(parsed))) ==> first_head(b + more) == Some(
            (n, Ok::<ParsedView, u16>(parsed)),
        ),
        first_head(b) matches Some((_, Err(status))) ==> first_head(b + more) matches Some(
            (_, Err(other)),
        ) && other == status,
{
    if bytes::find(b, response::head_end()) is Some {
        conn::lemma_find_bounds(b);
        bytes::lemma_find_extends(b, more, response::head_end());
        let n = bytes::find(b, response::head_end()).unwrap() + 4;
        assert((b + more).take(n) =~= b.take(n));
    } else {
        conn::law_long_head_in_parts(b, more);
    }
}

/// What bytes come to, and then more of them, is what they come to together.
proof fn lemma_account_extends(
    b: Seq<u8>,
    more: Seq<u8>,
    site: Site,
    counters: MetricsView,
    write: spec_fn(Seq<Seq<char>>, Seq<char>) -> (WriteOutcome, Seq<Seq<char>>),
)
    ensures
        ({
            let first = account(b, site, counters, write);
            let all = account(b + more, site, counters, write);
            let then = account(
                first.rest + more,
                Site { urls: first.urls, ..site },
                first.counters,
                write,
            );
            &&& first.closed ==> all.sent == first.sent && all.counters == first.counters
                && all.urls == first.urls && all.closed
            &&& !first.closed ==> all == (Account { sent: first.sent + then.sent, ..then })
        }),
    decreases b.len(),
{
    let all = account(b + more, site, counters, write);
    lemma_first_head(b);
    assert(Site { urls: site.urls, ..site } == site);
    assert(Seq::<u8>::empty() + all.sent =~= all.sent);
    if first_head(b) is Some {
        lemma_first_head_extends(b, more);
        match first_head(b) {
            Some((n, Ok(parsed))) => {
                let total = n + parsed.content_length;
                if total <= b.len() {
                    assert((b + more).subrange(n, total) =~= b.subrange(n, total));
                    assert((b + more).skip(total) =~= b.skip(total) + more);
                    let a = answer(site, counters, parsed, b.subrange(n, total), write);
                    if !parsed.close {
                        let site2 = Site { urls: a.urls, ..site };
                        let after = counters.record(a.status);
                        lemma_account_extends(b.skip(total), more, site2, after, write);
                        let first = account(b.skip(total), site2, after, write);
                        let then = account(
                            first.rest + more,
                            Site { urls: first.urls, ..site2 },
                            first.counters,
                            write,
                        );
                        assert(a.bytes + (first.sent + then.sent) =~= a.bytes + first.sent
                            + then.sent);
                    }
                }
            },
            _ => {},
        }
    }
}

/// What holds of the requests that bytes begin, holds of those that a part of
/// them begins, and of those that follow.
proof fn lemma_all_heads_extends(
    b: Seq<u8>,
    more: Seq<u8>,
    property: spec_fn(ParsedView) -> bool,
    site: Site,
    counters: MetricsView,
    write: spec_fn(Seq<Seq<char>>, Seq<char>) -> (WriteOutcome, Seq<Seq<char>>),
)
    requires
        all_heads(b + more, property),
    ensures
        all_heads(b, property),
        ({
            let first = account(b, site, counters, write);
            !first.closed ==> all_heads(first.rest + more, property)
        }),
    decreases b.len(),
{
    lemma_first_head(b);
    lemma_first_head(b + more);
    if first_head(b) is Some {
        lemma_first_head_extends(b, more);
        match first_head(b) {
            Some((n, Ok(parsed))) => {
                let total = n + parsed.content_length;
                if total <= b.len() && !parsed.close {
                    assert((b + more).skip(total) =~= b.skip(total) + more);
                    let a = answer(site, counters, parsed, b.subrange(n, total), write);
                    lemma_all_heads_extends(
                        b.skip(total),
                        more,
                        property,
                        Site { urls: a.urls, ..site },
                        counters.record(a.status),
                        write,
                    );
                }
            },
            _ => {},
        }
    }
}

proof fn lemma_without_expect(b: Seq<u8>)
    requires
        all_heads(b, without_expect()),
    ensures
        waits_for_nothing(b),
    decreases b.len(),
{
    lemma_first_head(b);
    match first_head(b) {
        Some((n, Ok(parsed))) => {
            let total = n + parsed.content_length;
            if total <= b.len() && !parsed.close {
                lemma_without_expect(b.skip(total));
            }
        },
        _ => {},
    }
}

/// A connection comes to what its bytes hold, however they arrive: the answers
/// to the whole requests, one after the other, and the refusal of a head that
/// cannot be served; what is left of a request that is not whole is kept. No
/// request may ask to be told to go on, and none for the counters while the
/// uptime changes.
pub proof fn law_stream_comes_to_its_account(
    s: Served,
    site: Site,
    outside: Outside,
    turn: nat,
    sent: Seq<u8>,
    pieces: Seq<Seq<u8>>,
)
    requires
        s.conn.wf(),
        s.conn.pending is None,
        !s.conn.close,
        all_heads(s.conn.rest() + pieces.flatten(), without_expect()),
        untimed(s.conn.rest() + pieces.flatten(), site, outside),
    ensures
        ({
            let e = serve(s, site, outside, turn, sent, pieces);
            let a = account(s.conn.rest() + pieces.flatten(), site, s.counters, outside.write);
            &&& e.sent == sent + s.conn.out + a.sent
            &&& e.served.counters == a.counters
            &&& e.site == (Site { urls: a.urls, ..site })
            &&& e.closed == a.closed
            &&& e.served.conn.wf()
            &&& !a.closed ==> conn::is_ready(e.served.conn) && e.served.conn.rest() == a.rest
        }),
    decreases pieces.len(),
{
    let rest = s.conn.rest();
    let all = pieces.flatten();
    let first = account(rest, site, s.counters, outside.write);
    lemma_all_heads_extends(rest, all, without_expect(), site, s.counters, outside.write);
    lemma_without_expect(rest);
    if !(forall|t: nat| #[trigger] (outside.uptime)(t) == site.uptime_s) {
        lemma_all_heads_extends(rest, all, timeless(), site, s.counters, outside.write);
    }
    lemma_drive(s, site, outside, turn, sent);
    lemma_account_extends(rest, all, site, s.counters, outside.write);
    let e = drive(s, site, outside, turn, sent);
    if pieces.len() == 0 {
        assert(all =~= Seq::<u8>::empty());
        assert(rest + all =~= rest);
    } else if !e.closed {
        let tail = pieces.drop_first();
        assert(all =~= pieces.first() + tail.flatten());
        let next = fed(e.served, pieces.first());
        assert(next.conn.rest() =~= first.rest + pieces.first());
        assert(next.conn.rest() + tail.flatten() =~= first.rest + all);
        law_stream_comes_to_its_account(next, e.site, outside, e.turn, e.sent, tail);
        let then = account(first.rest + all, e.site, first.counters, outside.write);
        assert(sent + s.conn.out + first.sent + Seq::<u8>::empty() + then.sent =~= sent
            + s.conn.out + (first.sent + then.sent));
    }
}

/// How the bytes of a connection are cut into pieces does not show, as long as
/// no request asks to be told to go on and none asks for the counters while the
/// uptime changes: what is sent, what is stored and what is counted is the
/// same.
pub proof fn law_pieces_do_not_matter(
    s: Served,
    site: Site,
    one: Outside,
    other: Outside,
    pieces: Seq<Seq<u8>>,
    others: Seq<Seq<u8>>,
)
    requires
        s.conn.wf(),
        s.conn.pending is None,
        !s.conn.close,
        one.write == other.write,
        pieces.flatten() == others.flatten(),
        all_heads(s.conn.rest() + pieces.flatten(), without_expect()),
        untimed(s.conn.rest() + pieces.flatten(), site, one),
        untimed(s.conn.rest() + pieces.flatten(), site, other),
    ensures
        ({
            let a = serve(s, site, one, 0, Seq::empty(), pieces);
            let b = serve(s, site, other, 0, Seq::empty(), others);
            &&& a.sent == b.sent
            &&& a.site == b.site
            &&& a.served.counters == b.served.counters
            &&& a.closed == b.closed
        }),
{
    law_stream_comes_to_its_account(s, site, one, 0, Seq::empty(), pieces);
    law_stream_comes_to_its_account(s, site, other, 0, Seq::empty(), others);
}

/// The head and the length of the head of a whole request that is served.
pub open spec fn whole_request(r: Seq<u8>) -> Option<(int, ParsedView)> {
    match first_head(r) {
        Some((n, Ok(parsed))) => if r.len() == n + parsed.content_length {
            Some((n, parsed))
        } else {
            None
        },
        _ => None,
    }
}

/// Whether these are whole requests, of which none but the last asks to close.
pub open spec fn are_requests(requests: Seq<Seq<u8>>) -> bool {
    forall|i: int|
        0 <= i < requests.len() ==> (whole_request(#[trigger] requests[i]) matches Some((_, parsed))
            && (parsed.close ==> i == requests.len() - 1))
}

/// The answers to whole requests.
pub struct Answers {
    pub bytes: Seq<Seq<u8>>,
    pub statuses: Seq<u16>,
    /// The URLs that are stored then.
    pub urls: Seq<Seq<char>>,
}

/// The answers to whole requests, each given as the ones before left the
/// counters and the store, and at the uptime of its turn. A turn begins after a
/// write and after a full batch; so many requests of the batch were answered
/// before the first.
pub open spec fn answers_to(
    requests: Seq<Seq<u8>>,
    site: Site,
    counters: MetricsView,
    outside: Outside,
    turn: nat,
    processed: nat,
) -> Answers
    decreases requests.len(),
{
    if requests.len() == 0 {
        Answers { bytes: Seq::empty(), statuses: Seq::empty(), urls: site.urls }
    } else {
        let full = processed >= MAX_BATCH;
        let this = if full {
            turn + 1
        } else {
            turn
        };
        let before = if full {
            0
        } else {
            processed
        };
        let r = requests.first();
        let (n, parsed) = whole_request(r).unwrap();
        let now = at_turn(site, outside, this);
        let a = answer(now, counters, parsed, r.skip(n), outside.write);
        let more = answers_to(
            requests.drop_first(),
            Site { urls: a.urls, ..site },
            counters.record(a.status),
            outside,
            turn_after(now, counters, parsed, r.skip(n), this),
            before + 1,
        );
        Answers {
            bytes: seq![a.bytes] + more.bytes,
            statuses: seq![a.status] + more.statuses,
            urls: more.urls,
        }
    }
}

proof fn lemma_first_request(requests: Seq<Seq<u8>>)
    requires
        are_requests(requests),
        requests.len() > 0,
    ensures
        ({
            let r = requests.first();
            let (n, parsed) = whole_request(r).unwrap();
            let total = n + parsed.content_length;
            let all = requests.flatten();
            &&& 4 <= n <= total == r.len() <= all.len()
            &&& first_head(all) == Some((n, Ok::<ParsedView, u16>(parsed)))
            &&& all.subrange(n, total) == r.skip(n)
            &&& all.skip(total) == requests.drop_first().flatten()
            &&& parsed.close ==> requests.len() == 1
        }),
        are_requests(requests.drop_first()),
{
    let r = requests.first();
    let tail = requests.drop_first();
    let all = requests.flatten();
    assert(r == requests[0]);
    let (n, parsed) = whole_request(r).unwrap();
    let total = n + parsed.content_length;
    lemma_first_head(r);
    lemma_first_head_extends(r, tail.flatten());
    assert(all =~= r + tail.flatten());
    assert(all.subrange(n, total) =~= r.skip(n));
    assert(all.skip(total) =~= tail.flatten());
    assert forall|i: int| 0 <= i < tail.len() implies (whole_request(
        #[trigger] tail[i],
    ) matches Some((_, parsed)) && (parsed.close ==> i == tail.len() - 1)) by {
        assert(tail[i] == requests[i + 1]);
    }
}

/// The turns of a connection that has received whole requests come to their
/// answers.
proof fn lemma_drive_requests(
    s: Served,
    site: Site,
    outside: Outside,
    turn: nat,
    sent: Seq<u8>,
    requests: Seq<Seq<u8>>,
)
    requires
        s.conn.wf(),
        s.conn.pending is None,
        !s.conn.close,
        s.conn.rest() == requests.flatten(),
        are_requests(requests),
    ensures
        ({
            let e = drive(s, site, outside, turn, sent);
            let answers = answers_to(
                requests,
                site,
                s.counters,
                outside,
                turn,
                s.conn.processed,
            );
            &&& e.sent == sent + s.conn.out + answers.bytes.flatten()
            &&& answers.bytes.len() == requests.len()
            &&& e.served.counters == s.counters.record_all(answers.statuses)
            &&& answers.statuses.len() == requests.len()
            &&& e.site == (Site { urls: answers.urls, ..site })
            &&& e.closed == (requests.len() > 0 && whole_request(requests.last()).unwrap().1.close)
        }),
    decreases requests.len(), s.conn.processed,
{
    let now = at_turn(site, outside, turn);
    let rest = s.conn.rest();
    let empty = Seq::<u8>::empty();
    let answers = answers_to(requests, site, s.counters, outside, turn, s.conn.processed);
    let compacted = Served { conn: s.conn.compacted(), ..s };
    assert(Site { urls: site.urls, ..site } == site);
    assert(s.conn.compacted().rest() =~= rest);
    assert(sent + s.conn.out + empty =~= sent + s.conn.out);
    if s.conn.processed >= MAX_BATCH {
        assert(conn::run(s, now) == (compacted, ActionView::Yield));
        assert(emptied(compacted).conn.rest() =~= rest);
        lemma_drive_requests(
            emptied(compacted),
            site,
            outside,
            turn + 1,
            sent + s.conn.out,
            requests,
        );
    } else if requests.len() == 0 {
        assert(rest =~= empty);
        lemma_first_head(rest);
        lemma_run_stops(s, now);
        assert(answers.bytes.flatten() =~= empty);
    } else {
        let r = requests.first();
        let tail = requests.drop_first();
        let (n, parsed) = whole_request(r).unwrap();
        let total = n + parsed.content_length;
        lemma_first_request(requests);
        let a = answer(now, s.counters, parsed, r.skip(n), outside.write);
        let next = after_answer(s, a, total, parsed.close);
        let then = lemma_drive_answers(s, site, outside, turn, sent, n, parsed);
        let site2 = Site { urls: a.urls, ..site };
        let more = answers_to(
            tail,
            site2,
            next.counters,
            outside,
            then,
            next.conn.processed,
        );
        assert(answers.bytes.drop_first() =~= more.bytes);
        assert(answers.bytes.first() == a.bytes);
        assert(answers.bytes.flatten() =~= a.bytes + more.bytes.flatten());
        conn::lemma_record_first(s.counters, a.status, more.statuses);
        if parsed.close {
            assert(tail.len() == 0);
            assert(conn::run(next, at_turn(site2, outside, then)) == (next, ActionView::Close));
            assert(more.bytes.flatten() =~= empty);
            assert(sent + (s.conn.out + a.bytes) =~= sent + s.conn.out + (a.bytes
                + more.bytes.flatten()));
            assert(more.statuses =~= Seq::<u16>::empty());
        } else {
            lemma_drive_requests(next, site2, outside, then, sent, tail);
            assert(sent + (s.conn.out + a.bytes) + more.bytes.flatten() =~= sent + s.conn.out + (
            a.bytes + more.bytes.flatten()));
            if tail.len() > 0 {
                assert(tail.last() == requests.last());
            }
        }
    }
}

/// Requests that arrive back to back are answered in their order, one answer
/// each, however many batches they fill; nothing else is sent, and each status
/// is counted once. The connection closes if the last request asks for that.
pub proof fn law_pipelined_requests_are_answered(
    s: Served,
    site: Site,
    outside: Outside,
    requests: Seq<Seq<u8>>,
)
    requires
        s.conn.wf(),
        s.conn.pending is None,
        !s.conn.close,
        s.conn.rest() == requests.flatten(),
        are_requests(requests),
    ensures
        ({
            let e = drive(s, site, outside, 0, Seq::empty());
            let answers = answers_to(requests, site, s.counters, outside, 0, s.conn.processed);
            &&& e.sent == s.conn.out + answers.bytes.flatten()
            &&& answers.bytes.len() == requests.len()
            &&& e.served.counters == s.counters.record_all(answers.statuses)
            &&& answers.statuses.len() == requests.len()
            &&& e.site == (Site { urls: answers.urls, ..site })
            &&& e.closed == (requests.len() > 0 && whole_request(requests.last()).unwrap().1.close)
        }),
{
    lemma_drive_requests(s, site, outside, 0, Seq::empty(), requests);
    assert(Seq::<u8>::empty() + s.conn.out =~= s.conn.out);
}

} // verus!
