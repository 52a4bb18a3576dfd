//! Cumulative counters of what the server answered.
use vstd::prelude::*;
use vstd::string::StringExecFns;

use crate::boundary;
use crate::store::Store;
use crate::text;

verus! {

/// Counters since the start. They wrap around at 64 bits.
pub struct Metrics {
    requests: u64,
    redirects: u64,
    writes: u64,
    errors_4xx: u64,
    errors_5xx: u64,
    started: std::time::Instant,
    started_unix: u64,
}

pub struct MetricsView {
    pub requests: u64,
    pub redirects: u64,
    pub writes: u64,
    pub errors_4xx: u64,
    pub errors_5xx: u64,
    /// The moment from which the uptime counts.
    pub started: std::time::Instant,
    pub started_unix: u64,
}

impl View for Metrics {
    type V = MetricsView;

    closed spec fn view(&self) -> MetricsView {
        MetricsView {
            requests: self.requests,
            redirects: self.redirects,
            writes: self.writes,
            errors_4xx: self.errors_4xx,
            errors_5xx: self.errors_5xx,
            started: self.started,
            started_unix: self.started_unix,
        }
    }
}

/// Whether so many whole seconds are what the clock may give as the time since
/// the start.
pub open spec fn is_uptime(started: std::time::Instant, uptime_s: u64) -> bool {
    exists|span: std::time::Duration|
        #[trigger] call_ensures(std::time::Instant::elapsed, (&started,), span) && call_ensures(
            std::time::Duration::as_secs,
            (&span,),
            uptime_s,
        )
}

/// Whether a time is so many whole seconds after the Unix epoch, or before it
/// and the number is zero.
pub closed spec fn is_unix_time(time: std::time::SystemTime, seconds: u64) -> bool {
    exists|span: Result<std::time::Duration, std::time::SystemTimeError>|
        #[trigger] call_ensures(boundary::since_epoch, (time,), span) && match span {
            Ok(d) => call_ensures(std::time::Duration::as_secs, (&d,), seconds),
            Err(_) => seconds == 0,
        }
}

impl MetricsView {
    /// Whether the start is what the two clocks may give as now.
    pub open spec fn starts_now(self) -> bool {
        &&& call_ensures(std::time::Instant::now, (), self.started)
        &&& exists|now: std::time::SystemTime|
            #[trigger] call_ensures(std::time::SystemTime::now, (), now) && is_unix_time(
                now,
                self.started_unix,
            )
    }

    /// No request yet.
    pub open spec fn zero(started: std::time::Instant, started_unix: u64) -> MetricsView {
        MetricsView {
            requests: 0,
            redirects: 0,
            writes: 0,
            errors_4xx: 0,
            errors_5xx: 0,
            started,
            started_unix,
        }
    }

    /// One more request, answered with the status.
    pub open spec fn record(self, status: u16) -> MetricsView {
        MetricsView {
            requests: self.requests.wrapping_add(1),
            redirects: if status == 302 {
                self.redirects.wrapping_add(1)
            } else {
                self.redirects
            },
            writes: if status == 201 {
                self.writes.wrapping_add(1)
            } else {
                self.writes
            },
            errors_4xx: if 400 <= status <= 499 {
                self.errors_4xx.wrapping_add(1)
            } else {
                self.errors_4xx
            },
            errors_5xx: if 500 <= status <= 599 {
                self.errors_5xx.wrapping_add(1)
            } else {
                self.errors_5xx
            },
            started: self.started,
            started_unix: self.started_unix,
        }
    }

    /// A request for each of the statuses, in turn.
    pub open spec fn record_all(self, statuses: Seq<u16>) -> MetricsView
        decreases statuses.len(),
    {
        if statuses.len() == 0 {
            self
        } else {
            self.record_all(statuses.drop_last()).record(statuses.last())
        }
    }

    /// The JSON that reports the counters.
    pub open spec fn json(self, uptime_s: u64, urls: nat, capacity: nat) -> Seq<char> {
        "{\"uptime_s\":"@ + text::decimal(uptime_s as nat) + ",\"started_unix\":"@ + text::decimal(
            self.started_unix as nat,
        ) + ",\"requests\":"@ + text::decimal(self.requests as nat) + ",\"redirects\":"@
            + text::decimal(self.redirects as nat) + ",\"writes\":"@ + text::decimal(
            self.writes as nat,
        ) + ",\"errors_4xx\":"@ + text::decimal(self.errors_4xx as nat) + ",\"errors_5xx\":"@
            + text::decimal(self.errors_5xx as nat) + ",\"urls\":"@ + text::decimal(urls)
            + ",\"capacity\":"@ + text::decimal(capacity) + "}"@
    }
}

impl Metrics {
    /// Counters at zero for a server started at the given moment, which is
    /// so many seconds after the epoch (`None`: before it).
    pub fn starting_at(started: std::time::Instant, since_epoch_s: Option<u64>) -> (res: Metrics)
        ensures
            res@ == MetricsView::zero(
                started,
                match since_epoch_s {
                    Some(s) => s,
                    None => 0,
                },
            ),
    {
        Metrics {
            requests: 0,
            redirects: 0,
            writes: 0,
            errors_4xx: 0,
            errors_5xx: 0,
            started,
            started_unix: match since_epoch_s {
                Some(s) => s,
                None => 0,
            },
        }
    }

    /// Counters at zero for a server started now.
    pub fn new() -> (res: Metrics)
        ensures
            res@ == MetricsView::zero(res@.started, res@.started_unix),
            res@.starts_now(),
    {
        // Called as values, because only then is it known which call gave what.
        let read_clock = std::time::Instant::now;
        let read_calendar = std::time::SystemTime::now;
        let since_epoch = boundary::since_epoch;
        let as_secs = std::time::Duration::as_secs;
        let time = read_calendar();
        let since_epoch_s = match since_epoch(time) {
            Ok(span) => Some(as_secs(&span)),
            Err(_) => None,
        };
        Metrics::starting_at(read_clock(), since_epoch_s)
    }

    /// Counts a request that was answered with the status.
    pub fn record(&mut self, status: u16)
        ensures
            final(self)@ == old(self)@.record(status),
    {
        self.requests = self.requests.wrapping_add(1);
        if status == 302 {
            self.redirects = self.redirects.wrapping_add(1);
        } else if status == 201 {
            self.writes = self.writes.wrapping_add(1);
        } else if 400 <= status && status <= 499 {
            self.errors_4xx = self.errors_4xx.wrapping_add(1);
        } else if 500 <= status && status <= 599 {
            self.errors_5xx = self.errors_5xx.wrapping_add(1);
        }
    }

    /// Whole seconds since the start.
    pub fn uptime_s(&self) -> (res: u64)
        ensures
            is_uptime(self@.started, res),
    {
        // Called as values, because only then is it known which call gave what.
        let elapsed = std::time::Instant::elapsed;
        let as_secs = std::time::Duration::as_secs;
        let span = elapsed(&self.started);
        assert(call_ensures(std::time::Instant::elapsed, (&self@.started,), span));
        as_secs(&span)
    }

    /// The report after so many seconds.
    pub fn snapshot_at(&self, uptime_s: u64, store: &Store) -> (res: String)
        requires
            store.wf(),
        ensures
            res@ == self@.json(uptime_s, store@.len(), store.spec_capacity() as nat),
    {
        let mut out = String::new();
        out.append("{\"uptime_s\":");
        text::append_decimal(&mut out, uptime_s);
        out.append(",\"started_unix\":");
        text::append_decimal(&mut out, self.started_unix);
        out.append(",\"requests\":");
        text::append_decimal(&mut out, self.requests);
        out.append(",\"redirects\":");
        text::append_decimal(&mut out, self.redirects);
        out.append(",\"writes\":");
        text::append_decimal(&mut out, self.writes);
        out.append(",\"errors_4xx\":");
        text::append_decimal(&mut out, self.errors_4xx);
        out.append(",\"errors_5xx\":");
        text::append_decimal(&mut out, self.errors_5xx);
        out.append(",\"urls\":");
        text::append_decimal(&mut out, store.len() as u64);
        out.append(",\"capacity\":");
        text::append_decimal(&mut out, store.capacity() as u64);
        out.append("}");
        assert(out@ =~= self@.json(uptime_s, store@.len(), store.spec_capacity() as nat));
        out
    }

    /// The report now.
    pub fn snapshot(&self, store: &Store) -> (res: String)
        requires
            store.wf(),
        ensures
            exists|uptime_s: u64|
                is_uptime(self@.started, uptime_s) && res@ == #[trigger] self@.json(
                    uptime_s,
                    store@.len(),
                    store.spec_capacity() as nat,
                ),
    {
        let uptime_s = self.uptime_s();
        self.snapshot_at(uptime_s, store)
    }
}

impl Default for Metrics {
    fn default() -> (res: Metrics)
        ensures
            res@ == MetricsView::zero(res@.started, res@.started_unix),
            res@.starts_now(),
    {
        Metrics::new()
    }
}

/// The statuses that a counter counts.
pub open spec fn tally(statuses: Seq<u16>, low: int, high: int) -> nat {
    statuses.filter(|s: u16| low <= s <= high).len()
}

proof fn lemma_tally_step(statuses: Seq<u16>, low: int, high: int)
    requires
        statuses.len() > 0,
    ensures
        tally(statuses, low, high) == tally(statuses.drop_last(), low, high) + if low
            <= statuses.last() <= high {
            1nat
        } else {
            0nat
        },
        tally(statuses, low, high) <= statuses.len(),
    decreases statuses.len(),
{
    reveal(Seq::filter);
    if statuses.len() > 1 {
        lemma_tally_step(statuses.drop_last(), low, high);
    } else {
        assert(statuses.drop_last() =~= Seq::<u16>::empty());
    }
}

/// Until they wrap around, the counters are the numbers of requests with the
/// statuses they stand for, and all requests.
pub proof fn law_counters_count(
    started: std::time::Instant,
    started_unix: u64,
    statuses: Seq<u16>,
)
    requires
        statuses.len() <= u64::MAX,
    ensures
        ({
            let m = MetricsView::zero(started, started_unix).record_all(statuses);
            &&& m.requests == statuses.len()
            &&& m.redirects == tally(statuses, 302, 302)
            &&& m.writes == tally(statuses, 201, 201)
            &&& m.errors_4xx == tally(statuses, 400, 499)
            &&& m.errors_5xx == tally(statuses, 500, 599)
            &&& m.started == started
            &&& m.started_unix == started_unix
        }),
    decreases statuses.len(),
{
    reveal(Seq::filter);
    if statuses.len() > 0 {
        law_counters_count(started, started_unix, statuses.drop_last());
        lemma_tally_step(statuses, 302, 302);
        lemma_tally_step(statuses, 201, 201);
        lemma_tally_step(statuses, 400, 499);
        lemma_tally_step(statuses, 500, 599);
    }
}

/// A member of a JSON object, with a number.
pub open spec fn member(name: Seq<char>, n: nat) -> Seq<char> {
    seq!['"'] + name + seq!['"', ':'] + text::decimal(n)
}

/// The report is the JSON object of these members, and each tells its counter.
pub proof fn law_report_tells_each_counter(
    m: MetricsView,
    uptime_s: u64,
    urls: nat,
    capacity: nat,
)
    ensures
        m.json(uptime_s, urls, capacity) == seq!['{'] + member("uptime_s"@, uptime_s as nat)
            + seq![','] + member("started_unix"@, m.started_unix as nat) + seq![','] + member(
            "requests"@,
            m.requests as nat,
        ) + seq![','] + member("redirects"@, m.redirects as nat) + seq![','] + member(
            "writes"@,
            m.writes as nat,
        ) + seq![','] + member("errors_4xx"@, m.errors_4xx as nat) + seq![','] + member(
            "errors_5xx"@,
            m.errors_5xx as nat,
        ) + seq![','] + member("urls"@, urls) + seq![','] + member("capacity"@, capacity) + seq![
            '}',
        ],
{
    reveal_strlit("}");
    reveal_strlit("{\"uptime_s\":");
    reveal_strlit(",\"started_unix\":");
    reveal_strlit(",\"requests\":");
    reveal_strlit(",\"redirects\":");
    reveal_strlit(",\"writes\":");
    reveal_strlit(",\"errors_4xx\":");
    reveal_strlit(",\"errors_5xx\":");
    reveal_strlit(",\"urls\":");
    reveal_strlit(",\"capacity\":");
    reveal_strlit("uptime_s");
    reveal_strlit("started_unix");
    reveal_strlit("requests");
    reveal_strlit("redirects");
    reveal_strlit("writes");
    reveal_strlit("errors_4xx");
    reveal_strlit("errors_5xx");
    reveal_strlit("urls");
    reveal_strlit("capacity");
    let p0 = "{\"uptime_s\":"@ + text::decimal(uptime_s as nat);
    assert(p0 =~= seq!['{'] + member("uptime_s"@, uptime_s as nat));
    let p1 = lemma_member(p0, ",\"started_unix\":"@, "started_unix"@, m.started_unix as nat);
    let p2 = lemma_member(p1, ",\"requests\":"@, "requests"@, m.requests as nat);
    let p3 = lemma_member(p2, ",\"redirects\":"@, "redirects"@, m.redirects as nat);
    let p4 = lemma_member(p3, ",\"writes\":"@, "writes"@, m.writes as nat);
    let p5 = lemma_member(p4, ",\"errors_4xx\":"@, "errors_4xx"@, m.errors_4xx as nat);
    let p6 = lemma_member(p5, ",\"errors_5xx\":"@, "errors_5xx"@, m.errors_5xx as nat);
    let p7 = lemma_member(p6, ",\"urls\":"@, "urls"@, urls);
    let p8 = lemma_member(p7, ",\"capacity\":"@, "capacity"@, capacity);
    assert("}"@ =~= seq!['}']);
}

proof fn lemma_member(before: Seq<char>, lead: Seq<char>, name: Seq<char>, n: nat) -> (after: Seq<
    char,
>)
    requires
        lead =~= seq![',', '"'] + name + seq!['"', ':'],
    ensures
        after == before + lead + text::decimal(n),
        after == before + seq![','] + member(name, n),
{
    assert(before + lead + text::decimal(n) =~= before + seq![','] + member(name, n));
    before + lead + text::decimal(n)
}

/// Every answer counts as a request, and by its status as a redirect, a write, an
/// error of the client, an error of the server, or as none of them. A counter that
/// is at its end begins again at zero.
pub proof fn law_counters_wrap(m: MetricsView, status: u16)
    ensures
        ({
            let n = m.record(status);
            let more = |counter: u64, counted: bool|
                if counted {
                    (counter + 1) % 0x1_0000_0000_0000_0000
                } else {
                    counter as int
                };
            &&& n.requests == more(m.requests, true)
            &&& n.redirects == more(m.redirects, status == 302)
            &&& n.writes == more(m.writes, status == 201)
            &&& n.errors_4xx == more(m.errors_4xx, 400 <= status < 500)
            &&& n.errors_5xx == more(m.errors_5xx, 500 <= status < 600)
            &&& n.started == m.started
            &&& n.started_unix == m.started_unix
        }),
{
}

/// Counters begin at zero.
pub proof fn law_counters_begin(started: std::time::Instant, started_unix: u64)
    ensures
        ({
            let m = MetricsView::zero(started, started_unix);
            &&& m.requests == 0 && m.redirects == 0 && m.writes == 0
            &&& m.errors_4xx == 0 && m.errors_5xx == 0
            &&& m.started == started
            &&& m.started_unix == started_unix
        }),
{
}

/// The uptime is the whole seconds of what the clock gives as the time since the
/// start.
pub proof fn law_uptime(started: std::time::Instant, uptime_s: u64)
    ensures
        is_uptime(started, uptime_s) <==> exists|span: std::time::Duration|
            #[trigger] call_ensures(std::time::Instant::elapsed, (&started,), span)
                && call_ensures(std::time::Duration::as_secs, (&span,), uptime_s),
{
}

/// The start is what the clock gives as now, and its seconds since the epoch are
/// those of what the calendar gives as now, and zero before the epoch.
pub proof fn law_start(m: MetricsView)
    requires
        m.starts_now(),
    ensures
        call_ensures(std::time::Instant::now, (), m.started),
        exists|now: std::time::SystemTime|
            #[trigger] call_ensures(std::time::SystemTime::now, (), now) && is_unix_time(
                now,
                m.started_unix,
            ),
        forall|time: std::time::SystemTime, seconds: u64|
            #[trigger] is_unix_time(time, seconds) ==> seconds == 0 || exists|
                span: std::time::Duration,
            |
                #[trigger] call_ensures(std::time::Duration::as_secs, (&span,), seconds),
{
}

} // verus!
