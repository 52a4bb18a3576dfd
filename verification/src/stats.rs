//! What became of the requests of a run.
use vstd::multiset::Multiset;
use vstd::prelude::*;
use vstd::utf8::encode_utf8;

use crate::base62;
use crate::boundary;
use crate::boundary::Histogram;
use crate::client;
use crate::client::{Response, ResponseView, ShortenedError};
use crate::text;

verus! {

/// The longest time that is told from longer ones, in microseconds: a day.
pub const MAX_MICROS: u64 = 86_400_000_000;

/// How a histogram was made: its bounds and its decimal digits.
pub struct Shape {
    pub low: u64,
    pub high: u64,
    pub digits: u8,
}

/// What a histogram of three digits keeps of a value: below 2048 the value,
/// above that its leading eleven binary digits.
pub open spec fn coarse(value: u64) -> u64
    decreases value,
{
    if value < 2048 {
        value
    } else {
        (2 * coarse(value / 2)) as u64
    }
}

/// Whether the pairs are the values with their counts, in ascending order,
/// each value as the greatest that cannot be told from it.
pub open spec fn lists_samples(pairs: Seq<(u64, u64)>, values: Multiset<u64>) -> bool {
    &&& forall|i: int, j: int| 0 <= i < j < pairs.len() ==> pairs[i].0 < pairs[j].0
    &&& forall|i: int|
        0 <= i < pairs.len() ==> (#[trigger] pairs[i]).1 > 0 && pairs[i].1 == values.count(
            coarse(pairs[i].0),
        )
    &&& forall|i: int, w: u64|
        0 <= i < pairs.len() && #[trigger] coarse(w) == coarse((#[trigger] pairs[i]).0) ==> w
            <= pairs[i].0
    &&& forall|v: u64|
        values.count(v) > 0 ==> exists|i: int|
            0 <= i < pairs.len() && coarse((#[trigger] pairs[i]).0) == v
}

/// How long something took, in microseconds, up to a day.
pub open spec fn clamped(micros: u128) -> u64 {
    if micros < MAX_MICROS {
        micros as u64
    } else {
        MAX_MICROS
    }
}

/// The counts of a run or of a part of it.
pub struct Stats {
    sent: u64,
    ok: u64,
    reads: u64,
    writes: u64,
    misses: u64,
    status: u64,
    mismatch: u64,
    errors: u64,
    lat: Histogram,
    lag: Histogram,
    created: Vec<(String, String)>,
    first_error: Option<String>,
}

pub struct StatsView {
    /// Requests that were attempted.
    pub sent: nat,
    /// Requests with the expected answer.
    pub ok: nat,
    /// Those that led to a URL.
    pub reads: nat,
    /// Those that stored a URL.
    pub writes: nat,
    /// Those for a code that there is not.
    pub misses: nat,
    /// Requests with an unexpected status.
    pub status: nat,
    /// Requests with an answer of the right status and the wrong contents.
    pub mismatch: nat,
    /// Requests without an answer.
    pub errors: nat,
    /// How long each batch took, in microseconds, as a histogram keeps it.
    pub lat: Multiset<u64>,
    /// How late each batch was sent, likewise.
    pub lag: Multiset<u64>,
    /// The codes and URLs that were stored.
    pub created: Seq<(Seq<char>, Seq<char>)>,
    pub first_error: Option<Seq<char>>,
}

/// The texts of a list of codes and URLs.
pub open spec fn pair_views(pairs: Seq<(String, String)>) -> Seq<(Seq<char>, Seq<char>)> {
    Seq::new(pairs.len(), |i: int| (pairs[i].0@, pairs[i].1@))
}

impl View for Stats {
    type V = StatsView;

    closed spec fn view(&self) -> StatsView {
        StatsView {
            sent: self.sent as nat,
            ok: self.ok as nat,
            reads: self.reads as nat,
            writes: self.writes as nat,
            misses: self.misses as nat,
            status: self.status as nat,
            mismatch: self.mismatch as nat,
            errors: self.errors as nat,
            lat: boundary::samples(self.lat),
            lag: boundary::samples(self.lag),
            created: pair_views(self.created@),
            first_error: text::optional(self.first_error),
        }
    }
}

impl StatsView {
    pub open spec fn zero() -> StatsView {
        StatsView {
            sent: 0,
            ok: 0,
            reads: 0,
            writes: 0,
            misses: 0,
            status: 0,
            mismatch: 0,
            errors: 0,
            lat: Multiset::empty(),
            lag: Multiset::empty(),
            created: Seq::empty(),
            first_error: None,
        }
    }

    /// The requests whose outcome is known.
    pub open spec fn decided(self) -> nat {
        self.ok + self.status + self.mismatch + self.errors
    }

    pub open spec fn wf(self) -> bool {
        &&& self.decided() <= self.sent <= u64::MAX
        &&& self.reads + self.writes + self.misses == self.ok
        &&& self.writes == self.created.len()
        &&& self.lat.len() <= self.lag.len() <= self.sent
        &&& forall|i: int|
            0 <= i < self.created.len() ==> base62::canonical(
                encode_utf8((#[trigger] self.created[i]).0),
            )
    }

    /// Only the first error is kept.
    pub open spec fn noted(self, e: Seq<char>) -> StatsView {
        match self.first_error {
            Some(_) => self,
            None => StatsView { first_error: Some(e), ..self },
        }
    }

    /// A batch of so many requests is sent, so late.
    pub open spec fn begun(self, count: nat, lag_us: u128) -> StatsView {
        StatsView {
            sent: self.sent + count,
            lag: self.lag.insert(coarse(clamped(lag_us))),
            ..self
        }
    }

    /// A batch is over, and took so long.
    pub open spec fn ended(self, took_us: u128) -> StatsView {
        StatsView { lat: self.lat.insert(coarse(clamped(took_us))), ..self }
    }

    /// The answer to a request that had to lead to the URL, or, without one,
    /// to nothing.
    pub open spec fn with_read(self, expected: Option<Seq<char>>, r: ResponseView) -> StatsView {
        match expected {
            Some(url) => if r.status != 302 {
                StatsView { status: self.status + 1, ..self }
            } else if r.location != url {
                StatsView { mismatch: self.mismatch + 1, ..self }
            } else {
                StatsView { ok: self.ok + 1, reads: self.reads + 1, ..self }
            },
            None => if r.status != 404 {
                StatsView { status: self.status + 1, ..self }
            } else {
                StatsView { ok: self.ok + 1, misses: self.misses + 1, ..self }
            },
        }
    }

    /// The answer to a request to store a URL.
    pub open spec fn with_write(self, url: Seq<char>, r: ResponseView) -> StatsView {
        match client::shortened_code(r, url) {
            Ok(code) => StatsView {
                ok: self.ok + 1,
                writes: self.writes + 1,
                created: self.created.push((code, url)),
                ..self
            },
            Err(ShortenedError::Status(status)) => (StatsView {
                status: self.status + 1,
                ..self
            }).noted(client::shortened_error_text(ShortenedError::Status(status))),
            Err(e) => (StatsView { mismatch: self.mismatch + 1, ..self }).noted(
                client::shortened_error_text(e),
            ),
        }
    }

    /// Every request without an outcome counts as an error.
    pub open spec fn settled(self) -> StatsView {
        StatsView {
            errors: (self.sent - self.ok - self.status - self.mismatch) as nat,
            ..self
        }
    }

    /// The counts of both.
    pub open spec fn merged(self, other: StatsView) -> StatsView {
        StatsView {
            sent: self.sent + other.sent,
            ok: self.ok + other.ok,
            reads: self.reads + other.reads,
            writes: self.writes + other.writes,
            misses: self.misses + other.misses,
            status: self.status + other.status,
            mismatch: self.mismatch + other.mismatch,
            errors: self.errors + other.errors,
            lat: self.lat.add(other.lat),
            lag: self.lag.add(other.lag),
            created: self.created + other.created,
            first_error: match self.first_error {
                Some(e) => Some(e),
                None => other.first_error,
            },
        }
    }
}

fn clamp(micros: u128) -> (res: u64)
    ensures
        res == clamped(micros),
        res <= MAX_MICROS,
{
    if micros < MAX_MICROS as u128 {
        micros as u64
    } else {
        MAX_MICROS
    }
}

/// An empty histogram of times up to a day.
fn histogram() -> (res: Histogram)
    ensures
        boundary::samples(res) == Multiset::<u64>::empty(),
        boundary::shape(res) == (Shape { low: 1, high: MAX_MICROS, digits: 3 }),
{
    let made = boundary::new_histogram(1, MAX_MICROS, 3);
    made.unwrap()
}

impl Stats {
    /// Whether the counts and the histograms fit together.
    pub closed spec fn wf(&self) -> bool {
        &&& self@.wf()
        &&& boundary::shape(self.lat) == (Shape { low: 1, high: MAX_MICROS, digits: 3 })
        &&& boundary::shape(self.lag) == (Shape { low: 1, high: MAX_MICROS, digits: 3 })
    }

    /// The counts before the first request.
    pub fn new() -> (res: Stats)
        ensures
            res.wf(),
            res@ == StatsView::zero(),
    {
        let res = Stats {
            sent: 0,
            ok: 0,
            reads: 0,
            writes: 0,
            misses: 0,
            status: 0,
            mismatch: 0,
            errors: 0,
            lat: histogram(),
            lag: histogram(),
            created: Vec::new(),
            first_error: None,
        };
        assert(res@.created =~= Seq::empty());
        res
    }

    /// What holds of the counts is seen in their view.
    pub proof fn lemma_wf(&self)
        requires
            self.wf(),
        ensures
            self@.wf(),
    {
    }

    /// Keeps the error, if it is the first.
    pub fn note(&mut self, e: &str)
        requires
            old(self).wf(),
        ensures
            final(self).wf(),
            final(self)@ == old(self)@.noted(e@),
    {
        if self.first_error.is_none() {
            self.first_error = Some(e.to_owned());
        }
    }

    /// Counts a batch that is sent.
    pub fn begin(&mut self, count: usize, lag_us: u128)
        requires
            old(self).wf(),
            0 < count,
            old(self)@.sent + count <= u64::MAX,
        ensures
            final(self).wf(),
            final(self)@ == old(self)@.begun(count as nat, lag_us),
    {
        self.sent = self.sent + count as u64;
        let _ = boundary::record_value(&mut self.lag, clamp(lag_us));
    }

    /// Counts a batch that is over.
    pub fn end(&mut self, took_us: u128)
        requires
            old(self).wf(),
            old(self)@.lat.len() < old(self)@.lag.len(),
        ensures
            final(self).wf(),
            final(self)@ == old(self)@.ended(took_us),
    {
        let _ = boundary::record_value(&mut self.lat, clamp(took_us));
    }

    /// Counts the answer to a request that had to lead to the URL, or,
    /// without one, to nothing.
    pub fn judge_read(&mut self, expected: Option<&str>, r: &Response)
        requires
            old(self).wf(),
            old(self)@.decided() < old(self)@.sent,
        ensures
            final(self).wf(),
            final(self)@ == old(self)@.with_read(
                match expected {
                    Some(url) => Some(url@),
                    None => None,
                },
                r@,
            ),
    {
        match expected {
            Some(url) => {
                if r.status != 302 {
                    self.status = self.status + 1;
                } else if !text::equal(r.location.as_str(), url) {
                    self.mismatch = self.mismatch + 1;
                } else {
                    self.ok = self.ok + 1;
                    self.reads = self.reads + 1;
                }
            },
            None => {
                if r.status != 404 {
                    self.status = self.status + 1;
                } else {
                    self.ok = self.ok + 1;
                    self.misses = self.misses + 1;
                }
            },
        }
    }

    /// Counts the answer to a request to store the URL.
    pub fn judge_write(&mut self, url: &str, r: &Response)
        requires
            old(self).wf(),
            old(self)@.decided() < old(self)@.sent,
        ensures
            final(self).wf(),
            final(self)@ == old(self)@.with_write(url@, r@),
    {
        match client::shortened(r, url) {
            Ok(code) => {
                self.ok = self.ok + 1;
                self.writes = self.writes + 1;
                self.created.push((code, url.to_owned()));
                assert(self@.created =~= old(self)@.created.push((code@, url@)));
            },
            Err(e) => {
                match e {
                    ShortenedError::Status(_) => {
                        self.status = self.status + 1;
                    },
                    _ => {
                        self.mismatch = self.mismatch + 1;
                    },
                }
                let text = client::describe_shortened(e);
                self.note(text.as_str());
            },
        }
    }

    /// Counts every request without an outcome as an error.
    pub fn settle(&mut self)
        requires
            old(self).wf(),
        ensures
            final(self).wf(),
            final(self)@ == old(self)@.settled(),
    {
        self.errors = self.sent - self.ok - self.status - self.mismatch;
    }

    /// Adds the counts of another part of the run.
    pub fn merge(&mut self, other: Stats)
        requires
            old(self).wf(),
            other.wf(),
            old(self)@.sent + other@.sent <= u64::MAX,
        ensures
            final(self).wf(),
            final(self)@ == old(self)@.merged(other@),
    {
        let ghost more = other@;
        let mut other = other;
        self.sent = self.sent + other.sent;
        self.ok = self.ok + other.ok;
        self.reads = self.reads + other.reads;
        self.writes = self.writes + other.writes;
        self.misses = self.misses + other.misses;
        self.status = self.status + other.status;
        self.mismatch = self.mismatch + other.mismatch;
        self.errors = self.errors + other.errors;
        let _ = boundary::add_histogram(&mut self.lat, &other.lat);
        let _ = boundary::add_histogram(&mut self.lag, &other.lag);
        self.created.append(&mut other.created);
        if self.first_error.is_none() {
            self.first_error = other.first_error;
        }
        assert(self@.created =~= old(self)@.created + more.created);
    }

    pub fn sent(&self) -> (res: u64)
        ensures
            res == self@.sent,
    {
        self.sent
    }

    pub fn ok(&self) -> (res: u64)
        ensures
            res == self@.ok,
    {
        self.ok
    }

    pub fn reads(&self) -> (res: u64)
        ensures
            res == self@.reads,
    {
        self.reads
    }

    pub fn writes(&self) -> (res: u64)
        ensures
            res == self@.writes,
    {
        self.writes
    }

    pub fn misses(&self) -> (res: u64)
        ensures
            res == self@.misses,
    {
        self.misses
    }

    pub fn status(&self) -> (res: u64)
        ensures
            res == self@.status,
    {
        self.status
    }

    pub fn mismatch(&self) -> (res: u64)
        ensures
            res == self@.mismatch,
    {
        self.mismatch
    }

    pub fn errors(&self) -> (res: u64)
        ensures
            res == self@.errors,
    {
        self.errors
    }

    /// The codes and URLs that were stored.
    pub fn created(&self) -> (res: &Vec<(String, String)>)
        ensures
            pair_views(res@) == self@.created,
    {
        &self.created
    }

    pub fn first_error(&self) -> (res: &Option<String>)
        ensures
            text::optional(*res) == self@.first_error,
    {
        &self.first_error
    }

    /// How long the batches took: times and how often each was taken.
    pub fn latencies(&self) -> (res: Vec<(u64, u64)>)
        requires
            self.wf(),
        ensures
            lists_samples(res@, self@.lat),
    {
        boundary::recorded_values(&self.lat)
    }

    /// How late the batches were sent: times and how often each was taken.
    pub fn lags(&self) -> (res: Vec<(u64, u64)>)
        requires
            self.wf(),
        ensures
            lists_samples(res@, self@.lag),
    {
        boundary::recorded_values(&self.lag)
    }
}

/// Whether every attempted request has exactly one outcome.
pub open spec fn accounted(s: StatsView) -> bool {
    s.ok + s.status + s.mismatch + s.errors == s.sent
}

/// Once settled, every attempted request has exactly one outcome, and the
/// parts of a run keep that when they are put together.
pub proof fn law_every_request_is_accounted(a: StatsView, b: StatsView)
    requires
        a.wf(),
        b.wf(),
    ensures
        accounted(a.settled()),
        accounted(a.settled().merged(b.settled())),
{
}

/// In what order the parts of a run are put together does not matter to the
/// counts and the times.
pub proof fn law_merge_commutes(a: StatsView, b: StatsView)
    ensures
        ({
            let ab = a.merged(b);
            let ba = b.merged(a);
            ba == (StatsView { created: ba.created, first_error: ba.first_error, ..ab })
        }),
{
    assert(a.lat.add(b.lat) =~= b.lat.add(a.lat));
    assert(a.lag.add(b.lag) =~= b.lag.add(a.lag));
}

/// The distance of the values that are told from each other near a value.
spec fn unit(value: u64) -> int
    decreases value,
{
    if value < 2048 {
        1
    } else {
        2 * unit(value / 2)
    }
}

proof fn lemma_unit(value: u64)
    ensures
        0 <= value - coarse(value) <= unit(value) - 1,
        value >= 1024 ==> 1024 * unit(value) <= coarse(value),
    decreases value,
{
    if value >= 2048 {
        lemma_unit(value / 2);
    }
}

/// A time is kept to one part in a thousand, and rounded down.
pub proof fn law_times_are_close(value: u64)
    ensures
        coarse(value) <= value,
        1000 * (value - coarse(value)) <= value,
{
    lemma_unit(value);
}

/// A time up to a day is kept as it is, and a longer one as a day.
pub proof fn law_times_are_kept(micros: u128)
    ensures
        micros <= 86_400_000_000 ==> clamped(micros) == micros,
        micros > 86_400_000_000 ==> clamped(micros) == 86_400_000_000,
{
}

/// The time that a batch took, or by which it was late, is in the histogram to
/// one part in a thousand, a longer one than a day as a day: one sample more, and
/// nothing else changes but the requests that are sent.
pub proof fn law_times_are_recorded(s: StatsView, count: nat, micros: u128)
    ensures
        ({
            let kept = if micros <= 86_400_000_000 {
                micros
            } else {
                86_400_000_000
            };
            let sample = coarse(kept as u64);
            &&& sample <= kept
            &&& 1000 * (kept - sample) <= kept
            &&& micros < 2048 ==> sample == micros
            &&& s.ended(micros) == (StatsView { lat: s.lat.insert(sample), ..s })
            &&& s.begun(count, micros) == (StatsView {
                sent: s.sent + count,
                lag: s.lag.insert(sample),
                ..s
            })
        }),
{
    law_times_are_kept(micros);
    law_times_are_close(clamped(micros));
}

/// A value is kept with its leading eleven binary digits, and zeros behind
/// them.
pub proof fn law_coarse(value: u64)
    ensures
        value < 2048 ==> coarse(value) == value,
        value >= 2048 ==> coarse(value) == 2 * coarse(value / 2),
{
    if value >= 2048 {
        law_times_are_close(value / 2);
    }
}

/// A read counts as right exactly if it was answered as it had to be: with the
/// URL as the location of a redirect, or as not found. Else the status, or the
/// location, was wrong. Nothing else changes.
pub proof fn law_reads_are_judged(s: StatsView, expected: Option<Seq<char>>, r: ResponseView)
    ensures
        ({
            let after = s.with_read(expected, r);
            let right = match expected {
                Some(url) => r.status == 302 && r.location == url,
                None => r.status == 404,
            };
            let answered = match expected {
                Some(_) => r.status == 302,
                None => r.status == 404,
            };
            after == (StatsView {
                ok: if right {
                    s.ok + 1
                } else {
                    s.ok
                },
                reads: if right && expected is Some {
                    s.reads + 1
                } else {
                    s.reads
                },
                misses: if right && expected is None {
                    s.misses + 1
                } else {
                    s.misses
                },
                status: if answered {
                    s.status
                } else {
                    s.status + 1
                },
                mismatch: if answered && !right {
                    s.mismatch + 1
                } else {
                    s.mismatch
                },
                ..s
            })
        }),
{
}

/// A write counts as right exactly if it was answered 201 with the URL and a
/// code; then both are kept. Any other status counts as such, and any other
/// answer as a mismatch; the first error is kept.
pub proof fn law_writes_are_judged(s: StatsView, url: Seq<char>, r: ResponseView)
    ensures
        ({
            let after = s.with_write(url, r);
            let code = boundary::json_member(r.body, "code"@);
            let right = r.status == 201 && boundary::json_member(r.body, "long_url"@) == Some(
                Some(url),
            ) && (code matches Some(Some(c)) && base62::canonical(encode_utf8(c)));
            &&& right ==> after == (StatsView {
                ok: s.ok + 1,
                writes: s.writes + 1,
                created: s.created.push((code.unwrap().unwrap(), url)),
                ..s
            })
            &&& r.status != 201 ==> after == (StatsView {
                status: s.status + 1,
                first_error: after.first_error,
                ..s
            })
            &&& r.status == 201 && !right ==> after == (StatsView {
                mismatch: s.mismatch + 1,
                first_error: after.first_error,
                ..s
            })
            &&& s.first_error is Some ==> after.first_error == s.first_error
            &&& !right && s.first_error is None ==> after.first_error == Some(
                if r.status != 201 {
                    "POST status "@ + text::decimal(r.status as nat)
                } else if code is None {
                    "invalid POST JSON"@
                } else if code == Some(None::<Seq<char>>) {
                    "missing code"@
                } else {
                    "POST mapping mismatch"@
                },
            )
        }),
{
}

/// Of all errors the first is kept.
pub proof fn law_first_error_is_kept(s: StatsView, e: Seq<char>, f: Seq<char>)
    ensures
        s.first_error is None ==> s.noted(e).first_error == Some(e),
        s.noted(e).noted(f) == s.noted(e),
        s.noted(e) == (StatsView { first_error: s.noted(e).first_error, ..s }),
{
}

/// Putting the parts of a run together adds each count, keeps every time and
/// every stored URL, and the first part's error before the other's.
pub proof fn law_parts_add_up(a: StatsView, b: StatsView, value: u64)
    ensures
        a.merged(b).sent == a.sent + b.sent,
        a.merged(b).ok == a.ok + b.ok,
        a.merged(b).reads == a.reads + b.reads,
        a.merged(b).writes == a.writes + b.writes,
        a.merged(b).misses == a.misses + b.misses,
        a.merged(b).status == a.status + b.status,
        a.merged(b).mismatch == a.mismatch + b.mismatch,
        a.merged(b).errors == a.errors + b.errors,
        a.merged(b).lat.count(value) == a.lat.count(value) + b.lat.count(value),
        a.merged(b).lag.count(value) == a.lag.count(value) + b.lag.count(value),
        a.merged(b).created == a.created + b.created,
        a.first_error is Some ==> a.merged(b).first_error == a.first_error,
        a.first_error is None ==> a.merged(b).first_error == b.first_error,
        a.settled() == (StatsView { errors: a.settled().errors, ..a }),
        StatsView::zero().merged(b) == (StatsView {
            lat: StatsView::zero().merged(b).lat,
            lag: StatsView::zero().merged(b).lag,
            created: StatsView::zero().merged(b).created,
            ..b
        }),
{
}

/// Before the first request nothing is counted and nothing is kept.
pub proof fn law_counts_begin_at_zero()
    ensures
        ({
            let s = StatsView::zero();
            &&& s.sent == 0 && s.ok == 0 && s.reads == 0 && s.writes == 0 && s.misses == 0
            &&& s.status == 0 && s.mismatch == 0 && s.errors == 0
            &&& s.lat.len() == 0 && s.lag.len() == 0
            &&& s.created.len() == 0 && s.first_error is None
        }),
{
}

/// The requests without an outcome become errors.
pub proof fn law_the_rest_are_errors(s: StatsView)
    requires
        s.ok + s.status + s.mismatch <= s.sent,
    ensures
        s.settled().errors + s.ok + s.status + s.mismatch == s.sent,
        s.decided() == s.ok + s.status + s.mismatch + s.errors,
{
}

/// Codes and URLs are seen as they are.
pub proof fn law_pair_views(pairs: Seq<(String, String)>, i: int)
    requires
        0 <= i < pairs.len(),
    ensures
        pair_views(pairs).len() == pairs.len(),
        pair_views(pairs)[i] == (pairs[i].0@, pairs[i].1@),
{
}

/// Each value that was kept is listed once, with the number of times it was.
pub proof fn law_samples_are_listed(pairs: Seq<(u64, u64)>, values: Multiset<u64>, v: u64)
    requires
        lists_samples(pairs, values),
        values.count(v) > 0,
    ensures
        exists|i: int|
            0 <= i < pairs.len() && coarse((#[trigger] pairs[i]).0) == v && pairs[i].1
                == values.count(v),
        forall|i: int, j: int|
            0 <= i < pairs.len() && 0 <= j < pairs.len() && coarse((#[trigger] pairs[i]).0) == v
                && coarse((#[trigger] pairs[j]).0) == v ==> i == j,
{
    assert forall|i: int, j: int|
        0 <= i < pairs.len() && 0 <= j < pairs.len() && coarse((#[trigger] pairs[i]).0) == v
            && coarse((#[trigger] pairs[j]).0) == v implies i == j by {
        assert(pairs[i].0 <= pairs[j].0);
        assert(pairs[j].0 <= pairs[i].0);
    }
}

} // verus!
