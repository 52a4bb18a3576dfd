//! What is checked after a run, and whether it passes.
use vstd::prelude::*;
use vstd::utf8::encode_utf8;

use crate::bytes;
use crate::client;
use crate::client::{Response, ResponseView};
use crate::codes::CodeSet;
use crate::stats;
use crate::stats::{Stats, StatsView};
use crate::text;
use crate::workload::{Pool, PoolView};

verus! {

/// What a check found.
#[derive(Clone, Copy)]
pub enum VerifyError {
    /// A code was given out twice.
    Duplicate,
    /// A code did not lead to the URL that was stored under it.
    Redirect,
    /// A code does not lead any more to the URL that it led to.
    Changed,
}

pub open spec fn verify_error_text(e: VerifyError) -> Seq<char> {
    match e {
        VerifyError::Duplicate => "duplicate code across writes"@,
        VerifyError::Redirect => "post-run redirect mismatch"@,
        VerifyError::Changed => "seed mapping changed during run"@,
    }
}

/// What a check found, in words.
pub fn describe(e: VerifyError) -> (res: &'static str)
    ensures
        res@ == verify_error_text(e),
{
    match e {
        VerifyError::Duplicate => "duplicate code across writes",
        VerifyError::Redirect => "post-run redirect mismatch",
        VerifyError::Changed => "seed mapping changed during run",
    }
}

/// A request, and the URL that the answer has to lead to.
pub struct Check {
    request: Vec<u8>,
    url: String,
    /// Whether the run began with the URL.
    seed: bool,
}

pub struct CheckView {
    pub request: Seq<u8>,
    pub url: Seq<char>,
    pub seed: bool,
}

impl View for Check {
    type V = CheckView;

    closed spec fn view(&self) -> CheckView {
        CheckView { request: self.request@, url: self.url@, seed: self.seed }
    }
}

impl CheckView {
    /// What an answer shows, if it is not the expected one.
    pub open spec fn problem(self, r: ResponseView) -> Option<VerifyError> {
        if r.status == 302 && r.location == self.url {
            None
        } else if self.seed {
            Some(VerifyError::Changed)
        } else {
            Some(VerifyError::Redirect)
        }
    }
}

impl Check {
    pub fn request(&self) -> (res: &[u8])
        ensures
            res@ == self@.request,
    {
        self.request.as_slice()
    }

    /// Decides on the answer.
    pub fn judge(&self, r: &Response) -> (res: Result<(), VerifyError>)
        ensures
            match res {
                Ok(_) => self@.problem(r@) is None,
                Err(e) => self@.problem(r@) == Some(e),
            },
    {
        if r.status == 302 && text::equal(r.location.as_str(), self.url.as_str()) {
            Ok(())
        } else if self.seed {
            Err(VerifyError::Changed)
        } else {
            Err(VerifyError::Redirect)
        }
    }
}

/// Whether one of the first `n` stored URLs has the code.
pub open spec fn was_created(
    created: Seq<(Seq<char>, Seq<char>)>,
    n: int,
    code: Seq<char>,
) -> bool {
    exists|i: int| 0 <= i < n && i < created.len() && (#[trigger] created[i]).0 == code
}

/// The `k`-th check: first every URL that the run stored, then every one that
/// it began with. A code that was there before is found without a request.
pub open spec fn check(
    pool: PoolView,
    created: Seq<(Seq<char>, Seq<char>)>,
    k: nat,
) -> Result<Option<CheckView>, VerifyError> {
    if k < created.len() {
        let (code, url) = created[k as int];
        if pool.has_code(code) || was_created(created, k as int, code) {
            Err(VerifyError::Duplicate)
        } else {
            Ok(
                Some(
                    CheckView {
                        request: client::code_request(pool.authority, code),
                        url,
                        seed: false,
                    },
                ),
            )
        }
    } else if k < created.len() + pool.seeds.len() {
        let i = k - created.len();
        Ok(Some(CheckView { request: pool.request(i), url: pool.seeds[i].url, seed: true }))
    } else {
        Ok(None)
    }
}

/// How far the checks after a run are.
pub struct Verification {
    codes: CodeSet,
    stored: usize,
    seeds: usize,
}

impl View for Verification {
    type V = nat;

    /// The checks that were given out.
    closed spec fn view(&self) -> nat {
        self.stored as nat + self.seeds as nat
    }
}

impl Verification {
    /// Whether the checks are those of a run that began with the pool and
    /// stored the URLs.
    pub closed spec fn of(&self, pool: PoolView, created: Seq<(Seq<char>, Seq<char>)>) -> bool {
        &&& forall|code: Seq<char>|
            self.codes@.contains(#[trigger] encode_utf8(code)) <==> pool.has_code(code)
                || was_created(created, self.stored as int, code)
        &&& self.stored <= created.len()
        &&& self.seeds <= pool.seeds.len()
        &&& self.seeds > 0 ==> self.stored == created.len()
    }

    /// The checks of a run.
    pub fn new(pool: &Pool, stats: &Stats) -> (res: Verification)
        requires
            pool.wf(),
        ensures
            res.of(pool@, stats@.created),
            res@ == 0,
    {
        proof {
            pool.lemma_wf();
        }
        let mut codes = CodeSet::new();
        let mut i: usize = 0;
        while i < pool.len()
            invariant
                pool.wf(),
                pool@.wf(),
                i <= pool@.seeds.len(),
                forall|code: Seq<char>|
                    codes@.contains(#[trigger] encode_utf8(code)) <==> exists|j: int|
                        0 <= j < i && (#[trigger] pool@.seeds[j]).code == code,
            decreases pool@.seeds.len() - i,
        {
            let ghost before = codes@;
            let ghost added = pool@.seeds[i as int].code;
            codes.insert(pool.code(i));
            proof {
                assert forall|code: Seq<char>|
                    codes@.contains(#[trigger] encode_utf8(code)) <==> exists|j: int|
                        0 <= j < i + 1 && (#[trigger] pool@.seeds[j]).code == code by {
                    if encode_utf8(code) == encode_utf8(added) {
                        text::lemma_utf8_injective(code, added);
                        assert(pool@.seeds[i as int].code == code);
                    }
                    assert(before.contains(encode_utf8(code)) <==> exists|j: int|
                        0 <= j < i && (#[trigger] pool@.seeds[j]).code == code);
                }
            }
            i += 1;
        }
        let res = Verification { codes, stored: 0, seeds: 0 };
        assert forall|code: Seq<char>|
            res.codes@.contains(#[trigger] encode_utf8(code)) <==> pool@.has_code(code)
                || was_created(stats@.created, 0, code) by {}
        res
    }

    /// The next check, if there is one.
    pub fn next(&mut self, pool: &Pool, stats: &Stats) -> (res: Result<
        Option<Check>,
        VerifyError,
    >)
        requires
            pool.wf(),
            stats.wf(),
            old(self).of(pool@, stats@.created),
        ensures
            match res {
                Ok(Some(c)) => {
                    &&& check(pool@, stats@.created, old(self)@) == Ok::<
                        Option<CheckView>,
                        VerifyError,
                    >(Some(c@))
                    &&& final(self).of(pool@, stats@.created)
                    &&& final(self)@ == old(self)@ + 1
                },
                Ok(None) => {
                    &&& check(pool@, stats@.created, old(self)@) == Ok::<
                        Option<CheckView>,
                        VerifyError,
                    >(None)
                    &&& final(self).of(pool@, stats@.created)
                    &&& final(self)@ == old(self)@
                },
                Err(e) => check(pool@, stats@.created, old(self)@) == Err::<
                    Option<CheckView>,
                    VerifyError,
                >(e),
            },
    {
        proof {
            stats.lemma_wf();
        }
        let created = stats.created();
        let ghost pairs = stats@.created;
        let k = self.stored;
        let n = created.len();
        assert(n == pairs.len());
        if k < n {
            let code = created[k].0.as_str();
            let url = created[k].1.as_str();
            assert(pairs[k as int] == (code@, url@));
            if !self.codes.insert(code) {
                return Err(VerifyError::Duplicate);
            }
            self.stored = k + 1;
            proof {
                assert forall|other: Seq<char>|
                    self.codes@.contains(#[trigger] encode_utf8(other)) <==> pool@.has_code(other)
                        || was_created(pairs, k + 1, other) by {
                    if encode_utf8(other) == encode_utf8(code@) {
                        text::lemma_utf8_injective(other, code@);
                        assert(pairs[k as int].0 == other);
                    }
                    assert(old(self).codes@.contains(encode_utf8(other)) <==> pool@.has_code(other)
                        || was_created(pairs, k as int, other));
                    if was_created(pairs, k + 1, other) && other != code@ {
                        let i = choose|i: int|
                            0 <= i < k + 1 && i < pairs.len() && (#[trigger] pairs[i]).0 == other;
                        assert(pairs[i].0 == other);
                    }
                }
            }
            return Ok(
                Some(
                    Check {
                        request: client::get_code(pool.authority(), code),
                        url: url.to_owned(),
                        seed: false,
                    },
                ),
            );
        }
        let i = self.seeds;
        if i < pool.len() {
            self.seeds = i + 1;
            let request = bytes::copy(pool.request(i));
            return Ok(Some(Check { request, url: pool.url(i).to_owned(), seed: true }));
        }
        Ok(None)
    }
}

/// A run whose checks find no duplicate has a code for each URL of its own.
pub proof fn law_checked_codes_are_unique(
    pool: PoolView,
    created: Seq<(Seq<char>, Seq<char>)>,
    i: int,
    j: int,
)
    requires
        0 <= i < j < created.len(),
        forall|k: nat| k < created.len() ==> #[trigger] check(pool, created, k) is Ok,
    ensures
        created[i].0 != created[j].0,
        !pool.has_code(created[i].0),
        !pool.has_code(created[j].0),
{
    assert(check(pool, created, i as nat) is Ok);
    assert(check(pool, created, j as nat) is Ok);
}

/// Every URL that a run stored or began with has its check.
pub proof fn law_every_url_is_checked(pool: PoolView, created: Seq<(Seq<char>, Seq<char>)>)
    requires
        forall|k: nat|
            k < created.len() + pool.seeds.len() ==> #[trigger] check(pool, created, k) is Ok,
    ensures
        forall|i: int|
            0 <= i < created.len() ==> check(pool, created, i as nat) == Ok::<
                Option<CheckView>,
                VerifyError,
            >(
                Some(
                    CheckView {
                        request: client::code_request(
                            pool.authority,
                            (#[trigger] created[i]).0,
                        ),
                        url: created[i].1,
                        seed: false,
                    },
                ),
            ),
        forall|i: int|
            0 <= i < pool.seeds.len() ==> check(pool, created, (created.len() + i) as nat)
                == Ok::<Option<CheckView>, VerifyError>(
                Some(
                    CheckView {
                        request: pool.request(i),
                        url: (#[trigger] pool.seeds[i]).url,
                        seed: true,
                    },
                ),
            ),
        check(pool, created, created.len() + pool.seeds.len()) == Ok::<
            Option<CheckView>,
            VerifyError,
        >(None),
{
    assert forall|i: int| 0 <= i < created.len() implies check(pool, created, i as nat) == Ok::<
        Option<CheckView>,
        VerifyError,
    >(
        Some(
            CheckView {
                request: client::code_request(pool.authority, (#[trigger] created[i]).0),
                url: created[i].1,
                seed: false,
            },
        ),
    ) by {
        assert(check(pool, created, i as nat) is Ok);
    }
}

/// What else is known of a run when it is over.
#[derive(Clone, Copy)]
pub struct Ending {
    /// Whether it had a rate.
    pub rate: bool,
    /// The requests that the rate asked for.
    pub total: u64,
    /// Those that were not sent because too many waited.
    pub dropped: u64,
    /// Whether the checks found nothing.
    pub verified: bool,
    /// Whether the rate was reached, but for one part in a hundred.
    pub fast: bool,
    /// Whether the times are below their limit, where there is one.
    pub quick: bool,
}

/// Whether every request of a rate was sent or dropped.
pub open spec fn complete(s: StatsView, e: Ending) -> bool {
    !e.rate || s.sent + e.dropped == e.total
}

pub open spec fn passes(s: StatsView, e: Ending) -> bool {
    &&& s.ok > 0
    &&& s.errors == 0
    &&& s.status == 0
    &&& s.mismatch == 0
    &&& e.dropped == 0
    &&& complete(s, e)
    &&& e.verified
    &&& !e.rate || (s.ok == e.total && e.fast)
    &&& e.quick
}

/// Decides whether a run passes.
pub fn verdict(stats: &Stats, ending: Ending) -> (res: bool)
    requires
        stats.wf(),
    ensures
        res == passes(stats@, ending),
{
    proof {
        stats.lemma_wf();
    }
    let sent = stats.sent();
    let complete = !ending.rate || (sent <= ending.total && ending.total - sent == ending.dropped);
    stats.ok() > 0 && stats.errors() == 0 && stats.status() == 0 && stats.mismatch() == 0
        && ending.dropped == 0 && complete && ending.verified && (!ending.rate || (stats.ok()
        == ending.total && ending.fast)) && ending.quick
}

/// A run that passes had every request answered as expected, and with a rate
/// every request of the rate.
pub proof fn law_a_pass_is_complete(s: StatsView, e: Ending)
    requires
        passes(s, e),
        stats::accounted(s),
    ensures
        s.ok == s.sent,
        e.rate ==> s.ok == e.total,
        e.verified,
{
}

/// A run passes exactly if it had a right answer and no other, nothing was
/// dropped, the checks found nothing and the times kept their limit; and, with
/// a rate, if every request of it was sent and answered right and the rate was
/// reached.
pub proof fn law_pass(s: StatsView, e: Ending)
    ensures
        passes(s, e) ==> s.ok > 0 && s.errors == 0 && s.status == 0 && s.mismatch == 0,
        passes(s, e) ==> e.dropped == 0 && e.verified && e.quick,
        passes(s, e) && e.rate ==> e.fast && s.ok == e.total && s.sent == e.total,
        s.ok > 0 && s.errors == 0 && s.status == 0 && s.mismatch == 0 && e.dropped == 0
            && e.verified && e.quick && (e.rate ==> e.fast && s.ok == e.total && s.sent == e.total)
            ==> passes(s, e),
{
}

/// An answer is as expected exactly if it redirects to the URL; what is wrong
/// else depends on whether the run began with the URL.
pub proof fn law_checks_are_judged(c: CheckView, r: ResponseView)
    ensures
        c.problem(r) is None <==> r.status == 302 && r.location == c.url,
        c.problem(r) is Some ==> c.problem(r) == Some(
            if c.seed {
                VerifyError::Changed
            } else {
                VerifyError::Redirect
            },
        ),
{
}

/// A duplicate is found exactly where a code was given out before: to a URL
/// that the run began with, or to one that it stored earlier.
pub proof fn law_duplicates_are_found(
    pool: PoolView,
    created: Seq<(Seq<char>, Seq<char>)>,
    k: int,
)
    requires
        0 <= k,
    ensures
        check(pool, created, k as nat) is Err <==> k < created.len() && ((exists|i: int|
            0 <= i < pool.seeds.len() && (#[trigger] pool.seeds[i]).code == created[k].0) || (
        exists|i: int| 0 <= i < k && (#[trigger] created[i]).0 == created[k].0)),
        check(pool, created, k as nat) is Err ==> check(pool, created, k as nat) == Err::<
            Option<CheckView>,
            VerifyError,
        >(VerifyError::Duplicate),
        check(pool, created, k as nat) == Ok::<Option<CheckView>, VerifyError>(None) <==> k
            >= created.len() + pool.seeds.len(),
{
}

/// Each check asks for one code and expects one URL: first those that the run
/// stored, in their order, then those that it began with.
pub proof fn law_checks_in_order(
    pool: PoolView,
    created: Seq<(Seq<char>, Seq<char>)>,
    k: int,
)
    requires
        0 <= k < created.len() + pool.seeds.len(),
        check(pool, created, k as nat) is Ok,
    ensures
        check(pool, created, k as nat)->Ok_0 == Some(
            if k < created.len() {
                CheckView {
                    request: client::get_request(pool.authority, "/"@ + created[k].0),
                    url: created[k].1,
                    seed: false,
                }
            } else {
                let seed = pool.seeds[k - created.len()];
                CheckView {
                    request: client::get_request(pool.authority, "/"@ + seed.code),
                    url: seed.url,
                    seed: true,
                }
            },
        ),
{
}

/// The findings in words.
pub proof fn law_finding_texts()
    ensures
        verify_error_text(VerifyError::Duplicate) == "duplicate code across writes"@,
        verify_error_text(VerifyError::Redirect) == "post-run redirect mismatch"@,
        verify_error_text(VerifyError::Changed) == "seed mapping changed during run"@,
{
}

} // verus!
