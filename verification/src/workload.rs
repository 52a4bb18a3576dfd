//! What a worker sends: the URLs that it asks for, and how it chooses.
use vstd::prelude::*;
use vstd::string::StringExecFns;
use vstd::utf8::encode_utf8;

use crate::base62;
use crate::client;
use crate::rng;
use crate::rng::Rng;
use crate::schedule::Job;
use crate::text;

verus! {

/// The most URLs that a run may store, over all its connections.
pub const MAX_CREATED: usize = 1_000_000;

/// A URL that the server has, its code, and the request for it.
pub struct Seed {
    code: String,
    url: String,
    request: Vec<u8>,
}

pub struct SeedView {
    pub code: Seq<char>,
    pub url: Seq<char>,
}

impl View for Seed {
    type V = SeedView;

    closed spec fn view(&self) -> SeedView {
        SeedView { code: self.code@, url: self.url@ }
    }
}

/// The URLs that a run asks for.
pub struct Pool {
    authority: String,
    seeds: Vec<Seed>,
}

pub struct PoolView {
    /// What the requests name as the host.
    pub authority: Seq<char>,
    pub seeds: Seq<SeedView>,
}

impl View for Pool {
    type V = PoolView;

    closed spec fn view(&self) -> PoolView {
        PoolView {
            authority: self.authority@,
            seeds: Seq::new(self.seeds@.len(), |i: int| self.seeds@[i]@),
        }
    }
}

impl PoolView {
    /// The request for the URL with an index.
    pub open spec fn request(self, i: int) -> Seq<u8> {
        client::code_request(self.authority, self.seeds[i].code)
    }

    pub open spec fn has_code(self, code: Seq<char>) -> bool {
        exists|i: int| 0 <= i < self.seeds.len() && (#[trigger] self.seeds[i]).code == code
    }

    /// Whether every code is one, and none is there twice.
    pub open spec fn wf(self) -> bool {
        &&& forall|i: int|
            0 <= i < self.seeds.len() ==> base62::canonical(
                encode_utf8((#[trigger] self.seeds[i]).code),
            )
        &&& forall|i: int, j: int|
            0 <= i < j < self.seeds.len() ==> (#[trigger] self.seeds[i]).code != (
            #[trigger] self.seeds[j]).code
    }

    /// With one more.
    pub open spec fn with(self, code: Seq<char>, url: Seq<char>) -> PoolView {
        PoolView { seeds: self.seeds.push(SeedView { code, url }), ..self }
    }
}

impl Pool {
    pub closed spec fn wf(&self) -> bool {
        &&& self@.wf()
        &&& forall|i: int|
            0 <= i < self.seeds@.len() ==> (#[trigger] self.seeds@[i]).request@
                == client::code_request(self.authority@, self.seeds@[i].code@)
    }

    /// What holds of the codes is seen in the view.
    pub proof fn lemma_wf(&self)
        requires
            self.wf(),
        ensures
            self@.wf(),
    {
    }

    /// No URL, and the host that requests will name.
    pub fn new(authority: &str) -> (res: Pool)
        ensures
            res.wf(),
            res@ == (PoolView { authority: authority@, seeds: Seq::empty() }),
    {
        let res = Pool { authority: authority.to_owned(), seeds: Vec::new() };
        assert(res@.seeds =~= Seq::empty());
        res
    }

    pub fn len(&self) -> (res: usize)
        ensures
            res == self@.seeds.len(),
    {
        self.seeds.len()
    }

    pub fn authority(&self) -> (res: &str)
        ensures
            res@ == self@.authority,
    {
        self.authority.as_str()
    }

    /// Adds a URL under a code that is new.
    pub fn push(&mut self, code: &str, url: &str)
        requires
            old(self).wf(),
            base62::canonical(encode_utf8(code@)),
            !old(self)@.has_code(code@),
        ensures
            final(self).wf(),
            final(self)@ == old(self)@.with(code@, url@),
    {
        let request = client::get_code(self.authority.as_str(), code);
        self.seeds.push(Seed { code: code.to_owned(), url: url.to_owned(), request });
        assert(self@.seeds =~= old(self)@.seeds.push(SeedView { code: code@, url: url@ }));
        assert forall|i: int| 0 <= i < self.seeds@.len() implies (
        #[trigger] self.seeds@[i]).request@ == client::code_request(
            self.authority@,
            self.seeds@[i].code@,
        ) by {
            if i < old(self).seeds@.len() {
                assert(self.seeds@[i] == old(self).seeds@[i]);
            }
        }
        assert forall|i: int| 0 <= i < self@.seeds.len() implies base62::canonical(
            encode_utf8((#[trigger] self@.seeds[i]).code),
        ) by {
            if i < old(self)@.seeds.len() {
                assert(self@.seeds[i] == old(self)@.seeds[i]);
            }
        }
        assert forall|i: int, j: int| 0 <= i < j < self@.seeds.len() implies (
        #[trigger] self@.seeds[i]).code != (#[trigger] self@.seeds[j]).code by {
            assert(self@.seeds[i] == old(self)@.seeds[i]);
            if j < old(self)@.seeds.len() {
                assert(self@.seeds[j] == old(self)@.seeds[j]);
            }
        }
    }

    pub fn code(&self, i: usize) -> (res: &str)
        requires
            i < self@.seeds.len(),
        ensures
            res@ == self@.seeds[i as int].code,
    {
        self.seeds[i].code.as_str()
    }

    pub fn url(&self, i: usize) -> (res: &str)
        requires
            i < self@.seeds.len(),
        ensures
            res@ == self@.seeds[i as int].url,
    {
        self.seeds[i].url.as_str()
    }

    /// The request for the URL with an index.
    pub fn request(&self, i: usize) -> (res: &[u8])
        requires
            self.wf(),
            i < self@.seeds.len(),
        ensures
            res@ == self@.request(i as int),
    {
        self.seeds[i].request.as_slice()
    }
}

/// The part of the settings that a worker's choices depend on. A threshold is
/// a probability in units of one part in 2^53.
#[derive(Clone, Copy)]
pub struct Mix {
    pub connections: usize,
    pub pipeline: usize,
    /// How often a request stores a URL.
    pub write_threshold: u64,
    /// How often another request asks for a code that there is not.
    pub miss_threshold: u64,
}

/// Whether a random number falls below a threshold.
pub open spec fn below(random: u64, threshold: u64) -> bool {
    random >> 11u64 < threshold
}

/// What a batch of reads asks for: the index of a URL, or nothing where the
/// code is one that there is not. The second part is the state of the random
/// numbers after the choice.
pub open spec fn draws(state: u64, misses: u64, pool: nat, count: nat) -> (Seq<Option<nat>>, u64)
    decreases count,
{
    if count == 0 {
        (Seq::empty(), state)
    } else {
        let (front, before) = draws(state, misses, pool, (count - 1) as nat);
        let chance = rng::following(before);
        if below(chance, misses) {
            (front.push(None), chance)
        } else {
            let choice = rng::following(chance);
            (front.push(Some((choice as usize as nat) % pool)), choice)
        }
    }
}

/// The bytes of a batch of reads.
pub open spec fn batch_bytes(pool: PoolView, expected: Seq<Option<nat>>) -> Seq<u8>
    decreases expected.len(),
{
    if expected.len() == 0 {
        Seq::empty()
    } else {
        batch_bytes(pool, expected.drop_last()) + match expected.last() {
            None => client::get_request(pool.authority, "/missing-code"@),
            Some(i) => pool.request(i as int),
        }
    }
}

/// The URL that a worker stores.
pub open spec fn load_url(id: nat, sequence: nat) -> Seq<char> {
    "https://example.com/load/"@ + text::decimal(id) + "/"@ + text::decimal(sequence)
}

/// What a worker does with a batch.
pub enum Exchange {
    /// It stores the URL.
    Write { url: String, request: Vec<u8> },
    /// It stored as many URLs as can be checked.
    Full,
    /// It asks for URLs and for codes that there are not.
    Read { expected: Vec<Option<usize>>, request: Vec<u8> },
}

pub enum ExchangeView {
    Write { url: Seq<char>, request: Seq<u8> },
    Full,
    Read { expected: Seq<Option<nat>>, request: Seq<u8> },
}

/// The indices of a batch of reads.
pub open spec fn index_views(expected: Seq<Option<usize>>) -> Seq<Option<nat>> {
    Seq::new(
        expected.len(),
        |i: int|
            match expected[i] {
                Some(n) => Some(n as nat),
                None => None,
            },
    )
}

impl View for Exchange {
    type V = ExchangeView;

    open spec fn view(&self) -> ExchangeView {
        match self {
            Exchange::Write { url, request } => ExchangeView::Write {
                url: url@,
                request: request@,
            },
            Exchange::Full => ExchangeView::Full,
            Exchange::Read { expected, request } => ExchangeView::Read {
                expected: index_views(expected@),
                request: request@,
            },
        }
    }
}

/// What the worker `id` does with a batch after it stored so many URLs, and
/// the state of the random numbers after that.
pub open spec fn exchange(
    pool: PoolView,
    key: Option<Seq<char>>,
    mix: Mix,
    id: nat,
    job: Job,
    created: nat,
    state: u64,
) -> (ExchangeView, u64) {
    let chance = rng::following(state);
    if mix.pipeline == 1 && below(chance, mix.write_threshold) {
        if created >= MAX_CREATED as nat / mix.connections as nat {
            (ExchangeView::Full, chance)
        } else {
            let url = load_url(id, job.sequence as nat);
            (
                ExchangeView::Write {
                    url,
                    request: client::shorten_request(pool.authority, key, url),
                },
                chance,
            )
        }
    } else {
        let start = if mix.pipeline == 1 {
            chance
        } else {
            state
        };
        let (expected, end) = draws(start, mix.miss_threshold, pool.seeds.len(), job.count as nat);
        (ExchangeView::Read { expected, request: batch_bytes(pool, expected) }, end)
    }
}

/// The URL that a worker stores.
pub fn write_load_url(id: usize, sequence: u64) -> (res: String)
    ensures
        res@ == load_url(id as nat, sequence as nat),
{
    let mut url = String::new();
    url.append("https://example.com/load/");
    text::append_decimal(&mut url, id as u64);
    url.append("/");
    text::append_decimal(&mut url, sequence);
    assert(url@ =~= load_url(id as nat, sequence as nat));
    url
}

/// Chooses what a worker does with a batch.
pub fn plan_exchange(
    pool: &Pool,
    key: &Option<String>,
    mix: Mix,
    id: usize,
    job: Job,
    created: usize,
    rng: &mut Rng,
) -> (res: Exchange)
    requires
        pool.wf(),
        pool@.seeds.len() > 0,
        mix.connections > 0,
    ensures
        exchange(
            pool@,
            text::optional(*key),
            mix,
            id as nat,
            job,
            created as nat,
            old(rng)@,
        ) == (res@, final(rng)@),
        res matches Exchange::Read { expected, .. } ==> {
            &&& expected@.len() == job.count
            &&& forall|i: int|
                0 <= i < expected@.len() ==> (#[trigger] expected@[i] matches Some(n) ==> n
                    < pool@.seeds.len())
        },
{
    if mix.pipeline == 1 && rng.chance(mix.write_threshold) {
        if created >= MAX_CREATED / mix.connections {
            return Exchange::Full;
        }
        let url = write_load_url(id, job.sequence);
        let request = client::post_url(pool.authority(), key, url.as_str());
        return Exchange::Write { url, request };
    }
    let ghost start = rng@;
    let n = pool.len();
    let mut expected: Vec<Option<usize>> = Vec::new();
    let mut request: Vec<u8> = Vec::new();
    let mut i: usize = 0;
    assert(index_views(expected@) =~= Seq::empty());
    while i < job.count
        invariant
            pool.wf(),
            n == pool@.seeds.len(),
            n > 0,
            i <= job.count,
            expected@.len() == i,
            draws(start, mix.miss_threshold, n as nat, i as nat) == (
                index_views(expected@),
                rng@,
            ),
            request@ == batch_bytes(pool@, index_views(expected@)),
            forall|k: int|
                0 <= k < expected@.len() ==> (#[trigger] expected@[k] matches Some(m) ==> m < n),
        decreases job.count - i,
    {
        let ghost before = index_views(expected@);
        let ghost sent = request@;
        if rng.chance(mix.miss_threshold) {
            let miss = client::get(pool.authority(), "/missing-code");
            request.extend_from_slice(miss.as_slice());
            expected.push(None);
            assert(index_views(expected@) =~= before.push(None));
            assert(index_views(expected@).drop_last() =~= before);
            assert(request@ =~= sent + client::get_request(pool@.authority, "/missing-code"@));
        } else {
            let k = rng.pick(n);
            request.extend_from_slice(pool.request(k));
            expected.push(Some(k));
            assert(index_views(expected@) =~= before.push(Some(k as nat)));
            assert(index_views(expected@).drop_last() =~= before);
            assert(request@ =~= sent + pool@.request(k as int));
        }
        i += 1;
    }
    Exchange::Read { expected, request }
}

/// Every read of a batch asks for a URL of the pool or for none.
pub proof fn law_reads_stay_in_pool(state: u64, misses: u64, pool: nat, count: nat)
    requires
        pool > 0,
    ensures
        draws(state, misses, pool, count).0.len() == count,
        forall|i: int|
            0 <= i < count ==> (#[trigger] draws(state, misses, pool, count).0[i] matches Some(n)
                ==> n < pool),
    decreases count,
{
    if count > 0 {
        law_reads_stay_in_pool(state, misses, pool, (count - 1) as nat);
        let front = draws(state, misses, pool, (count - 1) as nat).0;
        let all = draws(state, misses, pool, count).0;
        assert forall|i: int| 0 <= i < count implies (#[trigger] all[i] matches Some(n) ==> n
            < pool) by {
            if i < count - 1 {
                assert(all[i] == front[i]);
            }
        }
    }
}

/// Without pipelining a batch is a write, or the end of writing, exactly if the
/// 53 leading bits of the next random number are below the threshold; with
/// pipelining it never is.
pub proof fn law_writes_are_chosen(
    pool: PoolView,
    key: Option<Seq<char>>,
    mix: Mix,
    id: nat,
    job: Job,
    created: nat,
    state: u64,
)
    ensures
        ({
            let (chosen, after) = exchange(pool, key, mix, id, job, created, state);
            &&& chosen !is Read <==> mix.pipeline == 1 && (rng::following(state) as int)
                / 2048 < mix.write_threshold
            &&& chosen is Full <==> mix.pipeline == 1 && (rng::following(state) as int) / 2048
                < mix.write_threshold && created >= 1_000_000nat / mix.connections as nat
            &&& chosen !is Read ==> after == rng::following(state)
            &&& chosen matches ExchangeView::Write { url, request } ==> url
                == "https://example.com/load/"@ + text::decimal(id) + "/"@ + text::decimal(
                job.sequence as nat,
            ) && request == client::shorten_request(pool.authority, key, url)
        }),
{
    let random = rng::following(state);
    assert(random >> 11u64 == random / 2048) by (bit_vector);
}

/// A batch of reads has as many as the job, and one more read is chosen by the
/// next random numbers alone: it asks for no URL exactly if the 53 leading bits
/// of the first are below the threshold, and else for the one that the second
/// picks.
pub proof fn law_reads_are_chosen(state: u64, misses: u64, pool: nat, count: nat)
    ensures
        ({
            let (before, middle) = draws(state, misses, pool, count);
            let (after, end) = draws(state, misses, pool, count + 1);
            let first = rng::following(middle);
            let second = rng::following(first);
            let misses_it = (first as int) / 2048 < misses;
            &&& draws(state, misses, pool, 0) == (Seq::<Option<nat>>::empty(), state)
            &&& after == before.push(
                if misses_it {
                    None
                } else {
                    Some((second as usize as nat) % pool)
                },
            )
            &&& end == if misses_it {
                first
            } else {
                second
            }
        }),
{
    let first = rng::following(draws(state, misses, pool, count).1);
    assert(first >> 11u64 == first / 2048) by (bit_vector);
}

/// The reads of a batch are drawn after the number that decided against a
/// write, where there was one, and the bytes are their requests one after the
/// other.
pub proof fn law_reads_are_sent(
    pool: PoolView,
    key: Option<Seq<char>>,
    mix: Mix,
    id: nat,
    job: Job,
    created: nat,
    state: u64,
)
    requires
        exchange(pool, key, mix, id, job, created, state).0 is Read,
    ensures
        ({
            let (chosen, after) = exchange(pool, key, mix, id, job, created, state);
            let start = if mix.pipeline == 1 {
                rng::following(state)
            } else {
                state
            };
            let drawn = draws(start, mix.miss_threshold, pool.seeds.len(), job.count as nat);
            &&& chosen->expected == drawn.0
            &&& after == drawn.1
            &&& chosen->Read_request == batch_bytes(pool, drawn.0)
        }),
{
}

/// Each read adds its request to the bytes: for the code of its URL, or for one
/// that there is not.
pub proof fn law_batch_bytes(pool: PoolView, expected: Seq<Option<nat>>, next: Option<nat>)
    ensures
        batch_bytes(pool, Seq::empty()) == Seq::<u8>::empty(),
        batch_bytes(pool, expected.push(next)) == batch_bytes(pool, expected) + match next {
            None => client::get_request(pool.authority, "/missing-code"@),
            Some(i) => client::get_request(pool.authority, "/"@ + pool.seeds[i as int].code),
        },
{
    assert(expected.push(next).drop_last() =~= expected);
}

/// A pool asks for each URL under its code, knows the codes that it has, and takes
/// a URL more behind the others.
pub proof fn law_pool(pool: PoolView, i: int, code: Seq<char>, url: Seq<char>)
    ensures
        pool.request(i) == client::get_request(pool.authority, "/"@ + pool.seeds[i].code),
        pool.has_code(code) <==> exists|j: int|
            0 <= j < pool.seeds.len() && (#[trigger] pool.seeds[j]).code == code,
        pool.with(code, url).authority == pool.authority,
        pool.with(code, url).seeds == pool.seeds.push(SeedView { code, url }),
{
}

/// What a worker does is seen as it is.
pub proof fn law_exchanges(
    url: String,
    request: Vec<u8>,
    expected: Vec<Option<usize>>,
    i: int,
)
    requires
        0 <= i < expected@.len(),
    ensures
        (Exchange::Write { url, request })@ == (ExchangeView::Write {
            url: url@,
            request: request@,
        }),
        Exchange::Full@ == ExchangeView::Full,
        (Exchange::Read { expected, request })@ == (ExchangeView::Read {
            expected: index_views(expected@),
            request: request@,
        }),
        index_views(expected@).len() == expected@.len(),
        expected@[i] is None ==> index_views(expected@)[i] is None,
        expected@[i] matches Some(n) ==> index_views(expected@)[i] == Some(n as nat),
{
}

} // verus!
