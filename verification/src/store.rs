//! The append-only store of URLs, kept in shards.
use vstd::arithmetic::power2::pow2;
use vstd::prelude::*;
use vstd::utf8::encode_utf8;

use crate::base62;
use crate::boundary;
use crate::links;
use crate::seeding;
use std::sync::Arc;

verus! {

/// The most shards that a store may have.
pub const MAX_SHARDS: usize = 4096;

/// URLs in the order of their numbers. URL `i` stands in shard `i` modulo the
/// number of shards.
pub struct Store {
    shards: Vec<Vec<Arc<str>>>,
    count: u64,
    capacity: usize,
}

/// Why a URL was not stored.
#[derive(Debug)]
pub enum ShortenError {
    /// The URL is refused, with the reason.
    InvalidInput(&'static str),
    /// The store holds as many URLs as it may.
    StorageFull,
}

/// Why stored rows cannot be loaded.
#[derive(Debug)]
pub enum OpenError {
    /// A row has a negative number.
    NegativeId,
    /// A row's number is not the next one, or is beyond the capacity.
    OutOfPlace,
    /// A row's URL is refused, with the reason.
    InvalidUrl(&'static str),
}

pub enum RowProblem {
    NegativeId,
    OutOfPlace,
    InvalidUrl(Seq<char>),
}

pub open spec fn is_power_of_two(n: int) -> bool {
    exists|k: nat| n == #[trigger] pow2(k)
}

/// What is wrong with the row that should have number `place`.
pub open spec fn row_problem(place: int, id: i64, address: Seq<char>, capacity: int) -> Option<
    RowProblem,
> {
    if id < 0 {
        Some(RowProblem::NegativeId)
    } else if id != place || id >= capacity {
        Some(RowProblem::OutOfPlace)
    } else {
        match links::url_problem(address) {
            Some(message) => Some(RowProblem::InvalidUrl(message)),
            None => None,
        }
    }
}

/// What is wrong with row `i`.
pub open spec fn row_fault(rows: Seq<(i64, String)>, i: int, capacity: int) -> Option<RowProblem> {
    row_problem(i, rows[i].0, rows[i].1@, capacity)
}

/// Whether nothing is wrong with the first `n` rows.
pub open spec fn rows_fit(rows: Seq<(i64, String)>, n: int, capacity: int) -> bool {
    forall|i: int| 0 <= i < n ==> #[trigger] row_fault(rows, i, capacity) is None
}

/// The URLs in the rows.
pub open spec fn addresses(rows: Seq<(i64, String)>) -> Seq<Seq<char>> {
    Seq::new(rows.len(), |i: int| rows[i].1@)
}

impl OpenError {
    pub open spec fn problem(self) -> RowProblem {
        match self {
            OpenError::NegativeId => RowProblem::NegativeId,
            OpenError::OutOfPlace => RowProblem::OutOfPlace,
            OpenError::InvalidUrl(message) => RowProblem::InvalidUrl(message@),
        }
    }
}

/// The URLs after the first `n` that load runs ask for were stored, as far as
/// they are accepted and there is room.
pub open spec fn preloaded(urls: Seq<Seq<char>>, capacity: int, n: nat) -> Seq<Seq<char>>
    decreases n,
{
    if n == 0 {
        urls
    } else {
        let before = preloaded(urls, capacity, (n - 1) as nat);
        let address = seeding::seed_url((n - 1) as nat);
        if links::valid_url(address) && before.len() < capacity {
            before.push(address)
        } else {
            before
        }
    }
}

/// The URL that a code leads to.
pub open spec fn resolution(urls: Seq<Seq<char>>, code: Seq<u8>) -> Option<Seq<char>> {
    if base62::canonical(code) && base62::decoding(code).unwrap() < urls.len() {
        Some(urls[base62::decoding(code).unwrap() as int])
    } else {
        None
    }
}

/// `k * n + j` has quotient `k` and remainder `j`.
proof fn lemma_place(k: int, n: int, j: int)
    requires
        0 <= j < n,
        0 <= k,
    ensures
        (k * n + j) / n == k,
        (k * n + j) % n == j,
        0 <= k * n,
{
    vstd::arithmetic::div_mod::lemma_fundamental_div_mod_converse(k * n + j, n, k, j);
    assert(0 <= k * n) by (nonlinear_arith)
        requires
            0 <= k,
            0 < n,
    ;
}

proof fn lemma_split(i: int, n: int)
    requires
        0 <= i,
        0 < n,
    ensures
        i == (i / n) * n + i % n,
        0 <= i / n <= i,
        0 <= i % n < n,
{
    vstd::arithmetic::div_mod::lemma_fundamental_div_mod(i, n);
    assert(n * (i / n) == (i / n) * n) by (nonlinear_arith);
    assert(0 <= i / n <= i) by (nonlinear_arith)
        requires
            0 <= i,
            0 < n,
    ;
}

proof fn lemma_mul_mono(a: int, b: int, n: int)
    requires
        0 < n,
    ensures
        a <= b <==> a * n <= b * n,
        a < b <==> a * n < b * n,
{
    assert(a <= b <==> a * n <= b * n) by (nonlinear_arith)
        requires
            0 < n,
    ;
    assert(a < b <==> a * n < b * n) by (nonlinear_arith)
        requires
            0 < n,
    ;
}

/// Masking with a power of two less one is the remainder.
proof fn lemma_mask(id: u64, n: u64)
    requires
        is_power_of_two(n as int),
        n <= MAX_SHARDS,
    ensures
        n > 0,
        id & ((n - 1) as u64) == id % n,
{
    let k = choose|k: nat| n == #[trigger] pow2(k);
    vstd::arithmetic::power2::lemma_pow2_pos(k);
    if k >= 13 {
        vstd::arithmetic::power2::lemma2_to64();
        if k > 13 {
            vstd::arithmetic::power2::lemma_pow2_strictly_increases(13, k);
        }
    }
    vstd::bits::lemma_u64_low_bits_mask_is_mod(id, k);
    assert(vstd::bits::low_bits_mask(k) == n - 1);
}

impl Store {
    /// The number of shards.
    pub closed spec fn spec_shards(&self) -> int {
        self.shards@.len() as int
    }

    /// The most URLs it may hold.
    pub closed spec fn spec_capacity(&self) -> int {
        self.capacity as int
    }

    closed spec fn address(&self, i: int) -> Seq<char> {
        self.shards@[i % self.spec_shards()]@[i / self.spec_shards()]@
    }

    /// The shards hold the URLs numbered from 0, each where its number says,
    /// no more than the capacity, and all of them valid.
    pub closed spec fn wf(&self) -> bool {
        &&& is_power_of_two(self.spec_shards())
        &&& 0 < self.spec_shards() <= MAX_SHARDS
        &&& 0 < self.capacity
        &&& self.count <= self.capacity
        &&& forall|j: int, k: int|
            #![trigger self.shards@[j], self.place(k, j)]
            0 <= j < self.spec_shards() && 0 <= k ==> (k < self.shards@[j]@.len() <==> self.place(
                k,
                j,
            ) < self.count)
        &&& forall|i: int|
            0 <= i < self.count ==> links::valid_url(#[trigger] self.address(i))
    }

    closed spec fn place(&self, k: int, j: int) -> int {
        k * self.spec_shards() + j
    }
}

impl View for Store {
    type V = Seq<Seq<char>>;

    closed spec fn view(&self) -> Seq<Seq<char>> {
        Seq::new(self.count as nat, |i: int| self.address(i))
    }
}

impl Store {
    /// URL `i` is in its shard exactly if there is one.
    proof fn lemma_present(&self, i: int)
        requires
            self.wf(),
            0 <= i,
        ensures
            0 <= i % self.spec_shards() < self.spec_shards(),
            0 <= i / self.spec_shards(),
            i / self.spec_shards() < self.shards@[i % self.spec_shards()]@.len() <==> i
                < self.count,
    {
        let n = self.spec_shards();
        lemma_split(i, n);
        let _ = self.shards@[i % n];
        assert(self.place(i / n, i % n) == i);
    }

    /// What every store keeps: at most `capacity` URLs, all of them valid.
    pub proof fn law_store_is_sound(&self)
        requires
            self.wf(),
        ensures
            is_power_of_two(self.spec_shards()),
            0 < self.spec_shards() <= MAX_SHARDS,
            self@.len() <= self.spec_capacity() <= usize::MAX,
            forall|i: int| 0 <= i < self@.len() ==> links::valid_url(#[trigger] self@[i]),
    {
    }

    /// An empty store in memory.
    pub fn memory(n: usize, capacity: usize) -> (res: Store)
        requires
            is_power_of_two(n as int),
            n <= MAX_SHARDS,
            capacity > 0,
        ensures
            res.wf(),
            res@ == Seq::<Seq<char>>::empty(),
            res.spec_shards() == n,
            res.spec_capacity() == capacity,
    {
        proof {
            lemma_mask(0, n as u64);
        }
        let mut shards: Vec<Vec<Arc<str>>> = Vec::new();
        let mut i: usize = 0;
        while i < n
            invariant
                i <= n,
                shards@.len() == i,
                forall|j: int| 0 <= j < i ==> (#[trigger] shards@[j])@.len() == 0,
            decreases n - i,
        {
            shards.push(Vec::new());
            i += 1;
        }
        let store = Store { shards, count: 0, capacity };
        proof {
            assert forall|j: int, k: int|
                #![trigger store.shards@[j], store.place(k, j)]
                0 <= j < store.spec_shards() && 0 <= k implies (k < store.shards@[j]@.len()
                <==> store.place(k, j) < store.count) by {
                lemma_place(k, store.spec_shards(), j);
            }
            assert(store@ =~= Seq::<Seq<char>>::empty());
        }
        store
    }

    /// An empty store of a million URLs.
    pub fn with_shards(n: usize) -> (res: Store)
        requires
            is_power_of_two(n as int),
            n <= MAX_SHARDS,
        ensures
            res.wf(),
            res@ == Seq::<Seq<char>>::empty(),
            res.spec_shards() == n,
            res.spec_capacity() == 1_000_000,
    {
        Store::memory(n, 1_000_000)
    }

    /// An empty store of a million URLs in 64 shards.
    pub fn new() -> (res: Store)
        ensures
            res.wf(),
            res@ == Seq::<Seq<char>>::empty(),
            res.spec_shards() == 64,
            res.spec_capacity() == 1_000_000,
    {
        proof {
            vstd::arithmetic::power2::lemma2_to64();
            assert(pow2(6) == 64);
        }
        Store::with_shards(64)
    }

    /// Adds the next URL.
    pub fn publish(&mut self, id: u64, address: &str)
        requires
            old(self).wf(),
            id == old(self)@.len(),
            id < old(self).spec_capacity(),
            links::valid_url(address@),
        ensures
            final(self).wf(),
            final(self)@ == old(self)@.push(address@),
            final(self).spec_shards() == old(self).spec_shards(),
            final(self).spec_capacity() == old(self).spec_capacity(),
    {
        let ghost before = *self;
        let ghost n = self.spec_shards();
        let count = self.shards.len() as u64;
        proof {
            lemma_mask(id, count);
            lemma_split(id as int, n);
            self.lemma_present(id as int);
        }
        let j = (id & (count - 1)) as usize;
        let ghost q = id as int / n;
        proof {
            if q > 0 {
                let _ = self.shards@[j as int];
                assert(self.place(q - 1, j as int) == id - n) by (nonlinear_arith)
                    requires
                        self.place(q - 1, j as int) == (q - 1) * n + j,
                        id == q * n + j,
                ;
            }
            assert(self.shards@[j as int]@.len() == q);
        }
        self.shards[j].push(boundary::share(address));
        self.count = id + 1;
        proof {
            assert(self.shards@.len() == n);
            assert forall|j2: int, k: int|
                #![trigger self.shards@[j2], self.place(k, j2)]
                0 <= j2 < n && 0 <= k implies (k < self.shards@[j2]@.len() <==> self.place(k, j2)
                < self.count) by {
                lemma_place(k, n, j2);
                lemma_mul_mono(k, q, n);
                let _ = before.shards@[j2];
                assert(before.place(k, j2) == self.place(k, j2));
                if j2 != j {
                    assert(self.shards@[j2] == before.shards@[j2]);
                    assert(self.place(k, j2) != id);
                }
            }
            assert forall|i: int| 0 <= i < id implies self.address(i) == before.address(i) by {
                lemma_split(i, n);
                before.lemma_present(i);
                if i % n == j {
                    assert(i / n < q);
                }
            }
            assert(self.address(id as int) == address@);
            assert forall|i: int| 0 <= i < self.count implies links::valid_url(
                #[trigger] self.address(i),
            ) by {
                if i < id {
                    assert(links::valid_url(before.address(i)));
                }
            }
            assert(self@ =~= before@.push(address@));
        }
    }

    /// The number that a URL would get next.
    pub fn reserve(&self, address: &str) -> (res: Result<u64, ShortenError>)
        requires
            self.wf(),
        ensures
            match res {
                Ok(id) => links::valid_url(address@) && self@.len() < self.spec_capacity() && id
                    == self@.len(),
                Err(ShortenError::InvalidInput(message)) => links::url_problem(address@) == Some(
                    message@,
                ),
                Err(ShortenError::StorageFull) => links::valid_url(address@) && self@.len()
                    == self.spec_capacity(),
            },
    {
        match links::validate_url(address) {
            Err(message) => Err(ShortenError::InvalidInput(message)),
            Ok(_) => if self.count >= self.capacity as u64 {
                Err(ShortenError::StorageFull)
            } else {
                Ok(self.count)
            },
        }
    }

    /// Ends a write: the URL gets the number that was reserved for it, and its
    /// code is returned, if the database took the row. Else nothing is stored.
    pub fn settle(&mut self, id: u64, address: &str, inserted: bool) -> (res: Option<String>)
        requires
            old(self).wf(),
            id == old(self)@.len(),
            id < old(self).spec_capacity(),
            links::valid_url(address@),
        ensures
            final(self).wf(),
            final(self).spec_shards() == old(self).spec_shards(),
            final(self).spec_capacity() == old(self).spec_capacity(),
            match res {
                Some(code) => {
                    &&& inserted
                    &&& encode_utf8(code@) == base62::encoding(id as nat)
                    &&& final(self)@ == old(self)@.push(address@)
                },
                None => !inserted && final(self)@ == old(self)@,
            },
    {
        if !inserted {
            return None;
        }
        self.publish(id, address);
        Some(base62::base62_encode(id))
    }

    /// Stores a URL and returns its code.
    pub fn shorten(&mut self, address: &str) -> (res: Result<String, ShortenError>)
        requires
            old(self).wf(),
        ensures
            final(self).wf(),
            final(self).spec_shards() == old(self).spec_shards(),
            final(self).spec_capacity() == old(self).spec_capacity(),
            match res {
                Ok(code) => {
                    &&& links::valid_url(address@)
                    &&& old(self)@.len() < old(self).spec_capacity()
                    &&& final(self)@ == old(self)@.push(address@)
                    &&& encode_utf8(code@) == base62::encoding(old(self)@.len())
                },
                Err(ShortenError::InvalidInput(message)) => {
                    &&& links::url_problem(address@) == Some(message@)
                    &&& final(self)@ == old(self)@
                },
                Err(ShortenError::StorageFull) => {
                    &&& links::valid_url(address@)
                    &&& old(self)@.len() == old(self).spec_capacity()
                    &&& final(self)@ == old(self)@
                },
            },
    {
        match self.reserve(address) {
            Err(error) => Err(error),
            Ok(id) => {
                self.publish(id, address);
                Ok(base62::base62_encode(id))
            },
        }
    }

    /// Stores the first `n` of the URLs that load runs ask for, as far as they
    /// are accepted and there is room.
    pub fn preload(&mut self, n: usize)
        requires
            old(self).wf(),
        ensures
            final(self).wf(),
            final(self).spec_shards() == old(self).spec_shards(),
            final(self).spec_capacity() == old(self).spec_capacity(),
            final(self)@ == preloaded(old(self)@, old(self).spec_capacity(), n as nat),
    {
        let mut i: usize = 0;
        while i < n
            invariant
                self.wf(),
                i <= n,
                self.spec_shards() == old(self).spec_shards(),
                self.spec_capacity() == old(self).spec_capacity(),
                self@ == preloaded(old(self)@, old(self).spec_capacity(), i as nat),
            decreases n - i,
        {
            let address = seeding::write_seed_url(i);
            proof {
                self.law_store_is_sound();
            }
            let _ = self.shorten(address.as_str());
            i += 1;
        }
    }

    /// The URL that the bytes of a code lead to.
    pub fn resolve_bytes(&self, code: &[u8]) -> (res: Option<Arc<str>>)
        requires
            self.wf(),
        ensures
            match res {
                Some(address) => resolution(self@, code@) == Some(address@),
                None => resolution(self@, code@) is None,
            },
    {
        match base62::read_code(code) {
            None => None,
            Some(id) => {
                let n = self.shards.len() as u64;
                proof {
                    lemma_mask(id, n);
                    self.lemma_present(id as int);
                }
                let shard = &self.shards[(id & (n - 1)) as usize];
                let k = id / n;
                if k < shard.len() as u64 {
                    Some(shard[k as usize].clone())
                } else {
                    None
                }
            },
        }
    }

    /// The URL that a code leads to.
    pub fn resolve(&self, code: &str) -> (res: Option<Arc<str>>)
        requires
            self.wf(),
        ensures
            match res {
                Some(address) => resolution(self@, encode_utf8(code@)) == Some(address@),
                None => resolution(self@, encode_utf8(code@)) is None,
            },
    {
        self.resolve_bytes(code.as_bytes())
    }

    pub fn len(&self) -> (res: usize)
        requires
            self.wf(),
        ensures
            res == self@.len(),
    {
        self.count as usize
    }

    pub fn is_empty(&self) -> (res: bool)
        requires
            self.wf(),
        ensures
            res == (self@.len() == 0),
    {
        self.len() == 0
    }

    pub fn capacity(&self) -> (res: usize)
        ensures
            res == self.spec_capacity(),
    {
        self.capacity
    }

    pub fn shard_count(&self) -> (res: usize)
        ensures
            res == self.spec_shards(),
    {
        self.shards.len()
    }

    /// Loads the next row of a database.
    pub fn restore(&mut self, id: i64, address: &str) -> (res: Result<(), OpenError>)
        requires
            old(self).wf(),
        ensures
            final(self).wf(),
            final(self).spec_shards() == old(self).spec_shards(),
            final(self).spec_capacity() == old(self).spec_capacity(),
            ({
                let problem = row_problem(
                    old(self)@.len() as int,
                    id,
                    address@,
                    old(self).spec_capacity(),
                );
                match res {
                    Ok(_) => problem is None && final(self)@ == old(self)@.push(address@),
                    Err(error) => problem == Some(error.problem()) && final(self)@ == old(self)@,
                }
            }),
    {
        if id < 0 {
            return Err(OpenError::NegativeId);
        }
        let place = id as u64;
        if place != self.count || place >= self.capacity as u64 {
            return Err(OpenError::OutOfPlace);
        }
        match links::validate_url(address) {
            Err(message) => Err(OpenError::InvalidUrl(message)),
            Ok(_) => {
                self.publish(place, address);
                Ok(())
            },
        }
    }

    /// Loads the rows of a database, given in the order of their numbers.
    pub fn open(rows: &Vec<(i64, String)>, shards: usize, capacity: usize) -> (res: Result<
        Store,
        OpenError,
    >)
        requires
            is_power_of_two(shards as int),
            shards <= MAX_SHARDS,
            capacity > 0,
        ensures
            match res {
                Ok(store) => {
                    &&& store.wf()
                    &&& store.spec_shards() == shards
                    &&& store.spec_capacity() == capacity
                    &&& rows_fit(rows@, rows@.len() as int, capacity as int)
                    &&& store@ == addresses(rows@)
                },
                Err(error) => exists|k: int|
                    0 <= k < rows@.len() && rows_fit(rows@, k, capacity as int)
                        && #[trigger] row_fault(rows@, k, capacity as int) == Some(
                        error.problem(),
                    ),
            },
    {
        let mut store = Store::memory(shards, capacity);
        let mut k: usize = 0;
        assert(addresses(rows@.take(0)) =~= Seq::<Seq<char>>::empty());
        while k < rows.len()
            invariant
                k <= rows@.len(),
                store.wf(),
                store.spec_shards() == shards,
                store.spec_capacity() == capacity,
                store@ == addresses(rows@.take(k as int)),
                rows_fit(rows@, k as int, capacity as int),
            decreases rows@.len() - k,
        {
            let row = &rows[k];
            let loaded = store.restore(row.0, row.1.as_str());
            assert(row_fault(rows@, k as int, capacity as int) == row_problem(
                k as int,
                row.0,
                row.1@,
                capacity as int,
            ));
            match loaded {
                Err(error) => {
                    return Err(error);
                },
                Ok(_) => {},
            }
            assert(addresses(rows@.take(k + 1)) =~= addresses(rows@.take(k as int)).push(row.1@));
            k += 1;
        }
        assert(rows@.take(rows@.len() as int) =~= rows@);
        Ok(store)
    }
}

/// A URL is found under the code that it was given.
pub proof fn law_resolve_after_shorten(urls: Seq<Seq<char>>, address: Seq<char>)
    requires
        urls.len() <= u64::MAX,
    ensures
        resolution(urls.push(address), base62::encoding(urls.len())) == Some(address),
{
    base62::law_roundtrip(urls.len() as u64);
}

/// Storing another URL changes no code that resolves.
pub proof fn law_codes_are_stable(urls: Seq<Seq<char>>, address: Seq<char>, code: Seq<u8>)
    requires
        resolution(urls, code) is Some,
    ensures
        resolution(urls.push(address), code) == resolution(urls, code),
{
}

/// A code resolves exactly if it was given out, and to the URL it was given
/// out for.
pub proof fn law_only_issued_codes_resolve(urls: Seq<Seq<char>>, code: Seq<u8>)
    requires
        urls.len() <= u64::MAX,
    ensures
        resolution(urls, code) is Some <==> exists|i: int|
            0 <= i < urls.len() && code == #[trigger] base62::encoding(i as nat),
        forall|i: int|
            0 <= i < urls.len() && code == #[trigger] base62::encoding(i as nat) ==> resolution(
                urls,
                code,
            ) == Some(urls[i]),
{
    if resolution(urls, code) is Some {
        base62::law_canonical(code);
        let i = base62::decoding(code).unwrap() as int;
        assert(code == base62::encoding(i as nat));
    }
    assert forall|i: int|
        0 <= i < urls.len() && code == #[trigger] base62::encoding(i as nat) implies resolution(
        urls,
        code,
    ) == Some(urls[i]) by {
        base62::law_roundtrip(i as u64);
    }
}

/// Two URLs stored one after the other get different codes.
pub proof fn law_codes_are_unique(i: int, j: int)
    requires
        0 <= i < j <= u64::MAX,
    ensures
        base62::encoding(i as nat) != base62::encoding(j as nat),
{
    base62::law_codes_differ(i as u64, j as u64);
}

/// The rows that a store's URLs make load again to the same URLs, with every
/// capacity that is not below their number and with no other.
pub proof fn law_reopen(store: Store, rows: Seq<(i64, String)>, capacity: int)
    requires
        store.wf(),
        rows.len() == store@.len(),
        forall|i: int|
            0 <= i < rows.len() ==> (#[trigger] rows[i]).0 == i && rows[i].1@ == store@[i],
        0 <= capacity,
    ensures
        rows_fit(rows, rows.len() as int, capacity) <==> rows.len() <= capacity,
        rows.len() <= store.spec_capacity(),
        addresses(rows) == store@,
{
    store.law_store_is_sound();
    assert forall|i: int| 0 <= i < rows.len() && i < capacity implies #[trigger] row_fault(
        rows,
        i,
        capacity,
    ) is None by {
        assert(rows[i].0 == i && rows[i].1@ == store@[i]);
    }
    if capacity < rows.len() {
        let last = rows.len() - 1;
        assert(rows[last].0 == last);
        assert(row_fault(rows, last, capacity) is Some);
    }
    assert(addresses(rows) =~= store@);
}

impl Default for Store {
    fn default() -> (res: Store)
        ensures
            res.wf(),
            res@ == Seq::<Seq<char>>::empty(),
            res.spec_shards() == 64,
            res.spec_capacity() == 1_000_000,
    {
        Store::new()
    }
}

/// The least power of two that is not below `n`, if a store may have so many
/// shards.
pub fn rounded_shards(n: usize) -> (res: Option<usize>)
    ensures
        match res {
            Some(m) => {
                &&& is_power_of_two(m as int)
                &&& n <= m <= MAX_SHARDS
                &&& forall|p: int| is_power_of_two(p) && n <= p ==> m <= p
            },
            None => n > MAX_SHARDS,
        },
{
    if n > MAX_SHARDS {
        return None;
    }
    let mut m: usize = 1;
    let ghost mut k: nat = 0;
    proof {
        vstd::arithmetic::power2::lemma2_to64();
    }
    while m < n
        invariant
            n <= MAX_SHARDS,
            m == pow2(k),
            m <= MAX_SHARDS,
            k <= 12,
            k > 0 ==> pow2((k - 1) as nat) < n,
        decreases MAX_SHARDS - m,
    {
        proof {
            vstd::arithmetic::power2::lemma2_to64();
            vstd::arithmetic::power2::lemma_pow2_unfold(k + 1);
            k = k + 1;
            lemma_pow2_bound(k);
        }
        m = m * 2;
    }
    proof {
        assert forall|p: int| is_power_of_two(p) && n <= p implies m <= p by {
            let j = choose|j: nat| p == #[trigger] pow2(j);
            if j < k {
                if j < k - 1 {
                    vstd::arithmetic::power2::lemma_pow2_strictly_increases(j, (k - 1) as nat);
                }
            } else if k < j {
                vstd::arithmetic::power2::lemma_pow2_strictly_increases(k, j);
            }
        }
    }
    Some(m)
}

proof fn lemma_pow2_bound(k: nat)
    requires
        k <= 12,
    ensures
        pow2(k) <= 4096,
{
    vstd::arithmetic::power2::lemma2_to64();
    if k < 12 {
        vstd::arithmetic::power2::lemma_pow2_strictly_increases(k, 12);
    }
}

/// A preloaded store leads from the code of `i` to the `i`-th URL that load
/// runs ask for.
pub proof fn law_preloaded_urls_resolve(capacity: int, n: nat, i: nat)
    requires
        i < n <= capacity,
        n <= u64::MAX,
        forall|k: nat| k < n ==> links::valid_url(#[trigger] seeding::seed_url(k)),
    ensures
        resolution(preloaded(Seq::empty(), capacity, n), base62::encoding(i)) == Some(
            seeding::seed_url(i),
        ),
{
    lemma_preloaded(capacity, n);
    base62::law_roundtrip(i as u64);
}

proof fn lemma_preloaded(capacity: int, n: nat)
    requires
        n <= capacity,
        forall|k: nat| k < n ==> links::valid_url(#[trigger] seeding::seed_url(k)),
    ensures
        preloaded(Seq::empty(), capacity, n).len() == n,
        forall|k: nat|
            k < n ==> #[trigger] preloaded(Seq::empty(), capacity, n)[k as int]
                == seeding::seed_url(k),
    decreases n,
{
    if n > 0 {
        lemma_preloaded(capacity, (n - 1) as nat);
        let before = preloaded(Seq::empty(), capacity, (n - 1) as nat);
        assert(links::valid_url(seeding::seed_url((n - 1) as nat)));
        assert forall|k: nat| k < n implies #[trigger] preloaded(Seq::empty(), capacity, n)[k as int]
            == seeding::seed_url(k) by {
            if k < n - 1 {
                assert(before[k as int] == seeding::seed_url(k));
            }
        }
    }
}

/// Rows load exactly if each has its place as its number, is within the
/// capacity and has a URL that is accepted; the first that has not decides what
/// is wrong.
pub proof fn law_rows(rows: Seq<(i64, String)>, n: int, i: int, capacity: int)
    requires
        0 <= i < rows.len(),
        0 <= n <= rows.len(),
    ensures
        rows_fit(rows, n, capacity) <==> forall|k: int|
            0 <= k < n ==> (#[trigger] rows[k]).0 == k && k < capacity && links::valid_url(
                rows[k].1@,
            ),
        row_fault(rows, i, capacity) == Some(RowProblem::NegativeId) <==> rows[i].0 < 0,
        row_fault(rows, i, capacity) == Some(RowProblem::OutOfPlace) <==> rows[i].0 >= 0 && (
        rows[i].0 != i || i >= capacity),
        row_fault(rows, i, capacity) matches Some(RowProblem::InvalidUrl(reason)) ==> rows[i].0 == i
            && i < capacity && links::url_problem(rows[i].1@) == Some(reason),
        addresses(rows).len() == rows.len(),
        addresses(rows)[i] == rows[i].1@,
{
    if rows_fit(rows, n, capacity) {
        assert forall|k: int| 0 <= k < n implies (#[trigger] rows[k]).0 == k && k < capacity
            && links::valid_url(rows[k].1@) by {
            assert(row_fault(rows, k, capacity) is None);
        }
    }
    if forall|k: int|
        0 <= k < n ==> (#[trigger] rows[k]).0 == k && k < capacity && links::valid_url(
            rows[k].1@,
        ) {
        assert forall|k: int| 0 <= k < n implies #[trigger] row_fault(
            rows,
            k,
            capacity,
        ) is None by {
            assert(rows[k].0 == k);
        }
    }
}

/// Preloading stores the next URL of the series whenever it is accepted and
/// there is room, and else leaves all as it is.
pub proof fn law_preload(urls: Seq<Seq<char>>, capacity: int, n: nat)
    ensures
        ({
            let before = preloaded(urls, capacity, n);
            let after = preloaded(urls, capacity, n + 1);
            let next = "https://example.com/seed/"@ + crate::text::decimal(n);
            &&& preloaded(urls, capacity, 0) == urls
            &&& links::valid_url(next) && before.len() < capacity <==> after != before
            &&& after != before ==> after == before.push(next)
        }),
{
    let before = preloaded(urls, capacity, n);
    let next = "https://example.com/seed/"@ + crate::text::decimal(n);
    assert(before.push(next).len() != before.len());
}

/// A store has at most 4096 shards.
pub proof fn law_shard_limit()
    ensures
        MAX_SHARDS == 4096,
{
}

/// What is wrong with a row: a number below zero, one that is not the next or is
/// beyond the capacity, or a URL that is refused, in that order.
pub proof fn law_row_problems(place: int, id: i64, address: Seq<char>, capacity: int)
    ensures
        ({
            let problem = row_problem(place, id, address, capacity);
            &&& id < 0 ==> problem == Some(RowProblem::NegativeId)
            &&& id >= 0 && (id != place || id >= capacity) ==> problem == Some(
                RowProblem::OutOfPlace,
            )
            &&& id >= 0 && id == place && id < capacity ==> match links::url_problem(address) {
                Some(reason) => problem == Some(RowProblem::InvalidUrl(reason)),
                None => problem is None,
            }
        }),
        OpenError::NegativeId.problem() == RowProblem::NegativeId,
        OpenError::OutOfPlace.problem() == RowProblem::OutOfPlace,
        forall|reason: &'static str|
            (#[trigger] OpenError::InvalidUrl(reason).problem()) == RowProblem::InvalidUrl(reason@),
{
}

/// One is a power of two, and any other number is exactly if it is even and its
/// half is.
pub proof fn law_powers_of_two(n: int)
    requires
        n > 0,
    ensures
        is_power_of_two(n) <==> n == 1 || (n % 2 == 0 && is_power_of_two(n / 2)),
{
    vstd::arithmetic::power2::lemma2_to64();
    if is_power_of_two(n) && n != 1 {
        let k = choose|k: nat| n == #[trigger] pow2(k);
        vstd::arithmetic::power2::lemma_pow2_unfold(k);
        assert(n / 2 == pow2((k - 1) as nat));
    }
    if n == 1 {
        assert(n == pow2(0));
    }
    if n % 2 == 0 && is_power_of_two(n / 2) {
        let k = choose|k: nat| n / 2 == #[trigger] pow2(k);
        vstd::arithmetic::power2::lemma_pow2_unfold(k + 1);
        assert(n == pow2(k + 1));
    }
}

} // verus!
