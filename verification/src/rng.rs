//! Reproducible random numbers: one stream for each worker.
use vstd::prelude::*;

verus! {

/// The odd number that sets the workers' streams apart.
pub const STREAM: u64 = 0x9e3779b97f4a7c15;

/// The multiplicative inverse of `STREAM` modulo 2^64.
const STREAM_INVERSE: u64 = 0xf1de83e19937733d;

/// The number that follows another.
pub open spec fn following(x: u64) -> u64 {
    let a = x ^ (x << 13u64);
    let b = a ^ (a >> 7u64);
    b ^ (b << 17u64)
}

/// The number that a worker's stream begins after.
pub open spec fn origin(id: u64) -> u64 {
    STREAM.wrapping_mul(id.wrapping_add(1))
}

/// A stream of numbers.
pub struct Rng {
    state: u64,
}

impl View for Rng {
    type V = u64;

    closed spec fn view(&self) -> u64 {
        self.state
    }
}

impl Rng {
    /// The stream of the worker with the number `id`.
    pub fn for_worker(id: u64) -> (res: Rng)
        ensures
            res@ == origin(id),
    {
        Rng { state: STREAM.wrapping_mul(id.wrapping_add(1)) }
    }

    /// The next number.
    pub fn next(&mut self) -> (res: u64)
        ensures
            res == following(old(self)@),
            final(self)@ == res,
    {
        let mut x = self.state;
        x = x ^ (x << 13u64);
        x = x ^ (x >> 7u64);
        x = x ^ (x << 17u64);
        self.state = x;
        x
    }

    /// Whether the 53 leading bits of the next number, as an integer, are
    /// below the threshold: true with the probability `threshold / 2^53`.
    pub fn chance(&mut self, threshold: u64) -> (res: bool)
        ensures
            res == (following(old(self)@) >> 11u64 < threshold),
            final(self)@ == following(old(self)@),
    {
        (self.next() >> 11u64) < threshold
    }

    /// An index below `n`.
    pub fn pick(&mut self, n: usize) -> (res: usize)
        requires
            n > 0,
        ensures
            res == (following(old(self)@) as usize) % n,
            res < n,
            final(self)@ == following(old(self)@),
    {
        let next = self.next();
        (#[verifier::truncate] (next as usize)) % n
    }
}

/// A stream that does not begin at zero never comes to zero, where it would
/// stand still.
pub proof fn law_stream_never_stalls(x: u64)
    requires
        x != 0,
    ensures
        following(x) != 0,
{
    let a = x ^ (x << 13u64);
    let b = a ^ (a >> 7u64);
    assert(x != 0 ==> x ^ (x << 13u64) != 0) by (bit_vector);
    assert(a != 0 ==> a ^ (a >> 7u64) != 0) by (bit_vector);
    assert(b != 0 ==> b ^ (b << 17u64) != 0) by (bit_vector);
}

/// No two numbers have the same one after them.
pub proof fn law_stream_is_injective(x: u64, y: u64)
    requires
        following(x) == following(y),
    ensures
        x == y,
{
    let a = x ^ (x << 13u64);
    let b = a ^ (a >> 7u64);
    let c = y ^ (y << 13u64);
    let d = c ^ (c >> 7u64);
    assert(b ^ (b << 17u64) == d ^ (d << 17u64) ==> b == d) by (bit_vector);
    assert(a ^ (a >> 7u64) == c ^ (c >> 7u64) ==> a == c) by (bit_vector);
    assert(x ^ (x << 13u64) == y ^ (y << 13u64) ==> x == y) by (bit_vector);
}

proof fn lemma_origin(id: u64)
    requires
        id < u64::MAX,
    ensures
        origin(id).wrapping_mul(STREAM_INVERSE) == id + 1,
{
    let m: int = id + 1;
    let k: int = 0x1_0000_0000_0000_0000;
    let p: int = STREAM as int * m;
    let inv: int = STREAM_INVERSE as int;
    assert(origin(id) == p % k);
    assert(STREAM as int * inv % k == 1) by (nonlinear_arith)
        requires
            inv == 0xf1de83e19937733dint,
            k == 0x1_0000_0000_0000_0000int,
    ;
    vstd::arithmetic::div_mod::lemma_mul_mod_noop_left(p, inv, k);
    assert((p % k) * inv % k == p * inv % k);
    assert(p * inv == (STREAM as int * inv) * m) by (nonlinear_arith)
        requires
            p == STREAM as int * m,
    ;
    vstd::arithmetic::div_mod::lemma_mul_mod_noop_left(STREAM as int * inv, m, k);
    assert(1 * m % k == m);
}

/// Every worker's stream begins at a number that is not zero, and different
/// workers' at different ones.
pub proof fn law_streams_begin_apart(i: u64, j: u64)
    requires
        i < u64::MAX,
        j < u64::MAX,
    ensures
        origin(i) != 0,
        origin(i) == origin(j) ==> i == j,
{
    lemma_origin(i);
    lemma_origin(j);
    if origin(i) == 0 {
        assert(0u64.wrapping_mul(STREAM_INVERSE) == 0);
    }
}

/// A number is followed by what it becomes when it is combined by exclusive or
/// with 2^13 times itself, the result with a 2^7-th of itself, and that with
/// 2^17 times itself, all modulo 2^64.
pub proof fn law_following(x: u64, a: u64, b: u64)
    requires
        a == x ^ (x * 0x2000 % 0x1_0000_0000_0000_0000) as u64,
        b == a ^ (a / 128),
    ensures
        following(x) == b ^ (b * 0x2_0000 % 0x1_0000_0000_0000_0000) as u64,
{
    assert(x << 13u64 == (x * 0x2000 % 0x1_0000_0000_0000_0000) as u64) by (bit_vector);
    assert(a >> 7u64 == a / 128) by (bit_vector);
    assert(b << 17u64 == (b * 0x2_0000 % 0x1_0000_0000_0000_0000) as u64) by (bit_vector);
}

/// What follows a combination is the combination of what follows.
pub proof fn law_following_is_linear(x: u64, y: u64)
    ensures
        following(x ^ y) == following(x) ^ following(y),
{
    let a = x ^ (x << 13u64);
    let c = y ^ (y << 13u64);
    let b = a ^ (a >> 7u64);
    let d = c ^ (c >> 7u64);
    assert((x ^ y) ^ ((x ^ y) << 13u64) == (x ^ (x << 13u64)) ^ (y ^ (y << 13u64))) by (bit_vector);
    assert((a ^ c) ^ ((a ^ c) >> 7u64) == (a ^ (a >> 7u64)) ^ (c ^ (c >> 7u64))) by (bit_vector);
    assert((b ^ d) ^ ((b ^ d) << 17u64) == (b ^ (b << 17u64)) ^ (d ^ (d << 17u64))) by (bit_vector);
}

/// The streams begin at the multiples of one number, modulo 2^64.
pub proof fn law_origins(id: u64)
    ensures
        origin(id) == 0x9e3779b97f4a7c15 * (id + 1) % 0x1_0000_0000_0000_0000,
{
}

} // verus!
