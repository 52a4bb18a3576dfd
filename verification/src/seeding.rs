//! How a run gets the URLs that it asks for: each is stored, unless the server
//! has it already, and then asked for once.
use vstd::prelude::*;
use vstd::string::StringExecFns;
use vstd::utf8::encode_utf8;

use crate::base62;
use crate::client;
use crate::client::{Response, ResponseView, ShortenedError};
use crate::codes::CodeSet;
use crate::text;
use crate::workload::{Pool, PoolView, SeedView};

verus! {

/// The URL that the server has under a number when it is preloaded.
pub open spec fn seed_url(i: nat) -> Seq<char> {
    "https://example.com/seed/"@ + text::decimal(i)
}

pub fn write_seed_url(i: usize) -> (res: String)
    ensures
        res@ == seed_url(i as nat),
{
    let mut url = String::new();
    url.append("https://example.com/seed/");
    text::append_decimal(&mut url, i as u64);
    assert(url@ =~= seed_url(i as nat));
    url
}

/// Why the URLs cannot be had.
#[derive(Clone, Copy)]
pub enum SeedError {
    /// A URL was not stored as it should be.
    Answer(ShortenedError),
    /// A code was given out twice.
    Duplicate,
    /// A code did not lead to its URL.
    Redirect,
}

pub open spec fn seed_error_text(e: SeedError) -> Seq<char> {
    match e {
        SeedError::Answer(e) => client::shortened_error_text(e),
        SeedError::Duplicate => "duplicate seed code"@,
        SeedError::Redirect => "seed redirect mismatch"@,
    }
}

/// What is wrong, in words.
pub fn describe(e: SeedError) -> (res: String)
    ensures
        res@ == seed_error_text(e),
{
    match e {
        SeedError::Answer(e) => client::describe_shortened(e),
        SeedError::Duplicate => "duplicate seed code".to_owned(),
        SeedError::Redirect => "seed redirect mismatch".to_owned(),
    }
}

/// The state of getting the URLs.
pub struct Seeding {
    pool: Pool,
    total: usize,
    preloaded: bool,
    key: Option<String>,
    codes: CodeSet,
    code: Option<String>,
}

pub struct SeedingView {
    /// Those that were stored and asked for.
    pub pool: PoolView,
    /// How many there shall be.
    pub total: nat,
    pub preloaded: bool,
    pub key: Option<Seq<char>>,
    /// The code of the next, once it is known.
    pub code: Option<Seq<char>>,
}

impl View for Seeding {
    type V = SeedingView;

    closed spec fn view(&self) -> SeedingView {
        SeedingView {
            pool: self.pool@,
            total: self.total as nat,
            preloaded: self.preloaded,
            key: text::optional(self.key),
            code: text::optional(self.code),
        }
    }
}

impl SeedingView {
    /// The number of the next URL.
    pub open spec fn next(self) -> nat {
        self.pool.seeds.len()
    }

    /// Whether the codes are those that a preloaded server has, where it is one.
    pub open spec fn has_known_codes(self) -> bool {
        self.preloaded ==> {
            &&& forall|i: int|
                0 <= i < self.pool.seeds.len() ==> (#[trigger] self.pool.seeds[i]).code
                    == text::chars(base62::encoding(i as nat))
            &&& self.code matches Some(code) ==> code == text::chars(
                base62::encoding(self.next()),
            )
        }
    }

    pub open spec fn wf(self) -> bool {
        &&& self.pool.wf()
        &&& self.pool.seeds.len() <= self.total
        &&& self.has_known_codes()
        &&& forall|i: int|
            0 <= i < self.pool.seeds.len() ==> (#[trigger] self.pool.seeds[i]).url == seed_url(
                i as nat,
            )
        &&& self.code matches Some(code) ==> base62::canonical(encode_utf8(code))
            && !self.pool.has_code(code)
    }

    /// The code of the next URL becomes known.
    pub open spec fn with_code(self, code: Seq<char>) -> Result<SeedingView, SeedError> {
        if self.pool.has_code(code) {
            Err(SeedError::Duplicate)
        } else {
            Ok(SeedingView { code: Some(code), ..self })
        }
    }

    /// What is known before the next request. Of a preloaded server every
    /// code is.
    pub open spec fn prepared(self) -> Result<SeedingView, SeedError> {
        if self.next() < self.total && self.code is None && self.preloaded {
            self.with_code(text::chars(base62::encoding(self.next())))
        } else {
            Ok(self)
        }
    }

    /// The next request, if there is one: for the code of the next URL, or to
    /// store it.
    pub open spec fn request(self) -> Option<Seq<u8>> {
        if self.next() >= self.total {
            None
        } else {
            match self.code {
                Some(code) => Some(client::code_request(self.pool.authority, code)),
                None => Some(
                    client::shorten_request(self.pool.authority, self.key, seed_url(self.next())),
                ),
            }
        }
    }

    /// What the answer to that request leads to. Before a preloaded server was
    /// asked for a code there is none.
    pub open spec fn answered(self, r: ResponseView) -> Result<SeedingView, SeedError> {
        let url = seed_url(self.next());
        if self.next() >= self.total || (self.preloaded && self.code is None) {
            Ok(self)
        } else {
            match self.code {
                None => match client::shortened_code(r, url) {
                    Err(e) => Err(SeedError::Answer(e)),
                    Ok(code) => self.with_code(code),
                },
                Some(code) => if r.status == 302 && r.location == url {
                    Ok(SeedingView { pool: self.pool.with(code, url), code: None, ..self })
                } else {
                    Err(SeedError::Redirect)
                },
            }
        }
    }
}

impl Seeding {
    pub closed spec fn wf(&self) -> bool {
        &&& self.pool.wf()
        &&& self@.wf()
        &&& forall|code: Seq<char>|
            self.codes@.contains(#[trigger] encode_utf8(code)) <==> self@.pool.has_code(code)
                || self@.code == Some(code)
    }

    /// What holds of the state is seen in its view.
    pub proof fn lemma_wf(&self)
        requires
            self.wf(),
        ensures
            self@.wf(),
    {
    }

    /// No URL yet.
    pub fn new(authority: &str, total: usize, preloaded: bool, key: Option<String>) -> (res:
        Seeding)
        ensures
            res.wf(),
            res@ == (SeedingView {
                pool: PoolView { authority: authority@, seeds: Seq::empty() },
                total: total as nat,
                preloaded,
                key: text::optional(key),
                code: None,
            }),
    {
        let pool = Pool::new(authority);
        proof {
            pool.lemma_wf();
        }
        Seeding { pool, total, preloaded, key, codes: CodeSet::new(), code: None }
    }

    fn take_code(&mut self, code: String) -> (res: Result<(), SeedError>)
        requires
            old(self).wf(),
            old(self)@.code is None,
            base62::canonical(encode_utf8(code@)),
            old(self)@.preloaded ==> code@ == text::chars(base62::encoding(old(self)@.next())),
        ensures
            match res {
                Ok(_) => final(self).wf() && old(self)@.with_code(code@) == Ok::<
                    SeedingView,
                    SeedError,
                >(final(self)@),
                Err(e) => old(self)@.with_code(code@) == Err::<SeedingView, SeedError>(e),
            },
    {
        if !self.codes.insert(code.as_str()) {
            return Err(SeedError::Duplicate);
        }
        let ghost text = code@;
        self.code = Some(code);
        proof {
            assert forall|other: Seq<char>|
                self.codes@.contains(#[trigger] encode_utf8(other)) <==> self@.pool.has_code(other)
                    || self@.code == Some(other) by {
                if encode_utf8(other) == encode_utf8(text) {
                    text::lemma_utf8_injective(other, text);
                }
                assert(old(self).codes@.contains(encode_utf8(other)) <==> old(
                    self,
                )@.pool.has_code(other));
            }
        }
        Ok(())
    }

    /// The next request, if there is one.
    pub fn next(&mut self) -> (res: Result<Option<Vec<u8>>, SeedError>)
        requires
            old(self).wf(),
        ensures
            match res {
                Ok(request) => {
                    &&& final(self).wf()
                    &&& old(self)@.prepared() == Ok::<SeedingView, SeedError>(final(self)@)
                    &&& match request {
                        Some(bytes) => final(self)@.request() == Some(bytes@),
                        None => final(self)@.request() is None,
                    }
                },
                Err(e) => old(self)@.prepared() == Err::<SeedingView, SeedError>(e),
            },
    {
        let i = self.pool.len();
        if i >= self.total {
            return Ok(None);
        }
        if self.code.is_none() && self.preloaded {
            let code = base62::base62_encode(i as u64);
            proof {
                base62::law_roundtrip(i as u64);
            }
            match self.take_code(code) {
                Ok(_) => {},
                Err(e) => {
                    return Err(e);
                },
            }
        }
        match &self.code {
            Some(code) => Ok(Some(client::get_code(self.pool.authority(), code.as_str()))),
            None => {
                let url = write_seed_url(i);
                Ok(Some(client::post_url(self.pool.authority(), &self.key, url.as_str())))
            },
        }
    }

    /// Takes in the answer to that request.
    pub fn receive(&mut self, r: &Response) -> (res: Result<(), SeedError>)
        requires
            old(self).wf(),
        ensures
            match res {
                Ok(_) => final(self).wf() && old(self)@.answered(r@) == Ok::<
                    SeedingView,
                    SeedError,
                >(final(self)@),
                Err(e) => old(self)@.answered(r@) == Err::<SeedingView, SeedError>(e),
            },
    {
        let i = self.pool.len();
        if i >= self.total || (self.preloaded && self.code.is_none()) {
            return Ok(());
        }
        let url = write_seed_url(i);
        let ghost before = self@;
        match self.code.take() {
            None => match client::shortened(r, url.as_str()) {
                Err(e) => Err(SeedError::Answer(e)),
                Ok(code) => {
                    assert(self@ == before);
                    self.take_code(code)
                },
            },
            Some(code) => {
                if r.status != 302 || !text::equal(r.location.as_str(), url.as_str()) {
                    return Err(SeedError::Redirect);
                }
                self.pool.push(code.as_str(), url.as_str());
                proof {
                    self.pool.lemma_wf();
                    let seeds = self@.pool.seeds;
                    assert forall|other: Seq<char>|
                        self.codes@.contains(#[trigger] encode_utf8(other))
                            <==> self@.pool.has_code(other) || self@.code == Some(other) by {
                        assert(old(self).codes@.contains(encode_utf8(other)) <==> old(
                            self,
                        )@.pool.has_code(other) || old(self)@.code == Some(other));
                        if before.pool.has_code(other) {
                            let k = choose|k: int|
                                0 <= k < before.pool.seeds.len() && (
                                #[trigger] before.pool.seeds[k]).code == other;
                            assert(seeds[k].code == other);
                        }
                        if other == code@ {
                            assert(seeds[before.pool.seeds.len() as int].code == other);
                        }
                        if self@.pool.has_code(other) {
                            let k = choose|k: int|
                                0 <= k < seeds.len() && (#[trigger] seeds[k]).code == other;
                            if k < before.pool.seeds.len() {
                                assert(before.pool.seeds[k].code == other);
                            }
                        }
                    }
                    assert forall|k: int| 0 <= k < seeds.len() implies (
                    #[trigger] seeds[k]).url == seed_url(k as nat) by {
                        if k < before.pool.seeds.len() {
                            assert(seeds[k] == before.pool.seeds[k]);
                        }
                    }
                }
                Ok(())
            },
        }
    }

    /// How many URLs were stored and asked for.
    pub fn len(&self) -> (res: usize)
        ensures
            res == self@.next(),
    {
        self.pool.len()
    }

    /// The URLs that were stored and asked for: all of them, once there is no
    /// next request.
    pub fn finish(self) -> (res: Pool)
        requires
            self.wf(),
        ensures
            res.wf(),
            res@ == self@.pool,
            res@.seeds.len() <= self@.total,
            self@.request() is None ==> res@.seeds.len() == self@.total,
            forall|i: int|
                0 <= i < res@.seeds.len() ==> (#[trigger] res@.seeds[i]).url == seed_url(i as nat),
            self@.preloaded ==> forall|i: int|
                0 <= i < res@.seeds.len() ==> (#[trigger] res@.seeds[i]).code == text::chars(
                    base62::encoding(i as nat),
                ),
    {
        self.pool
    }
}

/// Of a preloaded server every code is known: the next is that of the next
/// number, and no duplicate.
pub proof fn law_preloaded_codes_are_numbers(s: SeedingView)
    requires
        s.wf(),
        s.preloaded,
        s.next() < s.total,
        s.next() <= u64::MAX,
        s.code is None,
    ensures
        s.prepared() == Ok::<SeedingView, SeedError>(
            SeedingView { code: Some(text::chars(base62::encoding(s.next()))), ..s },
        ),
{
    let code = text::chars(base62::encoding(s.next()));
    if s.pool.has_code(code) {
        let i = choose|i: int|
            0 <= i < s.pool.seeds.len() && (#[trigger] s.pool.seeds[i]).code == code;
        base62::law_codes_differ(i as u64, s.next() as u64);
        let a = base62::encoding(i as nat);
        let b = base62::encoding(s.next());
        assert(text::chars(a) == text::chars(b));
        assert(text::chars(a).len() == a.len() && text::chars(b).len() == b.len());
        assert forall|k: int| 0 <= k < a.len() implies a[k] == b[k] by {
            assert(text::chars(a)[k] == text::chars(b)[k]);
            assert(text::chars(a)[k] == a[k] as char);
            assert(text::chars(b)[k] == b[k] as char);
        }
        assert(a =~= b);
    }
}

/// A URL is asked for under the code that it was stored under, and counts as had
/// exactly if that redirects to it; a code that another has is a duplicate.
pub proof fn law_seeds_are_checked(s: SeedingView, r: ResponseView)
    requires
        s.pool.seeds.len() < s.total,
    ensures
        ({
            let i = s.pool.seeds.len();
            let url = "https://example.com/seed/"@ + text::decimal(i);
            let known = |code: Seq<char>|
                exists|k: int| 0 <= k < i && (#[trigger] s.pool.seeds[k]).code == code;
            &&& s.code matches Some(code) ==> {
                &&& s.request() == Some(client::get_request(s.pool.authority, "/"@ + code))
                &&& s.answered(r) is Ok <==> r.status == 302 && r.location == url
                &&& s.answered(r) matches Ok(t) ==> t == (SeedingView {
                    pool: PoolView { seeds: s.pool.seeds.push(SeedView { code, url }), ..s.pool },
                    code: None,
                    ..s
                })
                &&& s.prepared() == Ok::<SeedingView, SeedError>(s)
                &&& s.answered(r) matches Err(e) ==> e == SeedError::Redirect
            }
            &&& s.code is None && !s.preloaded ==> {
                &&& s.prepared() == Ok::<SeedingView, SeedError>(s)
                &&& s.request() == Some(client::shorten_request(s.pool.authority, s.key, url))
                &&& match client::shortened_code(r, url) {
                    Ok(code) => if known(code) {
                        s.answered(r) == Err::<SeedingView, SeedError>(SeedError::Duplicate)
                    } else {
                        s.answered(r) == Ok::<SeedingView, SeedError>(
                            SeedingView { code: Some(code), ..s },
                        )
                    },
                    Err(e) => s.answered(r) == Err::<SeedingView, SeedError>(SeedError::Answer(e)),
                }
            }
        }),
        forall|t: SeedingView|
            t.pool.seeds.len() >= t.total ==> #[trigger] t.request() is None && t.prepared() == Ok::<
                SeedingView,
                SeedError,
            >(t) && t.answered(r) == Ok::<SeedingView, SeedError>(t),
        s.preloaded && s.code is None ==> s.answered(r) == Ok::<SeedingView, SeedError>(s),
{
}

/// The errors in words.
pub proof fn law_seed_error_texts(e: ShortenedError)
    ensures
        seed_error_text(SeedError::Answer(e)) == client::shortened_error_text(e),
        seed_error_text(SeedError::Duplicate) == "duplicate seed code"@,
        seed_error_text(SeedError::Redirect) == "seed redirect mismatch"@,
{
}

} // verus!
