//! Calls into other crates and into the parts of std that have no
//! specification. Everything here is believed, not proved.
use vstd::prelude::*;
use vstd::utf8::encode_utf8;

use crate::bytes;
use crate::client::{RawResponse, RawResponseView};
use crate::head::{RawHeader, RawRequest, RawRequestView};
use crate::json;
use crate::links::{UrlParts, UrlPartsView};
use crate::stats;
use crate::stats::Shape;
use crate::text;
use std::sync::Arc;
use vstd::multiset::Multiset;

verus! {

/// The error of `core::str::from_utf8`.
#[verifier::external_type_specification]
#[verifier::external_body]
pub struct ExUtf8Error(core::str::Utf8Error);

/// `core::str::from_utf8` succeeds exactly on valid UTF-8, and the text it
/// returns is the one that the bytes encode.
pub assume_specification[ core::str::from_utf8 ](v: &[u8]) -> (res: Result<
    &str,
    core::str::Utf8Error,
>)
    ensures
        res is Ok <==> vstd::utf8::valid_utf8(v@),
        res matches Ok(s) ==> s@ == vstd::utf8::decode_utf8(v@),
;

/// `memchr::memmem::find` returns the index of the first occurrence of the
/// needle in the haystack, and `None` where the needle does not occur.
#[verifier::external_body]
pub(crate) fn first_match(haystack: &[u8], needle: &[u8]) -> (res: Option<usize>)
    ensures
        match res {
            Some(i) => bytes::first_at(haystack@, needle@, i as int),
            None => forall|i: int| !bytes::occurs_at(haystack@, needle@, i),
        },
{
    memchr::memmem::find(haystack, needle)
}

/// `subtle::ConstantTimeEq::ct_eq` on byte slices says whether they are equal:
/// the same length and the same bytes.
#[verifier::external_body]
pub(crate) fn constant_time_eq(a: &[u8], b: &[u8]) -> (res: bool)
    ensures
        res == (a@ == b@),
{
    bool::from(subtle::ConstantTimeEq::ct_eq(a, b))
}

/// `Arc::<str>::from` makes a shared copy of the text.
#[verifier::external_body]
pub(crate) fn share(text: &str) -> (res: Arc<str>)
    ensures
        res@ == text@,
{
    Arc::from(text)
}

/// The error of `url::Url::parse`.
#[verifier::external_type_specification]
#[verifier::external_body]
pub struct ExUrlParseError(url::ParseError);

/// What `url::Url::parse` makes of a text: the parts of the URL, or `None`
/// where the text is no absolute URL.
pub uninterp spec fn url_parts(text: Seq<char>) -> Option<UrlPartsView>;

/// `url::Url::parse`, with the parts that `Url`'s accessors give. What it
/// accepts is left to the crate and goes by the name `url_parts`; an `http`
/// URL has a port, its own or the scheme's.
#[verifier::external_body]
pub(crate) fn parse_url(text: &str) -> (res: Result<UrlParts, url::ParseError>)
    ensures
        match res {
            Ok(parts) => url_parts(text@) == Some(parts@),
            Err(_) => url_parts(text@) is None,
        },
        res matches Ok(parts) ==> (parts.scheme@ == "http"@ ==> parts.port is Some),
{
    let parsed = url::Url::parse(text)?;
    Ok(UrlParts {
        scheme: parsed.scheme().to_owned(),
        host: parsed.host_str().map(str::to_owned),
        port: parsed.port_or_known_default(),
        username: parsed.username().to_owned(),
        password: parsed.password().map(str::to_owned),
        path: parsed.path().to_owned(),
        query: parsed.query().map(str::to_owned),
        fragment: parsed.fragment().map(str::to_owned),
    })
}

/// A reading of the monotonic clock.
#[verifier::external_type_specification]
#[verifier::external_body]
pub struct ExInstant(std::time::Instant);

/// A reading of the wall clock.
#[verifier::external_type_specification]
#[verifier::external_body]
pub struct ExSystemTime(std::time::SystemTime);

/// The error of `SystemTime::duration_since`.
#[verifier::external_type_specification]
#[verifier::external_body]
pub struct ExSystemTimeError(std::time::SystemTimeError);

/// `Instant::now` reads the monotonic clock; nothing is claimed of what it
/// reads.
pub assume_specification[ std::time::Instant::now ]() -> std::time::Instant
;

/// `Instant::elapsed` reads the monotonic clock again; nothing is claimed of
/// the difference.
pub assume_specification[ std::time::Instant::elapsed ](
    earlier: &std::time::Instant,
) -> std::time::Duration
;

/// `Duration::as_secs` drops the fraction; a duration is opaque here, so
/// nothing is claimed of the number.
pub assume_specification[ std::time::Duration::as_secs ](span: &std::time::Duration) -> u64
;

/// `Duration::from_secs` makes a span of so many seconds; a duration is opaque
/// here, so nothing is claimed of the span.
pub assume_specification[ std::time::Duration::from_secs ](secs: u64) -> std::time::Duration
;

/// `SystemTime::now` reads the wall clock; nothing is claimed of what it reads.
pub assume_specification[ std::time::SystemTime::now ]() -> std::time::SystemTime
;

/// `SystemTime::duration_since` the Unix epoch; nothing is claimed of the
/// difference, which fails for a time before the epoch.
#[verifier::external_body]
pub(crate) fn since_epoch(time: std::time::SystemTime) -> Result<
    std::time::Duration,
    std::time::SystemTimeError,
> {
    time.duration_since(std::time::UNIX_EPOCH)
}

/// The error of `httparse`'s parsers.
#[verifier::external_type_specification]
#[verifier::external_body]
pub struct ExHttparseError(httparse::Error);

/// What `httparse::Request::parse` makes of the bytes, with room for `limit`
/// headers: the request line and the headers as far as it read them, or
/// `None` where it refuses the bytes.
pub uninterp spec fn httparse_request(head: Seq<u8>, limit: nat) -> Option<RawRequestView>;

/// `httparse::Request::parse` into `limit` headers, with the fields of the
/// request it fills. What it accepts is left to the crate and goes by the name
/// `httparse_request`.
#[verifier::external_body]
pub(crate) fn parse_request(head: &[u8], limit: usize) -> (res: Result<
    RawRequest,
    httparse::Error,
>)
    ensures
        match res {
            Ok(raw) => httparse_request(head@, limit as nat) == Some(raw@),
            Err(_) => httparse_request(head@, limit as nat) is None,
        },
{
    let mut headers = vec![httparse::EMPTY_HEADER; limit];
    let mut request = httparse::Request::new(&mut headers);
    let complete = request.parse(head)?.is_complete();
    Ok(RawRequest {
        complete,
        method: request.method.map(|m| m.as_bytes().to_vec()),
        path: request.path.map(|p| p.as_bytes().to_vec()),
        version: request.version,
        headers: request.headers.iter().map(|h| RawHeader {
            name: h.name.as_bytes().to_vec(),
            value: h.value.to_vec(),
        }).collect(),
    })
}

/// What `httparse::Response::parse` makes of the bytes, with room for `limit`
/// headers: the status and the headers as far as it read them, or `None` where
/// it refuses the bytes.
pub uninterp spec fn httparse_response(head: Seq<u8>, limit: nat) -> Option<RawResponseView>;

/// `httparse::Response::parse` into `limit` headers, with the fields of the
/// response it fills. What it accepts is left to the crate and goes by the
/// name `httparse_response`.
#[verifier::external_body]
pub(crate) fn parse_response(head: &[u8], limit: usize) -> (res: Result<
    RawResponse,
    httparse::Error,
>)
    ensures
        match res {
            Ok(raw) => httparse_response(head@, limit as nat) == Some(raw@),
            Err(_) => httparse_response(head@, limit as nat) is None,
        },
{
    let mut headers = vec![httparse::EMPTY_HEADER; limit];
    let mut response = httparse::Response::new(&mut headers);
    response.parse(head)?;
    Ok(RawResponse {
        code: response.code,
        headers: response.headers.iter().map(|h| RawHeader {
            name: h.name.as_bytes().to_vec(),
            value: h.value.to_vec(),
        }).collect(),
    })
}

/// Whether `http::uri::Authority` can be made of the bytes.
pub uninterp spec fn is_authority(s: Seq<u8>) -> bool;

/// `http::uri::Authority::try_from` on bytes. What it accepts is left to the
/// crate and goes by the name `is_authority`.
#[verifier::external_body]
pub(crate) fn parses_as_authority(s: &[u8]) -> (res: bool)
    ensures
        res == is_authority(s@),
{
    http::uri::Authority::try_from(s).is_ok()
}

/// The error of `serde_json`.
#[verifier::external_type_specification]
#[verifier::external_body]
pub struct ExJsonError(serde_json::Error);

/// What `serde_json` finds under a key: `None` where the bytes are no JSON
/// value, else the member of that name if the value is an object that has one
/// and the member is a string.
pub uninterp spec fn json_member(body: Seq<u8>, key: Seq<char>) -> Option<Option<Seq<char>>>;

/// `serde_json::from_slice` into a `Value`, then `Value::get` and
/// `Value::as_str`. What JSON is, is left to the crate and goes by the name
/// `json_member`.
#[verifier::external_body]
pub(crate) fn json_string_member(body: &[u8], key: &str) -> (res: Result<
    Option<String>,
    serde_json::Error,
>)
    ensures
        match res {
            Ok(member) => json_member(body@, key@) == Some(text::optional(member)),
            Err(_) => json_member(body@, key@) is None,
        },
{
    let value: serde_json::Value = serde_json::from_slice(body)?;
    Ok(value.get(key).and_then(|member| member.as_str()).map(str::to_owned))
}

/// `serde_json::Value::to_string` of an object whose members are strings:
/// compact text, the members in the order of their keys. Reading the text
/// gives each member back.
#[verifier::external_body]
pub(crate) fn json_object(members: &Vec<(String, String)>) -> (res: String)
    requires
        json::ascending(json::member_views(members@)),
    ensures
        res@ == json::object_text(json::member_views(members@)),
        forall|i: int|
            0 <= i < members@.len() ==> #[trigger] json_member(
                encode_utf8(res@),
                json::member_views(members@)[i].0,
            ) == Some(Some(json::member_views(members@)[i].1)),
{
    let map: serde_json::Map<String, serde_json::Value> = members.iter().map(
        |(key, value)| (key.clone(), serde_json::Value::String(value.clone())),
    ).collect();
    serde_json::Value::Object(map).to_string()
}

/// A histogram of `hdrhistogram`, with counts of 64 bits.
#[verifier::external_body]
pub struct Histogram {
    inner: hdrhistogram::Histogram<u64>,
}

/// The error of `hdrhistogram::Histogram::new_with_bounds`.
#[verifier::external_type_specification]
#[verifier::external_body]
pub struct ExCreationError(hdrhistogram::CreationError);

/// The error of `hdrhistogram::Histogram::record`.
#[verifier::external_type_specification]
#[verifier::external_body]
pub struct ExRecordError(hdrhistogram::RecordError);

/// The error of `hdrhistogram::Histogram::add`.
#[verifier::external_type_specification]
#[verifier::external_body]
pub struct ExAdditionError(hdrhistogram::AdditionError);

/// The values that a histogram counts, each as the least value that it cannot
/// be told from.
pub uninterp spec fn samples(h: Histogram) -> Multiset<u64>;

/// The bounds and the digits that a histogram was made with.
pub uninterp spec fn shape(h: Histogram) -> Shape;

/// `hdrhistogram::Histogram::new_with_bounds` makes an empty histogram that
/// does not grow. With one as the lower bound, three digits, and an upper
/// bound of at least two it does not fail.
#[verifier::external_body]
pub(crate) fn new_histogram(low: u64, high: u64, digits: u8) -> (res: Result<
    Histogram,
    hdrhistogram::CreationError,
>)
    requires
        low == 1,
        2 <= high,
        digits == 3,
    ensures
        res is Ok,
        samples(res->Ok_0) == Multiset::<u64>::empty(),
        shape(res->Ok_0) == (Shape { low, high, digits }),
{
    Ok(Histogram { inner: hdrhistogram::Histogram::new_with_bounds(low, high, digits)? })
}

/// `hdrhistogram::Histogram::record` counts a value up to the upper bound.
/// With one as the lower bound and three digits it tells every value below
/// 2048 from its neighbours, and above that what differs in the leading
/// eleven binary digits.
#[verifier::external_body]
pub(crate) fn record_value(h: &mut Histogram, value: u64) -> (res: Result<
    (),
    hdrhistogram::RecordError,
>)
    requires
        shape(*old(h)).low == 1,
        shape(*old(h)).digits == 3,
        value <= shape(*old(h)).high,
        samples(*old(h)).len() < u64::MAX,
    ensures
        res is Ok,
        samples(*final(h)) == samples(*old(h)).insert(stats::coarse(value)),
        shape(*final(h)) == shape(*old(h)),
{
    h.inner.record(value)
}

/// `hdrhistogram::Histogram::add` counts the other histogram's values too. It
/// does not fail where both were made alike with an upper bound below 2^62.
/// (With the highest bound there is, the greatest value that it knows itself to
/// hold is rounded down, and the greatest 64-bit number in the other histogram
/// is refused.)
#[verifier::external_body]
pub(crate) fn add_histogram(h: &mut Histogram, other: &Histogram) -> (res: Result<
    (),
    hdrhistogram::AdditionError,
>)
    requires
        shape(*old(h)) == shape(*other),
        shape(*old(h)).high < 0x4000_0000_0000_0000,
        samples(*old(h)).len() + samples(*other).len() <= u64::MAX,
    ensures
        res is Ok,
        samples(*final(h)) == samples(*old(h)).add(samples(*other)),
        shape(*final(h)) == shape(*old(h)),
{
    h.inner.add(&other.inner)
}

/// `hdrhistogram::Histogram::iter_recorded` goes through the values that were
/// counted, from the least up. For each it gives the greatest value that the
/// histogram cannot tell from it, and the count.
#[verifier::external_body]
pub(crate) fn recorded_values(h: &Histogram) -> (res: Vec<(u64, u64)>)
    requires
        shape(*h).low == 1,
        shape(*h).digits == 3,
        shape(*h).high < 0x4000_0000_0000_0000,
        samples(*h).len() <= u64::MAX,
    ensures
        stats::lists_samples(res@, samples(*h)),
{
    h.inner.iter_recorded().map(|v| (v.value_iterated_to(), v.count_at_value())).collect()
}

} // verus!
