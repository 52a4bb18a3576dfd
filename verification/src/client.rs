//! What a client sends, and what it makes of the answers.
use vstd::prelude::*;
use vstd::string::StringExecFns;
use vstd::utf8::{decode_utf8, encode_utf8, valid_utf8};

use crate::base62;
use crate::boundary;
use crate::bytes;
use crate::conn;
use crate::head;
use crate::head::{RawHeader, RawHeaderView};
use crate::json;
use crate::response;
use crate::text;

verus! {

/// The most headers a response may have.
pub const MAX_RESPONSE_HEADERS: usize = 32;

/// Where the head of a response has to end, in bytes.
pub const MAX_RESPONSE_HEAD: usize = 16384;

/// The longest body of a response, in bytes.
pub const MAX_RESPONSE_BODY: usize = 65536;

/// A status and headers as they were sent.
pub struct RawResponse {
    pub code: Option<u16>,
    pub headers: Vec<RawHeader>,
}

pub struct RawResponseView {
    pub code: Option<u16>,
    pub headers: Seq<RawHeaderView>,
}

impl View for RawResponse {
    type V = RawResponseView;

    open spec fn view(&self) -> RawResponseView {
        RawResponseView { code: self.code, headers: head::header_views(self.headers@) }
    }
}

/// A response.
pub struct Response {
    pub status: u16,
    /// Where it leads, or nothing.
    pub location: String,
    pub body: Vec<u8>,
}

pub struct ResponseView {
    pub status: u16,
    pub location: Seq<char>,
    pub body: Seq<u8>,
}

impl View for Response {
    type V = ResponseView;

    open spec fn view(&self) -> ResponseView {
        ResponseView { status: self.status, location: self.location@, body: self.body@ }
    }
}

/// Why a response is not understood.
#[derive(Clone, Copy)]
pub enum ResponseError {
    HeadTooLarge,
    Malformed,
    NoStatus,
    DuplicateLength,
    LengthText,
    LengthNumber,
    TransferEncoding,
    DuplicateLocation,
    LocationText,
    NoLength,
    BodyTooLarge,
}

/// Why the answer to a request to store a URL is not the expected one.
#[derive(Clone, Copy)]
pub enum ShortenedError {
    Status(u16),
    Json,
    NoCode,
    Mismatch,
}

pub open spec fn response_error_text(e: ResponseError) -> Seq<char> {
    match e {
        ResponseError::HeadTooLarge => "response head too large"@,
        ResponseError::Malformed => "bad response"@,
        ResponseError::NoStatus => "missing status"@,
        ResponseError::DuplicateLength => "duplicate response length"@,
        ResponseError::LengthText => "bad length"@,
        ResponseError::LengthNumber => "invalid numeric argument"@,
        ResponseError::TransferEncoding => "transfer encoding unsupported"@,
        ResponseError::DuplicateLocation => "duplicate location"@,
        ResponseError::LocationText => "invalid location"@,
        ResponseError::NoLength => "response requires content-length"@,
        ResponseError::BodyTooLarge => "response body too large"@,
    }
}

pub open spec fn shortened_error_text(e: ShortenedError) -> Seq<char> {
    match e {
        ShortenedError::Status(status) => "POST status "@ + text::decimal(status as nat),
        ShortenedError::Json => "invalid POST JSON"@,
        ShortenedError::NoCode => "missing code"@,
        ShortenedError::Mismatch => "POST mapping mismatch"@,
    }
}

/// What the headers of a response say, as far as they were read.
pub struct ResponseFields {
    pub length: Option<nat>,
    pub location: Option<Seq<char>>,
}

/// What a header adds to the fields.
pub open spec fn with_header(f: ResponseFields, h: RawHeaderView) -> Result<
    ResponseFields,
    ResponseError,
> {
    if head::named(h, "content-length"@) {
        let length = text::reading(text::unsigned(h.value));
        if f.length is Some {
            Err(ResponseError::DuplicateLength)
        } else if !valid_utf8(h.value) {
            Err(ResponseError::LengthText)
        } else if length is None {
            Err(ResponseError::LengthNumber)
        } else {
            Ok(ResponseFields { length, ..f })
        }
    } else if head::named(h, "transfer-encoding"@) {
        Err(ResponseError::TransferEncoding)
    } else if head::named(h, "location"@) {
        if f.location is Some {
            Err(ResponseError::DuplicateLocation)
        } else if !valid_utf8(h.value) {
            Err(ResponseError::LocationText)
        } else {
            Ok(ResponseFields { location: Some(decode_utf8(h.value)), ..f })
        }
    } else {
        Ok(f)
    }
}

/// What all the headers say, or the first error.
pub open spec fn fields(headers: Seq<RawHeaderView>) -> Result<ResponseFields, ResponseError>
    decreases headers.len(),
{
    if headers.len() == 0 {
        Ok(ResponseFields { length: None, location: None })
    } else {
        match fields(headers.drop_last()) {
            Err(e) => Err(e),
            Ok(f) => with_header(f, headers.last()),
        }
    }
}

/// The head of a response: its status, where it leads, and the length of its
/// body.
pub struct ResponseHead {
    pub status: u16,
    pub location: String,
    pub length: usize,
}

pub struct ResponseHeadView {
    pub status: u16,
    pub location: Seq<char>,
    pub length: nat,
}

impl View for ResponseHead {
    type V = ResponseHeadView;

    open spec fn view(&self) -> ResponseHeadView {
        ResponseHeadView {
            status: self.status,
            location: self.location@,
            length: self.length as nat,
        }
    }
}

/// The head that a status and headers make.
pub open spec fn response_head_of(raw: RawResponseView) -> Result<
    ResponseHeadView,
    ResponseError,
> {
    match raw.code {
        None => Err(ResponseError::NoStatus),
        Some(status) => match fields(raw.headers) {
            Err(e) => Err(e),
            Ok(f) => match f.length {
                None => Err(ResponseError::NoLength),
                Some(length) => if length > MAX_RESPONSE_BODY {
                    Err(ResponseError::BodyTooLarge)
                } else {
                    Ok(
                        ResponseHeadView {
                            status,
                            location: match f.location {
                                Some(l) => l,
                                None => Seq::empty(),
                            },
                            length,
                        },
                    )
                },
            },
        },
    }
}

/// The head that the bytes make.
pub open spec fn response_head(bytes: Seq<u8>) -> Result<ResponseHeadView, ResponseError> {
    match boundary::httparse_response(bytes, MAX_RESPONSE_HEADERS as nat) {
        None => Err(ResponseError::Malformed),
        Some(raw) => response_head_of(raw),
    }
}

/// What received bytes begin with.
pub enum Received {
    /// A part of a response.
    Part,
    /// A response of so many bytes.
    Whole(ResponseView, nat),
    /// What is no response.
    Bad(ResponseError),
}

pub open spec fn received(available: Seq<u8>) -> Received {
    match bytes::find(available, response::head_end()) {
        None => if available.len() > MAX_RESPONSE_HEAD {
            Received::Bad(ResponseError::HeadTooLarge)
        } else {
            Received::Part
        },
        Some(at) => if at > MAX_RESPONSE_HEAD {
            Received::Bad(ResponseError::HeadTooLarge)
        } else {
            match response_head(available.take(at + 4)) {
                Err(e) => Received::Bad(e),
                Ok(h) => {
                    let total = at + 4 + h.length;
                    if available.len() >= total {
                        Received::Whole(
                            ResponseView {
                                status: h.status,
                                location: h.location,
                                body: available.subrange(at + 4, total),
                            },
                            total as nat,
                        )
                    } else {
                        Received::Part
                    }
                },
            }
        },
    }
}

/// The text of a request.
pub open spec fn request_text(
    authority: Seq<char>,
    key: Option<Seq<char>>,
    method: Seq<char>,
    path: Seq<char>,
    body: Seq<char>,
) -> Seq<char> {
    let line = method + " "@ + path + " HTTP/1.1\r\nHost: "@ + authority + "\r\n"@;
    let post = if method == "POST"@ {
        let length = "Content-Type: application/json\r\nContent-Length: "@ + text::decimal(
            encode_utf8(body).len(),
        ) + "\r\n"@;
        match key {
            Some(k) => length + "Authorization: Bearer "@ + k + "\r\n"@,
            None => length,
        }
    } else {
        Seq::empty()
    };
    line + post + "\r\n"@ + body
}

/// The bytes of a request for a path.
pub open spec fn get_request(authority: Seq<char>, path: Seq<char>) -> Seq<u8> {
    encode_utf8(request_text(authority, None, "GET"@, path, Seq::empty()))
}

/// The bytes of a request for a code.
pub open spec fn code_request(authority: Seq<char>, code: Seq<char>) -> Seq<u8> {
    get_request(authority, "/"@ + code)
}

/// The bytes of a request to store a URL.
pub open spec fn shorten_request(
    authority: Seq<char>,
    key: Option<Seq<char>>,
    url: Seq<char>,
) -> Seq<u8> {
    encode_utf8(
        request_text(authority, key, "POST"@, "/api/shorten"@, json::shorten_body(url)),
    )
}

/// The code in the answer to a request to store a URL, given its status and
/// what its body holds as the code and as the URL.
pub open spec fn stored_code(
    status: u16,
    code: Option<Option<Seq<char>>>,
    long_url: Option<Option<Seq<char>>>,
    url: Seq<char>,
) -> Result<Seq<char>, ShortenedError> {
    if status != 201 {
        Err(ShortenedError::Status(status))
    } else {
        match code {
            None => Err(ShortenedError::Json),
            Some(None) => Err(ShortenedError::NoCode),
            Some(Some(code)) => if long_url == Some(Some(url)) && base62::canonical(
                encode_utf8(code),
            ) {
                Ok(code)
            } else {
                Err(ShortenedError::Mismatch)
            },
        }
    }
}

/// The code that the answer to a request to store a URL gives.
pub open spec fn shortened_code(r: ResponseView, url: Seq<char>) -> Result<
    Seq<char>,
    ShortenedError,
> {
    stored_code(
        r.status,
        boundary::json_member(r.body, "code"@),
        boundary::json_member(r.body, "long_url"@),
        url,
    )
}

/// What a response error is in words.
pub fn describe(e: ResponseError) -> (res: &'static str)
    ensures
        res@ == response_error_text(e),
{
    match e {
        ResponseError::HeadTooLarge => "response head too large",
        ResponseError::Malformed => "bad response",
        ResponseError::NoStatus => "missing status",
        ResponseError::DuplicateLength => "duplicate response length",
        ResponseError::LengthText => "bad length",
        ResponseError::LengthNumber => "invalid numeric argument",
        ResponseError::TransferEncoding => "transfer encoding unsupported",
        ResponseError::DuplicateLocation => "duplicate location",
        ResponseError::LocationText => "invalid location",
        ResponseError::NoLength => "response requires content-length",
        ResponseError::BodyTooLarge => "response body too large",
    }
}

/// What is wrong with an answer, in words.
pub fn describe_shortened(e: ShortenedError) -> (res: String)
    ensures
        res@ == shortened_error_text(e),
{
    match e {
        ShortenedError::Status(status) => {
            let mut out = String::new();
            out.append("POST status ");
            text::append_decimal(&mut out, status as u64);
            assert(out@ =~= shortened_error_text(e));
            out
        },
        ShortenedError::Json => "invalid POST JSON".to_owned(),
        ShortenedError::NoCode => "missing code".to_owned(),
        ShortenedError::Mismatch => "POST mapping mismatch".to_owned(),
    }
}

struct Scan {
    length: Option<usize>,
    location: Option<String>,
}

impl Scan {
    spec fn fields(self) -> ResponseFields {
        ResponseFields {
            length: match self.length {
                Some(n) => Some(n as nat),
                None => None,
            },
            location: text::optional(self.location),
        }
    }

    fn read(&mut self, h: &RawHeader) -> (res: Result<(), ResponseError>)
        ensures
            match res {
                Ok(_) => with_header(old(self).fields(), h@) == Ok::<
                    ResponseFields,
                    ResponseError,
                >(final(self).fields()),
                Err(e) => with_header(old(self).fields(), h@) == Err::<
                    ResponseFields,
                    ResponseError,
                >(e),
            },
    {
        let value = h.value.as_slice();
        let name = h.name.as_slice();
        if bytes::equal_ignoring_case(name, "content-length".as_bytes()) {
            if self.length.is_some() {
                return Err(ResponseError::DuplicateLength);
            }
            if core::str::from_utf8(value).is_err() {
                return Err(ResponseError::LengthText);
            }
            match text::read_number(text::without_plus(value)) {
                None => {
                    return Err(ResponseError::LengthNumber);
                },
                Some(n) => {
                    self.length = Some(n);
                },
            }
        } else if bytes::equal_ignoring_case(name, "transfer-encoding".as_bytes()) {
            return Err(ResponseError::TransferEncoding);
        } else if bytes::equal_ignoring_case(name, "location".as_bytes()) {
            if self.location.is_some() {
                return Err(ResponseError::DuplicateLocation);
            }
            match core::str::from_utf8(value) {
                Err(_) => {
                    return Err(ResponseError::LocationText);
                },
                Ok(location) => {
                    self.location = Some(location.to_owned());
                },
            }
        }
        Ok(())
    }
}

/// Decides on the status and headers of a response.
pub fn check_response(raw: &RawResponse) -> (res: Result<ResponseHead, ResponseError>)
    ensures
        match res {
            Ok(h) => response_head_of(raw@) == Ok::<ResponseHeadView, ResponseError>(h@),
            Err(e) => response_head_of(raw@) == Err::<ResponseHeadView, ResponseError>(e),
        },
{
    let status = match raw.code {
        None => {
            return Err(ResponseError::NoStatus);
        },
        Some(status) => status,
    };
    let mut scan = Scan { length: None, location: None };
    let ghost all = head::header_views(raw.headers@);
    let mut i: usize = 0;
    assert(all.take(0) =~= Seq::empty());
    while i < raw.headers.len()
        invariant
            i <= raw.headers.len(),
            all == head::header_views(raw.headers@),
            raw.code == Some(status),
            fields(all.take(i as int)) == Ok::<ResponseFields, ResponseError>(scan.fields()),
        decreases raw.headers.len() - i,
    {
        let ghost upto = all.take(i + 1);
        assert(upto.drop_last() =~= all.take(i as int));
        assert(upto.last() == raw.headers@[i as int]@);
        match scan.read(&raw.headers[i]) {
            Ok(_) => {},
            Err(e) => {
                proof {
                    lemma_fields_stop(all, i + 1);
                }
                return Err(e);
            },
        }
        i += 1;
    }
    assert(all.take(all.len() as int) =~= all);
    match scan.length {
        None => Err(ResponseError::NoLength),
        Some(length) => {
            if length > MAX_RESPONSE_BODY {
                return Err(ResponseError::BodyTooLarge);
            }
            let location = match scan.location {
                Some(location) => location,
                None => String::new(),
            };
            assert(scan.location is None ==> location@ =~= Seq::empty());
            Ok(ResponseHead { status, location, length })
        },
    }
}

/// An error in the first headers is the error of them all.
proof fn lemma_fields_stop(headers: Seq<RawHeaderView>, n: int)
    requires
        0 <= n <= headers.len(),
        fields(headers.take(n)) is Err,
    ensures
        fields(headers) == fields(headers.take(n)),
    decreases headers.len() - n,
{
    if n == headers.len() {
        assert(headers.take(n) =~= headers);
    } else {
        assert(headers.take(n + 1).drop_last() =~= headers.take(n));
        lemma_fields_stop(headers, n + 1);
    }
}

/// Parses the head of a response.
pub fn parse_response_head(bytes: &[u8]) -> (res: Result<ResponseHead, ResponseError>)
    ensures
        match res {
            Ok(h) => response_head(bytes@) == Ok::<ResponseHeadView, ResponseError>(h@),
            Err(e) => response_head(bytes@) == Err::<ResponseHeadView, ResponseError>(e),
        },
{
    match boundary::parse_response(bytes, MAX_RESPONSE_HEADERS) {
        Err(_) => Err(ResponseError::Malformed),
        Ok(raw) => check_response(&raw),
    }
}

/// The bytes that were received and not yet taken as responses.
pub struct Inbox {
    buf: Vec<u8>,
    offset: usize,
}

impl View for Inbox {
    type V = Seq<u8>;

    closed spec fn view(&self) -> Seq<u8> {
        self.buf@.skip(self.offset as int)
    }
}

impl Inbox {
    pub closed spec fn wf(&self) -> bool {
        self.offset <= self.buf@.len()
    }

    pub fn new() -> (res: Inbox)
        ensures
            res.wf(),
            res@ == Seq::<u8>::empty(),
    {
        let res = Inbox { buf: Vec::new(), offset: 0 };
        assert(res@ =~= Seq::<u8>::empty());
        res
    }

    /// Takes in bytes that were received.
    pub fn feed(&mut self, bytes: &[u8])
        requires
            old(self).wf(),
        ensures
            final(self).wf(),
            final(self)@ == old(self)@ + bytes@,
    {
        self.buf.extend_from_slice(bytes);
        assert(self@ =~= old(self)@ + bytes@);
    }

    /// Takes the response that the bytes begin with. Where it is not whole,
    /// there is none, and nothing is taken.
    pub fn response(&mut self) -> (res: Result<Option<Response>, ResponseError>)
        requires
            old(self).wf(),
        ensures
            final(self).wf(),
            match received(old(self)@) {
                Received::Part => res matches Ok(None) && final(self)@ == old(self)@,
                Received::Bad(e) => {
                    &&& res == Err::<Option<Response>, ResponseError>(e)
                    &&& final(self)@ == old(self)@
                },
                Received::Whole(view, n) => {
                    &&& res matches Ok(Some(response))
                    &&& response@ == view
                    &&& n <= old(self)@.len()
                    &&& final(self)@ == old(self)@.skip(n as int)
                },
            },
    {
        let available = &self.buf.as_slice()[self.offset..self.buf.len()];
        assert(available@ =~= self@);
        match conn::find_head(available) {
            None => {
                if available.len() > MAX_RESPONSE_HEAD {
                    return Err(ResponseError::HeadTooLarge);
                }
            },
            Some(n) => {
                if n - 4 > MAX_RESPONSE_HEAD {
                    return Err(ResponseError::HeadTooLarge);
                }
                let front = &available[0..n];
                assert(front@ =~= self@.take(n as int));
                match parse_response_head(front) {
                    Err(e) => {
                        return Err(e);
                    },
                    Ok(h) => {
                        if available.len() - n >= h.length {
                            let total = n + h.length;
                            let body = bytes::copy(&available[n..total]);
                            assert(body@ =~= self@.subrange(n as int, total as int));
                            self.offset = self.offset + total;
                            assert(self@ =~= old(self)@.skip(total as int));
                            return Ok(
                                Some(Response { status: h.status, location: h.location, body }),
                            );
                        }
                    },
                }
            },
        }
        if self.offset > 0 {
            let rest = self.buf.split_off(self.offset);
            self.buf = rest;
            self.offset = 0;
            assert(self@ =~= old(self)@);
        }
        Ok(None)
    }
}

/// The bytes of a request. Only a `POST` has a body's length, and the token
/// where there is one.
pub fn request(
    authority: &str,
    key: &Option<String>,
    method: &str,
    path: &str,
    body: &str,
) -> (res: Vec<u8>)
    ensures
        res@ == encode_utf8(
            request_text(authority@, text::optional(*key), method@, path@, body@),
        ),
{
    let mut out = String::new();
    out.append(method);
    out.append(" ");
    out.append(path);
    out.append(" HTTP/1.1\r\nHost: ");
    out.append(authority);
    out.append("\r\n");
    let ghost line = method@ + " "@ + path@ + " HTTP/1.1\r\nHost: "@ + authority@ + "\r\n"@;
    assert(out@ =~= line);
    let ghost mut post: Seq<char> = Seq::empty();
    if text::equal(method, "POST") {
        out.append("Content-Type: application/json\r\nContent-Length: ");
        text::append_decimal(&mut out, body.as_bytes().len() as u64);
        out.append("\r\n");
        proof {
            post = "Content-Type: application/json\r\nContent-Length: "@ + text::decimal(
                encode_utf8(body@).len(),
            ) + "\r\n"@;
            assert(out@ =~= line + post);
        }
        match key {
            Some(k) => {
                out.append("Authorization: Bearer ");
                out.append(k.as_str());
                out.append("\r\n");
                proof {
                    assert(out@ =~= line + (post + "Authorization: Bearer "@ + k@ + "\r\n"@));
                    post = post + "Authorization: Bearer "@ + k@ + "\r\n"@;
                }
            },
            None => {},
        }
    }
    assert(out@ =~= line + post);
    out.append("\r\n");
    out.append(body);
    assert(out@ =~= request_text(authority@, text::optional(*key), method@, path@, body@));
    bytes::copy(out.as_str().as_bytes())
}

/// The code in the answer to a request to store a URL.
pub fn shortened(r: &Response, expected: &str) -> (res: Result<String, ShortenedError>)
    ensures
        match res {
            Ok(code) => shortened_code(r@, expected@) == Ok::<Seq<char>, ShortenedError>(code@),
            Err(e) => shortened_code(r@, expected@) == Err::<Seq<char>, ShortenedError>(e),
        },
{
    let code = match boundary::json_string_member(r.body.as_slice(), "code") {
        Ok(code) => Some(code),
        Err(_) => None,
    };
    let long_url = match boundary::json_string_member(r.body.as_slice(), "long_url") {
        Ok(url) => Some(url),
        Err(_) => None,
    };
    judge_shortened(r.status, code, long_url, expected)
}

/// What was found under a name: nothing where the text is no JSON.
pub open spec fn member_view(member: Option<Option<String>>) -> Option<Option<Seq<char>>> {
    match member {
        Some(text) => Some(text::optional(text)),
        None => None,
    }
}

/// Decides on the answer to a request to store a URL.
pub fn judge_shortened(
    status: u16,
    code: Option<Option<String>>,
    long_url: Option<Option<String>>,
    expected: &str,
) -> (res: Result<String, ShortenedError>)
    ensures
        match res {
            Ok(found) => stored_code(
                status,
                member_view(code),
                member_view(long_url),
                expected@,
            ) == Ok::<Seq<char>, ShortenedError>(found@),
            Err(e) => stored_code(
                status,
                member_view(code),
                member_view(long_url),
                expected@,
            ) == Err::<Seq<char>, ShortenedError>(e),
        },
{
    if status != 201 {
        return Err(ShortenedError::Status(status));
    }
    let code = match code {
        None => {
            return Err(ShortenedError::Json);
        },
        Some(None) => {
            return Err(ShortenedError::NoCode);
        },
        Some(Some(code)) => code,
    };
    let same = match long_url {
        Some(Some(url)) => text::equal(url.as_str(), expected),
        _ => false,
    };
    if !same || base62::read_code(code.as_str().as_bytes()).is_none() {
        return Err(ShortenedError::Mismatch);
    }
    Ok(code)
}

/// A request for a path.
pub fn get(authority: &str, path: &str) -> (res: Vec<u8>)
    ensures
        res@ == get_request(authority@, path@),
{
    proof {
        reveal_strlit("");
        assert(""@ =~= Seq::empty());
    }
    request(authority, &None, "GET", path, "")
}

/// A request for a code.
pub fn get_code(authority: &str, code: &str) -> (res: Vec<u8>)
    ensures
        res@ == code_request(authority@, code@),
{
    let mut path = String::new();
    path.append("/");
    path.append(code);
    assert(path@ =~= "/"@ + code@);
    get(authority, path.as_str())
}

/// A request to store a URL.
pub fn post_url(authority: &str, key: &Option<String>, url: &str) -> (res: Vec<u8>)
    ensures
        res@ == shorten_request(authority@, text::optional(*key), url@),
{
    let body = json::write_shorten_body(url);
    request(authority, key, "POST", "/api/shorten", body.as_str())
}

/// The answer that reports a stored URL is accepted, and gives its code.
pub proof fn law_created_answer_is_accepted(
    r: ResponseView,
    code: Seq<char>,
    url: Seq<char>,
)
    requires
        r.status == 201,
        boundary::json_member(r.body, "code"@) == Some(Some(code)),
        boundary::json_member(r.body, "long_url"@) == Some(Some(url)),
        base62::canonical(encode_utf8(code)),
    ensures
        shortened_code(r, url) == Ok::<Seq<char>, ShortenedError>(code),
{
}

/// Once the head of a response is there, more bytes change nothing in a
/// response that is whole or that is not understood.
pub proof fn law_later_bytes_change_nothing(available: Seq<u8>, more: Seq<u8>)
    requires
        bytes::find(available, response::head_end()) is Some,
        received(available) !is Part,
    ensures
        received(available + more) == received(available),
{
    let all = available + more;
    let at = bytes::find(available, response::head_end()).unwrap();
    reveal_strlit("\r\n\r\n");
    vstd::utf8::is_ascii_chars_encode_utf8("\r\n\r\n"@);
    bytes::lemma_find_extends(available, more, response::head_end());
    assert(all.take(at + 4) =~= available.take(at + 4));
    match response_head(available.take(at + 4)) {
        Ok(h) => {
            let total = at + 4 + h.length;
            if available.len() >= total {
                assert(all.subrange(at + 4, total) =~= available.subrange(at + 4, total));
            }
        },
        Err(_) => {},
    }
}

/// Whether no header in front of the `i`th has the name.
pub open spec fn is_first(headers: Seq<RawHeaderView>, i: int, name: Seq<char>) -> bool {
    forall|j: int| 0 <= j < i ==> !head::named(#[trigger] headers[j], name)
}

/// Whether nothing is wrong with the `i`th header, behind those in front of it.
pub open spec fn fits(headers: Seq<RawHeaderView>, i: int) -> bool {
    let h = headers[i];
    &&& !head::named(h, "transfer-encoding"@)
    &&& head::named(h, "content-length"@) ==> {
        &&& is_first(headers, i, "content-length"@)
        &&& valid_utf8(h.value)
        &&& is_length(text::unsigned(h.value))
    }
    &&& head::named(h, "location"@) ==> {
        &&& is_first(headers, i, "location"@)
        &&& valid_utf8(h.value)
    }
}

/// One or more digits whose number a machine word holds.
pub open spec fn is_length(s: Seq<u8>) -> bool {
    &&& s.len() > 0
    &&& forall|k: int| 0 <= k < s.len() ==> 48 <= #[trigger] s[k] <= 57
    &&& text::number(s) <= usize::MAX
}

/// What is wrong with the `i`th header, where it does not fit.
pub open spec fn is_flaw(headers: Seq<RawHeaderView>, i: int, e: ResponseError) -> bool {
    let h = headers[i];
    if head::named(h, "transfer-encoding"@) {
        e == ResponseError::TransferEncoding
    } else if head::named(h, "content-length"@) {
        if !is_first(headers, i, "content-length"@) {
            e == ResponseError::DuplicateLength
        } else if !valid_utf8(h.value) {
            e == ResponseError::LengthText
        } else {
            e == ResponseError::LengthNumber
        }
    } else if !is_first(headers, i, "location"@) {
        e == ResponseError::DuplicateLocation
    } else {
        e == ResponseError::LocationText
    }
}

proof fn lemma_names(h: RawHeaderView)
    ensures
        head::named(h, "content-length"@) ==> h.name.len() == 14,
        head::named(h, "transfer-encoding"@) ==> h.name.len() == 17,
        head::named(h, "location"@) ==> h.name.len() == 8,
{
    reveal_strlit("content-length");
    reveal_strlit("transfer-encoding");
    reveal_strlit("location");
    vstd::utf8::is_ascii_chars_encode_utf8("content-length"@);
    vstd::utf8::is_ascii_chars_encode_utf8("transfer-encoding"@);
    vstd::utf8::is_ascii_chars_encode_utf8("location"@);
}

/// Where the headers are accepted, a field is there exactly if its header is,
/// and says the same.
proof fn lemma_fields_say(headers: Seq<RawHeaderView>)
    requires
        fields(headers) is Ok,
    ensures
        ({
            let f = fields(headers)->Ok_0;
            &&& f.length is Some <==> exists|i: int|
                0 <= i < headers.len() && head::named(#[trigger] headers[i], "content-length"@)
            &&& f.location is Some <==> exists|i: int|
                0 <= i < headers.len() && head::named(#[trigger] headers[i], "location"@)
            &&& forall|i: int|
                0 <= i < headers.len() && head::named(#[trigger] headers[i], "content-length"@)
                    ==> f.length == Some(text::number(text::unsigned(headers[i].value)))
            &&& forall|i: int|
                0 <= i < headers.len() && head::named(#[trigger] headers[i], "location"@)
                    ==> f.location == Some(decode_utf8(headers[i].value))
        }),
    decreases headers.len(),
{
    if headers.len() > 0 {
        let front = headers.drop_last();
        let h = headers.last();
        lemma_fields_say(front);
        lemma_names(h);
        text::law_reading(text::unsigned(h.value), usize::MAX as nat);
        assert(headers[headers.len() - 1] == h);
        assert forall|i: int| 0 <= i < front.len() implies front[i] == #[trigger] headers[i] by {}
        let f = fields(headers)->Ok_0;
        assert forall|i: int|
            0 <= i < headers.len() && head::named(
                #[trigger] headers[i],
                "content-length"@,
            ) implies f.length == Some(text::number(text::unsigned(headers[i].value))) by {
            if i < front.len() {
                assert(head::named(front[i], "content-length"@));
            }
        }
        assert forall|i: int|
            0 <= i < headers.len() && head::named(
                #[trigger] headers[i],
                "location"@,
            ) implies f.location == Some(decode_utf8(headers[i].value)) by {
            if i < front.len() {
                assert(head::named(front[i], "location"@));
            }
        }
    }
}

/// A header that fits is read, and one that does not is an error.
proof fn lemma_header_fits(headers: Seq<RawHeaderView>)
    requires
        headers.len() > 0,
        fields(headers.drop_last()) is Ok,
    ensures
        fields(headers) is Ok <==> fits(headers, headers.len() - 1),
        fields(headers) matches Err(e) ==> is_flaw(headers, headers.len() - 1, e),
{
    let front = headers.drop_last();
    let h = headers.last();
    let n = headers.len() - 1;
    lemma_fields_say(front);
    lemma_names(h);
    text::law_reading(text::unsigned(h.value), usize::MAX as nat);
    assert forall|i: int| 0 <= i < front.len() implies front[i] == #[trigger] headers[i] by {}
    assert(headers[n] == h);
    let f = fields(front)->Ok_0;
    assert(f.length is None <==> is_first(headers, n, "content-length"@));
    assert(f.location is None <==> is_first(headers, n, "location"@));
    assert(text::reading(text::unsigned(h.value)) is Some <==> is_length(text::unsigned(h.value)));
}

proof fn lemma_fits_in_front(headers: Seq<RawHeaderView>, i: int, e: ResponseError)
    requires
        0 <= i < headers.len() - 1,
    ensures
        fits(headers, i) == fits(headers.drop_last(), i),
        is_flaw(headers, i, e) == is_flaw(headers.drop_last(), i, e),
{
    let front = headers.drop_last();
    assert forall|j: int| 0 <= j < front.len() implies front[j] == #[trigger] headers[j] by {}
    assert(is_first(headers, i, "content-length"@) == is_first(front, i, "content-length"@));
    assert(is_first(headers, i, "location"@) == is_first(front, i, "location"@));
}

/// Headers are accepted exactly if each fits.
proof fn lemma_headers_fit(headers: Seq<RawHeaderView>)
    ensures
        fields(headers) is Ok <==> forall|i: int|
            0 <= i < headers.len() ==> #[trigger] fits(headers, i),
    decreases headers.len(),
{
    if headers.len() > 0 {
        let front = headers.drop_last();
        let n = headers.len() - 1;
        lemma_headers_fit(front);
        assert forall|i: int| 0 <= i < n implies #[trigger] fits(headers, i) == fits(front, i) by {
            lemma_fits_in_front(headers, i, ResponseError::NoStatus);
        }
        if fields(front) is Ok {
            lemma_header_fits(headers);
            if fits(headers, n) {
                assert forall|i: int| 0 <= i < headers.len() implies #[trigger] fits(headers, i) by {
                    if i < n {
                        assert(fits(front, i));
                    }
                }
            }
        } else {
            let i = choose|i: int| 0 <= i < front.len() && !#[trigger] fits(front, i);
            assert(!fits(headers, i));
        }
    }
}

/// The first header that does not fit decides on the error.
proof fn lemma_first_unfit(headers: Seq<RawHeaderView>, i: int)
    requires
        0 <= i < headers.len(),
        !fits(headers, i),
        forall|j: int| 0 <= j < i ==> #[trigger] fits(headers, j),
    ensures
        fields(headers) is Err,
        is_flaw(headers, i, fields(headers)->Err_0),
    decreases headers.len(),
{
    let front = headers.drop_last();
    assert forall|j: int| 0 <= j < front.len() implies #[trigger] fits(headers, j) == fits(
        front,
        j,
    ) by {
        lemma_fits_in_front(headers, j, ResponseError::NoStatus);
    }
    if i == headers.len() - 1 {
        lemma_headers_fit(front);
        assert forall|j: int| 0 <= j < front.len() implies #[trigger] fits(front, j) by {
            assert(fits(headers, j));
        }
        lemma_header_fits(headers);
    } else {
        assert forall|j: int| 0 <= j < i implies #[trigger] fits(front, j) by {
            assert(fits(headers, j));
        }
        assert(!fits(front, i));
        lemma_first_unfit(front, i);
        lemma_fits_in_front(headers, i, fields(front)->Err_0);
    }
}

/// The head of a response is understood exactly if there is a status, each header
/// fits, and one says a length of no more than 65536 bytes. It has that status,
/// that length, and the place that a `Location` header gives, or none.
pub proof fn law_understood_responses(raw: RawResponseView)
    ensures
        response_head_of(raw) is Ok <==> {
            &&& raw.code is Some
            &&& forall|i: int| 0 <= i < raw.headers.len() ==> #[trigger] fits(raw.headers, i)
            &&& exists|i: int|
                0 <= i < raw.headers.len() && head::named(
                    #[trigger] raw.headers[i],
                    "content-length"@,
                )
            &&& forall|i: int|
                0 <= i < raw.headers.len() && head::named(
                    #[trigger] raw.headers[i],
                    "content-length"@,
                ) ==> text::number(text::unsigned(raw.headers[i].value)) <= 65536
        },
        response_head_of(raw) matches Ok(h) ==> {
            &&& raw.code == Some(h.status)
            &&& forall|i: int|
                0 <= i < raw.headers.len() && head::named(
                    #[trigger] raw.headers[i],
                    "content-length"@,
                ) ==> h.length == text::number(text::unsigned(raw.headers[i].value))
            &&& forall|i: int|
                0 <= i < raw.headers.len() && head::named(#[trigger] raw.headers[i], "location"@)
                    ==> h.location == decode_utf8(raw.headers[i].value)
            &&& (forall|i: int|
                0 <= i < raw.headers.len() ==> !head::named(
                    #[trigger] raw.headers[i],
                    "location"@,
                )) ==> h.location.len() == 0
        },
{
    lemma_headers_fit(raw.headers);
    if fields(raw.headers) is Ok {
        lemma_fields_say(raw.headers);
    }
}

/// Which error a response has that is not understood.
pub proof fn law_errors_of_responses(raw: RawResponseView, i: int)
    ensures
        raw.code is None ==> response_head_of(raw) == Err::<ResponseHeadView, ResponseError>(
            ResponseError::NoStatus,
        ),
        raw.code is Some && 0 <= i < raw.headers.len() && !fits(raw.headers, i) && (forall|j: int|
            0 <= j < i ==> #[trigger] fits(raw.headers, j)) ==> response_head_of(raw) is Err
            && is_flaw(raw.headers, i, response_head_of(raw)->Err_0),
        raw.code is Some && (forall|j: int|
            0 <= j < raw.headers.len() ==> #[trigger] fits(raw.headers, j)) && response_head_of(
            raw,
        ) is Err ==> response_head_of(raw)->Err_0 == if exists|j: int|
            0 <= j < raw.headers.len() && head::named(#[trigger] raw.headers[j], "content-length"@) {
            ResponseError::BodyTooLarge
        } else {
            ResponseError::NoLength
        },
{
    let headers = raw.headers;
    lemma_headers_fit(headers);
    if 0 <= i < headers.len() && !fits(headers, i) && forall|j: int|
        0 <= j < i ==> #[trigger] fits(headers, j) {
        lemma_first_unfit(headers, i);
    }
    if fields(headers) is Ok {
        lemma_fields_say(headers);
    }
}

/// A response may have 32 headers.
pub proof fn law_response_heads(bytes: Seq<u8>)
    ensures
        match boundary::httparse_response(bytes, 32) {
            None => response_head(bytes) == Err::<ResponseHeadView, ResponseError>(
                ResponseError::Malformed,
            ),
            Some(raw) => response_head(bytes) == response_head_of(raw),
        },
{
}

/// A head that ends with its first empty line, and within 16384 bytes before that
/// line, is followed by as many bytes as it says, which are the body. The response
/// is whole as soon as they are there, whatever follows.
pub proof fn law_responses_are_taken(front: Seq<u8>, body: Seq<u8>, more: Seq<u8>)
    requires
        bytes::find(front, encode_utf8("\r\n\r\n"@)) == Some(front.len() - 4),
    ensures
        front.len() > 16388 ==> received(front + more) == Received::Bad(
            ResponseError::HeadTooLarge,
        ),
        front.len() <= 16388 ==> match response_head(front) {
            Err(e) => received(front + more) == Received::Bad(e),
            Ok(h) => {
                &&& body.len() < h.length ==> received(front + body) is Part
                &&& body.len() == h.length ==> received(front + body + more) == Received::Whole(
                    ResponseView { status: h.status, location: h.location, body },
                    front.len() + body.len(),
                )
            },
        },
{
    let end = encode_utf8("\r\n\r\n"@);
    let n = front.len() as int;
    reveal_strlit("\r\n\r\n");
    vstd::utf8::is_ascii_chars_encode_utf8("\r\n\r\n"@);
    bytes::lemma_find_extends(front, more, end);
    bytes::lemma_find_extends(front, body, end);
    bytes::lemma_find_extends(front, body + more, end);
    let all = front + body + more;
    assert(all =~= front + (body + more));
    assert((front + more).take(n) =~= front);
    assert((front + body).take(n) =~= front);
    assert(all.take(n) =~= front);
    assert(all.subrange(n, n + body.len()) =~= body);
}

/// Without an empty line there is a part of a response, of 16384 bytes at most.
pub proof fn law_parts_of_heads(available: Seq<u8>)
    requires
        bytes::find(available, encode_utf8("\r\n\r\n"@)) is None,
    ensures
        available.len() <= 16384 ==> received(available) is Part,
        available.len() > 16384 ==> received(available) == Received::Bad(
            ResponseError::HeadTooLarge,
        ),
{
}

/// A request is its line, the host, for a `POST` what it sends and the token where
/// there is one, an empty line and the body.
pub proof fn law_requests(
    authority: Seq<char>,
    key: Option<Seq<char>>,
    method: Seq<char>,
    path: Seq<char>,
    body: Seq<char>,
)
    ensures
        ({
            let line = method + " "@ + path + " HTTP/1.1\r\nHost: "@ + authority + "\r\n"@;
            let length = "Content-Type: application/json\r\nContent-Length: "@ + text::decimal(
                encode_utf8(body).len(),
            ) + "\r\n"@;
            let sent = request_text(authority, key, method, path, body);
            &&& method != "POST"@ ==> sent == line + "\r\n"@ + body
            &&& method == "POST"@ && key is None ==> sent == line + length + "\r\n"@ + body
            &&& method == "POST"@ && key is Some ==> sent == line + length
                + "Authorization: Bearer "@ + key->0 + "\r\n"@ + "\r\n"@ + body
        }),
{
    let line = method + " "@ + path + " HTTP/1.1\r\nHost: "@ + authority + "\r\n"@;
    let length = "Content-Type: application/json\r\nContent-Length: "@ + text::decimal(
        encode_utf8(body).len(),
    ) + "\r\n"@;
    let sent = request_text(authority, key, method, path, body);
    if method != "POST"@ {
        assert(sent =~= line + "\r\n"@ + body);
    } else if key is Some {
        assert(sent =~= line + length + "Authorization: Bearer "@ + key->0 + "\r\n"@ + "\r\n"@
            + body);
    }
}

/// A read asks for the path and sends nothing more; a code is asked for under the
/// root; a URL is sent as the body of a `POST`.
pub proof fn law_kinds_of_requests(
    authority: Seq<char>,
    key: Option<Seq<char>>,
    path: Seq<char>,
    code: Seq<char>,
    url: Seq<char>,
)
    ensures
        get_request(authority, path) == encode_utf8(
            "GET "@ + path + " HTTP/1.1\r\nHost: "@ + authority + "\r\n\r\n"@,
        ),
        code_request(authority, code) == get_request(authority, "/"@ + code),
        shorten_request(authority, key, url) == encode_utf8(
            request_text(authority, key, "POST"@, "/api/shorten"@, json::shorten_body(url)),
        ),
{
    reveal_strlit("GET");
    reveal_strlit("POST");
    reveal_strlit(" ");
    reveal_strlit("GET ");
    reveal_strlit("\r\n");
    reveal_strlit("\r\n\r\n");
    assert("GET"@.len() == 3 && "POST"@.len() == 4);
    assert("GET "@ =~= "GET"@ + " "@);
    assert("\r\n\r\n"@ =~= "\r\n"@ + "\r\n"@);
    law_requests(authority, None, "GET"@, path, Seq::empty());
    assert(request_text(authority, None, "GET"@, path, Seq::empty()) =~= "GET "@ + path
        + " HTTP/1.1\r\nHost: "@ + authority + "\r\n\r\n"@);
}

/// The answer to a request to store a URL gives a code exactly if its status is
/// 201, it names that URL, and the code is canonical.
pub proof fn law_stored_codes(
    status: u16,
    code: Option<Option<Seq<char>>>,
    long_url: Option<Option<Seq<char>>>,
    url: Seq<char>,
)
    ensures
        ({
            let found = stored_code(status, code, long_url, url);
            &&& found is Ok <==> status == 201 && long_url == Some(Some(url)) && (code matches Some(
                Some(c),
            ) && base62::canonical(encode_utf8(c)))
            &&& found matches Ok(c) ==> code == Some(Some(c))
            &&& status != 201 ==> found == Err::<Seq<char>, ShortenedError>(
                ShortenedError::Status(status),
            )
            &&& status == 201 && code is None ==> found == Err::<Seq<char>, ShortenedError>(
                ShortenedError::Json,
            )
            &&& status == 201 && code == Some(None::<Seq<char>>) ==> found == Err::<
                Seq<char>,
                ShortenedError,
            >(ShortenedError::NoCode)
            &&& status == 201 && found is Err && (code matches Some(Some(_))) ==> found == Err::<
                Seq<char>,
                ShortenedError,
            >(ShortenedError::Mismatch)
        }),
        forall|r: ResponseView|
            #[trigger] shortened_code(r, url) == stored_code(
                r.status,
                boundary::json_member(r.body, "code"@),
                boundary::json_member(r.body, "long_url"@),
                url,
            ),
{
}

/// The errors in words.
pub proof fn law_error_texts(status: u16)
    ensures
        response_error_text(ResponseError::HeadTooLarge) == "response head too large"@,
        response_error_text(ResponseError::Malformed) == "bad response"@,
        response_error_text(ResponseError::NoStatus) == "missing status"@,
        response_error_text(ResponseError::DuplicateLength) == "duplicate response length"@,
        response_error_text(ResponseError::LengthText) == "bad length"@,
        response_error_text(ResponseError::LengthNumber) == "invalid numeric argument"@,
        response_error_text(ResponseError::TransferEncoding) == "transfer encoding unsupported"@,
        response_error_text(ResponseError::DuplicateLocation) == "duplicate location"@,
        response_error_text(ResponseError::LocationText) == "invalid location"@,
        response_error_text(ResponseError::NoLength) == "response requires content-length"@,
        response_error_text(ResponseError::BodyTooLarge) == "response body too large"@,
        shortened_error_text(ShortenedError::Status(status)) == "POST status "@ + text::decimal(
            status as nat,
        ),
        shortened_error_text(ShortenedError::Json) == "invalid POST JSON"@,
        shortened_error_text(ShortenedError::NoCode) == "missing code"@,
        shortened_error_text(ShortenedError::Mismatch) == "POST mapping mismatch"@,
{
}

/// What was found is seen as it is.
pub proof fn law_members(text: String)
    ensures
        member_view(None) is None,
        member_view(Some(None)) == Some(None::<Seq<char>>),
        member_view(Some(Some(text))) == Some(Some(text@)),
{
}

} // verus!
