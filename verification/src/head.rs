//! The head of an HTTP/1.x request: which heads are served, and what the
//! server needs to know of them.
use vstd::prelude::*;
use vstd::utf8::encode_utf8;

use crate::boundary;
use crate::bytes;
use crate::text;

verus! {

/// The most headers a request may have.
pub const MAX_HEADERS: usize = 64;

/// The longest head, in bytes.
pub const MAX_HEAD: usize = 16384;

/// The longest body, in bytes.
pub const MAX_BODY: usize = 8192;

/// A header as it was sent.
pub struct RawHeader {
    pub name: Vec<u8>,
    pub value: Vec<u8>,
}

/// A request line and headers as they were sent.
pub struct RawRequest {
    /// Whether the head was there to its end.
    pub complete: bool,
    pub method: Option<Vec<u8>>,
    pub path: Option<Vec<u8>>,
    /// The minor version of HTTP/1.
    pub version: Option<u8>,
    pub headers: Vec<RawHeader>,
}

pub struct RawHeaderView {
    pub name: Seq<u8>,
    pub value: Seq<u8>,
}

pub struct RawRequestView {
    pub complete: bool,
    pub method: Option<Seq<u8>>,
    pub path: Option<Seq<u8>>,
    pub version: Option<u8>,
    pub headers: Seq<RawHeaderView>,
}

impl View for RawHeader {
    type V = RawHeaderView;

    open spec fn view(&self) -> RawHeaderView {
        RawHeaderView { name: self.name@, value: self.value@ }
    }
}

/// The views of a list of headers.
pub open spec fn header_views(headers: Seq<RawHeader>) -> Seq<RawHeaderView> {
    Seq::new(headers.len(), |i: int| headers[i]@)
}

pub open spec fn optional_bytes(s: Option<Vec<u8>>) -> Option<Seq<u8>> {
    match s {
        Some(b) => Some(b@),
        None => None,
    }
}

impl View for RawRequest {
    type V = RawRequestView;

    open spec fn view(&self) -> RawRequestView {
        RawRequestView {
            complete: self.complete,
            method: optional_bytes(self.method),
            path: optional_bytes(self.path),
            version: self.version,
            headers: header_views(self.headers@),
        }
    }
}

/// A head that is served.
pub struct Parsed {
    pub method: Vec<u8>,
    /// The path with its query.
    pub path: Vec<u8>,
    pub content_length: usize,
    /// Whether the connection ends with this request.
    pub close: bool,
    /// Whether the client waits to be told to send the body.
    pub expect: bool,
    /// The value of the authorization header, or nothing.
    pub auth: Vec<u8>,
}

pub struct ParsedView {
    pub method: Seq<u8>,
    pub path: Seq<u8>,
    pub content_length: nat,
    pub close: bool,
    pub expect: bool,
    pub auth: Seq<u8>,
}

impl View for Parsed {
    type V = ParsedView;

    open spec fn view(&self) -> ParsedView {
        ParsedView {
            method: self.method@,
            path: self.path@,
            content_length: self.content_length as nat,
            close: self.close,
            expect: self.expect,
            auth: self.auth@,
        }
    }
}

/// What the headers say, as far as they were read.
pub struct Fields {
    pub length: Option<nat>,
    pub host: bool,
    pub close: bool,
    pub keep: bool,
    pub expect: bool,
    pub auth: Option<Seq<u8>>,
}

pub open spec fn no_fields() -> Fields {
    Fields {
        length: None,
        host: false,
        close: false,
        keep: false,
        expect: false,
        auth: None,
    }
}

pub open spec fn named(h: RawHeaderView, name: Seq<char>) -> bool {
    bytes::same_ignoring_case(h.name, encode_utf8(name))
}

pub open spec fn is_host_byte(b: u8) -> bool {
    ||| 48 <= b <= 57
    ||| 65 <= b <= 90
    ||| 97 <= b <= 122
    ||| b == 46
    ||| b == 45
    ||| b == 58
    ||| b == 91
    ||| b == 93
}

/// One or more letters, digits and `.-:[]`.
pub open spec fn has_host_bytes(v: Seq<u8>) -> bool {
    v.len() > 0 && forall|i: int| 0 <= i < v.len() ==> is_host_byte(#[trigger] v[i])
}

/// A host: letters, digits and `.-:[]` that make an authority.
pub open spec fn is_host(v: Seq<u8>) -> bool {
    has_host_bytes(v) && boundary::is_authority(v)
}

/// What a header adds to the fields, or the status of the refusal.
pub open spec fn with_header(f: Fields, h: RawHeaderView) -> Result<Fields, u16> {
    let v = bytes::trimmed(h.value);
    if named(h, "content-length"@) {
        if f.length is Some || text::reading(v) is None {
            Err(400)
        } else {
            Ok(Fields { length: text::reading(v), ..f })
        }
    } else if named(h, "transfer-encoding"@) {
        Err(400)
    } else if named(h, "host"@) {
        if f.host || !is_host(v) {
            Err(400)
        } else {
            Ok(Fields { host: true, ..f })
        }
    } else if named(h, "connection"@) {
        Ok(
            Fields {
                close: f.close || bytes::lists(v, encode_utf8("close"@)),
                keep: f.keep || bytes::lists(v, encode_utf8("keep-alive"@)),
                ..f
            },
        )
    } else if named(h, "expect"@) {
        if f.expect || !bytes::same_ignoring_case(v, encode_utf8("100-continue"@)) {
            Err(417)
        } else {
            Ok(Fields { expect: true, ..f })
        }
    } else if named(h, "authorization"@) {
        if f.auth is Some {
            Err(400)
        } else {
            Ok(Fields { auth: Some(v), ..f })
        }
    } else {
        Ok(f)
    }
}

/// What all the headers say, or the status of the first refusal.
pub open spec fn fields(headers: Seq<RawHeaderView>) -> Result<Fields, u16>
    decreases headers.len(),
{
    if headers.len() == 0 {
        Ok(no_fields())
    } else {
        match fields(headers.drop_last()) {
            Err(status) => Err(status),
            Ok(f) => with_header(f, headers.last()),
        }
    }
}

/// A path from the root, without a fragment.
pub open spec fn is_path(path: Seq<u8>) -> bool {
    path.len() > 0 && path[0] == 47 && !path.contains(35u8)
}

/// The head that a request has, or the status of its refusal.
pub open spec fn head_of(raw: RawRequestView) -> Result<ParsedView, u16> {
    if !raw.complete {
        Err(400)
    } else {
        match fields(raw.headers) {
            Err(status) => Err(status),
            Ok(f) => {
                let length = match f.length {
                    Some(n) => n,
                    None => 0,
                };
                if raw.version == Some(1u8) && !f.host {
                    Err(400)
                } else if raw.path is None || !is_path(raw.path.unwrap()) {
                    Err(400)
                } else if length > MAX_BODY {
                    Err(413)
                } else if raw.method is None {
                    Err(400)
                } else {
                    Ok(
                        ParsedView {
                            method: raw.method.unwrap(),
                            path: raw.path.unwrap(),
                            content_length: length,
                            close: f.close || (raw.version == Some(0u8) && !f.keep),
                            expect: f.expect,
                            auth: match f.auth {
                                Some(v) => v,
                                None => Seq::empty(),
                            },
                        },
                    )
                }
            },
        }
    }
}

/// The head that the bytes make, or the status of the refusal.
pub open spec fn parsed_head(head: Seq<u8>) -> Result<ParsedView, u16> {
    match boundary::httparse_request(head, MAX_HEADERS as nat) {
        None => Err(400),
        Some(raw) => head_of(raw),
    }
}

/// Decides whether the bytes are those of a host.
pub fn host_bytes_ok(v: &[u8]) -> (res: bool)
    ensures
        res == has_host_bytes(v@),
{
    if v.len() == 0 {
        return false;
    }
    let mut i: usize = 0;
    while i < v.len()
        invariant
            i <= v.len(),
            forall|j: int| 0 <= j < i ==> is_host_byte(#[trigger] v@[j]),
        decreases v.len() - i,
    {
        let b = v[i];
        if !((48 <= b && b <= 57) || (65 <= b && b <= 90) || (97 <= b && b <= 122) || b == 46 || b
            == 45 || b == 58 || b == 91 || b == 93) {
            assert(!is_host_byte(v@[i as int]));
            return false;
        }
        i += 1;
    }
    true
}

fn host_ok(v: &[u8]) -> (res: bool)
    ensures
        res == is_host(v@),
{
    host_bytes_ok(v) && boundary::parses_as_authority(v)
}

fn path_ok(path: &[u8]) -> (res: bool)
    ensures
        res == is_path(path@),
{
    let mark = bytes::index_of(path, 35);
    proof {
        bytes::lemma_span_to(path@, 35);
        if path@.contains(35u8) {
            let i = choose|i: int| 0 <= i < path@.len() && path@[i] == 35u8;
            assert(mark <= i);
        }
    }
    path.len() > 0 && path[0] == 47 && mark == path.len()
}

fn is_named(h: &RawHeader, name: &str) -> (res: bool)
    ensures
        res == named(h@, name@),
{
    bytes::equal_ignoring_case(h.name.as_slice(), name.as_bytes())
}

/// What was read so far, in the server's own terms.
struct Scan {
    length: Option<usize>,
    host: bool,
    close: bool,
    keep: bool,
    expect: bool,
    auth: Option<Vec<u8>>,
}

impl Scan {
    spec fn fields(self) -> Fields {
        Fields {
            length: match self.length {
                Some(n) => Some(n as nat),
                None => None,
            },
            host: self.host,
            close: self.close,
            keep: self.keep,
            expect: self.expect,
            auth: optional_bytes(self.auth),
        }
    }

    fn read(&mut self, h: &RawHeader) -> (res: Result<(), u16>)
        ensures
            match res {
                Ok(_) => with_header(old(self).fields(), h@) == Ok::<Fields, u16>(
                    final(self).fields(),
                ),
                Err(status) => with_header(old(self).fields(), h@) == Err::<Fields, u16>(status),
            },
    {
        let v = bytes::trim(h.value.as_slice());
        if is_named(h, "content-length") {
            if self.length.is_some() {
                return Err(400);
            }
            match text::read_number(v) {
                None => {
                    return Err(400);
                },
                Some(n) => {
                    self.length = Some(n);
                },
            }
        } else if is_named(h, "transfer-encoding") {
            return Err(400);
        } else if is_named(h, "host") {
            if self.host || !host_ok(v) {
                return Err(400);
            }
            self.host = true;
        } else if is_named(h, "connection") {
            if bytes::list_has(v, "close".as_bytes()) {
                self.close = true;
            }
            if bytes::list_has(v, "keep-alive".as_bytes()) {
                self.keep = true;
            }
        } else if is_named(h, "expect") {
            if self.expect || !bytes::equal_ignoring_case(v, "100-continue".as_bytes()) {
                return Err(417);
            }
            self.expect = true;
        } else if is_named(h, "authorization") {
            if self.auth.is_some() {
                return Err(400);
            }
            self.auth = Some(bytes::copy(v));
        }
        Ok(())
    }
}

/// Decides on a request line and headers.
pub fn check_head(raw: &RawRequest) -> (res: Result<Parsed, u16>)
    ensures
        match res {
            Ok(head) => head_of(raw@) == Ok::<ParsedView, u16>(head@),
            Err(status) => head_of(raw@) == Err::<ParsedView, u16>(status),
        },
{
    if !raw.complete {
        return Err(400);
    }
    let mut scan = Scan {
        length: None,
        host: false,
        close: false,
        keep: false,
        expect: false,
        auth: None,
    };
    let ghost all = header_views(raw.headers@);
    let mut i: usize = 0;
    while i < raw.headers.len()
        invariant
            all == header_views(raw.headers@),
            raw.complete,
            i <= raw.headers@.len(),
            fields(all.take(i as int)) == Ok::<Fields, u16>(scan.fields()),
        decreases raw.headers@.len() - i,
    {
        let read = scan.read(&raw.headers[i]);
        proof {
            assert(all.take(i + 1).drop_last() =~= all.take(i as int));
            assert(all.take(i + 1).last() == raw.headers@[i as int]@);
        }
        match read {
            Err(status) => {
                proof {
                    lemma_refusal_stays(all, i + 1);
                }
                return Err(status);
            },
            Ok(_) => {},
        }
        i += 1;
    }
    assert(all.take(all.len() as int) =~= all);
    if raw.version == Some(1u8) && !scan.host {
        return Err(400);
    }
    let path = match &raw.path {
        None => {
            return Err(400);
        },
        Some(path) => path,
    };
    if !path_ok(path.as_slice()) {
        return Err(400);
    }
    let content_length = match scan.length {
        Some(n) => n,
        None => 0,
    };
    if content_length > MAX_BODY {
        return Err(413);
    }
    let method = match &raw.method {
        None => {
            return Err(400);
        },
        Some(method) => method,
    };
    Ok(
        Parsed {
            method: bytes::copy(method.as_slice()),
            path: bytes::copy(path.as_slice()),
            content_length,
            close: scan.close || (raw.version == Some(0u8) && !scan.keep),
            expect: scan.expect,
            auth: match scan.auth {
                Some(v) => v,
                None => Vec::new(),
            },
        },
    )
}

/// Reads the head of a request.
pub fn parse_head(head: &[u8]) -> (res: Result<Parsed, u16>)
    ensures
        match res {
            Ok(parsed) => parsed_head(head@) == Ok::<ParsedView, u16>(parsed@),
            Err(status) => parsed_head(head@) == Err::<ParsedView, u16>(status),
        },
        res matches Ok(parsed) ==> parsed.content_length <= MAX_BODY,
{
    match boundary::parse_request(head, MAX_HEADERS) {
        Err(_) => Err(400),
        Ok(raw) => check_head(&raw),
    }
}

/// A refusal of the first headers is the refusal of all.
proof fn lemma_refusal_stays(headers: Seq<RawHeaderView>, n: int)
    requires
        0 <= n <= headers.len(),
        fields(headers.take(n)) is Err,
    ensures
        fields(headers) == fields(headers.take(n)),
    decreases headers.len(),
{
    if n == headers.len() {
        assert(headers.take(n) =~= headers);
    } else {
        assert(headers.drop_last().take(n) =~= headers.take(n));
        lemma_refusal_stays(headers.drop_last(), n);
    }
}

/// The header names differ in length, so no header has two of them.
proof fn lemma_names(h: RawHeaderView)
    ensures
        named(h, "content-length"@) ==> h.name.len() == 14,
        named(h, "transfer-encoding"@) ==> h.name.len() == 17,
        named(h, "host"@) ==> h.name.len() == 4,
        named(h, "connection"@) ==> h.name.len() == 10,
        named(h, "expect"@) ==> h.name.len() == 6,
        named(h, "authorization"@) ==> h.name.len() == 13,
{
    reveal_strlit("content-length");
    reveal_strlit("transfer-encoding");
    reveal_strlit("host");
    reveal_strlit("connection");
    reveal_strlit("expect");
    reveal_strlit("authorization");
    vstd::utf8::is_ascii_chars_encode_utf8("content-length"@);
    vstd::utf8::is_ascii_chars_encode_utf8("transfer-encoding"@);
    vstd::utf8::is_ascii_chars_encode_utf8("host"@);
    vstd::utf8::is_ascii_chars_encode_utf8("connection"@);
    vstd::utf8::is_ascii_chars_encode_utf8("expect"@);
    vstd::utf8::is_ascii_chars_encode_utf8("authorization"@);
}

/// Where the headers are accepted, a field is there exactly if its header is.
proof fn lemma_fields_seen(headers: Seq<RawHeaderView>)
    requires
        fields(headers) is Ok,
    ensures
        ({
            let f = fields(headers)->Ok_0;
            &&& f.length is Some <==> exists|i: int|
                0 <= i < headers.len() && named(#[trigger] headers[i], "content-length"@)
            &&& f.host <==> exists|i: int|
                0 <= i < headers.len() && named(#[trigger] headers[i], "host"@)
            &&& f.auth is Some <==> exists|i: int|
                0 <= i < headers.len() && named(#[trigger] headers[i], "authorization"@)
            &&& f.expect <==> exists|i: int|
                0 <= i < headers.len() && named(#[trigger] headers[i], "expect"@)
        }),
    decreases headers.len(),
{
    if headers.len() > 0 {
        let front = headers.drop_last();
        let h = headers.last();
        lemma_fields_seen(front);
        lemma_names(h);
        assert(headers[headers.len() - 1] == h);
        assert forall|i: int| 0 <= i < front.len() implies front[i] == #[trigger] headers[i] by {}
    }
}

/// A request with a transfer encoding is refused.
pub proof fn law_transfer_encoding_is_refused(raw: RawRequestView, i: int)
    requires
        0 <= i < raw.headers.len(),
        named(raw.headers[i], "transfer-encoding"@),
    ensures
        head_of(raw) is Err,
{
    let upto = raw.headers.take(i + 1);
    assert(upto.drop_last() =~= raw.headers.take(i));
    assert(upto.last() == raw.headers[i]);
    lemma_names(raw.headers[i]);
    assert(fields(upto) is Err);
    lemma_refusal_stays(raw.headers, i + 1);
}

/// A request that says its length, its host, its credentials or its
/// expectation twice is refused, even if it says the same.
pub proof fn law_duplicates_are_refused(raw: RawRequestView, i: int, j: int, name: Seq<char>)
    requires
        0 <= i < j < raw.headers.len(),
        name == "content-length"@ || name == "host"@ || name == "authorization"@ || name
            == "expect"@,
        named(raw.headers[i], name),
        named(raw.headers[j], name),
    ensures
        head_of(raw) is Err,
{
    let upto = raw.headers.take(j + 1);
    assert(upto.drop_last() =~= raw.headers.take(j));
    assert(upto.last() == raw.headers[j]);
    lemma_names(raw.headers[j]);
    if fields(raw.headers.take(j)) is Ok {
        lemma_fields_seen(raw.headers.take(j));
        assert(raw.headers.take(j)[i] == raw.headers[i]);
    }
    assert(fields(upto) is Err);
    lemma_refusal_stays(raw.headers, j + 1);
}

/// An HTTP/1.1 request without a host is refused.
pub proof fn law_host_is_required(raw: RawRequestView)
    requires
        raw.version == Some(1u8),
        forall|i: int| 0 <= i < raw.headers.len() ==> !named(#[trigger] raw.headers[i], "host"@),
    ensures
        head_of(raw) is Err,
{
    if fields(raw.headers) is Ok {
        lemma_fields_seen(raw.headers);
    }
}

/// A connection is kept unless a `Connection` header lists `close`, or the
/// request is of HTTP/1.0 and none lists `keep-alive`.
pub proof fn law_keep_alive(raw: RawRequestView)
    requires
        head_of(raw) is Ok,
    ensures
        ({
            let says = |word: Seq<char>|
                exists|i: int|
                    0 <= i < raw.headers.len() && named(#[trigger] raw.headers[i], "connection"@)
                        && bytes::lists(
                        bytes::trimmed(raw.headers[i].value),
                        encode_utf8(word),
                    );
            head_of(raw)->Ok_0.close <==> says("close"@) || (raw.version == Some(0u8) && !says(
                "keep-alive"@,
            ))
        }),
{
    lemma_connection_seen(raw.headers);
}

proof fn lemma_connection_seen(headers: Seq<RawHeaderView>)
    requires
        fields(headers) is Ok,
    ensures
        ({
            let f = fields(headers)->Ok_0;
            &&& f.close <==> exists|i: int|
                0 <= i < headers.len() && named(#[trigger] headers[i], "connection"@)
                    && bytes::lists(bytes::trimmed(headers[i].value), encode_utf8("close"@))
            &&& f.keep <==> exists|i: int|
                0 <= i < headers.len() && named(#[trigger] headers[i], "connection"@)
                    && bytes::lists(bytes::trimmed(headers[i].value), encode_utf8("keep-alive"@))
        }),
    decreases headers.len(),
{
    if headers.len() > 0 {
        let front = headers.drop_last();
        lemma_connection_seen(front);
        lemma_names(headers.last());
        assert(headers[headers.len() - 1] == headers.last());
        assert forall|i: int| 0 <= i < front.len() implies front[i] == #[trigger] headers[i] by {}
    }
}

/// A header has a name, whatever the case of its letters.
pub proof fn law_named(h: RawHeaderView, name: Seq<char>)
    ensures
        named(h, name) <==> bytes::same_ignoring_case(h.name, encode_utf8(name)),
{
}

/// A host of any length is one or more letters, digits and `.-:[]` that parse as
/// an authority.
pub proof fn law_hosts(v: Seq<u8>)
    ensures
        has_host_bytes(v) <==> v.len() > 0 && forall|i: int|
            0 <= i < v.len() ==> {
                ||| 48 <= #[trigger] v[i] <= 57
                ||| 65 <= v[i] <= 90
                ||| 97 <= v[i] <= 122
                ||| v[i] == 46
                ||| v[i] == 45
                ||| v[i] == 58
                ||| v[i] == 91
                ||| v[i] == 93
            },
        is_host(v) <==> has_host_bytes(v) && boundary::is_authority(v),
{
    if has_host_bytes(v) {
        assert forall|i: int| 0 <= i < v.len() implies {
            ||| 48 <= #[trigger] v[i] <= 57
            ||| 65 <= v[i] <= 90
            ||| 97 <= v[i] <= 122
            ||| v[i] == 46
            ||| v[i] == 45
            ||| v[i] == 58
            ||| v[i] == 91
            ||| v[i] == 93
        } by {
            assert(is_host_byte(v[i]));
        }
    }
}

/// Whether no header in front of the `i`th has the name.
pub open spec fn is_first(headers: Seq<RawHeaderView>, i: int, name: Seq<char>) -> bool {
    forall|j: int| 0 <= j < i ==> !named(#[trigger] headers[j], name)
}

/// Whether nothing is wrong with the `i`th header, behind those in front of it.
pub open spec fn fits(headers: Seq<RawHeaderView>, i: int) -> bool {
    let h = headers[i];
    let v = bytes::trimmed(h.value);
    &&& !named(h, "transfer-encoding"@)
    &&& named(h, "content-length"@) ==> {
        &&& is_first(headers, i, "content-length"@)
        &&& v.len() > 0
        &&& forall|k: int| 0 <= k < v.len() ==> 48 <= #[trigger] v[k] <= 57
        &&& text::number(v) <= usize::MAX
    }
    &&& named(h, "host"@) ==> {
        &&& is_first(headers, i, "host"@)
        &&& v.len() > 0
        &&& forall|k: int|
            0 <= k < v.len() ==> {
                ||| 48 <= #[trigger] v[k] <= 57
                ||| 65 <= v[k] <= 90
                ||| 97 <= v[k] <= 122
                ||| v[k] == 46
                ||| v[k] == 45
                ||| v[k] == 58
                ||| v[k] == 91
                ||| v[k] == 93
            }
        &&& boundary::is_authority(v)
    }
    &&& named(h, "expect"@) ==> {
        &&& is_first(headers, i, "expect"@)
        &&& bytes::same_ignoring_case(v, encode_utf8("100-continue"@))
    }
    &&& named(h, "authorization"@) ==> is_first(headers, i, "authorization"@)
}

/// A header that fits is read, and one that does not is refused.
proof fn lemma_header_fits(headers: Seq<RawHeaderView>)
    requires
        headers.len() > 0,
        fields(headers.drop_last()) is Ok,
    ensures
        fields(headers) is Ok <==> fits(headers, headers.len() - 1),
        fields(headers) matches Err(status) ==> status == if named(headers.last(), "expect"@) {
            417u16
        } else {
            400u16
        },
{
    let front = headers.drop_last();
    let h = headers.last();
    let v = bytes::trimmed(h.value);
    let n = headers.len() - 1;
    lemma_fields_seen(front);
    lemma_names(h);
    law_hosts(v);
    text::law_reading(v, usize::MAX as nat);
    assert forall|i: int| 0 <= i < front.len() implies front[i] == #[trigger] headers[i] by {}
    assert(headers[n] == h);
    let f = fields(front)->Ok_0;
    assert(f.length is None <==> is_first(headers, n, "content-length"@));
    assert(!f.host <==> is_first(headers, n, "host"@));
    assert(!f.expect <==> is_first(headers, n, "expect"@));
    assert(f.auth is None <==> is_first(headers, n, "authorization"@));
}

/// Headers are accepted exactly if each fits.
proof fn lemma_headers_fit(headers: Seq<RawHeaderView>)
    ensures
        fields(headers) is Ok <==> forall|i: int|
            0 <= i < headers.len() ==> #[trigger] fits(headers, i),
    decreases headers.len(),
{
    if headers.len() > 0 {
        let front = headers.drop_last();
        let n = headers.len() - 1;
        lemma_headers_fit(front);
        assert forall|i: int| 0 <= i < n implies #[trigger] fits(headers, i) == fits(front, i) by {
            lemma_fits_in_front(headers, i);
        }
        if fields(front) is Ok {
            lemma_header_fits(headers);
            if fits(headers, n) {
                assert forall|i: int| 0 <= i < headers.len() implies #[trigger] fits(headers, i) by {
                    if i < n {
                        assert(fits(front, i));
                    }
                }
            }
        } else {
            let i = choose|i: int| 0 <= i < front.len() && !#[trigger] fits(front, i);
            assert(!fits(headers, i));
        }
    }
}

proof fn lemma_fits_in_front(headers: Seq<RawHeaderView>, i: int)
    requires
        0 <= i < headers.len() - 1,
    ensures
        fits(headers, i) == fits(headers.drop_last(), i),
{
    let front = headers.drop_last();
    assert forall|j: int| 0 <= j < front.len() implies front[j] == #[trigger] headers[j] by {}
    assert(is_first(headers, i, "content-length"@) == is_first(front, i, "content-length"@));
    assert(is_first(headers, i, "host"@) == is_first(front, i, "host"@));
    assert(is_first(headers, i, "expect"@) == is_first(front, i, "expect"@));
    assert(is_first(headers, i, "authorization"@) == is_first(front, i, "authorization"@));
}

/// The first header that does not fit decides on the refusal.
proof fn lemma_first_unfit(headers: Seq<RawHeaderView>, i: int)
    requires
        0 <= i < headers.len(),
        !fits(headers, i),
        forall|j: int| 0 <= j < i ==> #[trigger] fits(headers, j),
    ensures
        fields(headers) == Err::<Fields, u16>(
            if named(headers[i], "expect"@) {
                417
            } else {
                400
            },
        ),
    decreases headers.len(),
{
    let front = headers.drop_last();
    assert forall|j: int| 0 <= j < front.len() implies #[trigger] fits(headers, j) == fits(
        front,
        j,
    ) by {
        lemma_fits_in_front(headers, j);
    }
    if i == headers.len() - 1 {
        lemma_headers_fit(front);
        assert forall|j: int| 0 <= j < front.len() implies #[trigger] fits(front, j) by {
            assert(fits(headers, j));
        }
        lemma_header_fits(headers);
    } else {
        assert forall|j: int| 0 <= j < i implies #[trigger] fits(front, j) by {
            assert(fits(headers, j));
        }
        assert(!fits(front, i));
        lemma_first_unfit(front, i);
    }
}

/// What the accepted headers say of the length and the credentials.
proof fn lemma_fields_say(headers: Seq<RawHeaderView>, i: int)
    requires
        fields(headers) is Ok,
        0 <= i < headers.len(),
    ensures
        ({
            let f = fields(headers)->Ok_0;
            let v = bytes::trimmed(headers[i].value);
            &&& named(headers[i], "content-length"@) ==> f.length == Some(text::number(v))
            &&& named(headers[i], "authorization"@) ==> f.auth == Some(v)
        }),
    decreases headers.len(),
{
    let front = headers.drop_last();
    let h = headers.last();
    lemma_names(h);
    lemma_names(headers[i]);
    lemma_headers_fit(headers);
    if i < front.len() {
        lemma_fields_say(front, i);
        lemma_fields_seen(front);
        assert(front[i] == headers[i]);
        assert(fits(headers, headers.len() - 1));
    } else {
        text::law_reading(bytes::trimmed(h.value), usize::MAX as nat);
    }
}

/// A head is accepted exactly if nothing is wrong with it: it is there to its
/// end, each header fits, an HTTP/1.1 request has a host, the path is from the
/// root and without a fragment, the body is not longer than 8192 bytes, and
/// there is a method.
pub proof fn law_accepted_heads(raw: RawRequestView)
    ensures
        head_of(raw) is Ok <==> {
            &&& raw.complete
            &&& forall|i: int| 0 <= i < raw.headers.len() ==> #[trigger] fits(raw.headers, i)
            &&& raw.version == Some(1u8) ==> exists|i: int|
                0 <= i < raw.headers.len() && named(#[trigger] raw.headers[i], "host"@)
            &&& raw.path is Some
            &&& raw.path->0.len() > 0
            &&& raw.path->0[0] == 47
            &&& forall|i: int| 0 <= i < raw.path->0.len() ==> #[trigger] raw.path->0[i] != 35
            &&& forall|i: int|
                0 <= i < raw.headers.len() && named(#[trigger] raw.headers[i], "content-length"@)
                    ==> text::number(bytes::trimmed(raw.headers[i].value)) <= 8192
            &&& raw.method is Some
        },
{
    let headers = raw.headers;
    lemma_headers_fit(headers);
    if raw.path is Some {
        let p = raw.path->0;
        if p.contains(35u8) {
            let k = choose|k: int| 0 <= k < p.len() && p[k] == 35u8;
            assert(p[k] == 35);
        } else {
            assert forall|i: int| 0 <= i < p.len() implies #[trigger] p[i] != 35 by {
                if p[i] == 35 {
                    assert(p.contains(35u8));
                }
            }
        }
    }
    if fields(headers) is Ok {
        lemma_fields_seen(headers);
        assert forall|i: int|
            0 <= i < headers.len() && named(#[trigger] headers[i], "content-length"@) implies fields(
            headers,
        )->Ok_0.length == Some(text::number(bytes::trimmed(headers[i].value))) by {
            lemma_fields_say(headers, i);
        }
    }
}

/// An accepted head has the method and the path of the request line, the length
/// that its `Content-Length` says, or 0, the credentials without the space around
/// them, or none, and an expectation exactly if there is an `Expect` header.
pub proof fn law_heads_are_read(raw: RawRequestView)
    requires
        head_of(raw) is Ok,
    ensures
        ({
            let head = head_of(raw)->Ok_0;
            &&& raw.method == Some(head.method)
            &&& raw.path == Some(head.path)
            &&& forall|i: int|
                0 <= i < raw.headers.len() && named(#[trigger] raw.headers[i], "content-length"@)
                    ==> head.content_length == text::number(bytes::trimmed(raw.headers[i].value))
            &&& (forall|i: int|
                0 <= i < raw.headers.len() ==> !named(
                    #[trigger] raw.headers[i],
                    "content-length"@,
                )) ==> head.content_length == 0
            &&& forall|i: int|
                0 <= i < raw.headers.len() && named(#[trigger] raw.headers[i], "authorization"@)
                    ==> head.auth == bytes::trimmed(raw.headers[i].value)
            &&& (forall|i: int|
                0 <= i < raw.headers.len() ==> !named(
                    #[trigger] raw.headers[i],
                    "authorization"@,
                )) ==> head.auth.len() == 0
            &&& head.expect <==> exists|i: int|
                0 <= i < raw.headers.len() && named(#[trigger] raw.headers[i], "expect"@)
        }),
{
    let headers = raw.headers;
    lemma_fields_seen(headers);
    let f = fields(headers)->Ok_0;
    assert forall|i: int|
        0 <= i < headers.len() && named(
            #[trigger] headers[i],
            "content-length"@,
        ) implies f.length == Some(text::number(bytes::trimmed(headers[i].value))) by {
        lemma_fields_say(headers, i);
    }
    assert forall|i: int|
        0 <= i < headers.len() && named(
            #[trigger] headers[i],
            "authorization"@,
        ) implies f.auth == Some(bytes::trimmed(headers[i].value)) by {
        lemma_fields_say(headers, i);
    }
}

/// A refused head is answered with 400, but for two: 417 where the first header
/// that does not fit is `Expect`, and 413 where nothing but the length of the body
/// stands against the head.
pub proof fn law_refused_heads(raw: RawRequestView, i: int)
    ensures
        head_of(raw) matches Err(status) ==> status == 400 || status == 413 || status == 417,
        !raw.complete ==> head_of(raw) == Err::<ParsedView, u16>(400),
        raw.complete && 0 <= i < raw.headers.len() && !fits(raw.headers, i) && (forall|j: int|
            0 <= j < i ==> #[trigger] fits(raw.headers, j)) ==> head_of(raw) == Err::<
            ParsedView,
            u16,
        >(
            if named(raw.headers[i], "expect"@) {
                417
            } else {
                400
            },
        ),
        raw.complete && (forall|j: int|
            0 <= j < raw.headers.len() ==> #[trigger] fits(raw.headers, j)) && head_of(raw) is Err
            ==> {
            let placed = (raw.version == Some(1u8) ==> exists|j: int|
                0 <= j < raw.headers.len() && named(#[trigger] raw.headers[j], "host"@))
                && raw.path is Some && raw.path->0.len() > 0 && raw.path->0[0] == 47
                && !raw.path->0.contains(35u8);
            let long = exists|j: int|
                0 <= j < raw.headers.len() && named(#[trigger] raw.headers[j], "content-length"@)
                    && text::number(bytes::trimmed(raw.headers[j].value)) > 8192;
            head_of(raw) == Err::<ParsedView, u16>(
                if placed && long {
                    413
                } else {
                    400
                },
            )
        },
{
    let headers = raw.headers;
    lemma_headers_fit(headers);
    if 0 <= i < headers.len() && !fits(headers, i) && forall|j: int|
        0 <= j < i ==> #[trigger] fits(headers, j) {
        lemma_first_unfit(headers, i);
    }
    if fields(headers) is Ok {
        lemma_fields_seen(headers);
        assert forall|j: int|
            0 <= j < headers.len() && named(#[trigger] headers[j], "content-length"@) implies fields(
            headers,
        )->Ok_0.length == Some(text::number(bytes::trimmed(headers[j].value))) by {
            lemma_fields_say(headers, j);
        }
    } else {
        lemma_statuses(headers);
    }
}

proof fn lemma_statuses(headers: Seq<RawHeaderView>)
    ensures
        fields(headers) matches Err(status) ==> status == 400 || status == 417,
    decreases headers.len(),
{
    if headers.len() > 0 {
        lemma_statuses(headers.drop_last());
    }
}

/// A head may have 64 headers.
pub proof fn law_parsed_heads(head: Seq<u8>)
    ensures
        match boundary::httparse_request(head, 64) {
            None => parsed_head(head) == Err::<ParsedView, u16>(400),
            Some(raw) => parsed_head(head) == head_of(raw),
        },
        MAX_HEAD == 16384,
        MAX_BODY == 8192,
{
}

/// Headers and optional bytes are seen as they are.
pub proof fn law_views(headers: Seq<RawHeader>, b: Vec<u8>, i: int)
    ensures
        header_views(headers).len() == headers.len(),
        0 <= i < headers.len() ==> header_views(headers)[i] == (RawHeaderView {
            name: headers[i].name@,
            value: headers[i].value@,
        }),
        optional_bytes(Some(b)) == Some(b@),
        optional_bytes(None) is None,
{
}

} // verus!
