//! HTTP/1.1 responses.
use vstd::prelude::*;
use vstd::string::StringExecFns;
use vstd::utf8::{encode_utf8, is_ascii_chars};

use crate::bytes;
use crate::links;
use crate::text;

verus! {

/// The end of a head: the end of its last line and an empty line.
pub open spec fn head_end() -> Seq<u8> {
    encode_utf8("\r\n\r\n"@)
}

/// The lines, each with its end.
pub open spec fn joined(lines: Seq<Seq<char>>) -> Seq<char>
    decreases lines.len(),
{
    if lines.len() == 0 {
        Seq::empty()
    } else {
        joined(lines.drop_last()) + lines.last() + "\r\n"@
    }
}

/// The bytes of a head, with the empty line that ends it.
pub open spec fn head_bytes(lines: Seq<Seq<char>>) -> Seq<u8> {
    encode_utf8(joined(lines) + "\r\n"@)
}

/// A response: its status, the lines of its head, and its body.
pub struct Reply {
    pub status: u16,
    pub lines: Seq<Seq<char>>,
    pub body: Seq<u8>,
}

impl Reply {
    pub open spec fn head(self) -> Seq<u8> {
        head_bytes(self.lines)
    }

    pub open spec fn bytes(self) -> Seq<u8> {
        self.head() + self.body
    }
}

/// The line that says whether the connection is kept.
pub open spec fn connection_line(close: bool) -> Seq<char> {
    if close {
        "connection: close"@
    } else {
        "connection: keep-alive"@
    }
}

pub open spec fn reason(status: u16) -> Seq<char> {
    if status == 200 {
        "OK"@
    } else if status == 201 {
        "Created"@
    } else if status == 400 {
        "Bad Request"@
    } else if status == 401 {
        "Unauthorized"@
    } else if status == 404 {
        "Not Found"@
    } else if status == 405 {
        "Method Not Allowed"@
    } else if status == 413 {
        "Content Too Large"@
    } else if status == 417 {
        "Expectation Failed"@
    } else if status == 431 {
        "Request Header Fields Too Large"@
    } else if status == 503 {
        "Service Unavailable"@
    } else {
        "Internal Server Error"@
    }
}

/// The line that says how long the body is.
pub open spec fn length_line(n: nat) -> Seq<char> {
    "content-length: "@ + text::decimal(n)
}

/// A response with a JSON body.
pub open spec fn json_reply(status: u16, body: Seq<char>, close: bool) -> Reply {
    let always = seq![
        "HTTP/1.1 "@ + text::decimal(status as nat) + " "@ + reason(status),
        "content-type: application/json"@,
        length_line(encode_utf8(body).len()),
        "cache-control: no-store"@,
    ];
    let extra = if status == 401 {
        seq!["www-authenticate: Bearer"@]
    } else if status == 405 {
        seq!["allow: GET, HEAD, POST"@]
    } else {
        Seq::empty()
    };
    Reply {
        status,
        lines: (always + extra).push(connection_line(close)),
        body: encode_utf8(body),
    }
}

/// A response that reports its status as an error.
pub open spec fn error_reply(status: u16, close: bool) -> Reply {
    json_reply(status, "{\"error\":"@ + text::decimal(status as nat) + "}"@, close)
}

/// The response to a health check.
pub open spec fn health_reply(close: bool) -> Reply {
    Reply {
        status: 200,
        lines: seq!["HTTP/1.1 200 OK"@, length_line(2), connection_line(close)],
        body: encode_utf8("ok"@),
    }
}

/// The response with the counters, which any site may read.
pub open spec fn metrics_reply(report: Seq<char>, close: bool) -> Reply {
    Reply {
        status: 200,
        lines: seq![
            "HTTP/1.1 200 OK"@,
            "content-type: application/json"@,
            length_line(encode_utf8(report).len()),
            "cache-control: no-store"@,
            "access-control-allow-origin: *"@,
            connection_line(close),
        ],
        body: encode_utf8(report),
    }
}

/// The response that leads to a URL.
pub open spec fn redirect_reply(url: Seq<char>, close: bool) -> Reply {
    Reply {
        status: 302,
        lines: seq![
            "HTTP/1.1 302 Found"@,
            "location: "@ + url,
            length_line(0),
            connection_line(close),
        ],
        body: Seq::empty(),
    }
}

/// The lines of a head under construction.
struct HeadText {
    text: String,
    lines: Ghost<Seq<Seq<char>>>,
}

impl HeadText {
    spec fn wf(&self) -> bool {
        self.text@ == joined(self.lines@)
    }

    fn new() -> (res: HeadText)
        ensures
            res.wf(),
            res.lines@ == Seq::<Seq<char>>::empty(),
    {
        HeadText { text: String::new(), lines: Ghost(Seq::empty()) }
    }

    fn line(&mut self, line: &str)
        requires
            old(self).wf(),
        ensures
            final(self).wf(),
            final(self).lines@ == old(self).lines@.push(line@),
    {
        self.text.append(line);
        self.text.append("\r\n");
        self.lines = Ghost(self.lines@.push(line@));
        assert(self.lines@.drop_last() =~= old(self).lines@);
    }

    fn length(&mut self, n: usize)
        requires
            old(self).wf(),
        ensures
            final(self).wf(),
            final(self).lines@ == old(self).lines@.push(length_line(n as nat)),
    {
        let mut line = String::new();
        line.append("content-length: ");
        text::append_decimal(&mut line, n as u64);
        assert(line@ =~= length_line(n as nat));
        self.line(line.as_str());
    }

    /// Ends the head and adds it and the body.
    fn send(self, close: bool, body: &[u8], out: &mut Vec<u8>)
        requires
            self.wf(),
        ensures
            final(out)@ == old(out)@ + (head_bytes(self.lines@.push(connection_line(close)))
                + body@),
    {
        let mut head = self;
        if close {
            head.line("connection: close");
        } else {
            head.line("connection: keep-alive");
        }
        head.text.append("\r\n");
        out.extend_from_slice(head.text.as_str().as_bytes());
        out.extend_from_slice(body);
        assert(out@ =~= old(out)@ + (head_bytes(self.lines@.push(connection_line(close)))
            + body@));
    }
}

fn reason_text(status: u16) -> (res: &'static str)
    ensures
        res@ == reason(status),
{
    if status == 200 {
        "OK"
    } else if status == 201 {
        "Created"
    } else if status == 400 {
        "Bad Request"
    } else if status == 401 {
        "Unauthorized"
    } else if status == 404 {
        "Not Found"
    } else if status == 405 {
        "Method Not Allowed"
    } else if status == 413 {
        "Content Too Large"
    } else if status == 417 {
        "Expectation Failed"
    } else if status == 431 {
        "Request Header Fields Too Large"
    } else if status == 503 {
        "Service Unavailable"
    } else {
        "Internal Server Error"
    }
}

/// Adds a response with a JSON body.
pub fn json(out: &mut Vec<u8>, status: u16, body: &str, close: bool)
    ensures
        final(out)@ == old(out)@ + json_reply(status, body@, close).bytes(),
{
    let mut first = String::new();
    first.append("HTTP/1.1 ");
    text::append_decimal(&mut first, status as u64);
    first.append(" ");
    first.append(reason_text(status));
    let mut head = HeadText::new();
    head.line(first.as_str());
    head.line("content-type: application/json");
    head.length(body.as_bytes().len());
    head.line("cache-control: no-store");
    if status == 401 {
        head.line("www-authenticate: Bearer");
    }
    if status == 405 {
        head.line("allow: GET, HEAD, POST");
    }
    let ghost reply = json_reply(status, body@, close);
    assert(head.lines@.push(connection_line(close)) =~= reply.lines);
    head.send(close, body.as_bytes(), out);
}

/// Adds a response that reports its status as an error.
pub fn error(out: &mut Vec<u8>, status: u16, close: bool)
    ensures
        final(out)@ == old(out)@ + error_reply(status, close).bytes(),
{
    let mut body = String::new();
    body.append("{\"error\":");
    text::append_decimal(&mut body, status as u64);
    body.append("}");
    json(out, status, body.as_str(), close);
}

/// Adds the response to a health check.
pub fn health(out: &mut Vec<u8>, close: bool)
    ensures
        final(out)@ == old(out)@ + health_reply(close).bytes(),
{
    let mut head = HeadText::new();
    head.line("HTTP/1.1 200 OK");
    head.length(2);
    let ghost reply = health_reply(close);
    assert(head.lines@.push(connection_line(close)) =~= reply.lines);
    head.send(close, "ok".as_bytes(), out);
}

/// Adds the response with the counters.
pub fn metrics(out: &mut Vec<u8>, report: &str, close: bool)
    ensures
        final(out)@ == old(out)@ + metrics_reply(report@, close).bytes(),
{
    let mut head = HeadText::new();
    head.line("HTTP/1.1 200 OK");
    head.line("content-type: application/json");
    head.length(report.as_bytes().len());
    head.line("cache-control: no-store");
    head.line("access-control-allow-origin: *");
    let ghost reply = metrics_reply(report@, close);
    assert(head.lines@.push(connection_line(close)) =~= reply.lines);
    head.send(close, report.as_bytes(), out);
}

/// Adds the response that leads to a URL.
pub fn redirect(out: &mut Vec<u8>, url: &str, close: bool)
    ensures
        final(out)@ == old(out)@ + redirect_reply(url@, close).bytes(),
{
    let mut location = String::new();
    location.append("location: ");
    location.append(url);
    let mut head = HeadText::new();
    head.line("HTTP/1.1 302 Found");
    head.line(location.as_str());
    head.length(0);
    let ghost reply = redirect_reply(url@, close);
    assert(head.lines@.push(connection_line(close)) =~= reply.lines);
    let none: Vec<u8> = Vec::new();
    head.send(close, none.as_slice(), out);
    assert(none@ =~= reply.body);
}

/// A line of a head: some ASCII text without a carriage return.
pub open spec fn is_line(line: Seq<char>) -> bool {
    &&& line.len() > 0
    &&& is_ascii_chars(line)
    &&& !line.contains('\r')
}

pub open spec fn are_lines(lines: Seq<Seq<char>>) -> bool {
    forall|i: int| 0 <= i < lines.len() ==> is_line(#[trigger] lines[i])
}

/// A carriage return at `j` is followed by a line feed, and that by no
/// carriage return.
spec fn ends_line(s: Seq<char>, j: int) -> bool {
    s[j] == '\r' ==> j + 1 < s.len() && s[j + 1] == '\n' && (j + 2 < s.len() ==> s[j + 2] != '\r')
}

proof fn lemma_joined(lines: Seq<Seq<char>>)
    requires
        are_lines(lines),
    ensures
        is_ascii_chars(joined(lines)),
        lines.len() > 0 ==> joined(lines).len() >= 3,
        lines.len() > 0 ==> joined(lines)[joined(lines).len() - 2] == '\r',
        lines.len() > 0 ==> joined(lines)[joined(lines).len() - 1] == '\n',
        forall|j: int| 0 <= j < joined(lines).len() ==> #[trigger] ends_line(joined(lines), j),
    decreases lines.len(),
{
    reveal_strlit("\r\n");
    if lines.len() > 0 {
        let front = joined(lines.drop_last());
        let last = lines.last();
        assert(is_line(lines[lines.len() - 1]));
        assert forall|i: int| 0 <= i < lines.drop_last().len() implies is_line(
            #[trigger] lines.drop_last()[i],
        ) by {
            assert(lines.drop_last()[i] == lines[i]);
        }
        lemma_joined(lines.drop_last());
        let all = joined(lines);
        assert(all == front + last + "\r\n"@);
        assert forall|j: int| 0 <= j < all.len() implies #[trigger] ends_line(all, j) by {
            if all[j] != '\r' {
            } else if j < front.len() {
                assert(front[j] == '\r');
                assert(ends_line(front, j));
                assert(all[j + 1] == front[j + 1]);
                if j + 2 < front.len() {
                    assert(all[j + 2] == front[j + 2]);
                } else {
                    assert(all[j + 2] == last[0]);
                    assert(last.contains(last[0]));
                }
            } else if j < front.len() + last.len() {
                assert(all[j] == last[j - front.len()]);
                assert(last.contains(last[j - front.len()]));
            }
        }
    }
}

/// A response's head ends where the first empty line is, so that a client
/// finds the body.
pub proof fn law_head_ends_at_first_empty_line(reply: Reply)
    requires
        are_lines(reply.lines),
        reply.lines.len() > 0,
    ensures
        reply.head().len() >= 4,
        bytes::find(reply.bytes(), head_end()) == Some(reply.head().len() - 4),
{
    reveal_strlit("\r\n");
    reveal_strlit("\r\n\r\n");
    let all = joined(reply.lines) + "\r\n"@;
    lemma_joined(reply.lines);
    assert(is_ascii_chars(all));
    vstd::utf8::is_ascii_chars_encode_utf8(all);
    vstd::utf8::is_ascii_chars_encode_utf8("\r\n\r\n"@);
    let whole = reply.bytes();
    let n = reply.head().len() as int;
    assert(n == all.len());
    assert(head_end() =~= seq![13u8, 10u8, 13u8, 10u8]);
    assert(whole.subrange(n - 4, n) =~= head_end());
    assert(bytes::occurs_at(whole, head_end(), n - 4));
    assert forall|j: int| 0 <= j < n - 4 implies !bytes::occurs_at(whole, head_end(), j) by {
        if bytes::occurs_at(whole, head_end(), j) {
            let part = whole.subrange(j, j + 4);
            assert(part[0] == 13 && part[2] == 13);
            assert(whole[j] == 13 && whole[j + 2] == 13);
            assert(all[j] as u8 == 13 && all[j + 2] as u8 == 13);
            assert(all[j] == '\r' && all[j + 2] == '\r');
            assert(j + 2 < joined(reply.lines).len());
            assert(ends_line(joined(reply.lines), j));
        }
    }
    bytes::lemma_find_is(whole, head_end(), n - 4);
}

proof fn lemma_decimal_line(n: nat)
    ensures
        is_ascii_chars(text::decimal(n)),
        !text::decimal(n).contains('\r'),
        text::decimal(n).len() > 0,
    decreases n,
{
    text::law_decimal_reads_back(n);
    if n >= 10 {
        lemma_decimal_line(n / 10);
        let front = text::decimal(n / 10);
        assert forall|i: int| 0 <= i < text::decimal(n).len() implies text::decimal(n)[i]
            != '\r' by {
            if i < front.len() {
                assert(front.contains(front[i]));
            }
        }
    }
}

proof fn lemma_length_line(n: nat)
    ensures
        is_line(length_line(n)),
{
    reveal_strlit("content-length: ");
    lemma_decimal_line(n);
    let d = text::decimal(n);
    let line = length_line(n);
    assert forall|i: int| 0 <= i < line.len() implies line[i] != '\r' by {
        if i >= 16 {
            assert(line[i] == d[i - 16]);
            assert(d.contains(d[i - 16]));
        }
    }
}

proof fn lemma_connection_line(close: bool)
    ensures
        is_line(connection_line(close)),
{
    reveal_strlit("connection: close");
    reveal_strlit("connection: keep-alive");
}

proof fn lemma_reason(status: u16)
    ensures
        is_ascii_chars(reason(status)),
        !reason(status).contains('\r'),
{
    reveal_strlit("OK");
    reveal_strlit("Created");
    reveal_strlit("Bad Request");
    reveal_strlit("Unauthorized");
    reveal_strlit("Not Found");
    reveal_strlit("Method Not Allowed");
    reveal_strlit("Content Too Large");
    reveal_strlit("Expectation Failed");
    reveal_strlit("Request Header Fields Too Large");
    reveal_strlit("Service Unavailable");
    reveal_strlit("Internal Server Error");
}

proof fn lemma_status_line(status: u16)
    ensures
        is_line("HTTP/1.1 "@ + text::decimal(status as nat) + " "@ + reason(status)),
{
    reveal_strlit("HTTP/1.1 ");
    reveal_strlit(" ");
    lemma_decimal_line(status as nat);
    lemma_reason(status);
    let d = text::decimal(status as nat);
    let r = reason(status);
    let line = "HTTP/1.1 "@ + d + " "@ + r;
    assert forall|i: int| 0 <= i < line.len() implies line[i] != '\r' by {
        if i >= 10 + d.len() {
            assert(line[i] == r[i - 10 - d.len()]);
            assert(r.contains(r[i - 10 - d.len()]));
        } else if 9 <= i < 9 + d.len() {
            assert(line[i] == d[i - 9]);
            assert(d.contains(d[i - 9]));
        }
    }
}

/// The head of a JSON response is made of lines, and one of them says how long
/// the body is.
pub proof fn law_json_reply_is_framed(status: u16, body: Seq<char>, close: bool)
    ensures
        are_lines(json_reply(status, body, close).lines),
        json_reply(status, body, close).lines.len() > 0,
        json_reply(status, body, close).lines.contains(length_line(encode_utf8(body).len())),
{
    let reply = json_reply(status, body, close);
    lemma_status_line(status);
    lemma_length_line(encode_utf8(body).len());
    lemma_connection_line(close);
    reveal_strlit("content-type: application/json");
    reveal_strlit("cache-control: no-store");
    reveal_strlit("www-authenticate: Bearer");
    reveal_strlit("allow: GET, HEAD, POST");
    assert(is_line("content-type: application/json"@));
    assert(is_line("cache-control: no-store"@));
    assert(is_line("www-authenticate: Bearer"@));
    assert(is_line("allow: GET, HEAD, POST"@));
    assert(reply.lines[2] == length_line(encode_utf8(body).len()));
}

/// The same of the response to a health check.
pub proof fn law_health_reply_is_framed(close: bool)
    ensures
        are_lines(health_reply(close).lines),
        health_reply(close).lines.len() > 0,
        health_reply(close).lines.contains(length_line(health_reply(close).body.len())),
{
    reveal_strlit("HTTP/1.1 200 OK");
    reveal_strlit("ok");
    vstd::utf8::is_ascii_chars_encode_utf8("ok"@);
    lemma_length_line(2);
    lemma_connection_line(close);
    assert(is_line("HTTP/1.1 200 OK"@));
    assert(health_reply(close).lines[1] == length_line(2));
}

/// The same of the response with the counters.
pub proof fn law_metrics_reply_is_framed(report: Seq<char>, close: bool)
    ensures
        are_lines(metrics_reply(report, close).lines),
        metrics_reply(report, close).lines.len() > 0,
        metrics_reply(report, close).lines.contains(length_line(encode_utf8(report).len())),
{
    reveal_strlit("HTTP/1.1 200 OK");
    reveal_strlit("content-type: application/json");
    reveal_strlit("cache-control: no-store");
    reveal_strlit("access-control-allow-origin: *");
    lemma_length_line(encode_utf8(report).len());
    lemma_connection_line(close);
    assert(is_line("HTTP/1.1 200 OK"@));
    assert(is_line("content-type: application/json"@));
    assert(is_line("cache-control: no-store"@));
    assert(is_line("access-control-allow-origin: *"@));
    assert(metrics_reply(report, close).lines[2] == length_line(encode_utf8(report).len()));
}

/// The same of a redirect: an accepted URL cannot end its line.
pub proof fn law_redirect_reply_is_framed(url: Seq<char>, close: bool)
    requires
        links::valid_url(url),
    ensures
        are_lines(redirect_reply(url, close).lines),
        redirect_reply(url, close).lines.len() > 0,
        redirect_reply(url, close).lines.contains(length_line(0)),
{
    reveal_strlit("HTTP/1.1 302 Found");
    reveal_strlit("location: ");
    lemma_length_line(0);
    lemma_connection_line(close);
    assert(is_line("HTTP/1.1 302 Found"@));
    links::law_valid_url_is_printable(url);
    let s = encode_utf8(url);
    assert(text::is_ascii_bytes(s)) by {
        assert forall|i: int| 0 <= i < s.len() implies #[trigger] s[i] < 128 by {
            assert(links::is_printable(s[i]));
        }
    }
    text::lemma_ascii(s);
    vstd::utf8::encode_utf8_decode_utf8(url);
    assert(url == text::chars(s));
    let line = "location: "@ + url;
    assert forall|i: int| 0 <= i < line.len() implies line[i] != '\r' && (0 <= line[i] as u32)
        && (line[i] as u32) < 128 by {
        if i >= 10 {
            assert(line[i] == s[i - 10] as char);
            assert(links::is_printable(s[i - 10]));
        }
    }
    assert(is_line(line));
    assert(redirect_reply(url, close).lines[2] == length_line(0));
}

/// What a response sends is its head and its body, and nothing besides; the
/// head is its lines, each with its end, and an empty one.
pub proof fn law_reply_is_sent_whole(reply: Reply, line: Seq<char>)
    ensures
        reply.bytes() == reply.head() + reply.body,
        reply.lines.len() == 0 ==> reply.head() == encode_utf8("\r\n"@),
        joined(reply.lines.push(line)) == joined(reply.lines) + line + "\r\n"@,
        reply.head() == encode_utf8(joined(reply.lines) + "\r\n"@),
{
    assert(reply.lines.push(line).drop_last() =~= reply.lines);
    reveal_strlit("\r\n");
    if reply.lines.len() == 0 {
        assert(joined(reply.lines) + "\r\n"@ =~= "\r\n"@);
    }
}

/// The end of a head: whether the connection is kept, and the empty line.
pub open spec fn head_ending(close: bool) -> Seq<char> {
    if close {
        "connection: close\r\n\r\n"@
    } else {
        "connection: keep-alive\r\n\r\n"@
    }
}

proof fn lemma_head_ending(close: bool)
    ensures
        connection_line(close) + "\r\n"@ + "\r\n"@ == head_ending(close),
{
    reveal_strlit("\r\n");
    reveal_strlit("connection: close");
    reveal_strlit("connection: keep-alive");
    reveal_strlit("connection: close\r\n\r\n");
    reveal_strlit("connection: keep-alive\r\n\r\n");
    assert(connection_line(close) + "\r\n"@ + "\r\n"@ =~= head_ending(close));
}

/// A redirect names the URL as its location, whether the connection is kept or
/// not, and has no body.
pub proof fn law_redirect_leads_to_the_url(url: Seq<char>, close: bool)
    ensures
        redirect_reply(url, close).status == 302,
        redirect_reply(url, close).body.len() == 0,
        redirect_reply(url, close).lines.contains("location: "@ + url),
        redirect_reply(url, close).bytes() == encode_utf8(
            "HTTP/1.1 302 Found\r\nlocation: "@ + url + "\r\ncontent-length: 0\r\n"@ + head_ending(
                close,
            ),
        ),
{
    let lines = redirect_reply(url, close).lines;
    reveal_strlit("\r\n");
    reveal_strlit("HTTP/1.1 302 Found");
    reveal_strlit("location: ");
    reveal_strlit("content-length: ");
    reveal_strlit("HTTP/1.1 302 Found\r\nlocation: ");
    reveal_strlit("\r\ncontent-length: 0\r\n");
    lemma_head_ending(close);
    assert(lines[1] == "location: "@ + url);
    reveal_with_fuel(joined, 5);
    assert(lines.drop_last().drop_last().drop_last().drop_last() =~= Seq::empty());
    assert(joined(lines) + "\r\n"@ =~= "HTTP/1.1 302 Found"@ + "\r\n"@ + "location: "@ + url
        + "\r\n"@ + length_line(0) + "\r\n"@ + (connection_line(close) + "\r\n"@ + "\r\n"@));
    assert(joined(lines) + "\r\n"@ =~= "HTTP/1.1 302 Found\r\nlocation: "@ + url
        + "\r\ncontent-length: 0\r\n"@ + head_ending(close));
    assert(redirect_reply(url, close).bytes() =~= head_bytes(lines));
}

/// A health check is answered `ok`.
pub proof fn law_health_says_ok(close: bool)
    ensures
        health_reply(close).status == 200,
        health_reply(close).body == encode_utf8("ok"@),
        health_reply(close).bytes() == encode_utf8(
            "HTTP/1.1 200 OK\r\ncontent-length: 2\r\n"@ + head_ending(close),
        ) + encode_utf8("ok"@),
{
    let lines = health_reply(close).lines;
    reveal_strlit("\r\n");
    reveal_strlit("HTTP/1.1 200 OK");
    reveal_strlit("content-length: ");
    reveal_strlit("HTTP/1.1 200 OK\r\ncontent-length: 2\r\n");
    lemma_head_ending(close);
    reveal_with_fuel(joined, 4);
    assert(lines.drop_last().drop_last().drop_last() =~= Seq::empty());
    assert(joined(lines) + "\r\n"@ =~= "HTTP/1.1 200 OK"@ + "\r\n"@ + length_line(2) + "\r\n"@ + (
    connection_line(close) + "\r\n"@ + "\r\n"@));
    assert(joined(lines) + "\r\n"@ =~= "HTTP/1.1 200 OK\r\ncontent-length: 2\r\n"@ + head_ending(
        close,
    ));
}

/// The counters are sent as JSON that any site may read and none may keep.
pub proof fn law_metrics_are_open(report: Seq<char>, close: bool)
    ensures
        metrics_reply(report, close).status == 200,
        metrics_reply(report, close).body == encode_utf8(report),
        metrics_reply(report, close).bytes() == encode_utf8(
            "HTTP/1.1 200 OK\r\ncontent-type: application/json\r\ncontent-length: "@
                + text::decimal(encode_utf8(report).len())
                + "\r\ncache-control: no-store\r\naccess-control-allow-origin: *\r\n"@
                + head_ending(close),
        ) + encode_utf8(report),
{
    let lines = metrics_reply(report, close).lines;
    let n = text::decimal(encode_utf8(report).len());
    reveal_strlit("\r\n");
    reveal_strlit("HTTP/1.1 200 OK");
    reveal_strlit("content-type: application/json");
    reveal_strlit("content-length: ");
    reveal_strlit("cache-control: no-store");
    reveal_strlit("access-control-allow-origin: *");
    reveal_strlit("HTTP/1.1 200 OK\r\ncontent-type: application/json\r\ncontent-length: ");
    reveal_strlit("\r\ncache-control: no-store\r\naccess-control-allow-origin: *\r\n");
    lemma_head_ending(close);
    reveal_with_fuel(joined, 7);
    assert(lines.drop_last().drop_last().drop_last().drop_last().drop_last().drop_last()
        =~= Seq::empty());
    let front = "HTTP/1.1 200 OK"@ + "\r\n"@ + "content-type: application/json"@ + "\r\n"@
        + "content-length: "@;
    assert(front =~= "HTTP/1.1 200 OK\r\ncontent-type: application/json\r\ncontent-length: "@);
    let back = "\r\n"@ + "cache-control: no-store"@ + "\r\n"@ + "access-control-allow-origin: *"@
        + "\r\n"@;
    assert(back =~= "\r\ncache-control: no-store\r\naccess-control-allow-origin: *\r\n"@);
    assert(joined(lines) + "\r\n"@ =~= front + n + back + (connection_line(close) + "\r\n"@
        + "\r\n"@));
}

/// The reasons that statuses are sent with.
pub open spec fn phrase(status: u16) -> Seq<char> {
    match status {
        200 => "200 OK"@,
        201 => "201 Created"@,
        400 => "400 Bad Request"@,
        401 => "401 Unauthorized"@,
        404 => "404 Not Found"@,
        405 => "405 Method Not Allowed"@,
        413 => "413 Content Too Large"@,
        417 => "417 Expectation Failed"@,
        431 => "431 Request Header Fields Too Large"@,
        503 => "503 Service Unavailable"@,
        _ => text::decimal(status as nat) + " Internal Server Error"@,
    }
}

/// What a JSON response says besides: how to authorize, and which methods there
/// are.
pub open spec fn advice(status: u16) -> Seq<char> {
    match status {
        401 => "www-authenticate: Bearer\r\n"@,
        405 => "allow: GET, HEAD, POST\r\n"@,
        _ => Seq::empty(),
    }
}

proof fn lemma_three_digits(n: nat)
    requires
        100 <= n < 1000,
    ensures
        text::decimal(n) == seq![
            text::digit((n / 100) as int),
            text::digit((n / 10 % 10) as int),
            text::digit((n % 10) as int),
        ],
{
    reveal_with_fuel(text::decimal, 3);
    assert(n / 10 / 10 == n / 100);
    assert(text::decimal(n) =~= seq![
        text::digit((n / 100) as int),
        text::digit((n / 10 % 10) as int),
        text::digit((n % 10) as int),
    ]);
}

proof fn lemma_phrase(status: u16)
    ensures
        text::decimal(status as nat) + " "@ + reason(status) == phrase(status),
{
    reveal_strlit(" ");
    if 100 <= status < 1000 {
        lemma_three_digits(status as nat);
    }
    reveal_strlit("OK");
    reveal_strlit("200 OK");
    reveal_strlit("Created");
    reveal_strlit("201 Created");
    reveal_strlit("Bad Request");
    reveal_strlit("400 Bad Request");
    reveal_strlit("Unauthorized");
    reveal_strlit("401 Unauthorized");
    reveal_strlit("Not Found");
    reveal_strlit("404 Not Found");
    reveal_strlit("Method Not Allowed");
    reveal_strlit("405 Method Not Allowed");
    reveal_strlit("Content Too Large");
    reveal_strlit("413 Content Too Large");
    reveal_strlit("Expectation Failed");
    reveal_strlit("417 Expectation Failed");
    reveal_strlit("Request Header Fields Too Large");
    reveal_strlit("431 Request Header Fields Too Large");
    reveal_strlit("Service Unavailable");
    reveal_strlit("503 Service Unavailable");
    reveal_strlit("Internal Server Error");
    reveal_strlit(" Internal Server Error");
    assert(text::decimal(status as nat) + " "@ + reason(status) =~= phrase(status));
}

/// A JSON response is sent with its status, its length and its body, and an
/// error as its number.
pub proof fn law_json_is_sent(status: u16, body: Seq<char>, close: bool)
    ensures
        json_reply(status, body, close).status == status,
        json_reply(status, body, close).body == encode_utf8(body),
        json_reply(status, body, close).bytes() == encode_utf8(
            "HTTP/1.1 "@ + phrase(status)
                + "\r\ncontent-type: application/json\r\ncontent-length: "@ + text::decimal(
                encode_utf8(body).len(),
            ) + "\r\ncache-control: no-store\r\n"@ + advice(status) + head_ending(close),
        ) + encode_utf8(body),
        error_reply(status, close) == json_reply(
            status,
            "{\"error\":"@ + text::decimal(status as nat) + "}"@,
            close,
        ),
{
    let lines = json_reply(status, body, close).lines;
    let n = text::decimal(encode_utf8(body).len());
    let first = "HTTP/1.1 "@ + text::decimal(status as nat) + " "@ + reason(status);
    reveal_strlit("\r\n");
    reveal_strlit("HTTP/1.1 ");
    reveal_strlit("content-type: application/json");
    reveal_strlit("content-length: ");
    reveal_strlit("cache-control: no-store");
    reveal_strlit("www-authenticate: Bearer");
    reveal_strlit("allow: GET, HEAD, POST");
    reveal_strlit("www-authenticate: Bearer\r\n");
    reveal_strlit("allow: GET, HEAD, POST\r\n");
    reveal_strlit("\r\ncontent-type: application/json\r\ncontent-length: ");
    reveal_strlit("\r\ncache-control: no-store\r\n");
    lemma_head_ending(close);
    lemma_phrase(status);
    assert(first =~= "HTTP/1.1 "@ + phrase(status));
    let front = "\r\n"@ + "content-type: application/json"@ + "\r\n"@ + "content-length: "@;
    assert(front =~= "\r\ncontent-type: application/json\r\ncontent-length: "@);
    let back = "\r\n"@ + "cache-control: no-store"@ + "\r\n"@;
    assert(back =~= "\r\ncache-control: no-store\r\n"@);
    let always = seq![
        first,
        "content-type: application/json"@,
        length_line(encode_utf8(body).len()),
        "cache-control: no-store"@,
    ];
    assert(joined(always) =~= first + front + n + back) by {
        reveal_with_fuel(joined, 5);
        assert(always.drop_last().drop_last().drop_last().drop_last() =~= Seq::empty());
    }
    let ending = connection_line(close) + "\r\n"@ + "\r\n"@;
    if status == 401 {
        let more = always.push("www-authenticate: Bearer"@);
        assert(more.drop_last() =~= always);
        assert(lines.drop_last() =~= more);
        assert(advice(status) =~= "www-authenticate: Bearer"@ + "\r\n"@);
        assert(joined(more) =~= joined(always) + advice(status));
        assert(joined(lines) =~= joined(more) + connection_line(close) + "\r\n"@);
        assert(joined(lines) + "\r\n"@ =~= first + front + n + back + advice(status) + ending);
    } else if status == 405 {
        let more = always.push("allow: GET, HEAD, POST"@);
        assert(more.drop_last() =~= always);
        assert(lines.drop_last() =~= more);
        assert(advice(status) =~= "allow: GET, HEAD, POST"@ + "\r\n"@);
        assert(joined(more) =~= joined(always) + advice(status));
        assert(joined(lines) =~= joined(more) + connection_line(close) + "\r\n"@);
        assert(joined(lines) + "\r\n"@ =~= first + front + n + back + advice(status) + ending);
    } else {
        assert(lines.drop_last() =~= always);
        assert(joined(lines) + "\r\n"@ =~= first + front + n + back + advice(status) + ending);
    }
}

} // verus!
