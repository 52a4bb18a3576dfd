//! What a request is answered.
use vstd::prelude::*;
use vstd::string::StringExecFns;
use vstd::utf8::encode_utf8;

use crate::base62;
use crate::boundary;
use crate::bytes;
use crate::config::ServerConfig;
use crate::head::{Parsed, ParsedView};
use crate::json;
use crate::links;
use crate::metrics::{Metrics, MetricsView};
use crate::response;
use crate::response::Reply;
use crate::store;
use crate::store::Store;
use crate::text;

verus! {

/// All that an answer may depend on besides the request.
pub struct Site {
    pub urls: Seq<Seq<char>>,
    pub shards: nat,
    pub capacity: nat,
    pub public_base: Seq<char>,
    pub token: Option<Seq<char>>,
    pub counters: MetricsView,
    pub uptime_s: u64,
}

impl Site {
    /// Whether every stored URL is one that is accepted.
    pub open spec fn wf(self) -> bool {
        forall|i: int| 0 <= i < self.urls.len() ==> links::valid_url(#[trigger] self.urls[i])
    }
}

/// The site that a server with these parts is.
pub open spec fn site(
    store: Store,
    config: ServerConfig,
    counters: MetricsView,
    uptime_s: u64,
) -> Site {
    Site {
        urls: store@,
        shards: store.spec_shards() as nat,
        capacity: store.spec_capacity() as nat,
        public_base: config.public_base@,
        token: text::optional(config.write_token),
        counters,
        uptime_s,
    }
}

/// A request is answered at once, or asks to store a URL.
pub enum RoutedView {
    Replied(Reply),
    Write(Seq<char>),
}

/// What became of a request.
pub enum Routed {
    /// It was answered with the status.
    Replied(u16),
    /// It asks to store the URL.
    Write(String),
}

/// How an attempt to store a URL ended.
pub enum WriteOutcome {
    /// It is stored under the code.
    Stored(String),
    /// Too many writes are under way.
    Busy,
    /// The store is full.
    Full,
    /// The database failed.
    Failed,
}

/// Whether the credentials are the token's, where one is required.
pub open spec fn is_authorized(auth: Seq<u8>, token: Option<Seq<char>>) -> bool {
    match token {
        None => true,
        Some(t) => auth == encode_utf8("Bearer "@) + encode_utf8(t),
    }
}

/// The JSON that tells how full the store is.
pub open spec fn stats_json(urls: nat, shards: nat, capacity: nat) -> Seq<char> {
    "{\"urls\":"@ + text::decimal(urls) + ",\"shards\":"@ + text::decimal(shards)
        + ",\"capacity\":"@ + text::decimal(capacity) + "}"@
}

/// What a path without its query leads to.
pub open spec fn target(urls: Seq<Seq<char>>, path: Seq<u8>) -> Option<Seq<char>> {
    if path.len() > 0 && path[0] == 47 {
        store::resolution(urls, path.skip(1))
    } else {
        None
    }
}

pub open spec fn is_get(method: Seq<u8>) -> bool {
    method == encode_utf8("GET"@) || method == encode_utf8("HEAD"@)
}

pub open spec fn is_post(method: Seq<u8>) -> bool {
    method == encode_utf8("POST"@)
}

/// What the URL in the body of a request leads to, where there is one.
pub open spec fn routed_url(member: Option<Seq<char>>, close: bool) -> RoutedView {
    match member {
        Some(url) => if links::valid_url(url) {
            RoutedView::Write(url)
        } else {
            RoutedView::Replied(response::error_reply(400, close))
        },
        None => RoutedView::Replied(response::error_reply(400, close)),
    }
}

/// The answer to a request to store a URL.
pub open spec fn routed_write(site: Site, head: ParsedView, body: Seq<u8>) -> RoutedView {
    if !is_authorized(head.auth, site.token) {
        RoutedView::Replied(response::error_reply(401, head.close))
    } else {
        match boundary::json_member(body, "url"@) {
            Some(member) => routed_url(member, head.close),
            None => routed_url(None, head.close),
        }
    }
}

/// Whether an outcome is the one that is called for, with its answer added.
pub open spec fn is_routed(
    routed: RoutedView,
    res: Routed,
    before: Seq<u8>,
    after: Seq<u8>,
) -> bool {
    match res {
        Routed::Replied(status) => {
            &&& routed matches RoutedView::Replied(reply)
            &&& status == reply.status
            &&& after == before + reply.bytes()
        },
        Routed::Write(url) => routed == RoutedView::Write(url@) && after == before,
    }
}

/// The answer to a `GET` or `HEAD` request for a path without its query.
pub open spec fn routed_get(site: Site, head: ParsedView, path: Seq<u8>) -> Reply {
    if path == encode_utf8("/health"@) || path == encode_utf8("/ready"@) {
        response::health_reply(head.close)
    } else if path == encode_utf8("/api/metrics"@) {
        response::metrics_reply(
            site.counters.json(site.uptime_s, site.urls.len(), site.capacity),
            head.close,
        )
    } else if path == encode_utf8("/api/stats"@) {
        if !is_authorized(head.auth, site.token) {
            response::error_reply(401, head.close)
        } else {
            response::json_reply(
                200,
                stats_json(site.urls.len(), site.shards, site.capacity),
                head.close,
            )
        }
    } else {
        match target(site.urls, path) {
            Some(url) => response::redirect_reply(url, head.close),
            None => response::error_reply(404, head.close),
        }
    }
}

/// The answer to a request.
pub open spec fn routed(site: Site, head: ParsedView, body: Seq<u8>) -> RoutedView {
    let path = bytes::before(head.path, 63);
    if is_get(head.method) {
        RoutedView::Replied(routed_get(site, head, path))
    } else if is_post(head.method) {
        if path == encode_utf8("/api/shorten"@) {
            routed_write(site, head, body)
        } else {
            RoutedView::Replied(response::error_reply(404, head.close))
        }
    } else {
        RoutedView::Replied(response::error_reply(405, head.close))
    }
}

/// The short URL of a code.
pub open spec fn short_url(public_base: Seq<char>, code: Seq<char>) -> Seq<char> {
    public_base + "/"@ + code
}

/// The answer to a request to store a URL, once that was tried.
pub open spec fn write_reply(
    public_base: Seq<char>,
    url: Seq<char>,
    outcome: WriteOutcome,
    close: bool,
) -> Reply {
    match outcome {
        WriteOutcome::Stored(code) => response::json_reply(
            201,
            json::created_body(code@, short_url(public_base, code@), url),
            close,
        ),
        _ => response::error_reply(503, close),
    }
}

/// Checks the credentials.
pub fn authorized(auth: &[u8], token: &Option<String>) -> (res: bool)
    ensures
        res == is_authorized(auth@, text::optional(*token)),
{
    match token {
        None => true,
        Some(t) => {
            let scheme = "Bearer ".as_bytes();
            let secret = t.as_str().as_bytes();
            if !bytes::has_prefix(auth, scheme) {
                proof {
                    let full = encode_utf8("Bearer "@) + encode_utf8(t@);
                    assert(full.take(scheme@.len() as int) =~= scheme@);
                }
                return false;
            }
            let value = &auth[scheme.len()..auth.len()];
            assert(value@ =~= auth@.skip(scheme@.len() as int));
            proof {
                assert(auth@ =~= scheme@ + value@);
                let full = scheme@ + secret@;
                assert(full.skip(scheme@.len() as int) =~= secret@);
            }
            boundary::constant_time_eq(value, secret)
        },
    }
}

fn add_stats(out: &mut Vec<u8>, store: &Store, close: bool)
    requires
        store.wf(),
    ensures
        final(out)@ == old(out)@ + response::json_reply(
            200,
            stats_json(store@.len(), store.spec_shards() as nat, store.spec_capacity() as nat),
            close,
        ).bytes(),
{
    let mut text = String::new();
    text.append("{\"urls\":");
    text::append_decimal(&mut text, store.len() as u64);
    text.append(",\"shards\":");
    text::append_decimal(&mut text, store.shard_count() as u64);
    text.append(",\"capacity\":");
    text::append_decimal(&mut text, store.capacity() as u64);
    text.append("}");
    assert(text@ =~= stats_json(
        store@.len(),
        store.spec_shards() as nat,
        store.spec_capacity() as nat,
    ));
    response::json(out, 200, text.as_str(), close);
}

fn route_get(
    out: &mut Vec<u8>,
    store: &Store,
    config: &ServerConfig,
    metrics: &Metrics,
    uptime_s: u64,
    head: &Parsed,
    path: &[u8],
) -> (res: u16)
    requires
        store.wf(),
    ensures
        ({
            let reply = routed_get(site(*store, *config, metrics@, uptime_s), head@, path@);
            res == reply.status && final(out)@ == old(out)@ + reply.bytes()
        }),
{
    let close = head.close;
    if bytes::equal(path, "/health".as_bytes()) || bytes::equal(path, "/ready".as_bytes()) {
        response::health(out, close);
        return 200;
    }
    if bytes::equal(path, "/api/metrics".as_bytes()) {
        let report = metrics.snapshot_at(uptime_s, store);
        response::metrics(out, report.as_str(), close);
        return 200;
    }
    if bytes::equal(path, "/api/stats".as_bytes()) {
        if !authorized(head.auth.as_slice(), &config.write_token) {
            response::error(out, 401, close);
            return 401;
        }
        add_stats(out, store, close);
        return 200;
    }
    if path.len() > 0 && path[0] == 47 {
        let code = &path[1..path.len()];
        assert(code@ =~= path@.skip(1));
        match store.resolve_bytes(code) {
            Some(url) => {
                response::redirect(out, &url, close);
                return 302;
            },
            None => {},
        }
    }
    response::error(out, 404, close);
    404
}

/// Decides on the URL in the body of a request.
pub fn route_url(out: &mut Vec<u8>, member: Option<String>, close: bool) -> (res: Routed)
    ensures
        is_routed(
            routed_url(text::optional(member), close),
            res,
            old(out)@,
            final(out)@,
        ),
{
    match member {
        Some(url) => match links::validate_url(url.as_str()) {
            Ok(_) => {
                return Routed::Write(url);
            },
            Err(_) => {},
        },
        None => {},
    }
    response::error(out, 400, close);
    Routed::Replied(400)
}

fn route_write(
    out: &mut Vec<u8>,
    store: &Store,
    config: &ServerConfig,
    metrics: &Metrics,
    uptime_s: u64,
    head: &Parsed,
    body: &[u8],
) -> (res: Routed)
    ensures
        is_routed(
            routed_write(site(*store, *config, metrics@, uptime_s), head@, body@),
            res,
            old(out)@,
            final(out)@,
        ),
{
    if !authorized(head.auth.as_slice(), &config.write_token) {
        response::error(out, 401, head.close);
        return Routed::Replied(401);
    }
    let member = match boundary::json_string_member(body, "url") {
        Ok(member) => member,
        Err(_) => None,
    };
    route_url(out, member, head.close)
}

/// Answers a request, or says which URL it asks to store.
pub fn route(
    out: &mut Vec<u8>,
    store: &Store,
    config: &ServerConfig,
    metrics: &Metrics,
    uptime_s: u64,
    head: &Parsed,
    body: &[u8],
) -> (res: Routed)
    requires
        store.wf(),
    ensures
        is_routed(
            routed(site(*store, *config, metrics@, uptime_s), head@, body@),
            res,
            old(out)@,
            final(out)@,
        ),
{
    let end = bytes::index_of(head.path.as_slice(), 63);
    proof {
        bytes::lemma_span_to(head.path@, 63);
    }
    let path = &head.path.as_slice()[0..end];
    assert(path@ =~= bytes::before(head.path@, 63));
    let method = head.method.as_slice();
    if bytes::equal(method, "GET".as_bytes()) || bytes::equal(method, "HEAD".as_bytes()) {
        return Routed::Replied(route_get(out, store, config, metrics, uptime_s, head, path));
    }
    if bytes::equal(method, "POST".as_bytes()) {
        if bytes::equal(path, "/api/shorten".as_bytes()) {
            return route_write(out, store, config, metrics, uptime_s, head, body);
        }
        response::error(out, 404, head.close);
        return Routed::Replied(404);
    }
    response::error(out, 405, head.close);
    Routed::Replied(405)
}

/// Answers a request to store a URL, once that was tried.
pub fn answer_write(
    out: &mut Vec<u8>,
    config: &ServerConfig,
    url: &str,
    outcome: &WriteOutcome,
    close: bool,
) -> (res: u16)
    ensures
        ({
            let reply = write_reply(config.public_base@, url@, *outcome, close);
            res == reply.status && final(out)@ == old(out)@ + reply.bytes()
        }),
        *outcome matches WriteOutcome::Stored(code) ==> {
            let body = write_reply(config.public_base@, url@, *outcome, close).body;
            &&& boundary::json_member(body, "code"@) == Some(Some(code@))
            &&& boundary::json_member(body, "short_url"@) == Some(
                Some(short_url(config.public_base@, code@)),
            )
            &&& boundary::json_member(body, "long_url"@) == Some(Some(url@))
        },
{
    match outcome {
        WriteOutcome::Stored(code) => {
            let mut short = String::new();
            short.append(config.public_base.as_str());
            short.append("/");
            short.append(code.as_str());
            assert(short@ =~= short_url(config.public_base@, code@));
            let body = json::write_created_body(code.as_str(), short.as_str(), url);
            response::json(out, 201, body.as_str(), close);
            201
        },
        _ => {
            response::error(out, 503, close);
            503
        },
    }
}

/// A write that is not admitted, finds no room or fails is unavailable, and
/// one that succeeds says under which code and address.
pub proof fn law_write_replies(
    public_base: Seq<char>,
    url: Seq<char>,
    outcome: WriteOutcome,
    close: bool,
)
    ensures
        match outcome {
            WriteOutcome::Stored(_) => write_reply(public_base, url, outcome, close).status == 201,
            _ => write_reply(public_base, url, outcome, close) == response::error_reply(503, close),
        },
{
}

/// Every reply is framed: its head ends where the first empty line is.
pub proof fn law_replies_are_framed(site: Site, head: ParsedView, body: Seq<u8>)
    requires
        site.wf(),
    ensures
        routed(site, head, body) matches RoutedView::Replied(reply) ==> response::are_lines(
            reply.lines,
        ) && reply.lines.len() > 0 && reply.lines.contains(response::length_line(reply.body.len())),
{
    let close = head.close;
    let path = bytes::before(head.path, 63);
    response::law_health_reply_is_framed(close);
    response::law_metrics_reply_is_framed(
        site.counters.json(site.uptime_s, site.urls.len(), site.capacity),
        close,
    );
    response::law_json_reply_is_framed(
        200,
        stats_json(site.urls.len(), site.shards, site.capacity),
        close,
    );
    assert forall|status: u16|
        response::are_lines((#[trigger] response::error_reply(status, close)).lines)
            && response::error_reply(status, close).lines.len() > 0 && response::error_reply(
            status,
            close,
        ).lines.contains(
            response::length_line(response::error_reply(status, close).body.len()),
        ) by {
        response::law_json_reply_is_framed(
            status,
            "{\"error\":"@ + text::decimal(status as nat) + "}"@,
            close,
        );
    }
    match target(site.urls, path) {
        Some(url) => {
            response::law_redirect_reply_is_framed(url, close);
        },
        None => {},
    }
}

/// One credential fits one token.
pub proof fn law_token_is_exact(auth: Seq<u8>, token: Seq<char>, other: Seq<char>)
    requires
        is_authorized(auth, Some(token)),
        is_authorized(auth, Some(other)),
    ensures
        token == other,
{
    let n = encode_utf8("Bearer "@).len() as int;
    assert((encode_utf8("Bearer "@) + encode_utf8(token)).skip(n) =~= encode_utf8(token));
    assert((encode_utf8("Bearer "@) + encode_utf8(other)).skip(n) =~= encode_utf8(other));
    text::lemma_utf8_injective(token, other);
}

/// Without the token a URL is not stored and the statistics are not shown,
/// whatever the request holds.
pub proof fn law_unauthorized_is_refused(site: Site, head: ParsedView, body: Seq<u8>)
    requires
        !is_authorized(head.auth, site.token),
        bytes::before(head.path, 63) == encode_utf8("/api/shorten"@) && is_post(head.method)
            || bytes::before(head.path, 63) == encode_utf8("/api/stats"@) && is_get(head.method),
    ensures
        routed(site, head, body) == RoutedView::Replied(response::error_reply(401, head.close)),
{
    lemma_methods_differ();
    lemma_paths_differ();
}

/// Only an authorized `POST` to `/api/shorten` stores a URL, and only one
/// that is accepted.
pub proof fn law_writes_are_guarded(site: Site, head: ParsedView, body: Seq<u8>, url: Seq<char>)
    requires
        routed(site, head, body) == RoutedView::Write(url),
    ensures
        is_post(head.method),
        bytes::before(head.path, 63) == encode_utf8("/api/shorten"@),
        is_authorized(head.auth, site.token),
        boundary::json_member(body, "url"@) == Some(Some(url)),
        links::valid_url(url),
{
}

/// The counters and the statistics tell of the URLs only how many they are.
pub proof fn law_reports_hold_no_url(
    site: Site,
    urls: Seq<Seq<char>>,
    head: ParsedView,
    body: Seq<u8>,
)
    requires
        urls.len() == site.urls.len(),
        is_get(head.method),
        bytes::before(head.path, 63) == encode_utf8("/api/metrics"@) || bytes::before(
            head.path,
            63,
        ) == encode_utf8("/api/stats"@),
    ensures
        routed(site, head, body) == routed(Site { urls, ..site }, head, body),
{
}

/// `HEAD` is answered as `GET` is.
pub proof fn law_head_is_get(site: Site, get: ParsedView, head: ParsedView, body: Seq<u8>)
    requires
        get.method == encode_utf8("GET"@),
        head == (ParsedView { method: encode_utf8("HEAD"@), ..get }),
    ensures
        routed(site, head, body) == routed(site, get, body),
{
}

proof fn lemma_methods_differ()
    ensures
        encode_utf8("GET"@) != encode_utf8("POST"@),
        encode_utf8("HEAD"@) != encode_utf8("POST"@),
        encode_utf8("GET"@) != encode_utf8("HEAD"@),
{
    reveal_strlit("GET");
    reveal_strlit("HEAD");
    reveal_strlit("POST");
    vstd::utf8::is_ascii_chars_encode_utf8("GET"@);
    vstd::utf8::is_ascii_chars_encode_utf8("HEAD"@);
    vstd::utf8::is_ascii_chars_encode_utf8("POST"@);
    assert(encode_utf8("HEAD"@)[0] == 72);
    assert(encode_utf8("POST"@)[0] == 80);
}

proof fn lemma_paths_differ()
    ensures
        encode_utf8("/api/stats"@) != encode_utf8("/health"@),
        encode_utf8("/api/stats"@) != encode_utf8("/ready"@),
        encode_utf8("/api/stats"@) != encode_utf8("/api/metrics"@),
{
    reveal_strlit("/api/stats");
    reveal_strlit("/health");
    reveal_strlit("/ready");
    reveal_strlit("/api/metrics");
    vstd::utf8::is_ascii_chars_encode_utf8("/api/stats"@);
    vstd::utf8::is_ascii_chars_encode_utf8("/health"@);
    vstd::utf8::is_ascii_chars_encode_utf8("/ready"@);
    vstd::utf8::is_ascii_chars_encode_utf8("/api/metrics"@);
}

/// The path that leads to a code.
pub open spec fn code_path(code: Seq<u8>) -> Seq<u8> {
    seq![47u8] + code
}

/// What stands behind the `/` of the path of a page.
pub open spec fn is_page(name: Seq<u8>) -> bool {
    ||| name == encode_utf8("health"@)
    ||| name == encode_utf8("ready"@)
    ||| name == encode_utf8("api/metrics"@)
    ||| name == encode_utf8("api/stats"@)
}

/// The path of a name that is no page's leads to what the name resolves to.
proof fn lemma_code_path(code: Seq<u8>)
    requires
        !code.contains(63),
        !is_page(code),
    ensures
        bytes::before(code_path(code), 63) == code_path(code),
        code_path(code) != encode_utf8("/health"@),
        code_path(code) != encode_utf8("/ready"@),
        code_path(code) != encode_utf8("/api/metrics"@),
        code_path(code) != encode_utf8("/api/stats"@),
        code_path(code).skip(1) == code,
{
    let path = code_path(code);
    assert(path.skip(1) =~= code);
    assert forall|i: int| 0 <= i < path.len() implies path[i] != 63 by {
        if i > 0 {
            assert(code.contains(code[i - 1]));
        }
    }
    bytes::lemma_span_to_is(path, 63, path.len() as int);
    assert(path.take(path.len() as int) =~= path);
    reveal_strlit("/api/stats");
    reveal_strlit("/api/metrics");
    reveal_strlit("/health");
    reveal_strlit("/ready");
    reveal_strlit("api/stats");
    reveal_strlit("api/metrics");
    reveal_strlit("health");
    reveal_strlit("ready");
    vstd::utf8::is_ascii_chars_encode_utf8("/api/stats"@);
    vstd::utf8::is_ascii_chars_encode_utf8("/api/metrics"@);
    vstd::utf8::is_ascii_chars_encode_utf8("/health"@);
    vstd::utf8::is_ascii_chars_encode_utf8("/ready"@);
    vstd::utf8::is_ascii_chars_encode_utf8("api/stats"@);
    vstd::utf8::is_ascii_chars_encode_utf8("api/metrics"@);
    vstd::utf8::is_ascii_chars_encode_utf8("health"@);
    vstd::utf8::is_ascii_chars_encode_utf8("ready"@);
    assert(encode_utf8("/health"@).skip(1) =~= encode_utf8("health"@));
    assert(encode_utf8("/ready"@).skip(1) =~= encode_utf8("ready"@));
    assert(encode_utf8("/api/stats"@).skip(1) =~= encode_utf8("api/stats"@));
    assert(encode_utf8("/api/metrics"@).skip(1) =~= encode_utf8("api/metrics"@));
}

/// The code of every stored URL redirects to it, unless it is the name of a
/// page.
pub proof fn law_codes_redirect(site: Site, head: ParsedView, body: Seq<u8>, i: int)
    requires
        0 <= i < site.urls.len() <= u64::MAX,
        is_get(head.method),
        head.path == code_path(base62::encoding(i as nat)),
        !is_page(base62::encoding(i as nat)),
    ensures
        routed(site, head, body) == RoutedView::Replied(
            response::redirect_reply(site.urls[i], head.close),
        ),
{
    let code = base62::encoding(i as nat);
    base62::law_roundtrip(i as u64);
    assert forall|j: int| 0 <= j < code.len() implies code[j] != 63 by {
        assert(base62::digit_of(code[j]) is Some);
    }
    lemma_code_path(code);
    store::law_only_issued_codes_resolve(site.urls, base62::encoding(i as nat));
}

/// A URL redirects under its code as soon as it is stored.
pub proof fn law_stored_url_redirects(
    site: Site,
    url: Seq<char>,
    head: ParsedView,
    body: Seq<u8>,
)
    requires
        site.urls.len() < u64::MAX,
        is_get(head.method),
        head.path == code_path(base62::encoding(site.urls.len())),
        !is_page(base62::encoding(site.urls.len())),
    ensures
        routed(Site { urls: site.urls.push(url), ..site }, head, body) == RoutedView::Replied(
            response::redirect_reply(url, head.close),
        ),
{
    law_codes_redirect(
        Site { urls: site.urls.push(url), ..site },
        head,
        body,
        site.urls.len() as int,
    );
}

/// What was not given out as a code, and is no page, is not found.
pub proof fn law_unknown_code_is_not_found(
    site: Site,
    head: ParsedView,
    body: Seq<u8>,
    code: Seq<u8>,
)
    requires
        site.urls.len() <= u64::MAX,
        is_get(head.method),
        head.path == code_path(code),
        !code.contains(63),
        !is_page(code),
        forall|i: int| 0 <= i < site.urls.len() ==> code != #[trigger] base62::encoding(i as nat),
    ensures
        routed(site, head, body) == RoutedView::Replied(response::error_reply(404, head.close)),
{
    lemma_code_path(code);
    store::law_only_issued_codes_resolve(site.urls, code);
}

/// A `GET` or a `HEAD` is answered by its path without the query: two paths are
/// those of health checks, one tells the counters, one how full the store is, to
/// those who have the token where there is one, and any other leads to the URL
/// whose code it is.
pub proof fn law_reads_are_routed(site: Site, head: ParsedView, body: Seq<u8>)
    requires
        head.method == encode_utf8("GET"@) || head.method == encode_utf8("HEAD"@),
    ensures
        ({
            let path = bytes::before(head.path, 63);
            let allowed = site.token is None || head.auth == encode_utf8("Bearer "@) + encode_utf8(
                site.token->0,
            );
            let reply = routed(site, head, body);
            &&& path == encode_utf8("/health"@) ==> reply == RoutedView::Replied(
                response::health_reply(head.close),
            )
            &&& path == encode_utf8("/ready"@) ==> reply == RoutedView::Replied(
                response::health_reply(head.close),
            )
            &&& path == encode_utf8("/api/metrics"@) ==> reply == RoutedView::Replied(
                response::metrics_reply(
                    site.counters.json(site.uptime_s, site.urls.len(), site.capacity),
                    head.close,
                ),
            )
            &&& path == encode_utf8("/api/stats"@) && allowed ==> reply == RoutedView::Replied(
                response::json_reply(
                    200,
                    "{\"urls\":"@ + text::decimal(site.urls.len()) + ",\"shards\":"@
                        + text::decimal(site.shards) + ",\"capacity\":"@ + text::decimal(
                        site.capacity,
                    ) + "}"@,
                    head.close,
                ),
            )
            &&& path == encode_utf8("/api/stats"@) && !allowed ==> reply == RoutedView::Replied(
                response::error_reply(401, head.close),
            )
            &&& path != encode_utf8("/health"@) && path != encode_utf8("/ready"@) && path
                != encode_utf8("/api/metrics"@) && path != encode_utf8("/api/stats"@) ==> {
                let found = if path.len() > 0 && path[0] == 47 {
                    store::resolution(site.urls, path.skip(1))
                } else {
                    None
                };
                &&& found is Some ==> reply == RoutedView::Replied(
                    response::redirect_reply(found->0, head.close),
                )
                &&& found is None ==> reply == RoutedView::Replied(
                    response::error_reply(404, head.close),
                )
            }
        }),
{
    lemma_methods_differ();
    lemma_paths_differ();
    reveal_strlit("/health");
    reveal_strlit("/ready");
    reveal_strlit("/api/metrics");
    vstd::utf8::is_ascii_chars_encode_utf8("/health"@);
    vstd::utf8::is_ascii_chars_encode_utf8("/ready"@);
    vstd::utf8::is_ascii_chars_encode_utf8("/api/metrics"@);
}

/// A `POST` to `/api/shorten` asks to store the URL in its body, if it has the
/// token where there is one and the URL is accepted; any other `POST` finds
/// nothing, and other methods are not allowed.
pub proof fn law_writes_are_routed(site: Site, head: ParsedView, body: Seq<u8>)
    ensures
        ({
            let path = bytes::before(head.path, 63);
            let allowed = site.token is None || head.auth == encode_utf8("Bearer "@) + encode_utf8(
                site.token->0,
            );
            let reply = routed(site, head, body);
            let post = head.method == encode_utf8("POST"@);
            let other = !post && head.method != encode_utf8("GET"@) && head.method != encode_utf8(
                "HEAD"@,
            );
            &&& post && path == encode_utf8("/api/shorten"@) ==> {
                &&& !allowed ==> reply == RoutedView::Replied(
                    response::error_reply(401, head.close),
                )
                &&& allowed ==> match boundary::json_member(body, "url"@) {
                    Some(Some(url)) => if links::valid_url(url) {
                        reply == RoutedView::Write(url)
                    } else {
                        reply == RoutedView::Replied(response::error_reply(400, head.close))
                    },
                    _ => reply == RoutedView::Replied(response::error_reply(400, head.close)),
                }
            }
            &&& post && path != encode_utf8("/api/shorten"@) ==> reply == RoutedView::Replied(
                response::error_reply(404, head.close),
            )
            &&& other ==> reply == RoutedView::Replied(response::error_reply(405, head.close))
        }),
{
    lemma_methods_differ();
}

/// What follows a question mark in the path does not matter.
pub proof fn law_queries_do_not_matter(
    site: Site,
    head: ParsedView,
    body: Seq<u8>,
    path: Seq<u8>,
    query: Seq<u8>,
)
    requires
        forall|i: int| 0 <= i < path.len() ==> #[trigger] path[i] != 63,
    ensures
        routed(site, ParsedView { path: path + seq![63u8] + query, ..head }, body) == routed(
            site,
            ParsedView { path, ..head },
            body,
        ),
{
    let long = path + seq![63u8] + query;
    let n = path.len() as int;
    bytes::lemma_span_to_is(long, 63, n);
    bytes::lemma_span_to_is(path, 63, n);
    assert(long.take(n) =~= path);
    assert(path.take(n) =~= path);
    assert(bytes::before(long, 63) == bytes::before(path, 63));
}

/// A body's URL is to be stored exactly if it is accepted.
pub proof fn law_urls_are_routed(member: Option<Seq<char>>, close: bool)
    ensures
        routed_url(member, close) == match member {
            Some(url) => if links::valid_url(url) {
                RoutedView::Write(url)
            } else {
                RoutedView::Replied(response::error_reply(400, close))
            },
            None => RoutedView::Replied(response::error_reply(400, close)),
        },
{
}

/// A request has the token exactly if it says `Bearer` and the token; where none
/// is required, any request has it.
pub proof fn law_authorization(auth: Seq<u8>, token: Seq<char>)
    ensures
        is_authorized(auth, None),
        is_authorized(auth, Some(token)) <==> auth == encode_utf8("Bearer "@) + encode_utf8(token),
{
}

/// A stored URL is reported with its code, with the address that ends in the code,
/// and with itself.
pub proof fn law_stored_urls_are_reported(
    public_base: Seq<char>,
    url: Seq<char>,
    code: String,
    close: bool,
)
    ensures
        write_reply(public_base, url, WriteOutcome::Stored(code), close) == response::json_reply(
            201,
            json::created_body(code@, public_base + "/"@ + code@, url),
            close,
        ),
        write_reply(public_base, url, WriteOutcome::Busy, close) == response::error_reply(
            503,
            close,
        ),
        write_reply(public_base, url, WriteOutcome::Full, close) == response::error_reply(
            503,
            close,
        ),
        write_reply(public_base, url, WriteOutcome::Failed, close) == response::error_reply(
            503,
            close,
        ),
{
}

/// A site is what its parts are.
pub proof fn law_site(store: Store, config: ServerConfig, counters: MetricsView, uptime_s: u64)
    ensures
        ({
            let s = site(store, config, counters, uptime_s);
            &&& s.urls == store@
            &&& s.shards == store.spec_shards() as nat
            &&& s.capacity == store.spec_capacity() as nat
            &&& s.public_base == config.public_base@
            &&& config.write_token is None ==> s.token is None
            &&& config.write_token matches Some(token) ==> s.token == Some(token@)
            &&& s.counters == counters
            &&& s.uptime_s == uptime_s
        }),
{
}

/// An answer is its status and its bytes behind what is there; a request to store a
/// URL adds nothing.
pub proof fn law_outcomes(
    reply: Reply,
    url: String,
    other: Seq<char>,
    status: u16,
    before: Seq<u8>,
    after: Seq<u8>,
)
    ensures
        is_routed(RoutedView::Replied(reply), Routed::Replied(status), before, after) <==> status
            == reply.status && after == before + (reply.head() + reply.body),
        is_routed(RoutedView::Write(other), Routed::Write(url), before, after) <==> other == url@
            && after == before,
        !is_routed(RoutedView::Replied(reply), Routed::Write(url), before, after),
        !is_routed(RoutedView::Write(other), Routed::Replied(status), before, after),
{
}

} // verus!
