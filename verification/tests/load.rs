use rushort::client::{
    check_response, describe, describe_shortened, get, judge_shortened, post_url, request,
    shortened, Inbox, RawResponse, Response, ResponseError, ShortenedError,
};
use rushort::links::UrlParts;
use rushort::json::{write_created_body, write_shorten_body};
use rushort::options::{
    invalid_value, server_flag_of, unknown_argument, value_required, ServerFlag, ServerOptions,
};
use rushort::rng::Rng;
use rushort::schedule::{Job, Schedule};
use rushort::seeding::{write_seed_url, SeedError, Seeding};
use rushort::settings::{
    authority_of, flag_of, missing_value, unknown_option, Flag, Real, SettingError, Settings,
    TargetError,
};
use rushort::stats::Stats;
use rushort::verification::{verdict, Ending, Verification, VerifyError};
use rushort::workload::{plan_exchange, Exchange, Mix, Pool};

fn redirect(url: &str) -> Response {
    Response {
        status: 302,
        location: url.to_owned(),
        body: Vec::new(),
    }
}

fn status(status: u16) -> Response {
    Response {
        status,
        location: String::new(),
        body: Vec::new(),
    }
}

fn created(code: &str, url: &str) -> Response {
    Response {
        status: 201,
        location: String::new(),
        body: write_created_body(code, "http://s/x", url).into_bytes(),
    }
}

fn received(text: &str) -> Result<Option<Response>, ResponseError> {
    let mut inbox = Inbox::new();
    inbox.feed(text.as_bytes());
    inbox.response()
}

#[test]
fn requests_are_written_exactly() {
    let key = Some("k".to_owned());
    assert_eq!(
        get("127.0.0.1:8080", "/missing-code"),
        b"GET /missing-code HTTP/1.1\r\nHost: 127.0.0.1:8080\r\n\r\n"
    );
    assert_eq!(
        request("h", &key, "GET", "/a", ""),
        b"GET /a HTTP/1.1\r\nHost: h\r\n\r\n"
    );
    assert_eq!(
        post_url("h", &key, "https://example.com/\""),
        b"POST /api/shorten HTTP/1.1\r\nHost: h\r\nContent-Type: application/json\r\nContent-Length: 32\r\nAuthorization: Bearer k\r\n\r\n{\"url\":\"https://example.com/\\\"\"}"
    );
    assert_eq!(
        request("h", &None, "POST", "/a", "é"),
        "POST /a HTTP/1.1\r\nHost: h\r\nContent-Type: application/json\r\nContent-Length: 2\r\n\r\né"
            .as_bytes()
    );
}

#[test]
fn bodies_are_written_exactly() {
    assert_eq!(write_shorten_body("a"), "{\"url\":\"a\"}");
    assert_eq!(
        write_created_body("1", "s/1", "l"),
        "{\"code\":\"1\",\"long_url\":\"l\",\"short_url\":\"s/1\"}"
    );
    assert_eq!(
        write_shorten_body("\"\\/\u{8}\u{c}\n\r\t\u{1}\u{1f}\u{7f}é\u{1F600}"),
        "{\"url\":\"\\\"\\\\/\\b\\f\\n\\r\\t\\u0001\\u001f\u{7f}é\u{1F600}\"}"
    );
}

#[test]
fn responses_are_taken_one_by_one() {
    let mut inbox = Inbox::new();
    inbox.feed(b"HTTP/1.1 302 Found\r\nLocation: https://example.com/\r\ncontent-length: +0\r\n\r\nHTTP/1.1 200 OK\r\ncontent-length: 2\r\n\r\no");
    let first = inbox.response().ok().unwrap().unwrap();
    assert_eq!(first.status, 302);
    assert_eq!(first.location, "https://example.com/");
    assert!(first.body.is_empty());
    assert!(inbox.response().ok().unwrap().is_none());
    inbox.feed(b"kHTTP");
    let second = inbox.response().ok().unwrap().unwrap();
    assert_eq!(second.status, 200);
    assert_eq!(second.location, "");
    assert_eq!(second.body, b"ok");
    assert!(inbox.response().ok().unwrap().is_none());
    inbox.feed(b"/1.1 404 Not Found\r\ncontent-length: 0\r\n\r\n");
    assert_eq!(inbox.response().ok().unwrap().unwrap().status, 404);
}

#[test]
fn responses_that_are_not_understood_have_their_error() {
    let text = |response: &str| received(response).err().map(describe);
    assert_eq!(text("nonsense\r\n\r\n"), Some("bad response"));
    assert_eq!(text("\r\n\r\n"), Some("missing status"));
    assert_eq!(
        text("HTTP/1.1 200 OK\r\ncontent-length: 1\r\ncontent-length: 1\r\n\r\n"),
        Some("duplicate response length")
    );
    assert_eq!(
        text("HTTP/1.1 200 OK\r\ncontent-length: one\r\n\r\n"),
        Some("invalid numeric argument")
    );
    assert_eq!(
        text("HTTP/1.1 200 OK\r\ntransfer-encoding: chunked\r\n\r\n"),
        Some("transfer encoding unsupported")
    );
    assert_eq!(
        text("HTTP/1.1 302 Found\r\nlocation: a\r\nLOCATION: a\r\n\r\n"),
        Some("duplicate location")
    );
    assert_eq!(
        text("HTTP/1.1 200 OK\r\n\r\n"),
        Some("response requires content-length")
    );
    assert_eq!(
        text("HTTP/1.1 200 OK\r\ncontent-length: 65537\r\n\r\n"),
        Some("response body too large")
    );
    assert_eq!(
        text(&"x".repeat(16385)),
        Some("response head too large")
    );
    assert!(matches!(received(&"x".repeat(16384)), Ok(None)));
    assert!(matches!(
        received("HTTP/1.1 200 OK\r\ncontent-length: 65536\r\n\r\n"),
        Ok(None)
    ));
    let mut inbox = Inbox::new();
    inbox.feed(b"HTTP/1.1 302 Found\r\nlocation: \xff\r\ncontent-length: 0\r\n\r\n");
    assert_eq!(inbox.response().err().map(describe), Some("invalid location"));
    let mut inbox = Inbox::new();
    inbox.feed(b"HTTP/1.1 302 Found\r\ncontent-length: \xff\r\n\r\n");
    assert_eq!(inbox.response().err().map(describe), Some("bad length"));
    let empty = RawResponse {
        code: None,
        headers: Vec::new(),
    };
    assert!(matches!(check_response(&empty), Err(ResponseError::NoStatus)));
}

#[test]
fn a_response_has_at_most_32_headers() {
    let with = |n: usize| {
        received(&format!(
            "HTTP/1.1 200 OK\r\ncontent-length: 0\r\n{}\r\n",
            "a: b\r\n".repeat(n - 1)
        ))
    };
    assert!(matches!(with(32), Ok(Some(_))));
    assert!(matches!(with(33), Err(ResponseError::Malformed)));
}

#[test]
fn the_code_of_a_stored_url_is_checked() {
    let url = "https://example.com/a";
    let text = |r: &Response| shortened(r, url).err().map(describe_shortened);
    assert_eq!(shortened(&created("1Z", url), url).ok(), Some("1Z".to_owned()));
    assert_eq!(text(&status(503)).as_deref(), Some("POST status 503"));
    assert_eq!(text(&status(201)).as_deref(), Some("invalid POST JSON"));
    let mut r = status(201);
    r.body = b"{\"long_url\":\"https://example.com/a\"}".to_vec();
    assert_eq!(text(&r).as_deref(), Some("missing code"));
    for code in ["01", "a!", "", "111111111111"] {
        assert!(matches!(
            shortened(&created(code, url), url),
            Err(ShortenedError::Mismatch)
        ));
    }
    assert_eq!(
        text(&created("1", "https://example.com/b")).as_deref(),
        Some("POST mapping mismatch")
    );
}

#[test]
fn random_numbers_are_reproducible() {
    let mut rng = Rng::for_worker(0);
    let first = rng.next();
    let second = rng.next();
    let step = |x: u64| {
        let x = x ^ (x << 13);
        let x = x ^ (x >> 7);
        x ^ (x << 17)
    };
    assert_eq!(first, step(0x9e3779b97f4a7c15));
    assert_eq!(second, step(first));
    let mut other = Rng::for_worker(1);
    assert_eq!(other.next(), step(0x9e3779b97f4a7c15u64.wrapping_mul(2)));
    let mut a = Rng::for_worker(3);
    let mut b = Rng::for_worker(3);
    for _ in 0..100 {
        let n = a.next();
        assert_ne!(n, 0);
        let p = 0.3f64;
        let expected = ((n >> 11) as f64 / ((1u64 << 53) as f64)) < p;
        assert_eq!(b.chance((p * (1u64 << 53) as f64).ceil() as u64), expected);
        let n = a.next();
        assert_eq!(b.pick(7), (n % 7) as usize);
    }
}

#[test]
fn every_request_is_scheduled_once() {
    for (connections, pipeline, total) in [(1, 1, 5u64), (3, 2, 17), (4, 8, 3), (5, 4, 40)] {
        let mut seen = vec![0; total as usize];
        for id in 0..connections {
            let mut schedule = Schedule::new(id, connections, pipeline, total);
            let mut last = None;
            while let Some(job) = schedule.next() {
                assert!(0 < job.count && job.count <= pipeline);
                assert!(last < Some(job.sequence));
                last = Some(job.sequence);
                for r in job.sequence..job.sequence + job.count as u64 {
                    seen[r as usize] += 1;
                }
            }
            assert!(schedule.next().is_none());
        }
        assert!(seen.iter().all(|n| *n == 1));
    }
    let mut last = Schedule::new(1, 2, 1024, u64::MAX);
    assert_eq!(last.next().map(|j| (j.sequence, j.count)), Some((1024, 1024)));
    assert_eq!(last.next().map(|j| j.sequence), Some(3072));
}

#[test]
fn options_set_what_they_name() {
    let mut s = Settings::new(Some("key".to_owned()));
    assert_eq!(s.key.as_deref(), Some("key"));
    assert_eq!(s.target, "http://127.0.0.1:8080");
    assert_eq!((s.rps, s.connections, s.pipeline, s.queue, s.seed), (2000, 64, 1, 32, 1000));
    for (flag, value) in [
        ("--target", "http://[::1]:9/"),
        ("--mode", "saturate"),
        ("--rps", "+7"),
        ("--connections", "2"),
        ("--pipeline", "3"),
        ("--queue", "4"),
        ("--seed", "5"),
        ("--json", "out.json"),
    ] {
        assert!(s.apply(flag_of(flag), value).is_ok());
    }
    assert!(s.apply(flag_of("--preloaded"), "").is_ok());
    assert!(!s.rate && s.preloaded);
    assert_eq!((s.rps, s.connections, s.pipeline, s.queue, s.seed), (7, 2, 3, 4, 5));
    assert_eq!(s.json.as_deref(), Some("out.json"));
    assert!(matches!(s.apply(flag_of("--mode"), "fast"), Err(SettingError::Mode)));
    for bad in ["", "+", "-1", "++1", "1.5", "18446744073709551616"] {
        assert!(matches!(
            s.apply(flag_of("--rps"), bad),
            Err(SettingError::Number)
        ));
        assert!(matches!(
            s.apply(flag_of("--seed"), bad),
            Err(SettingError::Number)
        ));
    }
    assert!(matches!(
        s.apply(flag_of("--nothing"), ""),
        Err(SettingError::Unknown)
    ));
    assert!(matches!(flag_of("--timeout"), Flag::Real(Real::Timeout)));
    assert!(matches!(flag_of("-h"), Flag::Help));
    assert_eq!(missing_value("--rps"), "missing value for --rps");
    assert_eq!(unknown_option("--x"), "unknown option --x");
    assert!(s.resolve_target().is_ok());
    assert_eq!((s.host.as_str(), s.port), ("::1", 9));
    assert_eq!(s.target, "http://[::1]:9");
}

#[test]
fn settings_have_bounds() {
    let mut s = Settings::new(None);
    assert!(s.check(true, true, true).is_ok());
    assert!(matches!(s.check(false, false, true), Err(SettingError::Bounds)));
    assert!(matches!(
        s.check(true, false, false),
        Err(SettingError::NothingScheduled)
    ));
    s.pipeline = 2;
    assert!(s.check(true, false, true).is_ok());
    assert!(matches!(
        s.check(true, true, true),
        Err(SettingError::PipelinedWrites)
    ));
    for (flag, most) in [
        ("--connections", 4096),
        ("--pipeline", 1024),
        ("--queue", 1024),
        ("--seed", 1_000_000),
        ("--rps", 1_000_000_000),
    ] {
        let mut s = Settings::new(None);
        s.apply(flag_of(flag), &format!("{most}")).ok().unwrap();
        assert!(s.check(true, false, true).is_ok());
        for out in [0, most + 1] {
            s.apply(flag_of(flag), &format!("{out}")).ok().unwrap();
            let problem = s.check(true, false, true).err().unwrap();
            assert_eq!(
                rushort::settings::describe(problem),
                "invalid bounds, ratios or latency threshold"
            );
        }
    }
}

#[test]
fn targets_are_http_origins() {
    let with = |target: &str| {
        let mut s = Settings::new(None);
        s.target = target.to_owned();
        s.resolve_target().map(|_| (s.target, s.host, s.port))
    };
    assert_eq!(
        with("http://example.com/").ok(),
        Some(("http://example.com".to_owned(), "example.com".to_owned(), 80))
    );
    for bad in [
        "https://example.com",
        "http://example.com/a",
        "http://example.com/?a",
        "http://example.com/#a",
        "http://a@example.com/",
        "http://:a@example.com/",
        "file:///",
    ] {
        assert!(matches!(with(bad), Err(TargetError::NotAnOrigin)), "{bad}");
    }
    assert!(matches!(with("example"), Err(TargetError::Url(_))));
    assert_eq!(authority_of("http://a:1").as_deref(), Some("a:1"));
    assert_eq!(authority_of("HTTP://a:1"), None);
    assert_eq!(authority_of("http"), None);
}

#[test]
fn server_options_set_what_they_name() {
    let mut o = ServerOptions::new();
    assert_eq!((o.bind.as_str(), o.shards, o.preload), ("127.0.0.1:8080", 64, 0));
    assert!(o.apply(server_flag_of("--bind"), "0.0.0.0:1"));
    assert!(o.apply(server_flag_of("--shards"), "7"));
    assert!(o.apply(server_flag_of("--preload"), "9"));
    assert!(!o.apply(server_flag_of("--shards"), "x"));
    assert!(!o.apply(server_flag_of("--preload"), "-1"));
    assert_eq!((o.bind.as_str(), o.shards, o.preload), ("0.0.0.0:1", 7, 9));
    assert!(matches!(server_flag_of("--help"), ServerFlag::Help));
    assert!(matches!(server_flag_of("--x"), ServerFlag::Unknown));
    assert_eq!(
        unknown_argument("--x"),
        "shortener: unknown argument `--x` (try --help)"
    );
    assert_eq!(value_required("--bind"), "shortener: --bind requires a value");
    assert_eq!(
        invalid_value("--shards", "x"),
        "shortener: invalid value `x` for --shards"
    );
}

fn seeded(n: usize) -> Pool {
    let mut seeding = Seeding::new("h", n, true, None);
    while let Some(_) = seeding.next().ok().unwrap() {
        let url = write_seed_url(seeding.len());
        seeding.receive(&redirect(&url)).ok().unwrap();
    }
    seeding.finish()
}

#[test]
fn seeds_are_stored_and_asked_for() {
    let mut seeding = Seeding::new("h", 2, false, Some("k".to_owned()));
    for (i, code) in ["a", "b"].iter().enumerate() {
        let url = format!("https://example.com/seed/{i}");
        let post = seeding.next().ok().unwrap().unwrap();
        assert_eq!(post, post_url("h", &Some("k".to_owned()), &url));
        seeding.receive(&created(code, &url)).ok().unwrap();
        let get = seeding.next().ok().unwrap().unwrap();
        assert_eq!(get, format!("GET /{code} HTTP/1.1\r\nHost: h\r\n\r\n").as_bytes());
        seeding.receive(&redirect(&url)).ok().unwrap();
    }
    assert!(seeding.next().ok().unwrap().is_none());
    let pool = seeding.finish();
    assert_eq!(pool.len(), 2);
    assert_eq!((pool.code(1), pool.url(1)), ("b", "https://example.com/seed/1"));
}

#[test]
fn seeds_that_go_wrong_are_errors() {
    let url = "https://example.com/seed/0";
    let fresh = || {
        let mut seeding = Seeding::new("h", 2, false, None);
        seeding.next().ok().unwrap();
        seeding
    };
    let text = |e: SeedError| rushort::seeding::describe(e);
    assert_eq!(
        fresh().receive(&status(500)).err().map(text).as_deref(),
        Some("POST status 500")
    );
    let mut wrong = fresh();
    wrong.receive(&created("a", url)).ok().unwrap();
    assert_eq!(
        wrong.receive(&redirect("https://example.com/")).err().map(text).as_deref(),
        Some("seed redirect mismatch")
    );
    let mut twice = fresh();
    twice.receive(&created("a", url)).ok().unwrap();
    twice.receive(&redirect(url)).ok().unwrap();
    assert_eq!(
        twice
            .receive(&created("a", "https://example.com/seed/1"))
            .err()
            .map(text)
            .as_deref(),
        Some("duplicate seed code")
    );
}

#[test]
fn preloaded_seeds_have_the_codes_of_their_numbers() {
    let pool = seeded(63);
    assert_eq!(pool.len(), 63);
    assert_eq!(pool.code(61), "z");
    assert_eq!(pool.code(62), "10");
    assert_eq!(pool.url(62), "https://example.com/seed/62");
    assert_eq!(pool.request(62), b"GET /10 HTTP/1.1\r\nHost: h\r\n\r\n");
    let mut early = Seeding::new("h", 1, true, None);
    early
        .receive(&created("z", "https://example.com/seed/0"))
        .ok()
        .unwrap();
    assert_eq!(
        early.next().ok().unwrap().unwrap(),
        b"GET /0 HTTP/1.1\r\nHost: h\r\n\r\n"
    );
}

#[test]
fn a_worker_chooses_as_its_numbers_say() {
    let pool = seeded(5);
    let never = 0;
    let always = 1u64 << 53;
    let mix = |pipeline: usize, write_threshold: u64, miss_threshold: u64| Mix {
        connections: 4,
        pipeline,
        write_threshold,
        miss_threshold,
    };
    let job = |count: usize| Job { sequence: 9, count };
    let mut rng = Rng::for_worker(2);
    match plan_exchange(&pool, &None, mix(1, always, never), 2, job(1), 0, &mut rng) {
        Exchange::Write { url, request } => {
            assert_eq!(url, "https://example.com/load/2/9");
            assert_eq!(request, post_url("h", &None, &url));
        }
        _ => panic!("no write"),
    }
    assert!(matches!(
        plan_exchange(&pool, &None, mix(1, always, never), 2, job(1), 250_000, &mut rng),
        Exchange::Full
    ));
    match plan_exchange(&pool, &None, mix(3, always, always), 2, job(3), 0, &mut rng) {
        Exchange::Read { expected, request } => {
            assert_eq!(expected, vec![None, None, None]);
            assert_eq!(request, get("h", "/missing-code").repeat(3));
        }
        _ => panic!("no read"),
    }
    let mut same = Rng::for_worker(7);
    let mut rng = Rng::for_worker(7);
    match plan_exchange(&pool, &None, mix(3, never, never), 2, job(3), 0, &mut rng) {
        Exchange::Read { expected, request } => {
            let mut bytes = Vec::new();
            for choice in &expected {
                same.next();
                let i = (same.next() % 5) as usize;
                assert_eq!(*choice, Some(i));
                bytes.extend_from_slice(pool.request(i));
            }
            assert_eq!(expected.len(), 3);
            assert_eq!(request, bytes);
        }
        _ => panic!("no read"),
    }
    assert_eq!(same.next(), rng.next());
}

#[test]
fn answers_are_counted_once() {
    let mut stats = Stats::new();
    stats.begin(6, 0);
    stats.judge_read(Some("u"), &redirect("u"));
    stats.judge_read(Some("u"), &redirect("v"));
    stats.judge_read(Some("u"), &status(404));
    stats.judge_read(None, &status(404));
    stats.judge_read(None, &redirect("u"));
    stats.end(1500);
    stats.settle();
    assert_eq!((stats.sent(), stats.ok(), stats.errors()), (6, 2, 1));
    assert_eq!((stats.reads(), stats.misses(), stats.writes()), (1, 1, 0));
    assert_eq!((stats.status(), stats.mismatch()), (2, 1));
    assert_eq!(stats.first_error().as_deref(), None);

    let mut other = Stats::new();
    other.begin(1, 5);
    other.judge_write("u", &created("1", "u"));
    other.begin(1, 3);
    other.judge_write("u", &status(500));
    other.begin(1, 3);
    other.judge_write("u", &created("1", "v"));
    other.note("late");
    other.end(4096);
    other.end(4097);
    other.end(u128::MAX);
    other.settle();
    assert_eq!((other.ok(), other.writes(), other.status(), other.mismatch()), (1, 1, 1, 1));
    assert_eq!(other.first_error().as_deref(), Some("POST status 500"));
    assert_eq!(other.created(), &vec![("1".to_owned(), "u".to_owned())]);

    stats.merge(other);
    assert_eq!((stats.sent(), stats.ok(), stats.errors()), (9, 3, 1));
    assert_eq!(stats.first_error().as_deref(), Some("POST status 500"));
    assert_eq!(stats.created().len(), 1);
    assert_eq!(stats.lags(), vec![(0, 1), (3, 2), (5, 1)]);
    let latencies = stats.latencies();
    assert_eq!(latencies[..2], [(1500, 1), (4099, 2)]);
    assert_eq!(latencies.len(), 3);
    assert!(latencies[2].0 >= 86_400_000_000 && latencies[2].1 == 1);
}

#[test]
fn every_url_is_checked_after_a_run() {
    let pool = seeded(2);
    let mut stats = Stats::new();
    for (code, url) in [("a", "u"), ("b", "v")] {
        stats.begin(1, 0);
        stats.judge_write(url, &created(code, url));
        stats.end(0);
    }
    let mut checks = Verification::new(&pool, &stats);
    let mut seen = Vec::new();
    let urls = ["u", "v", "https://example.com/seed/0", "https://example.com/seed/1"];
    while let Some(check) = checks.next(&pool, &stats).ok().unwrap() {
        let error = check.judge(&redirect("elsewhere")).err().unwrap();
        assert_eq!(
            rushort::verification::describe(error),
            if seen.len() < 2 {
                "post-run redirect mismatch"
            } else {
                "seed mapping changed during run"
            }
        );
        assert!(check.judge(&redirect(urls[seen.len()])).is_ok());
        assert!(check.judge(&status(200)).is_err());
        seen.push(String::from_utf8_lossy(check.request()).into_owned());
    }
    let paths: Vec<&str> = seen.iter().map(|r| r.split(' ').nth(1).unwrap()).collect();
    assert_eq!(paths, vec!["/a", "/b", "/0", "/1"]);
}

#[test]
fn codes_given_out_twice_are_found() {
    for codes in [["a", "a"], ["a", "1"]] {
        let pool = seeded(2);
        let mut stats = Stats::new();
        for code in codes {
            stats.begin(1, 0);
            stats.judge_write("u", &created(code, "u"));
        }
        let mut checks = Verification::new(&pool, &stats);
        assert!(checks.next(&pool, &stats).ok().unwrap().is_some());
        let error = checks.next(&pool, &stats).err().unwrap();
        assert!(matches!(error, VerifyError::Duplicate));
        assert_eq!(
            rushort::verification::describe(error),
            "duplicate code across writes"
        );
    }
}

#[test]
fn a_run_passes_only_without_a_fault() {
    let good = Ending {
        rate: true,
        total: 1,
        dropped: 0,
        verified: true,
        fast: true,
        quick: true,
    };
    let mut stats = Stats::new();
    assert!(!verdict(&stats, Ending { total: 0, ..good }));
    stats.begin(1, 0);
    stats.judge_read(None, &status(404));
    stats.settle();
    assert!(verdict(&stats, good));
    assert!(!verdict(&stats, Ending { total: 2, ..good }));
    assert!(!verdict(&stats, Ending { dropped: 1, ..good }));
    assert!(!verdict(&stats, Ending { dropped: 1, total: 2, ..good }));
    assert!(!verdict(&stats, Ending { verified: false, ..good }));
    assert!(!verdict(&stats, Ending { fast: false, ..good }));
    assert!(!verdict(&stats, Ending { quick: false, ..good }));
    assert!(verdict(&stats, Ending { rate: false, total: 9, fast: false, ..good }));
    stats.begin(1, 0);
    stats.settle();
    assert!(!verdict(&stats, Ending { total: 2, ..good }));
}

#[test]
fn the_members_of_an_answer_are_judged() {
    let some = |text: &str| Some(Some(text.to_owned()));
    assert_eq!(judge_shortened(201, some("A"), some("u"), "u").ok(), Some("A".to_owned()));
    assert!(matches!(
        judge_shortened(200, some("A"), some("u"), "u"),
        Err(ShortenedError::Status(200))
    ));
    assert!(matches!(judge_shortened(201, None, None, "u"), Err(ShortenedError::Json)));
    assert!(matches!(
        judge_shortened(201, Some(None), some("u"), "u"),
        Err(ShortenedError::NoCode)
    ));
    assert!(matches!(
        judge_shortened(201, some("A"), Some(None), "u"),
        Err(ShortenedError::Mismatch)
    ));
}

#[test]
fn the_parts_of_an_origin_are_taken() {
    let parts = |scheme: &str, path: &str| UrlParts {
        scheme: scheme.to_owned(),
        host: Some("[::2]".to_owned()),
        port: Some(81),
        username: String::new(),
        password: None,
        path: path.to_owned(),
        query: None,
        fragment: None,
    };
    let mut s = Settings::new(None);
    s.target = "anything//".to_owned();
    assert!(!s.adopt_origin(&parts("https", "/")));
    assert!(!s.adopt_origin(&parts("http", "/a")));
    assert_eq!(s.port, 8080);
    assert!(s.adopt_origin(&parts("http", "/")));
    assert_eq!((s.target.as_str(), s.host.as_str(), s.port), ("anything", "::2", 81));
}

#[test]
fn the_order_of_parts_does_not_change_the_counts() {
    let part = |ok: u16, lag: u128| {
        let mut stats = Stats::new();
        stats.begin(2, lag);
        stats.judge_read(None, &status(ok));
        stats.end(lag * 3);
        stats.settle();
        stats
    };
    let mut ab = part(404, 10_000);
    ab.merge(part(500, 77));
    let mut ba = part(500, 77);
    ba.merge(part(404, 10_000));
    assert_eq!((ab.sent(), ab.ok(), ab.status(), ab.errors()), (4, 1, 1, 2));
    assert_eq!((ba.sent(), ba.ok(), ba.status(), ba.errors()), (4, 1, 1, 2));
    assert_eq!(ab.lags(), ba.lags());
    assert_eq!(ab.latencies(), ba.latencies());
    assert_eq!(ab.latencies(), vec![(231, 1), (30_015, 1)]);
}
