//! The settings of a load run: its options, their bounds, and its target.
use vstd::prelude::*;
use vstd::string::{StrSliceExecFns, StringExecFns};
use vstd::utf8::encode_utf8;

use crate::boundary;
use crate::links::{UrlParts, UrlPartsView};
use crate::schedule::{MAX_CONNECTIONS, MAX_PIPELINE};
use crate::text;

verus! {

/// The most batches that may wait for a connection.
pub const MAX_QUEUE: usize = 1024;

/// The most URLs that a run begins with.
pub const MAX_SEED: usize = 1_000_000;

/// The highest rate, in requests per second.
pub const MAX_RPS: u64 = 1_000_000_000;

pub struct Settings {
    pub target: String,
    pub host: String,
    pub port: u16,
    /// Requests per second.
    pub rps: u64,
    pub connections: usize,
    /// Requests per batch.
    pub pipeline: usize,
    /// Batches that may wait for a connection.
    pub queue: usize,
    /// URLs that the run begins with.
    pub seed: usize,
    /// Whether the server has them already.
    pub preloaded: bool,
    /// Whether requests are sent at a rate, not as fast as they can be.
    pub rate: bool,
    /// Where the report goes.
    pub json: Option<String>,
    /// The token for writes.
    pub key: Option<String>,
}

pub struct SettingsView {
    pub target: Seq<char>,
    pub host: Seq<char>,
    pub port: u16,
    pub rps: u64,
    pub connections: usize,
    pub pipeline: usize,
    pub queue: usize,
    pub seed: usize,
    pub preloaded: bool,
    pub rate: bool,
    pub json: Option<Seq<char>>,
    pub key: Option<Seq<char>>,
}

impl View for Settings {
    type V = SettingsView;

    open spec fn view(&self) -> SettingsView {
        SettingsView {
            target: self.target@,
            host: self.host@,
            port: self.port,
            rps: self.rps,
            connections: self.connections,
            pipeline: self.pipeline,
            queue: self.queue,
            seed: self.seed,
            preloaded: self.preloaded,
            rate: self.rate,
            json: text::optional(self.json),
            key: text::optional(self.key),
        }
    }
}

/// An option whose value is a number with a fraction.
#[derive(Clone, Copy)]
pub enum Real {
    Duration,
    WriteRatio,
    MissRatio,
    Timeout,
    MaxP99,
}

/// An option.
#[derive(Clone, Copy)]
pub enum Flag {
    Help,
    Preloaded,
    Target,
    Mode,
    Rps,
    Connections,
    Pipeline,
    Queue,
    Seed,
    Json,
    Real(Real),
    Unknown,
}

/// What is wrong with the settings.
#[derive(Clone, Copy)]
pub enum SettingError {
    Mode,
    Number,
    Unknown,
    Bounds,
    PipelinedWrites,
    NothingScheduled,
}

/// What is wrong with the target.
pub enum TargetError {
    Url(url::ParseError),
    NotAnOrigin,
}

pub open spec fn flag_named(name: Seq<char>) -> Flag {
    if name == "--help"@ || name == "-h"@ {
        Flag::Help
    } else if name == "--preloaded"@ {
        Flag::Preloaded
    } else if name == "--target"@ {
        Flag::Target
    } else if name == "--mode"@ {
        Flag::Mode
    } else if name == "--rps"@ {
        Flag::Rps
    } else if name == "--duration"@ {
        Flag::Real(Real::Duration)
    } else if name == "--connections"@ {
        Flag::Connections
    } else if name == "--pipeline"@ {
        Flag::Pipeline
    } else if name == "--queue"@ {
        Flag::Queue
    } else if name == "--seed"@ {
        Flag::Seed
    } else if name == "--write-ratio"@ {
        Flag::Real(Real::WriteRatio)
    } else if name == "--miss-ratio"@ {
        Flag::Real(Real::MissRatio)
    } else if name == "--timeout"@ {
        Flag::Real(Real::Timeout)
    } else if name == "--max-p99-ms"@ {
        Flag::Real(Real::MaxP99)
    } else if name == "--json"@ {
        Flag::Json
    } else {
        Flag::Unknown
    }
}

pub open spec fn problem_text(problem: SettingError) -> Seq<char> {
    match problem {
        SettingError::Mode => "mode must be rate or saturate"@,
        SettingError::Number => "invalid numeric argument"@,
        SettingError::Unknown => "unknown option"@,
        SettingError::Bounds => "invalid bounds, ratios or latency threshold"@,
        SettingError::PipelinedWrites => "pipeline >1 requires --write-ratio 0"@,
        SettingError::NothingScheduled => "rate and duration must schedule at least one request"@,
    }
}

/// An integer argument: digits, with or without a plus sign in front.
pub open spec fn integer(value: Seq<char>, limit: nat) -> Option<nat> {
    text::reading_to(text::unsigned(encode_utf8(value)), limit)
}

/// The settings before any option.
pub open spec fn defaults(key: Option<Seq<char>>) -> SettingsView {
    SettingsView {
        target: "http://127.0.0.1:8080"@,
        host: Seq::empty(),
        port: 8080,
        rps: 2000,
        connections: 64,
        pipeline: 1,
        queue: 32,
        seed: 1000,
        preloaded: false,
        rate: true,
        json: None,
        key,
    }
}

impl SettingsView {
    /// The settings after an option. One whose value has a fraction is not
    /// kept here.
    pub open spec fn with(self, flag: Flag, value: Seq<char>) -> Result<
        SettingsView,
        SettingError,
    > {
        let n = integer(value, usize::MAX as nat);
        match flag {
            Flag::Target => Ok(SettingsView { target: value, ..self }),
            Flag::Json => Ok(SettingsView { json: Some(value), ..self }),
            Flag::Preloaded => Ok(SettingsView { preloaded: true, ..self }),
            Flag::Mode => if value == "rate"@ {
                Ok(SettingsView { rate: true, ..self })
            } else if value == "saturate"@ {
                Ok(SettingsView { rate: false, ..self })
            } else {
                Err(SettingError::Mode)
            },
            Flag::Rps => match integer(value, u64::MAX as nat) {
                Some(r) => Ok(SettingsView { rps: r as u64, ..self }),
                None => Err(SettingError::Number),
            },
            Flag::Connections => match n {
                Some(n) => Ok(SettingsView { connections: n as usize, ..self }),
                None => Err(SettingError::Number),
            },
            Flag::Pipeline => match n {
                Some(n) => Ok(SettingsView { pipeline: n as usize, ..self }),
                None => Err(SettingError::Number),
            },
            Flag::Queue => match n {
                Some(n) => Ok(SettingsView { queue: n as usize, ..self }),
                None => Err(SettingError::Number),
            },
            Flag::Seed => match n {
                Some(n) => Ok(SettingsView { seed: n as usize, ..self }),
                None => Err(SettingError::Number),
            },
            Flag::Help | Flag::Real(_) => Ok(self),
            Flag::Unknown => Err(SettingError::Unknown),
        }
    }

    pub open spec fn in_bounds(self) -> bool {
        &&& 1 <= self.connections <= MAX_CONNECTIONS
        &&& 1 <= self.pipeline <= MAX_PIPELINE
        &&& 1 <= self.queue <= MAX_QUEUE
        &&& 1 <= self.seed <= MAX_SEED
        &&& 1 <= self.rps <= MAX_RPS
    }

    /// What is wrong with the settings, given what holds of the options with
    /// fractions: whether they are in their bounds, whether anything is
    /// written, and whether the rate and the duration make one request.
    pub open spec fn problem(self, reals_in_bounds: bool, writes: bool, scheduled: bool) -> Option<
        SettingError,
    > {
        if !self.in_bounds() || !reals_in_bounds {
            Some(SettingError::Bounds)
        } else if self.pipeline > 1 && writes {
            Some(SettingError::PipelinedWrites)
        } else if !scheduled {
            Some(SettingError::NothingScheduled)
        } else {
            None
        }
    }
}

/// Whether a URL is an `http` origin and nothing more.
pub open spec fn is_origin(parts: UrlPartsView) -> bool {
    &&& parts.scheme == "http"@
    &&& parts.host is Some
    &&& parts.path == "/"@
    &&& parts.query is None
    &&& parts.fragment is None
    &&& parts.username.len() == 0
    &&& parts.password is None
}

pub open spec fn is_bracket(c: char) -> bool {
    c == '[' || c == ']'
}

/// The text without the brackets at both ends.
pub open spec fn without_brackets(s: Seq<char>) -> Seq<char>
    decreases s.len(),
{
    if s.len() > 0 && is_bracket(s.first()) {
        without_brackets(s.drop_first())
    } else if s.len() > 0 && is_bracket(s.last()) {
        without_brackets(s.drop_last())
    } else {
        s
    }
}

/// The text without the slashes at its end.
pub open spec fn without_slashes(s: Seq<char>) -> Seq<char>
    decreases s.len(),
{
    if s.len() > 0 && s.last() == '/' {
        without_slashes(s.drop_last())
    } else {
        s
    }
}

/// The host and port of an `http` target, for the `Host` header: what stands
/// behind `http://`.
pub open spec fn authority(target: Seq<char>) -> Option<Seq<char>> {
    let scheme = "http://"@;
    if scheme.len() <= target.len() && target.take(scheme.len() as int) == scheme {
        Some(target.skip(scheme.len() as int))
    } else {
        None
    }
}

/// The option with a name.
pub fn flag_of(name: &str) -> (res: Flag)
    ensures
        res == flag_named(name@),
{
    if text::equal(name, "--help") || text::equal(name, "-h") {
        Flag::Help
    } else if text::equal(name, "--preloaded") {
        Flag::Preloaded
    } else if text::equal(name, "--target") {
        Flag::Target
    } else if text::equal(name, "--mode") {
        Flag::Mode
    } else if text::equal(name, "--rps") {
        Flag::Rps
    } else if text::equal(name, "--duration") {
        Flag::Real(Real::Duration)
    } else if text::equal(name, "--connections") {
        Flag::Connections
    } else if text::equal(name, "--pipeline") {
        Flag::Pipeline
    } else if text::equal(name, "--queue") {
        Flag::Queue
    } else if text::equal(name, "--seed") {
        Flag::Seed
    } else if text::equal(name, "--write-ratio") {
        Flag::Real(Real::WriteRatio)
    } else if text::equal(name, "--miss-ratio") {
        Flag::Real(Real::MissRatio)
    } else if text::equal(name, "--timeout") {
        Flag::Real(Real::Timeout)
    } else if text::equal(name, "--max-p99-ms") {
        Flag::Real(Real::MaxP99)
    } else if text::equal(name, "--json") {
        Flag::Json
    } else {
        Flag::Unknown
    }
}

/// What a problem is in words.
pub fn describe(problem: SettingError) -> (res: &'static str)
    ensures
        res@ == problem_text(problem),
{
    match problem {
        SettingError::Mode => "mode must be rate or saturate",
        SettingError::Number => "invalid numeric argument",
        SettingError::Unknown => "unknown option",
        SettingError::Bounds => "invalid bounds, ratios or latency threshold",
        SettingError::PipelinedWrites => "pipeline >1 requires --write-ratio 0",
        SettingError::NothingScheduled => "rate and duration must schedule at least one request",
    }
}

/// Reads an integer argument.
pub fn read_usize(value: &str) -> (res: Option<usize>)
    ensures
        match res {
            Some(n) => integer(value@, usize::MAX as nat) == Some(n as nat),
            None => integer(value@, usize::MAX as nat) is None,
        },
{
    text::read_number(text::without_plus(value.as_bytes()))
}

fn strip_brackets(s: &str) -> (res: String)
    ensures
        res@ == without_brackets(s@),
{
    let mut lo: usize = 0;
    let mut hi: usize = s.unicode_len();
    assert(s@.subrange(0, s@.len() as int) =~= s@);
    while lo < hi && (s.get_char(lo) == '[' || s.get_char(lo) == ']')
        invariant
            lo <= hi == s@.len(),
            without_brackets(s@.subrange(lo as int, hi as int)) == without_brackets(s@),
        decreases hi - lo,
    {
        assert(s@.subrange(lo as int, hi as int).drop_first() =~= s@.subrange(lo + 1, hi as int));
        lo += 1;
    }
    while lo < hi && (s.get_char(hi - 1) == '[' || s.get_char(hi - 1) == ']')
        invariant
            lo <= hi <= s@.len(),
            lo < hi ==> !is_bracket(s@[lo as int]),
            without_brackets(s@.subrange(lo as int, hi as int)) == without_brackets(s@),
        decreases hi - lo,
    {
        assert(s@.subrange(lo as int, hi as int).drop_last() =~= s@.subrange(lo as int, hi - 1));
        hi -= 1;
    }
    s.substring_char(lo, hi).to_owned()
}

fn strip_slashes(s: &str) -> (res: String)
    ensures
        res@ == without_slashes(s@),
{
    let mut hi: usize = s.unicode_len();
    assert(s@.subrange(0, s@.len() as int) =~= s@);
    while 0 < hi && s.get_char(hi - 1) == '/'
        invariant
            hi <= s@.len(),
            without_slashes(s@.subrange(0, hi as int)) == without_slashes(s@),
        decreases hi,
    {
        assert(s@.subrange(0, hi as int).drop_last() =~= s@.subrange(0, hi - 1));
        hi -= 1;
    }
    s.substring_char(0, hi).to_owned()
}

/// What stands behind `http://` in a target.
pub fn authority_of(target: &str) -> (res: Option<String>)
    ensures
        text::optional(res) == authority(target@),
{
    let n = target.unicode_len();
    let skipped = "http://".unicode_len();
    if skipped > n {
        return None;
    }
    if !text::equal(target.substring_char(0, skipped), "http://") {
        assert(target@.subrange(0, skipped as int) =~= target@.take(skipped as int));
        return None;
    }
    assert(target@.subrange(0, skipped as int) =~= target@.take(skipped as int));
    let rest = target.substring_char(skipped, n);
    assert(rest@ =~= target@.skip(skipped as int));
    Some(rest.to_owned())
}

/// Decides whether a URL can be the target.
fn check_origin(parts: &UrlParts) -> (res: bool)
    ensures
        res == is_origin(parts@),
{
    if !text::equal(parts.scheme.as_str(), "http") {
        return false;
    }
    if !text::equal(parts.path.as_str(), "/") {
        return false;
    }
    if parts.username.as_str().unicode_len() != 0 {
        return false;
    }
    parts.host.is_some() && parts.query.is_none() && parts.fragment.is_none()
        && parts.password.is_none()
}

impl Settings {
    /// The settings before any option, with the token for writes.
    pub fn new(key: Option<String>) -> (res: Settings)
        ensures
            res@ == defaults(text::optional(key)),
    {
        Settings {
            target: "http://127.0.0.1:8080".to_owned(),
            host: String::new(),
            port: 8080,
            rps: 2000,
            connections: 64,
            pipeline: 1,
            queue: 32,
            seed: 1000,
            preloaded: false,
            rate: true,
            json: None,
            key,
        }
    }

    /// Takes in an option.
    pub fn apply(&mut self, flag: Flag, value: &str) -> (res: Result<(), SettingError>)
        ensures
            match res {
                Ok(_) => old(self)@.with(flag, value@) == Ok::<SettingsView, SettingError>(
                    final(self)@,
                ),
                Err(problem) => old(self)@.with(flag, value@) == Err::<
                    SettingsView,
                    SettingError,
                >(problem) && final(self)@ == old(self)@,
            },
    {
        match flag {
            Flag::Target => {
                self.target = value.to_owned();
            },
            Flag::Json => {
                self.json = Some(value.to_owned());
            },
            Flag::Preloaded => {
                self.preloaded = true;
            },
            Flag::Mode => {
                if text::equal(value, "rate") {
                    self.rate = true;
                } else if text::equal(value, "saturate") {
                    self.rate = false;
                } else {
                    return Err(SettingError::Mode);
                }
            },
            Flag::Rps => match text::read_u64(text::without_plus(value.as_bytes())) {
                Some(n) => {
                    self.rps = n;
                },
                None => {
                    return Err(SettingError::Number);
                },
            },
            Flag::Connections => match read_usize(value) {
                Some(n) => {
                    self.connections = n;
                },
                None => {
                    return Err(SettingError::Number);
                },
            },
            Flag::Pipeline => match read_usize(value) {
                Some(n) => {
                    self.pipeline = n;
                },
                None => {
                    return Err(SettingError::Number);
                },
            },
            Flag::Queue => match read_usize(value) {
                Some(n) => {
                    self.queue = n;
                },
                None => {
                    return Err(SettingError::Number);
                },
            },
            Flag::Seed => match read_usize(value) {
                Some(n) => {
                    self.seed = n;
                },
                None => {
                    return Err(SettingError::Number);
                },
            },
            Flag::Help | Flag::Real(_) => {},
            Flag::Unknown => {
                return Err(SettingError::Unknown);
            },
        }
        Ok(())
    }

    /// Decides whether a run can have these settings.
    pub fn check(&self, reals_in_bounds: bool, writes: bool, scheduled: bool) -> (res: Result<
        (),
        SettingError,
    >)
        ensures
            match res {
                Ok(_) => self@.problem(reals_in_bounds, writes, scheduled) is None,
                Err(problem) => self@.problem(reals_in_bounds, writes, scheduled) == Some(problem),
            },
    {
        if !(1 <= self.connections && self.connections <= MAX_CONNECTIONS && 1 <= self.pipeline
            && self.pipeline <= MAX_PIPELINE && 1 <= self.queue && self.queue <= MAX_QUEUE && 1
            <= self.seed && self.seed <= MAX_SEED && 1 <= self.rps && self.rps <= MAX_RPS)
            || !reals_in_bounds {
            return Err(SettingError::Bounds);
        }
        if self.pipeline > 1 && writes {
            return Err(SettingError::PipelinedWrites);
        }
        if !scheduled {
            return Err(SettingError::NothingScheduled);
        }
        Ok(())
    }

    /// Takes the host and the port from the target, which has to be an `http`
    /// origin, and drops the slashes at its end.
    pub fn resolve_target(&mut self) -> (res: Result<(), TargetError>)
        ensures
            match res {
                Ok(_) => {
                    &&& boundary::url_parts(old(self)@.target) matches Some(parts)
                    &&& is_origin(parts)
                    &&& parts.port is Some
                    &&& final(self)@ == (SettingsView {
                        target: without_slashes(old(self)@.target),
                        host: without_brackets(parts.host.unwrap()),
                        port: parts.port.unwrap(),
                        ..old(self)@
                    })
                },
                Err(TargetError::Url(_)) => {
                    &&& boundary::url_parts(old(self)@.target) is None
                    &&& final(self)@ == old(self)@
                },
                Err(TargetError::NotAnOrigin) => {
                    &&& boundary::url_parts(old(self)@.target) matches Some(parts)
                    &&& !is_origin(parts)
                    &&& final(self)@ == old(self)@
                },
            },
    {
        let parts = match boundary::parse_url(self.target.as_str()) {
            Ok(parts) => parts,
            Err(e) => {
                return Err(TargetError::Url(e));
            },
        };
        if self.adopt_origin(&parts) {
            Ok(())
        } else {
            Err(TargetError::NotAnOrigin)
        }
    }

    /// Takes the host and the port from the parts of the target, if it is an
    /// origin, and drops the slashes at its end.
    pub fn adopt_origin(&mut self, parts: &UrlParts) -> (res: bool)
        requires
            parts.scheme@ == "http"@ ==> parts.port is Some,
        ensures
            res == is_origin(parts@),
            res ==> final(self)@ == (SettingsView {
                target: without_slashes(old(self)@.target),
                host: without_brackets(parts@.host.unwrap()),
                port: parts.port.unwrap(),
                ..old(self)@
            }),
            !res ==> final(self)@ == old(self)@,
    {
        if !check_origin(parts) {
            return false;
        }
        match (&parts.host, parts.port) {
            (Some(host), Some(port)) => {
                self.host = strip_brackets(host.as_str());
                self.port = port;
                self.target = strip_slashes(self.target.as_str());
                true
            },
            _ => false,
        }
    }
}

/// The text of the error for an option without its value.
pub fn missing_value(flag: &str) -> (res: String)
    ensures
        res@ == "missing value for "@ + flag@,
{
    let mut out = String::new();
    out.append("missing value for ");
    out.append(flag);
    assert(out@ =~= "missing value for "@ + flag@);
    out
}

/// The text of the error for an option that there is not.
pub fn unknown_option(flag: &str) -> (res: String)
    ensures
        res@ == "unknown option "@ + flag@,
{
    let mut out = String::new();
    out.append("unknown option ");
    out.append(flag);
    assert(out@ =~= "unknown option "@ + flag@);
    out
}

/// Each option has its name, and there is no other.
pub proof fn law_option_names(name: Seq<char>)
    ensures
        flag_named("--help"@) == Flag::Help,
        flag_named("-h"@) == Flag::Help,
        flag_named("--preloaded"@) == Flag::Preloaded,
        flag_named("--target"@) == Flag::Target,
        flag_named("--mode"@) == Flag::Mode,
        flag_named("--rps"@) == Flag::Rps,
        flag_named("--connections"@) == Flag::Connections,
        flag_named("--pipeline"@) == Flag::Pipeline,
        flag_named("--queue"@) == Flag::Queue,
        flag_named("--seed"@) == Flag::Seed,
        flag_named("--json"@) == Flag::Json,
        flag_named("--duration"@) == Flag::Real(Real::Duration),
        flag_named("--write-ratio"@) == Flag::Real(Real::WriteRatio),
        flag_named("--miss-ratio"@) == Flag::Real(Real::MissRatio),
        flag_named("--timeout"@) == Flag::Real(Real::Timeout),
        flag_named("--max-p99-ms"@) == Flag::Real(Real::MaxP99),
        ({
            &&& name != "--help"@
            &&& name != "-h"@
            &&& name != "--preloaded"@
            &&& name != "--target"@
            &&& name != "--mode"@
            &&& name != "--rps"@
            &&& name != "--connections"@
            &&& name != "--pipeline"@
            &&& name != "--queue"@
            &&& name != "--seed"@
            &&& name != "--json"@
            &&& name != "--duration"@
            &&& name != "--write-ratio"@
            &&& name != "--miss-ratio"@
            &&& name != "--timeout"@
            &&& name != "--max-p99-ms"@
        }) <==> flag_named(name) == Flag::Unknown,
{
    reveal_strlit("--help");
    reveal_strlit("-h");
    reveal_strlit("--preloaded");
    reveal_strlit("--target");
    reveal_strlit("--mode");
    reveal_strlit("--rps");
    reveal_strlit("--connections");
    reveal_strlit("--pipeline");
    reveal_strlit("--queue");
    reveal_strlit("--seed");
    reveal_strlit("--json");
    reveal_strlit("--duration");
    reveal_strlit("--write-ratio");
    reveal_strlit("--miss-ratio");
    reveal_strlit("--timeout");
    reveal_strlit("--max-p99-ms");
    assert("--help"@.len() == 6);
    assert("-h"@.len() == 2);
    assert("--preloaded"@.len() == 11);
    assert("--target"@.len() == 8);
    assert("--mode"@.len() == 6);
    assert("--rps"@.len() == 5);
    assert("--connections"@.len() == 13);
    assert("--pipeline"@.len() == 10);
    assert("--queue"@.len() == 7);
    assert("--seed"@.len() == 6);
    assert("--json"@.len() == 6);
    assert("--duration"@.len() == 10);
    assert("--write-ratio"@.len() == 13);
    assert("--miss-ratio"@.len() == 12);
    assert("--timeout"@.len() == 9);
    assert("--max-p99-ms"@.len() == 12);
    assert("--help"@[2] != "--mode"@[2]);
    assert("--help"@[2] != "--seed"@[2]);
    assert("--help"@[2] != "--json"@[2]);
    assert("--mode"@[2] != "--seed"@[2]);
    assert("--mode"@[2] != "--json"@[2]);
    assert("--connections"@[2] != "--write-ratio"@[2]);
    assert("--pipeline"@[2] != "--duration"@[2]);
    assert("--seed"@[2] != "--json"@[2]);
    assert("--miss-ratio"@[3] != "--max-p99-ms"@[3]);
}

/// An integer argument is one or more of the ten digits, behind a plus sign or
/// not, as far as the number is not above the limit.
pub proof fn law_integers(value: Seq<char>, limit: nat)
    ensures
        ({
            let digits = text::unsigned(encode_utf8(value));
            &&& integer(value, limit) is Some <==> digits.len() > 0 && (forall|i: int|
                0 <= i < digits.len() ==> 48 <= #[trigger] digits[i] <= 57) && text::number(digits)
                <= limit
            &&& integer(value, limit) matches Some(n) ==> n == text::number(digits)
        }),
{
    text::law_reading(text::unsigned(encode_utf8(value)), limit);
}

/// An option changes what it names and nothing else: the target and the report's
/// place to any text, the mode to one of two, and the numbers to what integers
/// give.
pub proof fn law_options_set(s: SettingsView, value: Seq<char>)
    ensures
        s.with(Flag::Target, value) == Ok::<SettingsView, SettingError>(
            SettingsView { target: value, ..s },
        ),
        s.with(Flag::Json, value) == Ok::<SettingsView, SettingError>(
            SettingsView { json: Some(value), ..s },
        ),
        s.with(Flag::Preloaded, value) == Ok::<SettingsView, SettingError>(
            SettingsView { preloaded: true, ..s },
        ),
        s.with(Flag::Mode, "rate"@) == Ok::<SettingsView, SettingError>(
            SettingsView { rate: true, ..s },
        ),
        s.with(Flag::Mode, "saturate"@) == Ok::<SettingsView, SettingError>(
            SettingsView { rate: false, ..s },
        ),
        value != "rate"@ && value != "saturate"@ ==> s.with(Flag::Mode, value) == Err::<
            SettingsView,
            SettingError,
        >(SettingError::Mode),
        s.with(Flag::Unknown, value) == Err::<SettingsView, SettingError>(SettingError::Unknown),
        s.with(Flag::Help, value) == Ok::<SettingsView, SettingError>(s),
        forall|r: Real|
            #[trigger] s.with(Flag::Real(r), value) == Ok::<SettingsView, SettingError>(s),
        match integer(value, 0xffff_ffff_ffff_ffff) {
            Some(n) => s.with(Flag::Rps, value) == Ok::<SettingsView, SettingError>(
                SettingsView { rps: n as u64, ..s },
            ),
            None => s.with(Flag::Rps, value) == Err::<SettingsView, SettingError>(
                SettingError::Number,
            ),
        },
        match integer(value, usize::MAX as nat) {
            Some(n) => {
                &&& s.with(Flag::Connections, value) == Ok::<SettingsView, SettingError>(
                    SettingsView { connections: n as usize, ..s },
                )
                &&& s.with(Flag::Pipeline, value) == Ok::<SettingsView, SettingError>(
                    SettingsView { pipeline: n as usize, ..s },
                )
                &&& s.with(Flag::Queue, value) == Ok::<SettingsView, SettingError>(
                    SettingsView { queue: n as usize, ..s },
                )
                &&& s.with(Flag::Seed, value) == Ok::<SettingsView, SettingError>(
                    SettingsView { seed: n as usize, ..s },
                )
            },
            None => {
                let refused = Err::<SettingsView, SettingError>(SettingError::Number);
                &&& s.with(Flag::Connections, value) == refused
                &&& s.with(Flag::Pipeline, value) == refused
                &&& s.with(Flag::Queue, value) == refused
                &&& s.with(Flag::Seed, value) == refused
            },
        },
{
    reveal_strlit("rate");
    reveal_strlit("saturate");
    assert("rate"@.len() == 4 && "saturate"@.len() == 8);
}

/// Settings are accepted exactly within these bounds, without pipelined writes,
/// and with one request at least.
pub proof fn law_bounds(s: SettingsView, reals_in_bounds: bool, writes: bool, scheduled: bool)
    ensures
        ({
            let inside = 1 <= s.connections <= 4096 && 1 <= s.pipeline <= 1024 && 1 <= s.queue
                <= 1024 && 1 <= s.seed <= 1_000_000 && 1 <= s.rps <= 1_000_000_000
                && reals_in_bounds;
            let problem = s.problem(reals_in_bounds, writes, scheduled);
            &&& problem is None <==> inside && (s.pipeline > 1 ==> !writes) && scheduled
            &&& problem == Some(SettingError::Bounds) <==> !inside
            &&& problem == Some(SettingError::PipelinedWrites) <==> inside && s.pipeline > 1
                && writes
            &&& problem == Some(SettingError::NothingScheduled) <==> inside && (s.pipeline > 1
                ==> !writes) && !scheduled
        }),
{
}

/// Without options a run asks the local server at 2000 requests per second over
/// 64 connections, for 1000 URLs that it stores first.
pub proof fn law_defaults(key: Option<Seq<char>>)
    ensures
        ({
            let s = defaults(key);
            &&& s.target == "http://127.0.0.1:8080"@ && s.port == 8080 && s.host.len() == 0
            &&& s.rps == 2000 && s.connections == 64 && s.pipeline == 1 && s.queue == 32
            &&& s.seed == 1000 && !s.preloaded && s.rate && s.json is None && s.key == key
        }),
{
}

/// A URL is an origin exactly if it is of the scheme `http`, has a host and the
/// path `/`, and no more.
pub proof fn law_origins(p: UrlPartsView)
    ensures
        is_origin(p) <==> p.scheme == "http"@ && p.host is Some && p.path == "/"@ && p.query is None
            && p.fragment is None && p.username.len() == 0 && p.password is None,
{
}

/// Whether a range leaves out brackets at both ends, and all of them.
pub open spec fn leaves_out_brackets(s: Seq<char>, i: int, j: int) -> bool {
    &&& 0 <= i <= j <= s.len()
    &&& forall|k: int| 0 <= k < i ==> #[trigger] s[k] == '[' || s[k] == ']'
    &&& forall|k: int| j <= k < s.len() ==> #[trigger] s[k] == '[' || s[k] == ']'
    &&& i < j ==> s[i] != '[' && s[i] != ']' && s[j - 1] != '[' && s[j - 1] != ']'
}

/// A host loses the brackets at both its ends, all of them and nothing else.
pub proof fn law_brackets(s: Seq<char>)
    ensures
        exists|i: int, j: int|
            #[trigger] leaves_out_brackets(s, i, j) && without_brackets(s) == s.subrange(i, j),
{
    let (i, j) = lemma_bracket_range(s);
    assert(leaves_out_brackets(s, i, j));
}

proof fn lemma_bracket_range(s: Seq<char>) -> (r: (int, int))
    ensures
        leaves_out_brackets(s, r.0, r.1),
        without_brackets(s) == s.subrange(r.0, r.1),
    decreases s.len(),
{
    let n = s.len() as int;
    if n > 0 && is_bracket(s.first()) {
        let t = s.drop_first();
        let (i, j) = lemma_bracket_range(t);
        assert(t.subrange(i, j) =~= s.subrange(i + 1, j + 1));
        assert forall|k: int| 0 <= k < i + 1 implies #[trigger] s[k] == '[' || s[k] == ']' by {
            if k > 0 {
                assert(t[k - 1] == '[' || t[k - 1] == ']');
            }
        }
        assert forall|k: int| j + 1 <= k < n implies #[trigger] s[k] == '[' || s[k] == ']' by {
            assert(t[k - 1] == '[' || t[k - 1] == ']');
        }
        (i + 1, j + 1)
    } else if n > 0 && is_bracket(s.last()) {
        let t = s.drop_last();
        let (i, j) = lemma_bracket_range(t);
        assert(t.subrange(i, j) =~= s.subrange(i, j));
        assert forall|k: int| 0 <= k < i implies #[trigger] s[k] == '[' || s[k] == ']' by {
            assert(t[k] == '[' || t[k] == ']');
        }
        assert forall|k: int| j <= k < n implies #[trigger] s[k] == '[' || s[k] == ']' by {
            if k < n - 1 {
                assert(t[k] == '[' || t[k] == ']');
            }
        }
        (i, j)
    } else {
        assert(s.subrange(0, n) =~= s);
        (0, n)
    }
}

/// A target loses the slashes at its end, and only those.
pub proof fn law_slashes(s: Seq<char>)
    ensures
        without_slashes(s + "/"@) == without_slashes(s),
        s.len() == 0 || s.last() != '/' ==> without_slashes(s) == s,
{
    reveal_strlit("/");
    assert((s + "/"@).drop_last() =~= s);
}

/// The authority is what stands behind `http://`, where that is in front.
pub proof fn law_authority(s: Seq<char>)
    ensures
        authority("http://"@ + s) == Some(s),
        authority(s) matches Some(a) ==> s == "http://"@ + a,
{
    let all = "http://"@ + s;
    let n = "http://"@.len() as int;
    assert(all.take(n) =~= "http://"@);
    assert(all.skip(n) =~= s);
    if authority(s) is Some {
        assert(s =~= s.take(n) + s.skip(n));
    }
}

/// The problems in words.
pub proof fn law_problem_texts()
    ensures
        problem_text(SettingError::Mode) == "mode must be rate or saturate"@,
        problem_text(SettingError::Number) == "invalid numeric argument"@,
        problem_text(SettingError::Unknown) == "unknown option"@,
        problem_text(SettingError::Bounds) == "invalid bounds, ratios or latency threshold"@,
        problem_text(SettingError::PipelinedWrites) == "pipeline >1 requires --write-ratio 0"@,
        problem_text(SettingError::NothingScheduled)
            == "rate and duration must schedule at least one request"@,
{
}

} // verus!
