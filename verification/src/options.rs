//! The options of the server.
use vstd::prelude::*;
use vstd::string::StringExecFns;

use crate::settings;
use crate::text;

verus! {

pub struct ServerOptions {
    /// The address to listen on.
    pub bind: String,
    /// The shards to begin with, before they are rounded up.
    pub shards: usize,
    /// How many URLs to store at the start.
    pub preload: usize,
}

pub struct ServerOptionsView {
    pub bind: Seq<char>,
    pub shards: usize,
    pub preload: usize,
}

impl View for ServerOptions {
    type V = ServerOptionsView;

    open spec fn view(&self) -> ServerOptionsView {
        ServerOptionsView { bind: self.bind@, shards: self.shards, preload: self.preload }
    }
}

/// An option.
#[derive(Clone, Copy)]
pub enum ServerFlag {
    Bind,
    Shards,
    Preload,
    Help,
    Unknown,
}

pub open spec fn server_flag_named(name: Seq<char>) -> ServerFlag {
    if name == "--bind"@ {
        ServerFlag::Bind
    } else if name == "--shards"@ {
        ServerFlag::Shards
    } else if name == "--preload"@ {
        ServerFlag::Preload
    } else if name == "-h"@ || name == "--help"@ {
        ServerFlag::Help
    } else {
        ServerFlag::Unknown
    }
}

impl ServerOptionsView {
    /// The options after one more, or nothing where its value is no number.
    pub open spec fn with(self, flag: ServerFlag, value: Seq<char>) -> Option<ServerOptionsView> {
        let n = settings::integer(value, usize::MAX as nat);
        match flag {
            ServerFlag::Bind => Some(ServerOptionsView { bind: value, ..self }),
            ServerFlag::Shards => match n {
                Some(n) => Some(ServerOptionsView { shards: n as usize, ..self }),
                None => None,
            },
            ServerFlag::Preload => match n {
                Some(n) => Some(ServerOptionsView { preload: n as usize, ..self }),
                None => None,
            },
            ServerFlag::Help | ServerFlag::Unknown => Some(self),
        }
    }
}

/// The option with a name.
pub fn server_flag_of(name: &str) -> (res: ServerFlag)
    ensures
        res == server_flag_named(name@),
{
    if text::equal(name, "--bind") {
        ServerFlag::Bind
    } else if text::equal(name, "--shards") {
        ServerFlag::Shards
    } else if text::equal(name, "--preload") {
        ServerFlag::Preload
    } else if text::equal(name, "-h") || text::equal(name, "--help") {
        ServerFlag::Help
    } else {
        ServerFlag::Unknown
    }
}

impl ServerOptions {
    /// The options where none is given.
    pub fn new() -> (res: ServerOptions)
        ensures
            res@ == (ServerOptionsView { bind: "127.0.0.1:8080"@, shards: 64, preload: 0 }),
    {
        ServerOptions { bind: "127.0.0.1:8080".to_owned(), shards: 64, preload: 0 }
    }

    /// Takes in an option, and says whether its value is one that it can have.
    pub fn apply(&mut self, flag: ServerFlag, value: &str) -> (res: bool)
        ensures
            res == old(self)@.with(flag, value@) is Some,
            res ==> old(self)@.with(flag, value@) == Some(final(self)@),
            !res ==> final(self)@ == old(self)@,
    {
        match flag {
            ServerFlag::Bind => {
                self.bind = value.to_owned();
            },
            ServerFlag::Shards => match settings::read_usize(value) {
                Some(n) => {
                    self.shards = n;
                },
                None => {
                    return false;
                },
            },
            ServerFlag::Preload => match settings::read_usize(value) {
                Some(n) => {
                    self.preload = n;
                },
                None => {
                    return false;
                },
            },
            ServerFlag::Help | ServerFlag::Unknown => {},
        }
        true
    }
}

/// The text of the error for an option that there is not.
pub fn unknown_argument(name: &str) -> (res: String)
    ensures
        res@ == "shortener: unknown argument `"@ + name@ + "` (try --help)"@,
{
    let mut out = String::new();
    out.append("shortener: unknown argument `");
    out.append(name);
    out.append("` (try --help)");
    assert(out@ =~= "shortener: unknown argument `"@ + name@ + "` (try --help)"@);
    out
}

/// The text of the error for an option without its value.
pub fn value_required(name: &str) -> (res: String)
    ensures
        res@ == "shortener: "@ + name@ + " requires a value"@,
{
    let mut out = String::new();
    out.append("shortener: ");
    out.append(name);
    out.append(" requires a value");
    assert(out@ =~= "shortener: "@ + name@ + " requires a value"@);
    out
}

/// The text of the error for a value that an option cannot have.
pub fn invalid_value(name: &str, value: &str) -> (res: String)
    ensures
        res@ == "shortener: invalid value `"@ + value@ + "` for "@ + name@,
{
    let mut out = String::new();
    out.append("shortener: invalid value `");
    out.append(value);
    out.append("` for ");
    out.append(name);
    assert(out@ =~= "shortener: invalid value `"@ + value@ + "` for "@ + name@);
    out
}

/// Each option has its name, and there is no other.
pub proof fn law_option_names(name: Seq<char>)
    ensures
        server_flag_named("--bind"@) == ServerFlag::Bind,
        server_flag_named("--shards"@) == ServerFlag::Shards,
        server_flag_named("--preload"@) == ServerFlag::Preload,
        server_flag_named("-h"@) == ServerFlag::Help,
        server_flag_named("--help"@) == ServerFlag::Help,
        ({
            &&& name != "--bind"@
            &&& name != "--shards"@
            &&& name != "--preload"@
            &&& name != "-h"@
            &&& name != "--help"@
        }) <==> server_flag_named(name) == ServerFlag::Unknown,
{
    reveal_strlit("--bind");
    assert("--bind"@.len() == 6);
    reveal_strlit("--shards");
    assert("--shards"@.len() == 8);
    reveal_strlit("--preload");
    assert("--preload"@.len() == 9);
    reveal_strlit("-h");
    assert("-h"@.len() == 2);
    reveal_strlit("--help");
    assert("--help"@.len() == 6);
    assert("--bind"@[2] != "--help"@[2]);
}

/// An option changes what it names and nothing else.
pub proof fn law_options_set(o: ServerOptionsView, value: Seq<char>)
    ensures
        o.with(ServerFlag::Bind, value) == Some(ServerOptionsView { bind: value, ..o }),
        match settings::integer(value, usize::MAX as nat) {
            Some(n) => {
                &&& o.with(ServerFlag::Shards, value) == Some(
                    ServerOptionsView { shards: n as usize, ..o },
                )
                &&& o.with(ServerFlag::Preload, value) == Some(
                    ServerOptionsView { preload: n as usize, ..o },
                )
            },
            None => {
                &&& o.with(ServerFlag::Shards, value) is None
                &&& o.with(ServerFlag::Preload, value) is None
            },
        },
        o.with(ServerFlag::Help, value) == Some(o),
        o.with(ServerFlag::Unknown, value) == Some(o),
{
}

} // verus!
