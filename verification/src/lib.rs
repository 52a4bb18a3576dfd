//! A URL shortener: base62 codes, a sharded append-only store, the HTTP/1.1
//! exchange that serves it, and the load generator's checks.
use vstd::prelude::*;

pub mod base62;
pub mod boundary;
pub mod bytes;
pub mod client;
pub mod codes;
pub mod config;
pub mod conn;
pub mod head;
pub mod json;
pub mod links;
pub mod metrics;
pub mod options;
pub mod response;
pub mod rng;
pub mod route;
pub mod schedule;
pub mod seeding;
pub mod settings;
pub mod stats;
pub mod store;
pub mod stream;
pub mod text;
pub mod verification;
pub mod workload;

pub use base62::{base62_decode, base62_encode};
pub use config::ServerConfig;
pub use links::validate_url;
pub use metrics::Metrics;
pub use store::Store;

verus! {

} // verus!
