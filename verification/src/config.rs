//! Settings of the server.
use vstd::prelude::*;

use crate::metrics::{Metrics, MetricsView};

verus! {

pub struct ServerConfig {
    /// What short URLs begin with.
    pub public_base: String,
    /// The token that writes and statistics require, if any.
    pub write_token: Option<String>,
    pub max_connections: usize,
    /// The limit of a read or a write on a connection.
    pub io_timeout: std::time::Duration,
    /// The most writes under way at a time.
    pub max_writes: usize,
    pub metrics: Metrics,
}

impl Default for ServerConfig {
    fn default() -> (res: ServerConfig)
        ensures
            res.public_base@ == "http://127.0.0.1:8080"@,
            res.write_token is None,
            res.max_connections == 1024,
            call_ensures(std::time::Duration::from_secs, (5u64,), res.io_timeout),
            res.max_writes == 32,
            res.metrics@ == MetricsView::zero(res.metrics@.started, res.metrics@.started_unix),
            res.metrics@.starts_now(),
    {
        // Called as a value, because only then is it known what the call gave.
        let from_secs = std::time::Duration::from_secs;
        ServerConfig {
            public_base: "http://127.0.0.1:8080".to_owned(),
            write_token: None,
            max_connections: 1024,
            io_timeout: from_secs(5),
            max_writes: 32,
            metrics: Metrics::new(),
        }
    }
}

} // verus!
