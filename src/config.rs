//! Service configuration and its defaults.
use vstd::prelude::*;

verus! {

/// Log output settings.
#[derive(Debug)]
pub struct ConfigTracing {
    pub json: bool,
}

impl Default for ConfigTracing {
    fn default() -> (r: Self)
        ensures
            r.json,
    {
        ConfigTracing { json: true }
    }
}

/// Upstream feed endpoint.
#[derive(Debug)]
pub struct ConfigGrpc {
    pub endpoint: String,
    pub x_token: Option<String>,
}

impl Default for ConfigGrpc {
    fn default() -> (r: Self)
        ensures
            r.endpoint@ == "http://127.0.0.1:10000"@,
            r.x_token is None,
    {
        ConfigGrpc { endpoint: "http://127.0.0.1:10000".to_owned(), x_token: None }
    }
}

/// Event stream side channel.
#[derive(Debug)]
pub struct ConfigRedis {
    pub endpoint: String,
    pub stream_key: String,
    pub stream_maxlen: u64,
    pub stream_field_key: String,
}

impl Default for ConfigRedis {
    fn default() -> (r: Self)
        ensures
            r.endpoint@ == "redis://127.0.0.1:6379/"@,
            r.stream_key@ == "solfees:events"@,
            r.stream_maxlen == 10800,
            r.stream_field_key@ == "message"@,
    {
        ConfigRedis {
            endpoint: "redis://127.0.0.1:6379/".to_owned(),
            stream_key: "solfees:events".to_owned(),
            // about 15 minutes: 2.5 slots a second, 4 events a slot
            stream_maxlen: 15 * 60 * 3 * 4,
            stream_field_key: "message".to_owned(),
        }
    }
}

/// Settings of the RPC server.
#[derive(Debug)]
pub struct ConfigServer {
    pub tracing: ConfigTracing,
}

} // verus!
