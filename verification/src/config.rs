use vstd::prelude::*;
use vstd::utf8::encode_utf8;
use crate::text::{parse_unsigned, parse_unsigned_spec};

verus! {

/// Configuration of the HTTP server.
#[derive(Debug, Clone)]
pub struct ServerConfig {
    /// Host address to bind to
    pub host: String,
    /// Port to listen on
    pub port: u16,
    /// Number of threads in the processing pool
    pub thread_pool_size: usize,
}

/// The port used when none is configured.
pub const DEFAULT_PORT: u16 = 3000;

/// The processing pool size used when none is configured.
pub const DEFAULT_THREAD_POOL_SIZE: usize = 4;

/// The largest upload accepted when none is configured: 10 MiB.
pub const DEFAULT_MAX_FILE_SIZE: usize = 10485760;

/// The host used when none is configured.
pub open spec fn default_host() -> Seq<char> {
    "127.0.0.1"@
}

impl Default for ServerConfig {
    fn default() -> (c: Self)
        ensures
            c.host@ == default_host(),
            c.port == DEFAULT_PORT,
            c.thread_pool_size == DEFAULT_THREAD_POOL_SIZE,
    {
        ServerConfig {
            host: "127.0.0.1".to_owned(),
            port: DEFAULT_PORT,
            thread_pool_size: DEFAULT_THREAD_POOL_SIZE,
        }
    }
}

/// The value of a numeric setting: the text read as an unsigned integer no
/// larger than `max`, or `default` when the setting is absent or unreadable.
pub open spec fn numeric_setting(text: Option<String>, max: nat, default: nat) -> nat {
    match text {
        Some(t) => match parse_unsigned_spec(encode_utf8(t@), max) {
            Some(v) => v,
            None => default,
        },
        None => default,
    }
}

fn read_setting(text: &Option<String>, max: u64, default: u64) -> (v: u64)
    requires
        default <= max,
    ensures
        v as nat == numeric_setting(*text, max as nat, default as nat),
        v <= max,
{
    match text {
        Some(t) => match parse_unsigned(t.as_str().as_bytes(), max) {
            Some(v) => v,
            None => default,
        },
        None => default,
    }
}

/// Builds the server configuration from the values of the host, port and
/// thread-count settings, each absent when it is not set.
pub fn config_from_vars(host: Option<String>, port: Option<String>, threads: Option<String>) -> (c: ServerConfig)
    ensures
        c.host@ == match host {
            Some(h) => h@,
            None => default_host(),
        },
        c.port as nat == numeric_setting(port, u16::MAX as nat, DEFAULT_PORT as nat),
        c.thread_pool_size as nat == numeric_setting(
            threads,
            usize::MAX as nat,
            DEFAULT_THREAD_POOL_SIZE as nat,
        ),
{
    let port_value = read_setting(&port, u16::MAX as u64, DEFAULT_PORT as u64);
    let threads_value = read_setting(&threads, usize::MAX as u64, DEFAULT_THREAD_POOL_SIZE as u64);
    let host_value = match host {
        Some(h) => h,
        None => "127.0.0.1".to_owned(),
    };
    ServerConfig { host: host_value, port: port_value as u16, thread_pool_size: threads_value as usize }
}

/// The largest upload accepted, from the value of the maximum-file-size
/// setting, absent when it is not set.
pub fn max_file_size_from_var(text: Option<String>) -> (n: usize)
    ensures
        n as nat == numeric_setting(text, usize::MAX as nat, DEFAULT_MAX_FILE_SIZE as nat),
{
    read_setting(&text, usize::MAX as u64, DEFAULT_MAX_FILE_SIZE as u64) as usize
}

} // verus!
