//! Tool configuration with safe fallback defaults.

use vstd::prelude::*;
use crate::json::{json_text_parses, json_u64_at, parse_json, u64_member, u64_reading};
use crate::text::{chars_of, trim, trimmed};

verus! {

/// Settings of the report tool.
#[derive(Debug, Clone, PartialEq)]
pub struct Config {
    pub network: String,
    pub source: String,
    pub timeout_secs: u64,
    pub retry_attempts: u32,
}

/// The settings a configuration file gave, each one optional.
#[derive(Debug, Clone, PartialEq)]
pub struct PartialConfig {
    pub network: Option<String>,
    pub source: Option<String>,
    pub timeout_secs: Option<u64>,
    pub retry_attempts: Option<u32>,
}

/// The default settings: network `testnet`, source `default`, a 30 second
/// timeout and 3 retry attempts.
pub open spec fn is_default_config(c: Config) -> bool {
    &&& c.network@ == "testnet"@
    &&& c.source@ == "default"@
    &&& c.timeout_secs == 30
    &&& c.retry_attempts == 3
}

impl Default for Config {
    fn default() -> (c: Self)
        ensures
            is_default_config(c),
    {
        proof {
            reveal_strlit("testnet");
            reveal_strlit("default");
        }
        Config {
            network: String::from_str("testnet"),
            source: String::from_str("default"),
            timeout_secs: 30,
            retry_attempts: 3,
        }
    }
}

/// `given` when present, else `fallback`.
pub open spec fn or_default<T>(given: Option<T>, fallback: T) -> T {
    match given {
        Some(v) => v,
        None => fallback,
    }
}

impl Config {
    /// The settings of a parsed configuration file, each missing one taken
    /// from the defaults; a file that could not be parsed (`None`) gives
    /// the defaults.
    pub fn from_partial(parsed: Option<PartialConfig>) -> (c: Config)
        ensures
            match parsed {
                None => is_default_config(c),
                Some(p) => {
                    &&& (p.network is None ==> c.network@ == "testnet"@)
                    &&& (p.network matches Some(n) ==> c.network@ == n@)
                    &&& (p.source is None ==> c.source@ == "default"@)
                    &&& (p.source matches Some(s) ==> c.source@ == s@)
                    &&& c.timeout_secs == or_default(p.timeout_secs, 30u64)
                    &&& c.retry_attempts == or_default(p.retry_attempts, 3u32)
                },
            },
    {
        let base = Config::default();
        match parsed {
            None => base,
            Some(p) => Config {
                network: match p.network {
                    Some(n) => n,
                    None => base.network,
                },
                source: match p.source {
                    Some(s) => s,
                    None => base.source,
                },
                timeout_secs: match p.timeout_secs {
                    Some(t) => t,
                    None => base.timeout_secs,
                },
                retry_attempts: match p.retry_attempts {
                    Some(r) => r,
                    None => base.retry_attempts,
                },
            },
        }
    }
}

/// The configured network, or `testnet` when none is configured.
pub fn resolve_toml_network(config_value: Option<String>) -> (r: String)
    ensures
        config_value matches Some(v) ==> r@ == v@,
        config_value is None ==> r@ == "testnet"@,
{
    match config_value {
        Some(v) => v,
        None => {
            proof {
                reveal_strlit("testnet");
            }
            String::from_str("testnet")
        },
    }
}

/// The configured source account, or `alice` when none is configured.
pub fn resolve_toml_source(config_value: Option<String>) -> (r: String)
    ensures
        config_value matches Some(v) ==> r@ == v@,
        config_value is None ==> r@ == "alice"@,
{
    match config_value {
        Some(v) => v,
        None => {
            proof {
                reveal_strlit("alice");
            }
            String::from_str("alice")
        },
    }
}

/// The limit stored under `key` in the content of a `budget.json` file:
/// `None` when the content is blank, is not JSON, lacks the key, or holds
/// something other than a `u64` there, so that callers fall back to "no
/// limit".
pub fn limit_from_json_content(content: &str, key: &str) -> (r: Option<u64>)
    ensures
        trim(content@).len() == 0 ==> r is None,
        !json_text_parses(content@) ==> r is None,
        trim(content@).len() > 0 && json_text_parses(content@) ==> r == u64_reading(
            json_u64_at(content@, seq![key@]),
        ),
{
    let cs = chars_of(content);
    let t = trimmed(&cs);
    if t.len() == 0 {
        return None;
    }
    let parsed = match parse_json(content) {
        Ok(v) => v,
        Err(_) => return None,
    };
    u64_member(&parsed, key)
}

} // verus!
