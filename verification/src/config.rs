//! Server settings, read from the values of the settings that are given.
use vstd::prelude::*;
use vstd::utf8::*;

use crate::decimal::{parse_u128, parse_unsigned_spec};
use crate::platform::same_text;

verus! {

/// How the store makes room for a new key when it is full.
#[derive(Clone, Copy, Debug, PartialEq, Eq)]
pub enum EvictionPolicy {
    /// Evict one uniformly random key.
    AllkeysRandom,
    /// Sample `sample_size` keys; evict the least recently used.
    AllkeysLru { sample_size: usize },
    /// Sample `sample_size` keys; evict the least frequently used.
    AllkeysLfu { sample_size: usize },
    /// Like `AllkeysRandom`, among keys with an expiry time.
    VolatileRandom,
    /// Like `AllkeysLru`, among keys with an expiry time.
    VolatileLru { sample_size: usize },
    /// Like `AllkeysLfu`, among keys with an expiry time.
    VolatileLfu { sample_size: usize },
}

pub struct Config {
    port: u16,
    host: String,
    cleanup_interval: u128,
    max_keys: usize,
    eviction_policy: Option<EvictionPolicy>,
}

/// The model of a configuration.
pub struct ConfigModel {
    pub port: u16,
    pub host: Seq<char>,
    pub cleanup_interval: u128,
    pub max_keys: usize,
    pub eviction_policy: Option<EvictionPolicy>,
}

impl View for Config {
    type V = ConfigModel;

    closed spec fn view(&self) -> ConfigModel {
        ConfigModel {
            port: self.port,
            host: self.host@,
            cleanup_interval: self.cleanup_interval,
            max_keys: self.max_keys,
            eviction_policy: self.eviction_policy,
        }
    }
}

/// The setting whose value is no number of its type.
#[derive(Debug, PartialEq, Eq)]
pub enum ConfigError {
    EvictionSampleSize,
    Port,
    CleanupInterval,
    MaxKeys,
}

/// The number that a setting's text gives, if it fits below `max`.
pub open spec fn setting_number(text: Seq<char>, max: nat) -> Option<nat> {
    match parse_unsigned_spec(encode_utf8(text)) {
        Some(v) => if v <= max {
            Some(v)
        } else {
            None
        },
        None => None,
    }
}

/// The number a setting holds: its default when it is unset.
pub open spec fn number_or(text: Option<Seq<char>>, default: nat, max: nat) -> Option<nat> {
    match text {
        Some(t) => setting_number(t, max),
        None => Some(default),
    }
}

/// The eviction policy a name stands for; any other name means no eviction.
pub open spec fn policy_named(name: Seq<char>, sample_size: usize) -> Option<EvictionPolicy> {
    if name == "AllKeysRandom"@ {
        Some(EvictionPolicy::AllkeysRandom)
    } else if name == "VolatileRandom"@ {
        Some(EvictionPolicy::VolatileRandom)
    } else if name == "AllKeysLru"@ {
        Some(EvictionPolicy::AllkeysLru { sample_size })
    } else if name == "VolatileLru"@ {
        Some(EvictionPolicy::VolatileLru { sample_size })
    } else if name == "AllKeysLfu"@ {
        Some(EvictionPolicy::AllkeysLfu { sample_size })
    } else if name == "VolatileLfu"@ {
        Some(EvictionPolicy::VolatileLfu { sample_size })
    } else {
        None
    }
}

pub open spec fn text_of(s: Option<String>) -> Option<Seq<char>> {
    match s {
        Some(t) => Some(t@),
        None => None,
    }
}

fn read_number(text: &Option<String>, default: u128, max: u128) -> (r: Option<u128>)
    ensures
        match number_or(text_of(*text), default as nat, max as nat) {
            Some(v) => r == Some(v as u128),
            None => r is None,
        },
{
    match text {
        None => Some(default),
        Some(t) => match parse_u128(t.as_str().as_bytes()) {
            Some(v) => if v <= max {
                Some(v)
            } else {
                None
            },
            None => None,
        },
    }
}

impl Config {
    /// The configuration that the given setting values make (each `None`
    /// when the setting is unset): `EVICTION_SAMPLE_SIZE` (default 20),
    /// `PORT` (9736), `HOST` ("0.0.0.0"), `CLEANUP_INTERVAL` (1000 ms),
    /// `MAX_KEYS` (1000) and `EVICTION_POLICY` (no eviction). Fails, naming
    /// the first setting in that order whose text is no number of its type.
    pub fn new(
        port: Option<String>,
        host: Option<String>,
        cleanup_interval: Option<String>,
        max_keys: Option<String>,
        eviction_policy: Option<String>,
        eviction_sample_size: Option<String>,
    ) -> (r: Result<Config, ConfigError>)
        ensures
            number_or(text_of(eviction_sample_size), 20, usize::MAX as nat) is None ==> r
                == Err::<Config, ConfigError>(ConfigError::EvictionSampleSize),
            number_or(text_of(eviction_sample_size), 20, usize::MAX as nat) is Some && number_or(
                text_of(port),
                9736,
                u16::MAX as nat,
            ) is None ==> r == Err::<Config, ConfigError>(ConfigError::Port),
            number_or(text_of(eviction_sample_size), 20, usize::MAX as nat) is Some && number_or(
                text_of(port),
                9736,
                u16::MAX as nat,
            ) is Some && number_or(text_of(cleanup_interval), 1000, u128::MAX as nat) is None ==> r
                == Err::<Config, ConfigError>(ConfigError::CleanupInterval),
            number_or(text_of(eviction_sample_size), 20, usize::MAX as nat) is Some && number_or(
                text_of(port),
                9736,
                u16::MAX as nat,
            ) is Some && number_or(text_of(cleanup_interval), 1000, u128::MAX as nat) is Some
                && number_or(text_of(max_keys), 1000, usize::MAX as nat) is None ==> r == Err::<
                Config,
                ConfigError,
            >(ConfigError::MaxKeys),
            r matches Ok(c) ==> {
                &&& number_or(text_of(port), 9736, u16::MAX as nat) == Some(c@.port as nat)
                &&& c@.host == (match host {
                    Some(h) => h@,
                    None => "0.0.0.0"@,
                })
                &&& number_or(text_of(cleanup_interval), 1000, u128::MAX as nat) == Some(
                    c@.cleanup_interval as nat,
                )
                &&& number_or(text_of(max_keys), 1000, usize::MAX as nat) == Some(
                    c@.max_keys as nat,
                )
                &&& number_or(text_of(eviction_sample_size), 20, usize::MAX as nat) matches Some(
                    size,
                ) && c@.eviction_policy == (match eviction_policy {
                    Some(name) => policy_named(name@, size as usize),
                    None => None,
                })
            },
            r is Err ==> (number_or(text_of(eviction_sample_size), 20, usize::MAX as nat) is None
                || number_or(text_of(port), 9736, u16::MAX as nat) is None || number_or(
                text_of(cleanup_interval),
                1000,
                u128::MAX as nat,
            ) is None || number_or(text_of(max_keys), 1000, usize::MAX as nat) is None),
    {
        let sample = match read_number(&eviction_sample_size, 20, usize::MAX as u128) {
            Some(v) => v as usize,
            None => {
                return Err(ConfigError::EvictionSampleSize);
            },
        };
        let port = match read_number(&port, 9736, u16::MAX as u128) {
            Some(v) => v as u16,
            None => {
                return Err(ConfigError::Port);
            },
        };
        let host = match host {
            Some(h) => h,
            None => "0.0.0.0".to_owned(),
        };
        let cleanup_interval = match read_number(&cleanup_interval, 1000, u128::MAX) {
            Some(v) => v,
            None => {
                return Err(ConfigError::CleanupInterval);
            },
        };
        let max_keys = match read_number(&max_keys, 1000, usize::MAX as u128) {
            Some(v) => v as usize,
            None => {
                return Err(ConfigError::MaxKeys);
            },
        };
        let eviction_policy = match eviction_policy {
            None => None,
            Some(name) => {
                if same_text(&name, "AllKeysRandom") {
                    Some(EvictionPolicy::AllkeysRandom)
                } else if same_text(&name, "VolatileRandom") {
                    Some(EvictionPolicy::VolatileRandom)
                } else if same_text(&name, "AllKeysLru") {
                    Some(EvictionPolicy::AllkeysLru { sample_size: sample })
                } else if same_text(&name, "VolatileLru") {
                    Some(EvictionPolicy::VolatileLru { sample_size: sample })
                } else if same_text(&name, "AllKeysLfu") {
                    Some(EvictionPolicy::AllkeysLfu { sample_size: sample })
                } else if same_text(&name, "VolatileLfu") {
                    Some(EvictionPolicy::VolatileLfu { sample_size: sample })
                } else {
                    None
                }
            },
        };
        Ok(Config { port, host, cleanup_interval, max_keys, eviction_policy })
    }

    pub fn get_port(&self) -> (r: u16)
        ensures
            r == self@.port,
    {
        self.port
    }

    pub fn get_host(&self) -> (r: &str)
        ensures
            r@ == self@.host,
    {
        self.host.as_str()
    }

    pub fn get_cleanup_interval(&self) -> (r: u128)
        ensures
            r == self@.cleanup_interval,
    {
        self.cleanup_interval
    }

    pub fn get_max_keys(&self) -> (r: usize)
        ensures
            r == self@.max_keys,
    {
        self.max_keys
    }

    pub fn get_eviction_policy(&self) -> (r: Option<EvictionPolicy>)
        ensures
            r == self@.eviction_policy,
    {
        self.eviction_policy
    }
}

} // verus!
