//! Server settings.

use fast_kv::config::{Config, ConfigError, EvictionPolicy};

fn some(s: &str) -> Option<String> {
    Some(s.to_string())
}

#[test]
fn defaults_apply_when_nothing_is_set() {
    let c = Config::new(None, None, None, None, None, None).unwrap();
    assert_eq!(c.get_port(), 9736);
    assert_eq!(c.get_host(), "0.0.0.0");
    assert_eq!(c.get_cleanup_interval(), 1000);
    assert_eq!(c.get_max_keys(), 1000);
    assert_eq!(c.get_eviction_policy(), None);
}

#[test]
fn settings_are_read() {
    let c = Config::new(
        some("6379"),
        some("127.0.0.1"),
        some("250"),
        some("+10000"),
        some("VolatileLfu"),
        some("5"),
    )
    .unwrap();
    assert_eq!(c.get_port(), 6379);
    assert_eq!(c.get_host(), "127.0.0.1");
    assert_eq!(c.get_cleanup_interval(), 250);
    assert_eq!(c.get_max_keys(), 10000);
    assert_eq!(
        c.get_eviction_policy(),
        Some(EvictionPolicy::VolatileLfu { sample_size: 5 })
    );
}

#[test]
fn every_policy_name_is_known() {
    let cases = [
        ("AllKeysRandom", Some(EvictionPolicy::AllkeysRandom)),
        ("VolatileRandom", Some(EvictionPolicy::VolatileRandom)),
        ("AllKeysLru", Some(EvictionPolicy::AllkeysLru { sample_size: 20 })),
        ("VolatileLru", Some(EvictionPolicy::VolatileLru { sample_size: 20 })),
        ("AllKeysLfu", Some(EvictionPolicy::AllkeysLfu { sample_size: 20 })),
        ("VolatileLfu", Some(EvictionPolicy::VolatileLfu { sample_size: 20 })),
        ("NoEviction", None),
        ("allkeyslru", None),
    ];
    for (name, policy) in cases {
        let c = Config::new(None, None, None, None, some(name), None).unwrap();
        assert_eq!(c.get_eviction_policy(), policy);
    }
}

#[test]
fn bad_numbers_name_their_setting() {
    assert_eq!(
        Config::new(some("70000"), None, None, None, None, None).err(),
        Some(ConfigError::Port)
    );
    assert_eq!(
        Config::new(None, None, some("-1"), None, None, None).err(),
        Some(ConfigError::CleanupInterval)
    );
    assert_eq!(
        Config::new(None, None, None, some("many"), None, None).err(),
        Some(ConfigError::MaxKeys)
    );
    assert_eq!(
        Config::new(some("x"), None, None, None, None, some("")).err(),
        Some(ConfigError::EvictionSampleSize)
    );
}
