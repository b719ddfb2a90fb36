//! Store-level tests of expiry bookkeeping.

use std::time::{SystemTime, UNIX_EPOCH};

use fast_kv::eval::{sweep_again, RedisState};

fn argv(parts: &[&str]) -> Vec<String> {
    parts.iter().map(|s| s.to_string()).collect()
}

fn clock_millis() -> i64 {
    SystemTime::now()
        .duration_since(UNIX_EPOCH)
        .unwrap()
        .as_millis() as i64
}

#[test]
fn cleanup_removes_only_expired_volatile_keys() {
    let mut state = RedisState::new(1000, None);
    let mut s = Vec::new();

    // Set 5 ms in the past, so that a 1 ms expiry has already come.
    let then = clock_millis() - 5;
    state.eval_set(&argv(&["k1", "v", "PX", "1"]), then, &mut s); // volatile, expires fast
    state.eval_set(&argv(&["k2", "v"]), then, &mut s); // no TTL
    assert_eq!(state.data.volatile_len(), 1, "only k1 has expiry");

    state.cleanup_expired_keys();

    assert!(
        state.data.get("k1").is_none(),
        "expired key should be swept"
    );
    assert_eq!(
        state.data.volatile_len(),
        0,
        "index must drop swept key"
    );
    assert!(state.data.get("k2").is_some(), "non-volatile key untouched");
}

#[test]
fn overwriting_volatile_key_without_ttl_clears_index() {
    let mut state = RedisState::new(1000, None);
    let mut s = Vec::new();
    let now = clock_millis();

    state.eval_set(&argv(&["k", "v", "EX", "100"]), now, &mut s);
    assert_eq!(state.data.volatile_len(), 1);
    state.eval_set(&argv(&["k", "v2"]), now, &mut s); // overwrite, no TTL
    assert_eq!(
        state.data.volatile_len(),
        0,
        "stale TTL index must clear"
    );
}

#[test]
fn cleanup_at_keeps_keys_not_yet_due() {
    let mut state = RedisState::new(1000, None);
    let mut s = Vec::new();
    state.eval_set(&argv(&["soon", "v", "PX", "10"]), 1_000, &mut s);
    state.eval_set(&argv(&["later", "v", "PX", "1000"]), 1_000, &mut s);
    state.cleanup_expired_keys_at(1_010);
    assert!(state.data.get("soon").is_none());
    assert!(state.data.get("later").is_some());
    assert_eq!(state.data.volatile_len(), 1);
}

#[test]
fn cleanup_at_removes_some_key_when_all_are_due() {
    let mut state = RedisState::new(1000, None);
    let mut s = Vec::new();
    state.eval_set(&argv(&["a", "v", "PX", "5"]), 1_000, &mut s);
    state.eval_set(&argv(&["b", "v", "PX", "7"]), 1_000, &mut s);
    state.eval_set(&argv(&["c", "v"]), 1_000, &mut s);
    state.cleanup_expired_keys_at(2_000);
    assert!(state.data.len() < 3);
    assert!(state.data.get("c").is_some());
}

#[test]
fn cleanup_without_expiring_keys_changes_nothing() {
    let mut state = RedisState::new(1000, None);
    let mut s = Vec::new();
    state.eval_set(&argv(&["a", "v"]), 1_000, &mut s);
    state.eval_set(&argv(&["b", "v"]), 1_000, &mut s);
    state.cleanup_expired_keys_at(i64::MAX);
    state.cleanup_expired_keys();
    assert_eq!(state.data.len(), 2);
}

#[test]
fn eval_set_replies_ok_and_errors() {
    let mut state = RedisState::new(1000, None);
    let mut out = Vec::new();
    state.eval_set(&argv(&["k", "v"]), 0, &mut out);
    assert_eq!(out, b"+OK\r\n".to_vec());
    let mut out = Vec::new();
    state.eval_set(&argv(&["k", "v", "EX", "0"]), 0, &mut out);
    assert_eq!(
        out,
        b"-ERR invalid expire time in 'set' command\r\n".to_vec()
    );
    let mut out = Vec::new();
    state.eval_set(&argv(&["k", "v", "px", "9223372036854775807"]), 1, &mut out);
    assert_eq!(
        out,
        b"-ERR value is not an integer or out of range\r\n".to_vec()
    );
}

#[test]
fn eval_ttl_counts_whole_seconds_left() {
    let mut state = RedisState::new(1000, None);
    let mut out = Vec::new();
    state.eval_set(&argv(&["k", "v", "PX", "2999"]), 10_000, &mut out);
    let mut out = Vec::new();
    state.eval_ttl(&argv(&["k"]), 10_000, &mut out);
    assert_eq!(out, b":2\r\n".to_vec());
    let mut out = Vec::new();
    state.eval_ttl(&argv(&["k"]), 13_000, &mut out);
    assert_eq!(out, b":-2\r\n".to_vec());
    assert!(state.data.get("k").is_none());
}

#[test]
fn eval_ttl_without_key_is_an_arity_error() {
    let mut state = RedisState::new(1000, None);
    let mut out = Vec::new();
    state.eval_ttl(&argv(&[]), 0, &mut out);
    assert_eq!(
        out,
        b"-ERR wrong number of arguments for 'ttl' command\r\n".to_vec()
    );
}

#[test]
fn expire_does_not_revive_an_expired_key() {
    let mut state = RedisState::new(1000, None);
    let mut out = Vec::new();
    state.eval_set(&argv(&["k", "v", "PX", "5"]), 1_000, &mut out);
    let mut out = Vec::new();
    state.eval_expire(&argv(&["k", "10"]), 2_000, &mut out);
    assert_eq!(out, b":0\r\n".to_vec());
    assert!(state.data.get("k").is_none());
    let mut out = Vec::new();
    state.eval_get(&argv(&["k"]), 2_000, &mut out);
    assert_eq!(out, b"$-1\r\n".to_vec());
}

#[test]
fn cleanup_at_counts_its_rounds() {
    let mut state = RedisState::new(1000, None);
    let mut s = Vec::new();
    assert_eq!(state.cleanup_expired_keys_at(0), 0);
    state.eval_set(&argv(&["a", "v", "PX", "5"]), 1_000, &mut s);
    let rounds = state.cleanup_expired_keys_at(2_000);
    assert!(rounds >= 1 && rounds <= 1);
    assert!(state.data.get("a").is_none());
}

#[test]
fn del_skips_expired_keys_and_counts_each_key_once() {
    let mut state = RedisState::new(1000, None);
    let mut out = Vec::new();
    state.eval_set(&argv(&["a", "1"]), 0, &mut out);
    state.eval_set(&argv(&["b", "2", "PX", "5"]), 0, &mut out);
    let mut out = Vec::new();
    state.eval_del(&argv(&["a", "a", "b", "c"]), 100, &mut out);
    assert_eq!(out, b":1\r\n".to_vec());
    // DEL does not remove the expired key; lazy expiry is GET's and TTL's.
    assert!(state.data.get("b").is_some());
}

#[test]
fn expire_on_missing_key_replies_zero() {
    let mut state = RedisState::new(1000, None);
    let mut out = Vec::new();
    state.eval_expire(&argv(&["nope", "10"]), 0, &mut out);
    assert_eq!(out, b":0\r\n".to_vec());
    let mut out = Vec::new();
    state.eval_expire(&argv(&["nope", "ten"]), 0, &mut out);
    assert_eq!(
        out,
        b"-ERR value is not an integer or out of range\r\n".to_vec()
    );
}

#[test]
fn ping_and_echo_replies() {
    let state = RedisState::new(1000, None);
    let mut out = Vec::new();
    state.eval_ping(&argv(&[]), &mut out);
    state.eval_ping(&argv(&["hi"]), &mut out);
    state.eval_echo(&argv(&["yo"]), &mut out);
    state.eval_echo(&argv(&[]), &mut out);
    assert_eq!(
        out,
        b"+PONG\r\n$2\r\nhi\r\n$2\r\nyo\r\n-ERR wrong number of arguments for 'echo' command\r\n"
            .to_vec()
    );
}

#[test]
fn sweep_again_while_many_expired_and_time_lasts() {
    assert!(sweep_again(6, 20, 0));
    assert!(!sweep_again(5, 20, 0));
    assert!(!sweep_again(20, 20, 25));
    assert!(sweep_again(20, 20, 24));
}

#[test]
fn sweep_round_removes_the_due_keys_of_the_slots_drawn() {
    let mut state = RedisState::new(1000, None);
    let mut s = Vec::new();
    state.eval_set(&argv(&["due", "v", "PX", "5"]), 1_000, &mut s);
    state.eval_set(&argv(&["keep", "v"]), 1_000, &mut s);
    let slots: Vec<(usize, u8)> = state
        .data
        .sample_volatile_slots(20, &mut rand::rng())
        .into_iter()
        .map(|s| (s.group, s.slot))
        .collect();
    assert_eq!(slots.len(), 20);
    assert_eq!(state.sweep_round(&slots, 2_000), 20);
    assert!(state.data.get("due").is_none());
    assert!(state.data.get("keep").is_some());
}
