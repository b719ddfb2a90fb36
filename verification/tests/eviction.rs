//! Making room when the store is full.

use fast_kv::config::EvictionPolicy;
use fast_kv::processor::RespCommandProcessor;

fn request(parts: &[&str]) -> Vec<u8> {
    let mut out = format!("*{}\r\n", parts.len());
    for part in parts {
        out.push_str(&format!("${}\r\n{}\r\n", part.len(), part));
    }
    out.into_bytes()
}

fn run(p: &mut RespCommandProcessor, parts: &[&str]) -> Vec<u8> {
    let mut out = Vec::new();
    p.process_at(&request(parts), 1_000, &mut out).unwrap();
    out
}

const OOM: &[u8] = b"-OOM command not allowed when used memory > 'maxmemory'.\r\n";

#[test]
fn without_policy_a_full_store_refuses_new_keys() {
    let mut p = RespCommandProcessor::new(2, None);
    assert_eq!(run(&mut p, &["SET", "a", "1"]), b"+OK\r\n".to_vec());
    assert_eq!(run(&mut p, &["SET", "b", "2"]), b"+OK\r\n".to_vec());
    assert_eq!(run(&mut p, &["SET", "c", "3"]), OOM.to_vec());
    assert_eq!(run(&mut p, &["GET", "c"]), b"$-1\r\n".to_vec());
    assert_eq!(run(&mut p, &["SET", "a", "9"]), b"+OK\r\n".to_vec());
    assert_eq!(run(&mut p, &["GET", "a"]), b"$1\r\n9\r\n".to_vec());
    assert_eq!(run(&mut p, &["GET", "b"]), b"$1\r\n2\r\n".to_vec());
}

#[test]
fn random_policy_makes_room() {
    let mut p = RespCommandProcessor::new(2, Some(EvictionPolicy::AllkeysRandom));
    run(&mut p, &["SET", "a", "1"]);
    run(&mut p, &["SET", "b", "2"]);
    assert_eq!(run(&mut p, &["SET", "c", "3"]), b"+OK\r\n".to_vec());
    assert_eq!(run(&mut p, &["GET", "c"]), b"$1\r\n3\r\n".to_vec());
    let left = ["a", "b"]
        .iter()
        .filter(|k| run(&mut p, &["GET", k]) != b"$-1\r\n".to_vec())
        .count();
    assert_eq!(left, 1);
}

#[test]
fn volatile_policy_evicts_only_keys_with_expiry() {
    let mut p = RespCommandProcessor::new(2, Some(EvictionPolicy::VolatileRandom));
    run(&mut p, &["SET", "keep", "1"]);
    run(&mut p, &["SET", "temp", "2", "EX", "100"]);
    assert_eq!(run(&mut p, &["SET", "new", "3"]), b"+OK\r\n".to_vec());
    assert_eq!(run(&mut p, &["GET", "keep"]), b"$1\r\n1\r\n".to_vec());
    assert_eq!(run(&mut p, &["GET", "temp"]), b"$-1\r\n".to_vec());
    // Only keys without expiry are left: nothing may go.
    assert_eq!(run(&mut p, &["SET", "more", "4"]), OOM.to_vec());
}

#[test]
fn lru_policy_with_zero_sample_finds_no_victim() {
    let mut p = RespCommandProcessor::new(1, Some(EvictionPolicy::AllkeysLru { sample_size: 0 }));
    run(&mut p, &["SET", "a", "1"]);
    assert_eq!(run(&mut p, &["SET", "b", "2"]), OOM.to_vec());
}

#[test]
fn lru_policy_evicts_the_least_recently_used() {
    let mut p = RespCommandProcessor::new(2, Some(EvictionPolicy::AllkeysLru { sample_size: 10 }));
    let mut out = Vec::new();
    p.process_at(&request(&["SET", "old", "1"]), 1_000, &mut out).unwrap();
    p.process_at(&request(&["SET", "new", "2"]), 2_000, &mut out).unwrap();
    p.process_at(&request(&["SET", "third", "3"]), 3_000, &mut out).unwrap();
    let mut out = Vec::new();
    p.process_at(&request(&["GET", "old"]), 3_000, &mut out).unwrap();
    assert_eq!(out, b"$-1\r\n".to_vec());
}

#[test]
fn zero_max_keys_refuses_every_key() {
    let mut p = RespCommandProcessor::new(0, Some(EvictionPolicy::AllkeysRandom));
    assert_eq!(run(&mut p, &["SET", "a", "1"]), OOM.to_vec());
}

#[test]
fn a_store_with_room_evicts_nothing() {
    let mut p = RespCommandProcessor::new(3, Some(EvictionPolicy::AllkeysRandom));
    run(&mut p, &["SET", "a", "1"]);
    run(&mut p, &["SET", "b", "2"]);
    assert_eq!(run(&mut p, &["SET", "c", "3"]), b"+OK\r\n".to_vec());
    for k in ["a", "b", "c"] {
        assert_ne!(run(&mut p, &["GET", k]), b"$-1\r\n".to_vec());
    }
}

#[test]
fn a_read_keeps_a_key_from_lru_eviction() {
    let mut p = RespCommandProcessor::new(2, Some(EvictionPolicy::AllkeysLru { sample_size: 10 }));
    let mut out = Vec::new();
    p.process_at(&request(&["SET", "a", "1"]), 1_000, &mut out).unwrap();
    p.process_at(&request(&["SET", "b", "2"]), 2_000, &mut out).unwrap();
    p.process_at(&request(&["GET", "a"]), 3_000, &mut out).unwrap();
    p.process_at(&request(&["SET", "c", "3"]), 4_000, &mut out).unwrap();
    let mut out = Vec::new();
    p.process_at(&request(&["GET", "a"]), 4_000, &mut out).unwrap();
    p.process_at(&request(&["GET", "b"]), 4_000, &mut out).unwrap();
    assert_eq!(out, b"$1\r\n1\r\n$-1\r\n".to_vec());
}

#[test]
fn lfu_policy_evicts_the_least_often_used() {
    let mut p = RespCommandProcessor::new(2, Some(EvictionPolicy::AllkeysLfu { sample_size: 10 }));
    let mut out = Vec::new();
    p.process_at(&request(&["SET", "a", "1"]), 1_000, &mut out).unwrap();
    p.process_at(&request(&["SET", "b", "2"]), 1_000, &mut out).unwrap();
    p.process_at(&request(&["GET", "b"]), 1_000, &mut out).unwrap();
    p.process_at(&request(&["GET", "b"]), 1_000, &mut out).unwrap();
    p.process_at(&request(&["SET", "c", "3"]), 1_000, &mut out).unwrap();
    let mut out = Vec::new();
    p.process_at(&request(&["GET", "a"]), 1_000, &mut out).unwrap();
    p.process_at(&request(&["GET", "b"]), 1_000, &mut out).unwrap();
    assert_eq!(out, b"$-1\r\n$1\r\n2\r\n".to_vec());
}
