//! The key-value store and the commands that read and change it.
use vstd::prelude::*;
use vstd::utf8::*;

use crate::cmd::RedisCommand;
use crate::config::EvictionPolicy;
use crate::decimal::{parse_i64, parse_i64_spec};
use crate::platform::{
    ascii_upper_text, elapsed_millis, instant_now, io_error, make_ascii_uppercase, now_millis,
    same_text, IoErrorKind,
};
use crate::resp::{append_bytes, encode_into, spec_encode, Value, ValueModel};
use crate::store::{
    dict_contains_key, dict_entries, dict_entry_at, dict_evict, dict_expiries, dict_get,
    dict_get_mut, dict_insert, dict_len, dict_new, dict_remove, dict_sample_volatile,
    dict_set_expiry, dict_slots, dict_touch, dict_usage, is_volatile_policy, least_in_sample,
    no_victim, policy_pool, policy_sample, policy_score, ranked_victim, thread_rng, used_at,
    with_expiry,
};

verus! {

/// A stored value and its expiry time in milliseconds since the epoch, -1
/// when it has none.
pub struct RedisValue {
    pub value: Value,
    pub expires_at: i64,
}

/// The model of a stored value.
pub struct Entry {
    pub value: ValueModel,
    pub expires_at: i64,
}

impl View for RedisValue {
    type V = Entry;

    open spec fn view(&self) -> Entry {
        Entry { value: self.value@, expires_at: self.expires_at }
    }
}

pub struct RedisState {
    pub data: chaintable::Dict<RedisValue>,
    pub max_keys: usize,
    pub eviction_policy: Option<EvictionPolicy>,
}

/// The expiry index of the dictionary holds exactly the keys whose entry has
/// an expiry time, each with that time.
pub open spec fn expiry_index(entries: Map<Seq<char>, Entry>, expiries: Map<Seq<char>, u64>) -> bool {
    &&& forall|k: Seq<char>| #[trigger]
        expiries.contains_key(k) <==> (entries.contains_key(k) && entries[k].expires_at != -1)
    &&& forall|k: Seq<char>| #[trigger]
        expiries.contains_key(k) ==> expiries[k] == entries[k].expires_at as u64
}

/// A well-formed store: finitely many entries, at most `max_keys` of them,
/// and an expiry index that agrees with the entries.
pub open spec fn store_wf(
    entries: Map<Seq<char>, Entry>,
    expiries: Map<Seq<char>, u64>,
    max_keys: usize,
) -> bool {
    &&& entries.dom().finite()
    &&& entries.len() <= max_keys
    &&& expiry_index(entries, expiries)
}

/// The texts of the arguments.
pub open spec fn texts(args: Seq<String>) -> Seq<Seq<char>> {
    args.map_values(|s: String| s@)
}

pub open spec fn error_reply(msg: &str) -> ValueModel {
    ValueModel::Error(msg@)
}

/// The entries after lazy expiry of `key`: it goes when its time is before `now`.
pub open spec fn expire_if_due(m: Map<Seq<char>, Entry>, key: Seq<char>, now: i64) -> Map<
    Seq<char>,
    Entry,
> {
    if m.contains_key(key) && m[key].expires_at != -1 && m[key].expires_at < now {
        m.remove(key)
    } else {
        m
    }
}

/// An entry that counts as present at `now`.
pub open spec fn is_live(e: Entry, now: i64) -> bool {
    e.expires_at == -1 || e.expires_at >= now
}

pub open spec fn ping_reply(args: Seq<Seq<char>>) -> ValueModel {
    if args.len() >= 2 {
        error_reply("ERR wrong number of arguments for 'ping' command")
    } else if args.len() == 0 {
        ValueModel::SimpleString("PONG"@)
    } else {
        ValueModel::BulkString(encode_utf8(args[0]))
    }
}

pub open spec fn echo_reply(args: Seq<Seq<char>>) -> ValueModel {
    if args.len() != 1 {
        error_reply("ERR wrong number of arguments for 'echo' command")
    } else {
        ValueModel::BulkString(encode_utf8(args[0]))
    }
}

/// The expiry time that `amount` units of `unit_ms` milliseconds after `now`
/// make, or the error message.
pub open spec fn expiry_from(amount: Seq<char>, unit_ms: i64, now: i64) -> Result<i64, Seq<char>> {
    match parse_i64_spec(encode_utf8(amount)) {
        None => Err("ERR value is not an integer or out of range"@),
        Some(a) => if a <= 0 {
            Err("ERR invalid expire time in 'set' command"@)
        } else if a * unit_ms > i64::MAX || now + a * unit_ms > i64::MAX {
            Err("ERR value is not an integer or out of range"@)
        } else {
            Ok((now + a * unit_ms) as i64)
        },
    }
}

/// What the arguments of `SET` ask for: the key, the value's bytes and the
/// expiry time, or the error message.
pub open spec fn set_request(args: Seq<Seq<char>>, now: i64) -> Result<
    (Seq<char>, Seq<u8>, Option<i64>),
    Seq<char>,
> {
    if args.len() != 2 && args.len() != 4 {
        Err("ERR wrong number of arguments for 'set' command"@)
    } else if args.len() == 4 {
        let unit = ascii_upper_text(args[2]);
        if unit != "EX"@ && unit != "PX"@ {
            Err("ERR syntax error"@)
        } else {
            match expiry_from(args[3], if unit == "EX"@ { 1000 } else { 1 }, now) {
                Ok(t) => Ok((args[0], encode_utf8(args[1]), Some(t))),
                Err(msg) => Err(msg),
            }
        }
    } else {
        Ok((args[0], encode_utf8(args[1]), None))
    }
}

/// The entry that `SET` stores.
pub open spec fn set_entry(value: Seq<u8>, expires_at: Option<i64>) -> Entry {
    Entry {
        value: ValueModel::BulkString(value),
        expires_at: match expires_at {
            Some(t) => t,
            None => -1i64,
        },
    }
}

/// The policy may evict this entry.
pub open spec fn evictable(policy: Option<EvictionPolicy>, e: Entry) -> bool {
    match policy {
        None => false,
        Some(p) => is_volatile_policy(p) ==> e.expires_at != -1,
    }
}

/// Every key other than `key` that went was one the policy may evict.
pub open spec fn only_evictable_gone(
    old: Map<Seq<char>, Entry>,
    new: Map<Seq<char>, Entry>,
    key: Seq<char>,
    policy: Option<EvictionPolicy>,
) -> bool {
    forall|j: Seq<char>|
        #![trigger old.contains_key(j), new.contains_key(j)]
        old.contains_key(j) && j != key && !new.contains_key(j) ==> evictable(policy, old[j])
}

/// `SET` stored `e` under `key`, after evicting only keys the policy may
/// evict, only while the store was full, and none when `key` was present:
/// a new key in a store with room is added to it as it is, and one in a full
/// store leaves it full.
pub open spec fn set_stored(
    old: Map<Seq<char>, Entry>,
    new: Map<Seq<char>, Entry>,
    key: Seq<char>,
    e: Entry,
    policy: Option<EvictionPolicy>,
    max_keys: usize,
) -> bool {
    &&& new.contains_key(key)
    &&& new[key] == e
    &&& new.remove(key).submap_of(old)
    &&& old.contains_key(key) ==> new == old.insert(key, e)
    &&& !old.contains_key(key) && old.len() < max_keys ==> new == old.insert(key, e)
    &&& !old.contains_key(key) && old.len() >= max_keys ==> new.len() == max_keys
    &&& only_evictable_gone(old, new, key, policy)
}

/// `victim` ranks least among some sample `s` of at most `n` keys of `pool`.
pub open spec fn sampled_least(
    p: EvictionPolicy,
    s: Set<Seq<char>>,
    victim: Seq<char>,
    pool: Set<Seq<char>>,
    n: usize,
    usage: Map<Seq<char>, (u64, u32)>,
) -> bool {
    &&& s.finite()
    &&& s.subset_of(pool)
    &&& s.contains(victim)
    &&& s.len() <= n
    &&& forall|k: Seq<char>| #[trigger]
        s.contains(k) ==> policy_score(p, usage, victim) <= policy_score(p, usage, k)
}

/// `j` went as a victim of `p`, which chooses from `pool`: any key of it for
/// a random policy; for a sampling policy the key that ranks least (by
/// `usage`) among some sample of at most its sample size, and, when that
/// size covers the whole pool, no key of the pool that is still in `new`
/// ranks lower.
pub open spec fn fairly_evicted(
    p: EvictionPolicy,
    j: Seq<char>,
    pool: Set<Seq<char>>,
    usage: Map<Seq<char>, (u64, u32)>,
    new: Map<Seq<char>, Entry>,
) -> bool {
    match policy_sample(p) {
        None => pool.contains(j),
        Some(n) => {
            &&& exists|s: Set<Seq<char>>| sampled_least(p, s, j, pool, n, usage)
            &&& n >= pool.len() ==> forall|k: Seq<char>|
                #![trigger pool.contains(k), new.contains_key(k)]
                pool.contains(k) && new.contains_key(k) ==> policy_score(p, usage, j)
                    <= policy_score(p, usage, k)
        },
    }
}

/// Every key other than `key` that went from `old` was a fair victim of the
/// policy, ranked by the usage data `usage` that the keys had before.
pub open spec fn evictions_ranked(
    policy: Option<EvictionPolicy>,
    old: Map<Seq<char>, Entry>,
    old_expiries: Map<Seq<char>, u64>,
    usage: Map<Seq<char>, (u64, u32)>,
    new: Map<Seq<char>, Entry>,
    key: Seq<char>,
) -> bool {
    forall|j: Seq<char>|
        #![trigger old.contains_key(j), new.contains_key(j)]
        old.contains_key(j) && j != key && !new.contains_key(j) ==> match policy {
            None => false,
            Some(p) => fairly_evicted(p, j, policy_pool(p, old, old_expiries), usage, new),
        }
}

/// `SET` found the store full and no key to evict (perhaps after evicting
/// some).
pub open spec fn set_refused(
    old: Map<Seq<char>, Entry>,
    new: Map<Seq<char>, Entry>,
    new_expiries: Map<Seq<char>, u64>,
    key: Seq<char>,
    policy: Option<EvictionPolicy>,
    max_keys: usize,
) -> bool {
    &&& !old.contains_key(key)
    &&& new.submap_of(old)
    &&& only_evictable_gone(old, new, key, policy)
    &&& new.len() >= max_keys
    &&& match policy {
        None => true,
        Some(p) => no_victim(p, new, new_expiries),
    }
}

pub open spec fn oom_reply() -> ValueModel {
    error_reply("OOM command not allowed when used memory > 'maxmemory'.")
}

/// `GET`: the entries after lazy expiry, and the reply.
pub open spec fn get_outcome(m: Map<Seq<char>, Entry>, args: Seq<Seq<char>>, now: i64) -> (
    Map<Seq<char>, Entry>,
    ValueModel,
) {
    if args.len() != 1 {
        (m, error_reply("ERR wrong number of arguments for 'get' command"))
    } else {
        let after = expire_if_due(m, args[0], now);
        (
            after,
            if after.contains_key(args[0]) {
                after[args[0]].value
            } else {
                ValueModel::Null
            },
        )
    }
}

/// `GET`'s effect on the usage data: a key that lazy expiry removes loses
/// its data, and a key that `GET` finds is used once more at `now`.
pub open spec fn get_usage(
    m: Map<Seq<char>, Entry>,
    u: Map<Seq<char>, (u64, u32)>,
    args: Seq<Seq<char>>,
    now: i64,
) -> Map<Seq<char>, (u64, u32)> {
    if args.len() != 1 {
        u
    } else if expire_if_due(m, args[0], now).contains_key(args[0]) {
        u.insert(args[0], used_at(u[args[0]], now as u64))
    } else if m.contains_key(args[0]) {
        u.remove(args[0])
    } else {
        u
    }
}

/// `TTL` of the first argument (an arity error without one): -2 for a key that is missing or has expired
/// (which then goes), -1 for one without expiry, else the whole seconds left.
pub open spec fn ttl_outcome(m: Map<Seq<char>, Entry>, args: Seq<Seq<char>>, now: i64) -> (
    Map<Seq<char>, Entry>,
    ValueModel,
) {
    if args.len() == 0 {
        (m, error_reply("ERR wrong number of arguments for 'ttl' command"))
    } else if !m.contains_key(args[0]) {
        (m, ValueModel::Integer(-2i64))
    } else if m[args[0]].expires_at == -1 {
        (m, ValueModel::Integer(-1i64))
    } else if m[args[0]].expires_at < now {
        (m.remove(args[0]), ValueModel::Integer(-2i64))
    } else {
        (m, ValueModel::Integer(((m[args[0]].expires_at - now) / 1000) as i64))
    }
}

/// `DEL` of `keys` in order: the entries after, and how many live keys went.
pub open spec fn del_fold(m: Map<Seq<char>, Entry>, keys: Seq<Seq<char>>, now: i64) -> (
    Map<Seq<char>, Entry>,
    nat,
)
    decreases keys.len(),
{
    if keys.len() == 0 {
        (m, 0)
    } else {
        let (before, count) = del_fold(m, keys.drop_last(), now);
        let k = keys.last();
        if before.contains_key(k) && is_live(before[k], now) {
            (before.remove(k), count + 1)
        } else {
            (before, count)
        }
    }
}

pub open spec fn del_outcome(m: Map<Seq<char>, Entry>, args: Seq<Seq<char>>, now: i64) -> (
    Map<Seq<char>, Entry>,
    ValueModel,
) {
    if args.len() == 0 {
        (m, error_reply("ERR wrong number of arguments for 'del' command"))
    } else {
        let (after, count) = del_fold(m, args, now);
        (after, ValueModel::Integer(count as i64))
    }
}

/// `EXPIRE`: a key whose time has passed goes first, as for `GET`; then 1 and
/// the new time when the key is present, 0 when not.
pub open spec fn expire_outcome(m: Map<Seq<char>, Entry>, args: Seq<Seq<char>>, now: i64) -> (
    Map<Seq<char>, Entry>,
    ValueModel,
) {
    if args.len() != 2 {
        (m, error_reply("ERR wrong number of arguments for 'expire' command"))
    } else {
        match expiry_from(args[1], 1000, now) {
            Err(msg) => (m, ValueModel::Error(msg)),
            Ok(t) => {
                let after = expire_if_due(m, args[0], now);
                if after.contains_key(args[0]) {
                    (
                        after.insert(args[0], Entry { value: after[args[0]].value, expires_at: t }),
                        ValueModel::Integer(1),
                    )
                } else {
                    (after, ValueModel::Integer(0))
                }
            },
        }
    }
}

/// Some key has an expiry time.
pub open spec fn has_volatile(m: Map<Seq<char>, Entry>) -> bool {
    exists|k: Seq<char>| #[trigger] m.contains_key(k) && m[k].expires_at != -1
}

/// Every key that has an expiry time is due at `limit`, the times read as
/// the unsigned milliseconds that the dictionary keeps.
pub open spec fn all_due(m: Map<Seq<char>, Entry>, limit: u64) -> bool {
    forall|k: Seq<char>| #[trigger]
        m.contains_key(k) && m[k].expires_at != -1 ==> m[k].expires_at as u64 <= limit
}

/// What active expiry at `now` makes of the entries `old`: only keys whose
/// expiry time is at or before `now` go; with no key that has an expiry
/// time nothing changes; and when every such key is due, at least one goes.
pub open spec fn cleanup_outcome(old: Map<Seq<char>, Entry>, new: Map<Seq<char>, Entry>, now: i64) -> bool {
    &&& new.submap_of(old)
    &&& forall|k: Seq<char>|
        #![trigger old.contains_key(k), new.contains_key(k)]
        old.contains_key(k) && !new.contains_key(k) ==> (old[k].expires_at != -1
            && old[k].expires_at as u64 <= now as u64)
    &&& !has_volatile(old) ==> new == old
    &&& has_volatile(old) && all_due(old, now as u64) ==> new.len() < old.len()
}

/// In a well-formed store, the expiry index is finite, and it is empty
/// exactly when no key has an expiry time.
proof fn lemma_expiries_len(
    entries: Map<Seq<char>, Entry>,
    expiries: Map<Seq<char>, u64>,
    max_keys: usize,
)
    requires
        store_wf(entries, expiries, max_keys),
    ensures
        expiries.dom().finite(),
        has_volatile(entries) <==> expiries.len() > 0,
{
    assert(expiries.dom().subset_of(entries.dom()));
    vstd::set_lib::lemma_len_subset(expiries.dom(), entries.dom());
    vstd::set_lib::lemma_set_empty_equivalency_len(expiries.dom());
    if has_volatile(entries) {
        let k = choose|k: Seq<char>| #[trigger] entries.contains_key(k) && entries[k].expires_at != -1;
        assert(expiries.dom().contains(k));
    } else if expiries.len() > 0 {
        let k = choose|k: Seq<char>| expiries.dom().contains(k);
        assert(entries.contains_key(k) && entries[k].expires_at != -1);
    }
}

/// A submap of a finite map has no more entries.
proof fn lemma_submap_len(small: Map<Seq<char>, Entry>, big: Map<Seq<char>, Entry>)
    requires
        small.submap_of(big),
        big.dom().finite(),
    ensures
        small.len() <= big.len(),
        small.dom().finite(),
{
    vstd::set_lib::lemma_len_subset(small.dom(), big.dom());
}

/// The keys a policy chooses from in a store that lost some keys are the
/// ones it chose from before that are still there.
proof fn lemma_pool_shrinks(
    p: EvictionPolicy,
    e0: Map<Seq<char>, Entry>,
    x0: Map<Seq<char>, u64>,
    cur: Map<Seq<char>, Entry>,
    cur_exp: Map<Seq<char>, u64>,
    max_keys: usize,
)
    requires
        store_wf(e0, x0, max_keys),
        store_wf(cur, cur_exp, max_keys),
        cur.submap_of(e0),
    ensures
        policy_pool(p, cur, cur_exp).subset_of(policy_pool(p, e0, x0)),
        forall|x: Seq<char>|
            #![trigger policy_pool(p, e0, x0).contains(x), cur.contains_key(x)]
            policy_pool(p, e0, x0).contains(x) && cur.contains_key(x) ==> policy_pool(
                p,
                cur,
                cur_exp,
            ).contains(x),
        policy_pool(p, e0, x0).finite(),
{
    lemma_expiries_len(e0, x0, max_keys);
    assert forall|x: Seq<char>| #[trigger] policy_pool(p, cur, cur_exp).contains(x) implies policy_pool(
        p,
        e0,
        x0,
    ).contains(x) by {
        if is_volatile_policy(p) {
            assert(cur_exp.contains_key(x));
            assert(cur.dom().contains(x));
            assert(e0.dom().contains(x));
            assert(cur[x] == e0[x]);
        } else {
            assert(cur.dom().contains(x));
            assert(e0.dom().contains(x));
        }
    }
    assert forall|x: Seq<char>|
        #![trigger policy_pool(p, e0, x0).contains(x), cur.contains_key(x)]
        policy_pool(p, e0, x0).contains(x) && cur.contains_key(x) implies policy_pool(
            p,
            cur,
            cur_exp,
        ).contains(x) by {
        assert(cur.dom().contains(x));
        assert(e0.dom().contains(x));
        assert(cur[x] == e0[x]);
    }
}

/// One more eviction by the policy keeps every eviction so far fair.
proof fn lemma_eviction_step(
    p: EvictionPolicy,
    g: Seq<char>,
    k: Seq<char>,
    e0: Map<Seq<char>, Entry>,
    x0: Map<Seq<char>, u64>,
    u0: Map<Seq<char>, (u64, u32)>,
    prev: Map<Seq<char>, Entry>,
    prev_exp: Map<Seq<char>, u64>,
    prev_usage: Map<Seq<char>, (u64, u32)>,
    cur: Map<Seq<char>, Entry>,
    max_keys: usize,
)
    requires
        store_wf(e0, x0, max_keys),
        store_wf(prev, prev_exp, max_keys),
        prev.submap_of(e0),
        forall|j: Seq<char>| #[trigger] prev.contains_key(j) ==> prev_usage[j] == u0[j],
        prev.contains_key(g),
        cur == prev.remove(g),
        ranked_victim(p, g, policy_pool(p, prev, prev_exp), prev_usage),
        evictions_ranked(Some(p), e0, x0, u0, prev, k),
    ensures
        evictions_ranked(Some(p), e0, x0, u0, cur, k),
{
    let pool0 = policy_pool(p, e0, x0);
    let pool = policy_pool(p, prev, prev_exp);
    lemma_pool_shrinks(p, e0, x0, prev, prev_exp, max_keys);
    assert(pool.subset_of(prev.dom()) && pool.subset_of(pool0)) by {
        assert forall|x: Seq<char>| #[trigger] pool.contains(x) implies prev.dom().contains(x) by {
            if is_volatile_policy(p) {
                assert(prev_exp.contains_key(x));
            }
        }
    }
    assert(fairly_evicted(p, g, pool0, u0, cur)) by {
        match policy_sample(p) {
            None => {
                assert(pool.contains(g));
            },
            Some(n) => {
                let s = choose|s: Set<Seq<char>>| least_in_sample(p, s, g, pool, n, prev_usage);
                assert(prev_usage[g] == u0[g]);
                assert forall|x: Seq<char>| #[trigger] s.contains(x) implies policy_score(p, u0, g)
                    <= policy_score(p, u0, x) by {
                    assert(pool.contains(x));
                    assert(prev.contains_key(x));
                    assert(prev_usage[x] == u0[x]);
                    assert(policy_score(p, prev_usage, g) <= policy_score(p, prev_usage, x));
                }
                assert(sampled_least(p, s, g, pool0, n, u0));
                if n >= pool0.len() {
                    vstd::set_lib::lemma_len_subset(pool, pool0);
                    assert(s == pool);
                    assert forall|x: Seq<char>|
                        #![trigger pool0.contains(x), cur.contains_key(x)]
                        pool0.contains(x) && cur.contains_key(x) implies policy_score(p, u0, g)
                        <= policy_score(p, u0, x) by {
                        assert(prev.contains_key(x));
                        assert(pool.contains(x));
                        assert(s.contains(x));
                    }
                }
            },
        }
    }
    assert forall|j: Seq<char>|
        #![trigger e0.contains_key(j), cur.contains_key(j)]
        e0.contains_key(j) && j != k && !cur.contains_key(j) implies fairly_evicted(
        p,
        j,
        pool0,
        u0,
        cur,
    ) by {
        if j != g {
            assert(!prev.contains_key(j));
            assert(fairly_evicted(p, j, pool0, u0, prev));
            if let Some(n) = policy_sample(p) {
                if n >= pool0.len() {
                    assert forall|x: Seq<char>|
                        #![trigger pool0.contains(x), cur.contains_key(x)]
                        pool0.contains(x) && cur.contains_key(x) implies policy_score(p, u0, j)
                        <= policy_score(p, u0, x) by {
                        assert(prev.contains_key(x));
                    }
                }
            }
        }
    }
}

/// The key held by each drawn slot, in the order drawn.
pub open spec fn slot_keys(slots_map: Map<(usize, u8), Seq<char>>, slots: Seq<(usize, u8)>) -> Seq<
    Seq<char>,
> {
    slots.map_values(|s: (usize, u8)| slots_map[s])
}

/// An entry whose expiry time is at or before `limit`, read as the unsigned
/// milliseconds that the dictionary keeps.
pub open spec fn due_by(e: Entry, limit: u64) -> bool {
    e.expires_at != -1 && e.expires_at as u64 <= limit
}

/// How many of `keys` (each occurrence counted) are entries of `m` due by
/// `limit`.
pub open spec fn due_count(m: Map<Seq<char>, Entry>, keys: Seq<Seq<char>>, limit: u64) -> nat
    decreases keys.len(),
{
    if keys.len() == 0 {
        0
    } else {
        due_count(m, keys.drop_last(), limit) + if m.contains_key(keys.last()) && due_by(
            m[keys.last()],
            limit,
        ) {
            1nat
        } else {
            0nat
        }
    }
}

/// Whether a sweep samples again: while more than a quarter of the last
/// sample had expired and the 25 ms time budget is not used up.
pub fn sweep_again(expired: usize, sampled: usize, elapsed_ms: u128) -> (again: bool)
    ensures
        again == (4 * expired > sampled && elapsed_ms < 25),
{
    (expired as u128) * 4 > sampled as u128 && elapsed_ms < 25
}

/// The usage data of every key still in `new` is as it was in `old_usage`.
pub open spec fn usage_kept(
    old_usage: Map<Seq<char>, (u64, u32)>,
    new_usage: Map<Seq<char>, (u64, u32)>,
    new: Map<Seq<char>, Entry>,
) -> bool {
    forall|k: Seq<char>| #[trigger] new.contains_key(k) ==> new_usage[k] == old_usage[k]
}

/// `SET`'s effect on the usage data: the other keys that stay keep theirs,
/// and the key stored is used once more at `now`, or first used then.
pub open spec fn set_usage(
    old: Map<Seq<char>, Entry>,
    old_usage: Map<Seq<char>, (u64, u32)>,
    new: Map<Seq<char>, Entry>,
    new_usage: Map<Seq<char>, (u64, u32)>,
    key: Seq<char>,
    now: i64,
) -> bool {
    &&& forall|j: Seq<char>| #[trigger]
        new.contains_key(j) && j != key ==> new_usage[j] == old_usage[j]
    &&& new.contains_key(key) ==> new_usage[key] == (if old.contains_key(key) {
        used_at(old_usage[key], now as u64)
    } else {
        (now as u64, 1u32)
    })
}

/// The commands that dispatch by name; any other name is answered as `PING`.
pub enum CommandKind {
    Ping,
    Echo,
    SetValue,
    Get,
    Ttl,
    Del,
    Expire,
}

pub open spec fn command_kind(name: Seq<char>) -> CommandKind {
    if name == "ECHO"@ {
        CommandKind::Echo
    } else if name == "SET"@ {
        CommandKind::SetValue
    } else if name == "GET"@ {
        CommandKind::Get
    } else if name == "TTL"@ {
        CommandKind::Ttl
    } else if name == "DEL"@ {
        CommandKind::Del
    } else if name == "EXPIRE"@ {
        CommandKind::Expire
    } else {
        CommandKind::Ping
    }
}

/// One command, run at `now` on a store with `max_keys` and `policy`, takes
/// the entries `old` (with expiry index `old_exp`) to `new` (with `new_exp`)
/// and is answered `reply`.
pub open spec fn command_outcome(
    name: Seq<char>,
    args: Seq<Seq<char>>,
    now: i64,
    max_keys: usize,
    policy: Option<EvictionPolicy>,
    old: Map<Seq<char>, Entry>,
    old_exp: Map<Seq<char>, u64>,
    old_usage: Map<Seq<char>, (u64, u32)>,
    new: Map<Seq<char>, Entry>,
    new_exp: Map<Seq<char>, u64>,
    new_usage: Map<Seq<char>, (u64, u32)>,
    reply: ValueModel,
) -> bool {
    &&& store_wf(new, new_exp, max_keys)
    &&& new_usage.dom() == new.dom()
    &&& match command_kind(name) {
        CommandKind::Ping => new == old && new_usage == old_usage && reply == ping_reply(args),
        CommandKind::Echo => new == old && new_usage == old_usage && reply == echo_reply(args),
        CommandKind::Get => (new, reply) == get_outcome(old, args, now) && new_usage == get_usage(
            old,
            old_usage,
            args,
            now,
        ),
        CommandKind::Ttl => (new, reply) == ttl_outcome(old, args, now) && usage_kept(
            old_usage,
            new_usage,
            new,
        ),
        CommandKind::Del => (new, reply) == del_outcome(old, args, now) && usage_kept(
            old_usage,
            new_usage,
            new,
        ),
        CommandKind::Expire => (new, reply) == expire_outcome(old, args, now) && usage_kept(
            old_usage,
            new_usage,
            new,
        ),
        CommandKind::SetValue => match set_request(args, now) {
            Err(msg) => new == old && new_usage == old_usage && reply == ValueModel::Error(msg),
            Ok((key, value, expires_at)) => {
                &&& evictions_ranked(policy, old, old_exp, old_usage, new, key)
                &&& set_usage(old, old_usage, new, new_usage, key, now)
                &&& (reply == ValueModel::SimpleString("OK"@) && set_stored(
                    old,
                    new,
                    key,
                    set_entry(value, expires_at),
                    policy,
                    max_keys,
                )) || (reply == oom_reply() && set_refused(old, new, new_exp, key, policy, max_keys))
            },
        },
    }
}

proof fn lemma_cast_minus_one(t: i64)
    ensures
        (t as u64 == u64::MAX) <==> (t == -1),
{
    assert((t as u64 == 0xffff_ffff_ffff_ffffu64) <==> (t == -1i64)) by (bit_vector);
}

fn error_value(msg: &str) -> (v: Value)
    ensures
        v@ == ValueModel::Error(msg@),
{
    Value::Error(msg.to_owned())
}

/// The UTF-8 bytes of `s`.
fn text_bytes(s: &String) -> (r: Vec<u8>)
    ensures
        r@ == encode_utf8(s@),
{
    let mut r: Vec<u8> = Vec::new();
    append_bytes(&mut r, s.as_str().as_bytes());
    assert(r@ =~= encode_utf8(s@));
    r
}

/// Appends the RESP2 bytes of `value`.
fn respond(value: &Value, out: &mut Vec<u8>)
    ensures
        final(out)@ == old(out)@ + spec_encode(value@),
{
    encode_into(value, out);
}

impl RedisState {
    pub open spec fn entries(&self) -> Map<Seq<char>, Entry> {
        dict_entries(self.data)
    }

    pub open spec fn expiries(&self) -> Map<Seq<char>, u64> {
        dict_expiries(self.data)
    }

    /// The usage data of each key: the time of its last use and how often
    /// it was used.
    pub open spec fn usage(&self) -> Map<Seq<char>, (u64, u32)> {
        dict_usage(self.data)
    }

    pub open spec fn wf(&self) -> bool {
        &&& store_wf(self.entries(), self.expiries(), self.max_keys)
        &&& self.usage().dom() == self.entries().dom()
    }

    /// An empty store that holds at most `max_keys` keys and makes room by
    /// `eviction_policy`.
    pub fn new(max_keys: usize, eviction_policy: Option<EvictionPolicy>) -> (s: Self)
        ensures
            s.wf(),
            s.entries() == Map::<Seq<char>, Entry>::empty(),
            s.max_keys == max_keys,
            s.eviction_policy == eviction_policy,
    {
        let s = RedisState { data: dict_new(), max_keys, eviction_policy };
        assert(s.entries() =~= Map::<Seq<char>, Entry>::empty());
        s
    }

    fn send_error(&self, error: &str, out: &mut Vec<u8>)
        ensures
            final(out)@ == old(out)@ + spec_encode(error_reply(error)),
    {
        respond(&error_value(error), out);
    }

    fn reject<T>(&self, error: &str, out: &mut Vec<u8>) -> (r: Result<T, std::io::Error>)
        ensures
            r is Err,
            final(out)@ == old(out)@ + spec_encode(error_reply(error)),
    {
        self.send_error(error, out);
        Err(io_error(IoErrorKind::InvalidInput, "Invalid input"))
    }

    pub fn eval_ping(&self, args: &[String], out: &mut Vec<u8>)
        ensures
            final(out)@ == old(out)@ + spec_encode(ping_reply(texts(args@))),
    {
        if args.len() >= 2 {
            self.send_error("ERR wrong number of arguments for 'ping' command", out);
            return ;
        }
        let response = if args.len() == 0 {
            Value::SimpleString("PONG".to_owned())
        } else {
            Value::BulkString(text_bytes(&args[0]))
        };
        respond(&response, out);
    }

    pub fn eval_echo(&self, args: &[String], out: &mut Vec<u8>)
        ensures
            final(out)@ == old(out)@ + spec_encode(echo_reply(texts(args@))),
    {
        if args.len() != 1 {
            self.send_error("ERR wrong number of arguments for 'echo' command", out);
            return ;
        }
        let response = Value::BulkString(text_bytes(&args[0]));
        respond(&response, out);
    }

    /// The expiry time `amount` units of `unit_ms` after `now`; on a bad
    /// amount, the error reply is written and the call fails.
    pub fn parse_expiry(&self, amount: &str, unit_ms: i64, now: i64, out: &mut Vec<u8>) -> (r:
        Result<i64, std::io::Error>)
        requires
            unit_ms > 0,
        ensures
            match expiry_from(amount@, unit_ms, now) {
                Ok(t) => r matches Ok(v) && v == t && final(out)@ == old(out)@,
                Err(msg) => r is Err && final(out)@ == old(out)@ + spec_encode(
                    ValueModel::Error(msg),
                ),
            },
    {
        let amount: i64 = match parse_i64(amount.as_bytes()) {
            Some(n) => n,
            None => {
                return self.reject("ERR value is not an integer or out of range", out);
            },
        };
        if amount <= 0 {
            return self.reject("ERR invalid expire time in 'set' command", out);
        }
        match amount.checked_mul(unit_ms) {
            Some(ttl_ms) => match now.checked_add(ttl_ms) {
                Some(expires_at) => Ok(expires_at),
                None => self.reject("ERR value is not an integer or out of range", out),
            },
            None => self.reject("ERR value is not an integer or out of range", out),
        }
    }

    /// Checks the arguments of `SET`; on bad ones, the error reply is
    /// written and the call fails.
    pub fn validate_and_get_set_args(&self, args: &[String], now: i64, out: &mut Vec<u8>) -> (r:
        Result<(String, Value, Option<i64>), std::io::Error>)
        ensures
            match set_request(texts(args@), now) {
                Ok((k, v, e)) => r matches Ok((key, value, expires_at)) && key@ == k && value@
                    == ValueModel::BulkString(v) && expires_at == e && final(out)@ == old(out)@,
                Err(msg) => r is Err && final(out)@ == old(out)@ + spec_encode(
                    ValueModel::Error(msg),
                ),
            },
    {
        if args.len() != 2 && args.len() != 4 {
            return self.reject("ERR wrong number of arguments for 'set' command", out);
        }
        let mut expires_at: Option<i64> = None;
        if args.len() == 4 {
            let mut unit = args[2].clone();
            make_ascii_uppercase(&mut unit);
            let unit_ms: i64 = if same_text(&unit, "EX") {
                1000
            } else if same_text(&unit, "PX") {
                1
            } else {
                return self.reject("ERR syntax error", out);
            };
            expires_at = Some(self.parse_expiry(args[3].as_str(), unit_ms, now, out)?);
        }
        let key = args[0].clone();
        let value = Value::BulkString(text_bytes(&args[1]));
        Ok((key, value, expires_at))
    }

    pub fn eval_set(&mut self, args: &[String], now: i64, out: &mut Vec<u8>)
        requires
            old(self).wf(),
        ensures
            final(self).wf(),
            final(self).max_keys == old(self).max_keys,
            final(self).eviction_policy == old(self).eviction_policy,
            match set_request(texts(args@), now) {
                Err(msg) => final(self).entries() == old(self).entries() && final(out)@ == old(
                    out,
                )@ + spec_encode(ValueModel::Error(msg)),
                Ok((key, value, expires_at)) => (final(out)@ == old(out)@ + spec_encode(
                    ValueModel::SimpleString("OK"@),
                ) && set_stored(
                    old(self).entries(),
                    final(self).entries(),
                    key,
                    set_entry(value, expires_at),
                    old(self).eviction_policy,
                    old(self).max_keys,
                )) || (final(out)@ == old(out)@ + spec_encode(oom_reply()) && set_refused(
                    old(self).entries(),
                    final(self).entries(),
                    final(self).expiries(),
                    key,
                    old(self).eviction_policy,
                    old(self).max_keys,
                )),
            },
            set_request(texts(args@), now) matches Ok((key, _, _)) ==> {
                &&& evictions_ranked(
                    old(self).eviction_policy,
                    old(self).entries(),
                    old(self).expiries(),
                    old(self).usage(),
                    final(self).entries(),
                    key,
                )
                &&& set_usage(
                    old(self).entries(),
                    old(self).usage(),
                    final(self).entries(),
                    final(self).usage(),
                    key,
                    now,
                )
            },
            set_request(texts(args@), now) is Err ==> final(self).usage() == old(self).usage(),
    {
        let (key, value, expires_at) = match self.validate_and_get_set_args(args, now, out) {
            Ok(v) => v,
            Err(_) => {
                return ;
            },
        };
        let ghost k = key@;
        let ghost e0 = self.entries();
        let ghost x0 = self.expiries();
        let ghost u0 = self.usage();
        let mut rng = thread_rng();
        while dict_len(&self.data) >= self.max_keys && !dict_contains_key(&self.data, key.as_str())
            invariant
                self.wf(),
                self.max_keys == old(self).max_keys,
                self.eviction_policy == old(self).eviction_policy,
                e0 == old(self).entries(),
                k == key@,
                set_request(texts(args@), now) is Ok,
                set_request(texts(args@), now)->Ok_0.0 == k,
                self.entries().submap_of(e0),
                e0.contains_key(k) ==> self.entries() == e0,
                only_evictable_gone(e0, self.entries(), k, self.eviction_policy),
                self.entries() == e0 || (e0.len() >= self.max_keys && self.entries().len() + 1
                    >= self.max_keys),
                x0 == old(self).expiries(),
                u0 == old(self).usage(),
                store_wf(e0, x0, self.max_keys),
                forall|j: Seq<char>| #[trigger]
                    self.entries().contains_key(j) ==> self.usage()[j] == u0[j],
                evictions_ranked(self.eviction_policy, e0, x0, u0, self.entries(), k),
                out@ == old(out)@,
            decreases self.entries().len(),
        {
            let ghost prev = self.entries();
            let ghost prev_exp = self.expiries();
            let ghost prev_usage = self.usage();
            let evicted = match self.eviction_policy {
                Some(policy) => dict_evict(&mut self.data, policy, &mut rng),
                None => None,
            };
            match evicted {
                None => {
                    self.send_error("OOM command not allowed when used memory > 'maxmemory'.", out);
                    return ;
                },
                Some((gone, _)) => {
                    proof {
                        let cur = self.entries();
                        assert(cur == prev.remove(gone@));
                        assert(cur.len() + 1 == prev.len());
                        assert(self.usage().dom() =~= cur.dom());
                        lemma_eviction_step(
                            self.eviction_policy.unwrap(),
                            gone@,
                            k,
                            e0,
                            x0,
                            u0,
                            prev,
                            prev_exp,
                            prev_usage,
                            cur,
                            self.max_keys,
                        );
                        assert(cur.submap_of(e0)) by {
                            assert forall|j: Seq<char>| #[trigger]
                                cur.dom().contains(j) implies e0.dom().contains(j) && cur[j]
                                == e0[j] by {
                                assert(prev.dom().contains(j));
                                assert(e0.dom().contains(j));
                                assert(cur[j] == prev[j]);
                            }
                        }
                        assert forall|j: Seq<char>|
                            #![trigger e0.contains_key(j), cur.contains_key(j)]
                            e0.contains_key(j) && j != k && !cur.contains_key(j) implies evictable(
                                self.eviction_policy,
                                e0[j],
                            ) by {
                            if j != gone@ {
                            } else {
                                let p = self.eviction_policy.unwrap();
                                if is_volatile_policy(p) {
                                }
                            }
                        }
                    }
                },
            }
        }
        let stored_at: i64 = match expires_at {
            Some(t) => t,
            None => -1,
        };
        let meta: Option<u64> = match expires_at {
            Some(t) => Some(#[verifier::truncate] (t as u64)),
            None => None,
        };
        proof {
            if let Some(t) = expires_at {
                lemma_cast_minus_one(t);
            }
        }
        let ghost before = self.entries();
        let ghost before_usage = self.usage();
        dict_insert(
            &mut self.data,
            key,
            RedisValue { value, expires_at: stored_at },
            meta,
            Some(#[verifier::truncate] (now as u64)),
        );
        proof {
            let cur = self.entries();
            assert(cur.remove(k) =~= before.remove(k));
            assert(cur.dom() =~= before.dom().insert(k));
            if !e0.contains_key(k) {
                assert(cur.len() == before.len() + 1);
                if before == e0 {
                    assert(cur =~= e0.insert(k, cur[k]));
                }
            }
            if e0.contains_key(k) {
                assert(cur =~= e0.insert(k, cur[k]));
            }
            assert(self.usage().dom() =~= cur.dom());
            assert forall|j: Seq<char>|
                #![trigger e0.contains_key(j), cur.contains_key(j)]
                e0.contains_key(j) && j != k && !cur.contains_key(j) implies match self.eviction_policy {
                    None => false,
                    Some(p) => fairly_evicted(p, j, policy_pool(p, e0, x0), u0, cur),
                } by {
                assert(!before.contains_key(j));
                let p = self.eviction_policy.unwrap();
                assert(fairly_evicted(p, j, policy_pool(p, e0, x0), u0, before));
                if let Some(n) = policy_sample(p) {
                    if n >= policy_pool(p, e0, x0).len() {
                        assert forall|x: Seq<char>|
                            #![trigger policy_pool(p, e0, x0).contains(x), cur.contains_key(x)]
                            policy_pool(p, e0, x0).contains(x) && cur.contains_key(x) implies policy_score(
                            p,
                            u0,
                            j,
                        ) <= policy_score(p, u0, x) by {
                            assert(e0.dom().contains(x)) by {
                                if is_volatile_policy(p) {
                                    assert(x0.contains_key(x));
                                }
                            }
                            assert(x != k);
                            assert(before.contains_key(x));
                        }
                    }
                }
            }
        }
        respond(&Value::SimpleString("OK".to_owned()), out);
    }

    pub fn eval_get(&mut self, args: &[String], now: i64, out: &mut Vec<u8>)
        requires
            old(self).wf(),
        ensures
            final(self).wf(),
            final(self).max_keys == old(self).max_keys,
            final(self).eviction_policy == old(self).eviction_policy,
            final(self).entries() == get_outcome(old(self).entries(), texts(args@), now).0,
            final(self).usage() == get_usage(
                old(self).entries(),
                old(self).usage(),
                texts(args@),
                now,
            ),
            final(out)@ == old(out)@ + spec_encode(
                get_outcome(old(self).entries(), texts(args@), now).1,
            ),
    {
        if args.len() != 1 {
            self.send_error("ERR wrong number of arguments for 'get' command", out);
            return ;
        }
        let key = args[0].as_str();
        let due = match dict_get(&self.data, key) {
            Some(v) => v.expires_at != -1 && v.expires_at < now,
            None => false,
        };
        if due {
            dict_remove(&mut self.data, key);
            proof {
                assert(self.entries().dom() =~= old(self).entries().dom().remove(key@));
            }
        }
        let mut encoded: Vec<u8> = Vec::new();
        match dict_get(&self.data, key) {
            Some(v) => {
                encode_into(&v.value, &mut encoded);
            },
            None => {
                respond(&Value::Null, out);
                return ;
            },
        }
        dict_touch(&mut self.data, key, Some(now as u64));
        proof {
            assert(self.usage().dom() =~= self.entries().dom());
        }
        append_bytes(out, encoded.as_slice());
    }

    pub fn eval_ttl(&mut self, args: &[String], now: i64, out: &mut Vec<u8>)
        requires
            old(self).wf(),
        ensures
            final(self).wf(),
            final(self).max_keys == old(self).max_keys,
            final(self).eviction_policy == old(self).eviction_policy,
            final(self).entries() == ttl_outcome(old(self).entries(), texts(args@), now).0,
            usage_kept(old(self).usage(), final(self).usage(), final(self).entries()),
            final(out)@ == old(out)@ + spec_encode(
                ttl_outcome(old(self).entries(), texts(args@), now).1,
            ),
    {
        if args.len() == 0 {
            self.send_error("ERR wrong number of arguments for 'ttl' command", out);
            return ;
        }
        let key = args[0].as_str();
        let expires_at = match dict_get(&self.data, key) {
            Some(v) => v.expires_at,
            None => {
                respond(&Value::Integer(-2), out);
                return ;
            },
        };
        if expires_at == -1 {
            respond(&Value::Integer(-1), out);
            return ;
        }
        if expires_at < now {
            dict_remove(&mut self.data, key);
            proof {
                assert(self.entries().dom() =~= old(self).entries().dom().remove(key@));
            }
            respond(&Value::Integer(-2), out);
            return ;
        }
        let left: i128 = (expires_at as i128 - now as i128) / 1000;
        respond(&Value::Integer(left as i64), out);
    }

    pub fn eval_del(&mut self, args: &[String], now: i64, out: &mut Vec<u8>)
        requires
            old(self).wf(),
        ensures
            final(self).wf(),
            final(self).max_keys == old(self).max_keys,
            final(self).eviction_policy == old(self).eviction_policy,
            final(self).entries() == del_outcome(old(self).entries(), texts(args@), now).0,
            usage_kept(old(self).usage(), final(self).usage(), final(self).entries()),
            final(out)@ == old(out)@ + spec_encode(
                del_outcome(old(self).entries(), texts(args@), now).1,
            ),
    {
        if args.len() == 0 {
            self.send_error("ERR wrong number of arguments for 'del' command", out);
            return ;
        }
        let ghost keys = texts(args@);
        let mut deleted_count: u64 = 0;
        let mut i: usize = 0;
        assert(keys.subrange(0, 0) =~= Seq::<Seq<char>>::empty());
        while i < args.len()
            invariant
                self.wf(),
                self.max_keys == old(self).max_keys,
                self.eviction_policy == old(self).eviction_policy,
                keys == texts(args@),
                i <= args@.len(),
                deleted_count <= i,
                (self.entries(), deleted_count as nat) == del_fold(
                    old(self).entries(),
                    keys.subrange(0, i as int),
                    now,
                ),
                usage_kept(old(self).usage(), self.usage(), self.entries()),
                out@ == old(out)@,
            decreases args@.len() - i,
        {
            let key = args[i].as_str();
            let live = match dict_get(&self.data, key) {
                Some(v) => v.expires_at == -1 || v.expires_at >= now,
                None => false,
            };
            let ghost before = self.entries();
            if live {
                if dict_remove(&mut self.data, key).is_some() {
                    deleted_count = deleted_count + 1;
                }
                proof {
                    assert(self.entries().dom() =~= before.dom().remove(key@));
                    assert(self.usage().dom() =~= self.entries().dom());
                }
            }
            proof {
                assert(keys.subrange(0, i + 1).drop_last() =~= keys.subrange(0, i as int));
                assert(keys.subrange(0, i + 1).last() == key@);
            }
            i = i + 1;
        }
        assert(keys.subrange(0, args@.len() as int) =~= keys);
        respond(&Value::Integer(#[verifier::truncate] (deleted_count as i64)), out);
    }

    pub fn eval_expire(&mut self, args: &[String], now: i64, out: &mut Vec<u8>)
        requires
            old(self).wf(),
        ensures
            final(self).wf(),
            final(self).max_keys == old(self).max_keys,
            final(self).eviction_policy == old(self).eviction_policy,
            final(self).entries() == expire_outcome(old(self).entries(), texts(args@), now).0,
            usage_kept(old(self).usage(), final(self).usage(), final(self).entries()),
            final(out)@ == old(out)@ + spec_encode(
                expire_outcome(old(self).entries(), texts(args@), now).1,
            ),
    {
        if args.len() != 2 {
            self.send_error("ERR wrong number of arguments for 'expire' command", out);
            return ;
        }
        let key = args[0].as_str();
        let expires_at = match self.parse_expiry(args[1].as_str(), 1000, now, out) {
            Ok(v) => v,
            Err(_) => {
                return ;
            },
        };
        let due = match dict_get(&self.data, key) {
            Some(v) => v.expires_at != -1 && v.expires_at < now,
            None => false,
        };
        if due {
            dict_remove(&mut self.data, key);
            proof {
                assert(self.entries().dom() =~= old(self).entries().dom().remove(key@));
            }
        }
        let ghost after = self.entries();
        match dict_get_mut(&mut self.data, key) {
            Some(v) => {
                v.expires_at = expires_at;
            },
            None => {
                respond(&Value::Integer(0), out);
                return ;
            },
        }
        proof {
            lemma_cast_minus_one(expires_at);
            assert(self.entries().dom() =~= after.dom());
        }
        dict_set_expiry(&mut self.data, key, Some(expires_at as u64));
        respond(&Value::Integer(1), out);
    }

    /// Runs one command at `now` and appends its reply.
    pub fn eval_command(&mut self, cmd: &RedisCommand, now: i64, out: &mut Vec<u8>)
        requires
            old(self).wf(),
        ensures
            final(self).wf(),
            final(self).max_keys == old(self).max_keys,
            final(self).eviction_policy == old(self).eviction_policy,
            exists|reply: ValueModel|
                command_outcome(
                    cmd.cmd@,
                    texts(cmd.args@),
                    now,
                    old(self).max_keys,
                    old(self).eviction_policy,
                    old(self).entries(),
                    old(self).expiries(),
                    old(self).usage(),
                    final(self).entries(),
                    final(self).expiries(),
                    final(self).usage(),
                    reply,
                ) && final(out)@ == old(out)@ + spec_encode(reply),
    {
        let ghost args = texts(cmd.args@);
        let ghost e0 = self.entries();
        let name = &cmd.cmd;
        if same_text(name, "ECHO") {
            self.eval_echo(cmd.args.as_slice(), out);
            assert(command_kind(cmd.cmd@) == CommandKind::Echo);
            assert(command_outcome(cmd.cmd@, args, now, self.max_keys, self.eviction_policy, e0,
                old(self).expiries(), old(self).usage(), self.entries(), self.expiries(), self.usage(), echo_reply(args)));
        } else if same_text(name, "SET") {
            self.eval_set(cmd.args.as_slice(), now, out);
            assert(command_kind(cmd.cmd@) == CommandKind::SetValue);
            proof {
                match set_request(args, now) {
                    Err(msg) => {
                        assert(command_outcome(cmd.cmd@, args, now, self.max_keys,
                            self.eviction_policy, e0, old(self).expiries(), old(self).usage(), self.entries(),
                            self.expiries(), self.usage(), ValueModel::Error(msg)));
                    },
                    Ok((key, value, expires_at)) => {
                        if out@ == old(out)@ + spec_encode(ValueModel::SimpleString("OK"@))
                            && set_stored(e0, self.entries(), key, set_entry(value, expires_at),
                            self.eviction_policy, self.max_keys) {
                            assert(command_outcome(cmd.cmd@, args, now, self.max_keys,
                                self.eviction_policy, e0, old(self).expiries(), old(self).usage(), self.entries(),
                                self.expiries(), self.usage(), ValueModel::SimpleString("OK"@)));
                        } else {
                            assert(command_outcome(cmd.cmd@, args, now, self.max_keys,
                                self.eviction_policy, e0, old(self).expiries(), old(self).usage(), self.entries(),
                                self.expiries(), self.usage(), oom_reply()));
                        }
                    },
                }
            }
        } else if same_text(name, "GET") {
            self.eval_get(cmd.args.as_slice(), now, out);
            assert(command_kind(cmd.cmd@) == CommandKind::Get);
            assert(command_outcome(cmd.cmd@, args, now, self.max_keys, self.eviction_policy, e0,
                old(self).expiries(), old(self).usage(), self.entries(), self.expiries(), self.usage(), get_outcome(e0, args, now).1));
        } else if same_text(name, "TTL") {
            self.eval_ttl(cmd.args.as_slice(), now, out);
            assert(command_kind(cmd.cmd@) == CommandKind::Ttl);
            assert(command_outcome(cmd.cmd@, args, now, self.max_keys, self.eviction_policy, e0,
                old(self).expiries(), old(self).usage(), self.entries(), self.expiries(), self.usage(), ttl_outcome(e0, args, now).1));
        } else if same_text(name, "DEL") {
            self.eval_del(cmd.args.as_slice(), now, out);
            assert(command_kind(cmd.cmd@) == CommandKind::Del);
            assert(command_outcome(cmd.cmd@, args, now, self.max_keys, self.eviction_policy, e0,
                old(self).expiries(), old(self).usage(), self.entries(), self.expiries(), self.usage(), del_outcome(e0, args, now).1));
        } else if same_text(name, "EXPIRE") {
            self.eval_expire(cmd.args.as_slice(), now, out);
            assert(command_kind(cmd.cmd@) == CommandKind::Expire);
            assert(command_outcome(cmd.cmd@, args, now, self.max_keys, self.eviction_policy, e0,
                old(self).expiries(), old(self).usage(), self.entries(), self.expiries(), self.usage(),
                expire_outcome(e0, args, now).1));
        } else {
            self.eval_ping(cmd.args.as_slice(), out);
            assert(command_kind(cmd.cmd@) == CommandKind::Ping);
            assert(command_outcome(cmd.cmd@, args, now, self.max_keys, self.eviction_policy, e0,
                old(self).expiries(), old(self).usage(), self.entries(), self.expiries(), self.usage(), ping_reply(args)));
        }
    }

    /// Runs one command at the time of the system clock and appends its
    /// reply. Never fails.
    pub fn eval_and_respond(&mut self, cmd: &RedisCommand, out: &mut Vec<u8>) -> (r: Result<
        (),
        std::io::Error,
    >)
        requires
            old(self).wf(),
        ensures
            r is Ok,
            final(self).wf(),
            final(self).max_keys == old(self).max_keys,
            final(self).eviction_policy == old(self).eviction_policy,
            exists|now: i64, reply: ValueModel|
                command_outcome(
                    cmd.cmd@,
                    texts(cmd.args@),
                    now,
                    old(self).max_keys,
                    old(self).eviction_policy,
                    old(self).entries(),
                    old(self).expiries(),
                    old(self).usage(),
                    final(self).entries(),
                    final(self).expiries(),
                    final(self).usage(),
                    reply,
                ) && final(out)@ == old(out)@ + spec_encode(reply),
    {
        let now = now_millis();
        self.eval_command(cmd, now, out);
        Ok(())
    }

    /// One round of active expiry on the slots drawn: every key of a drawn
    /// slot that is due by `limit` goes, nothing else changes, and the result
    /// is how many drawn slots held such a key.
    pub fn sweep_round(&mut self, slots: &[(usize, u8)], limit: u64) -> (n: usize)
        requires
            old(self).wf(),
            forall|i: int|
                0 <= i < slots@.len() ==> dict_slots(old(self).data).contains_key(#[trigger] slots@[i])
                    && dict_expiries(old(self).data).contains_key(
                    dict_slots(old(self).data)[slots@[i]],
                ),
        ensures
            final(self).wf(),
            final(self).max_keys == old(self).max_keys,
            final(self).eviction_policy == old(self).eviction_policy,
            final(self).entries().submap_of(old(self).entries()),
            forall|i: int|
                0 <= i < slots@.len() && due_by(
                    old(self).entries()[slot_keys(dict_slots(old(self).data), slots@)[i]],
                    limit,
                ) ==> !final(self).entries().contains_key(
                    #[trigger] slot_keys(dict_slots(old(self).data), slots@)[i],
                ),
            forall|k: Seq<char>|
                #![trigger old(self).entries().contains_key(k), final(self).entries().contains_key(k)]
                old(self).entries().contains_key(k) && !final(self).entries().contains_key(k) ==> (
                due_by(old(self).entries()[k], limit) && slot_keys(
                    dict_slots(old(self).data),
                    slots@,
                ).contains(k)),
            forall|k: Seq<char>| #[trigger]
                final(self).entries().contains_key(k) ==> final(self).usage()[k] == old(
                    self,
                ).usage()[k],
            n == due_count(old(self).entries(), slot_keys(dict_slots(old(self).data), slots@), limit),
            all_due(old(self).entries(), limit) ==> n == slots@.len(),
            n <= slots@.len(),
            n >= 1 ==> final(self).entries().len() < old(self).entries().len(),
            old(self).entries().len() - final(self).entries().len() <= n,
            final(self).expiries().len() + old(self).entries().len() == final(self).entries().len()
                + old(self).expiries().len(),
    {
        let ghost keys = slot_keys(dict_slots(self.data), slots@);
        let ghost e0 = self.entries();
        let ghost x0 = self.expiries();
        let ghost u0 = self.usage();
        let ghost mut src: Seq<int> = seq![];
        let ghost mut pos: Seq<int> = seq![];
        let ghost due_all = all_due(e0, limit);
        proof {
            lemma_expiries_len(e0, x0, self.max_keys);
            assert(keys.subrange(0, 0) =~= Seq::<Seq<char>>::empty());
        }
        let mut expired_keys: Vec<String> = Vec::new();
        let mut i: usize = 0;
        while i < slots.len()
            invariant
                self.wf(),
                self.entries() == e0,
                self.data == old(self).data,
                keys == slot_keys(dict_slots(self.data), slots@),
                keys.len() == slots@.len(),
                i <= slots@.len(),
                forall|m: int|
                    0 <= m < slots@.len() ==> dict_slots(self.data).contains_key(#[trigger] slots@[m])
                        && dict_expiries(self.data).contains_key(dict_slots(self.data)[slots@[m]]),
                expired_keys@.len() == due_count(e0, keys.subrange(0, i as int), limit),
                expired_keys@.len() <= i,
                due_all == all_due(e0, limit),
                due_all ==> expired_keys@.len() == i,
                src.len() == expired_keys@.len(),
                pos.len() == i,
                forall|m: int|
                    0 <= m < expired_keys@.len() ==> 0 <= #[trigger] src[m] < i && keys[src[m]]
                        == expired_keys@[m]@ && e0.contains_key(expired_keys@[m]@) && due_by(
                        e0[expired_keys@[m]@],
                        limit,
                    ),
                forall|q: int|
                    0 <= q < i && due_by(e0[keys[q]], limit) ==> 0 <= #[trigger] pos[q]
                        < expired_keys@.len() && expired_keys@[pos[q]]@ == keys[q],
            decreases slots@.len() - i,
        {
            let ghost before_len = expired_keys@.len();
            proof {
                assert(keys[i as int] == dict_slots(self.data)[slots@[i as int]]);
            }
            let mut pushed = false;
            match dict_entry_at(&self.data, slots[i]) {
                Some((key, Some(t))) => {
                    if t <= limit {
                        expired_keys.push(key);
                        pushed = true;
                    }
                },
                _ => {},
            }
            proof {
                let k = keys[i as int];
                assert(e0.contains_key(k));
                assert(pushed == due_by(e0[k], limit));
                assert(keys.subrange(0, i + 1).drop_last() =~= keys.subrange(0, i as int));
                assert(keys.subrange(0, i + 1).last() == k);
                if pushed {
                    src = src.push(i as int);
                    pos = pos.push(before_len as int);
                } else {
                    pos = pos.push(-1);
                }
                if due_all {
                    assert(due_by(e0[k], limit));
                }
            }
            i = i + 1;
        }
        proof {
            assert(keys.subrange(0, slots@.len() as int) =~= keys);
        }
        let mut j: usize = 0;
        while j < expired_keys.len()
            invariant
                self.wf(),
                self.max_keys == old(self).max_keys,
                self.eviction_policy == old(self).eviction_policy,
                j <= expired_keys@.len(),
                self.entries().submap_of(e0),
                e0.dom().finite(),
                j > 0 ==> self.entries().len() < e0.len(),
                j == 0 ==> self.entries() == e0,
                self.entries().len() + j >= e0.len(),
                self.expiries().len() + e0.len() == self.entries().len() + x0.len(),
                src.len() == expired_keys@.len(),
                forall|m: int|
                    0 <= m < expired_keys@.len() ==> 0 <= #[trigger] src[m] < keys.len() && keys[src[m]]
                        == expired_keys@[m]@ && e0.contains_key(expired_keys@[m]@) && due_by(
                        e0[expired_keys@[m]@],
                        limit,
                    ),
                forall|m: int|
                    0 <= m < j ==> !self.entries().contains_key(#[trigger] expired_keys@[m]@),
                forall|k: Seq<char>|
                    #![trigger e0.contains_key(k), self.entries().contains_key(k)]
                    e0.contains_key(k) && !self.entries().contains_key(k) ==> (due_by(e0[k], limit)
                        && keys.contains(k)),
                forall|k: Seq<char>| #[trigger]
                    self.entries().contains_key(k) ==> self.usage()[k] == u0[k],
            decreases expired_keys@.len() - j,
        {
            let ghost prev = self.entries();
            let ghost prev_data = self.data;
            let key = expired_keys[j].as_str();
            proof {
                assert(store_wf(prev, dict_expiries(prev_data), self.max_keys));
                lemma_expiries_len(prev, dict_expiries(prev_data), self.max_keys);
                lemma_submap_len(prev, e0);
                assert(0 <= src[j as int] < keys.len());
                assert(e0.contains_key(expired_keys@[j as int]@));
                assert(due_by(e0[key@], limit));
            }
            dict_remove(&mut self.data, key);
            proof {
                let cur = self.entries();
                assert(cur.dom() =~= prev.dom().remove(key@));
                assert(self.usage().dom() =~= cur.dom());
                assert(cur.submap_of(e0)) by {
                    assert forall|k: Seq<char>| #[trigger]
                        cur.dom().contains(k) implies e0.dom().contains(k) && cur[k] == e0[k] by {
                        assert(prev.dom().contains(k));
                        assert(e0.dom().contains(k));
                        assert(cur[k] == prev[k]);
                    }
                }
                if prev.contains_key(key@) {
                    assert(cur.len() + 1 == prev.len());
                    assert(prev[key@] == e0[key@]);
                    assert(dict_expiries(prev_data).contains_key(key@));
                } else {
                    assert(cur =~= prev);
                    assert(self.expiries() =~= dict_expiries(prev_data));
                }
                if j == 0 {
                    assert(prev == e0);
                    assert(cur.len() < e0.len());
                } else {
                    lemma_submap_len(cur, e0);
                }
                assert(keys[src[j as int]] == key@);
                assert forall|k: Seq<char>|
                    #![trigger e0.contains_key(k), cur.contains_key(k)]
                    e0.contains_key(k) && !cur.contains_key(k) implies (due_by(e0[k], limit)
                        && keys.contains(k)) by {
                    if k == key@ {
                        assert(keys[src[j as int]] == k);
                    } else {
                        assert(!prev.contains_key(k));
                    }
                }
            }
            j = j + 1;
        }
        proof {
            assert forall|q: int|
                0 <= q < slots@.len() && due_by(e0[keys[q]], limit) implies !self.entries().contains_key(
                #[trigger] keys[q],
            ) by {
                assert(expired_keys@[pos[q]]@ == keys[q]);
            }
        }
        expired_keys.len()
    }

    /// Active expiry at `now`: samples keys that have an expiry time, removes
    /// those whose time has come, and samples again while more than a
    /// quarter of a sample had expired and the time budget of 25 ms lasts.
    /// Only keys with an expiry time at or before `now` go, and when all
    /// keys with an expiry time are due, at least one goes.
    pub fn cleanup_expired_keys_at(&mut self, now: i64) -> (rounds: usize)
        requires
            old(self).wf(),
        ensures
            final(self).wf(),
            final(self).max_keys == old(self).max_keys,
            final(self).eviction_policy == old(self).eviction_policy,
            cleanup_outcome(old(self).entries(), final(self).entries(), now),
            forall|k: Seq<char>| #[trigger]
                final(self).entries().contains_key(k) ==> final(self).usage()[k] == old(
                    self,
                ).usage()[k],
            (rounds == 0) == !has_volatile(old(self).entries()),
            rounds <= old(self).expiries().len(),
            old(self).entries().len() - final(self).entries().len() >= rounds - 1,
            old(self).entries().len() - final(self).entries().len() <= 20 * rounds,
    {
        let limit = #[verifier::truncate] (now as u64);
        let start = instant_now();
        let mut rng = thread_rng();
        let mut rounds: usize = 0;
        let ghost e0 = self.entries();
        let ghost u0 = self.usage();
        let ghost v0 = self.expiries().len();
        proof {
            lemma_expiries_len(self.entries(), self.expiries(), self.max_keys);
        }
        let ghost hyp = has_volatile(e0) && all_due(e0, limit);
        loop
            invariant_except_break
                e0.len() - self.entries().len() >= rounds,
            invariant
                self.wf(),
                self.max_keys == old(self).max_keys,
                self.eviction_policy == old(self).eviction_policy,
                e0 == old(self).entries(),
                u0 == old(self).usage(),
                e0.dom().finite(),
                limit == now as u64,
                hyp == (has_volatile(e0) && all_due(e0, limit)),
                self.entries().submap_of(e0),
                forall|k: Seq<char>|
                    #![trigger e0.contains_key(k), self.entries().contains_key(k)]
                    e0.contains_key(k) && !self.entries().contains_key(k) ==> (e0[k].expires_at
                    != -1 && e0[k].expires_at as u64 <= limit),
                forall|k: Seq<char>| #[trigger]
                    self.entries().contains_key(k) ==> self.usage()[k] == u0[k],
                !has_volatile(e0) ==> self.entries() == e0,
                hyp ==> (self.entries() == e0 || self.entries().len() < e0.len()),
                v0 == old(self).expiries().len(),
                e0.len() <= self.max_keys,
                has_volatile(e0) <==> v0 > 0,
                rounds == 0 ==> self.entries() == e0,
                rounds > 0 ==> has_volatile(e0),
                rounds <= v0,
                self.expiries().len() + e0.len() == self.entries().len() + v0,
                e0.len() - self.entries().len() <= 20 * rounds,
            ensures
                self.wf(),
                self.max_keys == old(self).max_keys,
                self.eviction_policy == old(self).eviction_policy,
                cleanup_outcome(e0, self.entries(), now),
                forall|k: Seq<char>| #[trigger]
                    self.entries().contains_key(k) ==> self.usage()[k] == u0[k],
                (rounds == 0) == !has_volatile(e0),
                rounds <= v0,
                e0.len() - self.entries().len() >= rounds - 1,
                e0.len() - self.entries().len() <= 20 * rounds,
            decreases self.entries().len(),
        {
            proof {
                lemma_expiries_len(self.entries(), self.expiries(), self.max_keys);
                if !has_volatile(e0) || hyp {
                    if self.entries() == e0 {
                        assert(has_volatile(self.entries()) == has_volatile(e0));
                    }
                }
            }
            let slots = dict_sample_volatile(&self.data, 20, &mut rng);
            if slots.len() == 0 {
                proof {
                    if hyp {
                        assert(self.entries() != e0);
                    }
                }
                break;
            }
            let sampled = slots.len();
            proof {
                lemma_expiries_len(self.entries(), self.expiries(), self.max_keys);
                lemma_submap_len(self.entries(), e0);
                let cur = self.entries();
                assert(self.expiries().len() > 0);
                assert(has_volatile(cur));
                let k = choose|k: Seq<char>| #[trigger] cur.contains_key(k) && cur[k].expires_at != -1;
                assert(cur.dom().contains(k));
                vstd::set_lib::lemma_set_empty_equivalency_len(cur.dom());
                assert(cur.len() >= 1);
            }
            rounds = rounds + 1;
            let ghost prev = self.entries();
            let ghost prev_usage = self.usage();
            proof {
                if hyp {
                    assert forall|k: Seq<char>| #[trigger]
                        prev.contains_key(k) && prev[k].expires_at != -1 implies prev[k].expires_at
                            as u64 <= limit by {
                        assert(prev.dom().contains(k));
                        assert(e0.dom().contains(k));
                        assert(prev[k] == e0[k]);
                    }
                }
            }
            let n = self.sweep_round(slots.as_slice(), limit);
            proof {
                let cur = self.entries();
                lemma_submap_len(cur, prev);
                lemma_submap_len(prev, e0);
                assert(cur.submap_of(e0)) by {
                    assert forall|k: Seq<char>| #[trigger]
                        cur.dom().contains(k) implies e0.dom().contains(k) && cur[k] == e0[k] by {
                        assert(prev.dom().contains(k));
                        assert(e0.dom().contains(k));
                        assert(cur[k] == prev[k]);
                        assert(prev[k] == e0[k]);
                    }
                }
                assert forall|k: Seq<char>|
                    #![trigger e0.contains_key(k), cur.contains_key(k)]
                    e0.contains_key(k) && !cur.contains_key(k) implies (e0[k].expires_at != -1
                    && e0[k].expires_at as u64 <= limit) by {
                    if prev.contains_key(k) {
                        assert(prev.dom().contains(k));
                        assert(e0.dom().contains(k));
                        assert(prev[k] == e0[k]);
                        assert(due_by(prev[k], limit));
                    }
                }
                assert forall|k: Seq<char>| #[trigger]
                    cur.contains_key(k) implies self.usage()[k] == u0[k] by {
                    assert(prev.dom().contains(k));
                    assert(prev.contains_key(k));
                }
                if hyp {
                    assert(all_due(prev, limit));
                    assert(n == 20);
                    assert(cur.len() < e0.len());
                }
            }
            let elapsed = elapsed_millis(&start);
            if !sweep_again(n, sampled, elapsed) {
                break;
            }
        }
        rounds
    }

    /// Active expiry at the time of the system clock: the outcome of
    /// `cleanup_expired_keys_at` at the time that the clock gave.
    pub fn cleanup_expired_keys(&mut self)
        requires
            old(self).wf(),
        ensures
            final(self).wf(),
            final(self).max_keys == old(self).max_keys,
            final(self).eviction_policy == old(self).eviction_policy,
            final(self).entries().submap_of(old(self).entries()),
            forall|k: Seq<char>|
                #![trigger old(self).entries().contains_key(k), final(self).entries().contains_key(k)]
                old(self).entries().contains_key(k) && !final(self).entries().contains_key(k)
                    ==> old(self).entries()[k].expires_at != -1,
            !has_volatile(old(self).entries()) ==> final(self).entries() == old(self).entries(),
            exists|now: i64| cleanup_outcome(old(self).entries(), final(self).entries(), now),
            usage_kept(old(self).usage(), final(self).usage(), final(self).entries()),
    {
        let now = now_millis();
        self.cleanup_expired_keys_at(now);
    }
}

} // verus!
