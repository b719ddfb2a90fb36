//! The key space: a `chaintable::Dict` of stored values, seen through the
//! map of its entries and the map of the expiry times it indexes.
use vstd::prelude::*;

use chaintable::EvictionPolicy as Policy;

use crate::config::EvictionPolicy;
use crate::eval::{Entry, RedisValue};

verus! {

#[verifier::external_type_specification]
#[verifier::external_body]
#[verifier::reject_recursive_types(V)]
pub struct ExDict<V>(chaintable::Dict<V>);

#[verifier::external_type_specification]
#[verifier::external_body]
pub struct ExThreadRng(rand::rngs::ThreadRng);

/// The entries of the dictionary: each key with the model of its value.
pub uninterp spec fn dict_entries(d: chaintable::Dict<RedisValue>) -> Map<Seq<char>, Entry>;

/// The expiry times that the dictionary indexes: each key that has one, with
/// its time. These are the keys that volatile eviction and expiry sampling
/// choose from.
pub uninterp spec fn dict_expiries(d: chaintable::Dict<RedisValue>) -> Map<Seq<char>, u64>;

/// The index after giving `key` the expiry `e`: `Dict` reads `None`, and the
/// time `u64::MAX`, as no expiry.
pub open spec fn with_expiry(m: Map<Seq<char>, u64>, key: Seq<char>, e: Option<u64>) -> Map<
    Seq<char>,
    u64,
> {
    match e {
        Some(t) => if t != u64::MAX {
            m.insert(key, t)
        } else {
            m.remove(key)
        },
        None => m.remove(key),
    }
}

/// The key held by each live slot of the dictionary, a slot written as its
/// group and its position in the group (the fields of `chaintable::SlotId`).
pub uninterp spec fn dict_slots(d: chaintable::Dict<RedisValue>) -> Map<(usize, u8), Seq<char>>;

/// The usage data the dictionary keeps of each key for eviction: the time of
/// its last use and how often it was used.
pub uninterp spec fn dict_usage(d: chaintable::Dict<RedisValue>) -> Map<Seq<char>, (u64, u32)>;

/// A key's usage data after a use at `now`: that time, and one use more (the
/// count stops at its largest value).
pub open spec fn used_at(u: (u64, u32), now: u64) -> (u64, u32) {
    (now, if u.1 == u32::MAX { u32::MAX } else { (u.1 + 1) as u32 })
}

/// The keys a policy chooses its victim from.
pub open spec fn policy_pool(
    p: EvictionPolicy,
    entries: Map<Seq<char>, Entry>,
    expiries: Map<Seq<char>, u64>,
) -> Set<Seq<char>> {
    if is_volatile_policy(p) {
        expiries.dom()
    } else {
        entries.dom()
    }
}

/// How many keys a sampling policy compares; none for a random policy.
pub open spec fn policy_sample(p: EvictionPolicy) -> Option<usize> {
    match p {
        EvictionPolicy::AllkeysLru { sample_size } => Some(sample_size),
        EvictionPolicy::AllkeysLfu { sample_size } => Some(sample_size),
        EvictionPolicy::VolatileLru { sample_size } => Some(sample_size),
        EvictionPolicy::VolatileLfu { sample_size } => Some(sample_size),
        _ => None,
    }
}

/// What a sampling policy ranks a key by, least first: the time of its last
/// use (LRU) or how often it was used (LFU).
pub open spec fn policy_score(p: EvictionPolicy, usage: Map<Seq<char>, (u64, u32)>, k: Seq<char>) -> int {
    match p {
        EvictionPolicy::AllkeysLfu { .. } => usage[k].1 as int,
        EvictionPolicy::VolatileLfu { .. } => usage[k].1 as int,
        _ => usage[k].0 as int,
    }
}

/// `victim` ranks least among the sample `s`: at most `n` keys of the pool,
/// the whole pool when `n` covers it.
pub open spec fn least_in_sample(
    p: EvictionPolicy,
    s: Set<Seq<char>>,
    victim: Seq<char>,
    pool: Set<Seq<char>>,
    n: usize,
    usage: Map<Seq<char>, (u64, u32)>,
) -> bool {
    &&& s.finite()
    &&& s.subset_of(pool)
    &&& s.contains(victim)
    &&& s.len() <= n
    &&& n >= pool.len() ==> s == pool
    &&& forall|k: Seq<char>| #[trigger]
        s.contains(k) ==> policy_score(p, usage, victim) <= policy_score(p, usage, k)
}

/// The victim a policy may pick from `pool`: any key of it for a random
/// policy, and for a sampling policy one that ranks least among a sample.
pub open spec fn ranked_victim(
    p: EvictionPolicy,
    victim: Seq<char>,
    pool: Set<Seq<char>>,
    usage: Map<Seq<char>, (u64, u32)>,
) -> bool {
    match policy_sample(p) {
        None => pool.contains(victim),
        Some(n) => exists|s: Set<Seq<char>>| least_in_sample(p, s, victim, pool, n, usage),
    }
}

/// A policy that only evicts keys that have an expiry time.
pub open spec fn is_volatile_policy(p: EvictionPolicy) -> bool {
    match p {
        EvictionPolicy::VolatileRandom => true,
        EvictionPolicy::VolatileLru { .. } => true,
        EvictionPolicy::VolatileLfu { .. } => true,
        _ => false,
    }
}

/// The policy finds no key to evict: its pool is empty, or it samples no key.
pub open spec fn no_victim(
    p: EvictionPolicy,
    entries: Map<Seq<char>, Entry>,
    expiries: Map<Seq<char>, u64>,
) -> bool {
    match p {
        EvictionPolicy::AllkeysRandom => entries.len() == 0,
        EvictionPolicy::AllkeysLru { sample_size } => entries.len() == 0 || sample_size == 0,
        EvictionPolicy::AllkeysLfu { sample_size } => entries.len() == 0 || sample_size == 0,
        EvictionPolicy::VolatileRandom => expiries.len() == 0,
        EvictionPolicy::VolatileLru { sample_size } => expiries.len() == 0 || sample_size == 0,
        EvictionPolicy::VolatileLfu { sample_size } => expiries.len() == 0 || sample_size == 0,
    }
}

/// `Dict::new`: a dictionary with no entries and no expiry times.
#[verifier::external_body]
pub(crate) fn dict_new() -> (r: chaintable::Dict<RedisValue>)
    ensures
        dict_entries(r).dom() == Set::<Seq<char>>::empty(),
        dict_expiries(r).dom() == Set::<Seq<char>>::empty(),
        dict_usage(r).dom() == Set::<Seq<char>>::empty(),
{
    chaintable::Dict::new()
}

/// `Dict::len`: the number of entries.
#[verifier::external_body]
pub(crate) fn dict_len(d: &chaintable::Dict<RedisValue>) -> (r: usize)
    ensures
        r == dict_entries(*d).len(),
{
    d.len()
}

/// `Dict::contains_key`: whether `key` has an entry.
#[verifier::external_body]
pub(crate) fn dict_contains_key(d: &chaintable::Dict<RedisValue>, key: &str) -> (r: bool)
    ensures
        r == dict_entries(*d).contains_key(key@),
{
    d.contains_key(key)
}

/// `Dict::get`: the value stored under `key`, if any.
#[verifier::external_body]
pub(crate) fn dict_get<'a>(d: &'a chaintable::Dict<RedisValue>, key: &str) -> (r: Option<
    &'a RedisValue,
>)
    ensures
        r is Some <==> dict_entries(*d).contains_key(key@),
        r matches Some(v) ==> v@ == dict_entries(*d)[key@],
{
    d.get(key)
}

/// `Dict::get_mut`: the value stored under `key`, to change in place; what
/// it is changed to becomes the entry, and the expiry index stays.
#[verifier::external_body]
pub(crate) fn dict_get_mut<'a>(d: &'a mut chaintable::Dict<RedisValue>, key: &str) -> (r: Option<
    &'a mut RedisValue,
>)
    ensures
        r is Some <==> dict_entries(*old(d)).contains_key(key@),
        r is None ==> dict_entries(*final(d)) == dict_entries(*old(d)),
        r is None ==> dict_expiries(*final(d)) == dict_expiries(*old(d)),
        r matches Some(v) ==> (*v)@ == dict_entries(*old(d))[key@],
        r matches Some(v) ==> dict_entries(*final(d)) == dict_entries(*old(d)).insert(
            key@,
            (*final(v))@,
        ),
        r matches Some(v) ==> dict_expiries(*final(d)) == dict_expiries(*old(d)),
        dict_usage(*final(d)) == dict_usage(*old(d)),
{
    d.get_mut(key)
}

/// `Dict::remove`: takes out the entry of `key`, its expiry time and its
/// usage data.
#[verifier::external_body]
pub(crate) fn dict_remove(d: &mut chaintable::Dict<RedisValue>, key: &str) -> (r: Option<
    RedisValue,
>)
    ensures
        dict_entries(*final(d)) == dict_entries(*old(d)).remove(key@),
        dict_expiries(*final(d)) == dict_expiries(*old(d)).remove(key@),
        dict_usage(*final(d)) == dict_usage(*old(d)).remove(key@),
        r is Some <==> dict_entries(*old(d)).contains_key(key@),
        r matches Some(v) ==> v@ == dict_entries(*old(d))[key@],
{
    d.remove(key)
}

/// `Dict::insert_with_meta`: stores `value` under `key` (a new entry or an
/// overwrite) with the expiry time `expires_at`; a new key is used once at
/// `now`, an overwritten one is used once more at `now`.
#[verifier::external_body]
pub(crate) fn dict_insert(
    d: &mut chaintable::Dict<RedisValue>,
    key: String,
    value: RedisValue,
    expires_at: Option<u64>,
    now: Option<u64>,
)
    requires
        now is Some,
    ensures
        dict_entries(*final(d)) == dict_entries(*old(d)).insert(key@, value@),
        dict_expiries(*final(d)) == with_expiry(dict_expiries(*old(d)), key@, expires_at),
        dict_usage(*final(d)) == dict_usage(*old(d)).insert(
            key@,
            if dict_entries(*old(d)).contains_key(key@) {
                used_at(dict_usage(*old(d))[key@], now->0)
            } else {
                (now->0, 1u32)
            },
        ),
{
    d.insert_with_meta(key.into_boxed_str(), value, expires_at, now);
}

/// `Dict::touch`: a present `key` is used once more at `now`; entries and
/// expiry times stay.
#[verifier::external_body]
pub(crate) fn dict_touch(d: &mut chaintable::Dict<RedisValue>, key: &str, now: Option<u64>) -> (r:
    bool)
    requires
        now is Some,
    ensures
        r == dict_entries(*old(d)).contains_key(key@),
        dict_entries(*final(d)) == dict_entries(*old(d)),
        dict_expiries(*final(d)) == dict_expiries(*old(d)),
        dict_usage(*final(d)) == (if r {
            dict_usage(*old(d)).insert(key@, used_at(dict_usage(*old(d))[key@], now->0))
        } else {
            dict_usage(*old(d))
        }),
{
    d.touch(key, now)
}

/// `Dict::set_expiry`: gives an existing `key` the expiry `expires_at`.
#[verifier::external_body]
pub(crate) fn dict_set_expiry(
    d: &mut chaintable::Dict<RedisValue>,
    key: &str,
    expires_at: Option<u64>,
) -> (r: bool)
    ensures
        r == dict_entries(*old(d)).contains_key(key@),
        dict_entries(*final(d)) == dict_entries(*old(d)),
        dict_expiries(*final(d)) == (if r {
            with_expiry(dict_expiries(*old(d)), key@, expires_at)
        } else {
            dict_expiries(*old(d))
        }),
        dict_usage(*final(d)) == dict_usage(*old(d)),
{
    d.set_expiry(key, expires_at)
}

/// `rand::rng`: the thread's random number generator. Nothing is claimed of
/// it. It panics only when the operating system's random source fails on
/// first use in a thread.
#[verifier::external_body]
pub(crate) fn thread_rng() -> rand::rngs::ThreadRng {
    rand::rng()
}

/// `Dict::evict`: picks a victim under `policy` and takes it out. Claimed:
/// the victim was an entry (for volatile policies, one with an expiry time)
/// and leaves with its expiry time and usage data; there is no victim
/// exactly when the policy's pool is empty or it samples no key; a random
/// policy picks some key of its pool, and a sampling policy the key that
/// ranks least among the keys it sampled (all of the pool when the sample
/// size covers it). Which keys are sampled is left open (it depends on
/// chance).
#[verifier::external_body]
pub(crate) fn dict_evict(
    d: &mut chaintable::Dict<RedisValue>,
    policy: EvictionPolicy,
    rng: &mut rand::rngs::ThreadRng,
) -> (r: Option<(String, RedisValue)>)
    ensures
        r is None <==> no_victim(policy, dict_entries(*old(d)), dict_expiries(*old(d))),
        r is None ==> dict_entries(*final(d)) == dict_entries(*old(d)),
        r is None ==> dict_expiries(*final(d)) == dict_expiries(*old(d)),
        r is None ==> dict_usage(*final(d)) == dict_usage(*old(d)),
        r matches Some((k, v)) ==> dict_entries(*old(d)).contains_key(k@),
        r matches Some((k, v)) ==> dict_usage(*final(d)) == dict_usage(*old(d)).remove(k@),
        r matches Some((k, v)) ==> ranked_victim(
            policy,
            k@,
            policy_pool(policy, dict_entries(*old(d)), dict_expiries(*old(d))),
            dict_usage(*old(d)),
        ),
        r matches Some((k, v)) ==> v@ == dict_entries(*old(d))[k@],
        r matches Some((k, v)) ==> dict_entries(*final(d)) == dict_entries(*old(d)).remove(k@),
        r matches Some((k, v)) ==> dict_expiries(*final(d)) == dict_expiries(*old(d)).remove(k@),
        r matches Some((k, v)) ==> (is_volatile_policy(policy) ==> dict_expiries(
            *old(d),
        ).contains_key(k@)),
{
    let policy = match policy {
        EvictionPolicy::AllkeysRandom => Policy::AllkeysRandom,
        EvictionPolicy::AllkeysLru { sample_size } => Policy::AllkeysLru { sample_size },
        EvictionPolicy::AllkeysLfu { sample_size } => Policy::AllkeysLfu { sample_size },
        EvictionPolicy::VolatileRandom => Policy::VolatileRandom,
        EvictionPolicy::VolatileLru { sample_size } => Policy::VolatileLru { sample_size },
        EvictionPolicy::VolatileLfu { sample_size } => Policy::VolatileLfu { sample_size },
    };
    d.evict(policy, rng).map(|(k, v)| (k.into_string(), v))
}

/// `Dict::sample_volatile_slots`: `n` slots drawn at random, with
/// replacement, from the side index of the keys that have an expiry time;
/// none when there are no such keys or `n` is 0. Claimed, as the source keeps
/// that index: each slot drawn is live and holds a key with an expiry time.
/// Which slots are drawn is left open (it depends on chance).
#[verifier::external_body]
pub(crate) fn dict_sample_volatile(
    d: &chaintable::Dict<RedisValue>,
    n: usize,
    rng: &mut rand::rngs::ThreadRng,
) -> (r: Vec<(usize, u8)>)
    ensures
        r@.len() == (if n == 0 || dict_expiries(*d).len() == 0 {
            0
        } else {
            n as nat
        }),
        forall|i: int|
            0 <= i < r@.len() ==> dict_slots(*d).contains_key(#[trigger] r@[i])
                && dict_expiries(*d).contains_key(dict_slots(*d)[r@[i]]),
{
    d.sample_volatile_slots(n, rng).into_iter().map(|s| (s.group, s.slot)).collect()
}

/// `Dict::entry_ref` on a live slot: the key it holds and that key's expiry
/// time, which are an entry's key and the time the index holds for it.
#[verifier::external_body]
pub(crate) fn dict_entry_at(d: &chaintable::Dict<RedisValue>, slot: (usize, u8)) -> (r:
    Option<(String, Option<u64>)>)
    requires
        dict_slots(*d).contains_key(slot),
    ensures
        r is Some,
        r matches Some((k, e)) ==> k@ == dict_slots(*d)[slot],
        r matches Some((k, e)) ==> dict_entries(*d).contains_key(k@),
        r matches Some((k, e)) ==> e == (if dict_expiries(*d).contains_key(k@) {
            Some(dict_expiries(*d)[k@])
        } else {
            None
        }),
{
    d.entry_ref(chaintable::SlotId { group: slot.0, slot: slot.1 }).map(
        |e| (e.key.to_string(), e.expires_at),
    )
}

} // verus!
