//! What the commands promise of one another.
use vstd::prelude::*;

use crate::config::EvictionPolicy;
use crate::decimal::parse_i64_spec;
use crate::eval::{
    del_fold, del_outcome, expire_outcome, expiry_from, get_outcome, is_live, only_evictable_gone,
    set_entry, set_refused, set_request, set_stored, ttl_outcome, Entry,
};
use crate::platform::ascii_upper_text;
use crate::resp::ValueModel;
use crate::store::is_volatile_policy;

verus! {

/// A `SET` request's expiry time, when it has one, lies after the time of
/// the request.
pub proof fn lemma_set_expiry_in_future(args: Seq<Seq<char>>, now: i64)
    ensures
        set_request(args, now) matches Ok((_, _, Some(t))) ==> t > now,
{
}

/// After `SET` stored a value, `GET` of its key gives the value back, at any
/// time up to its expiry time.
pub proof fn lemma_get_after_set(
    old: Map<Seq<char>, Entry>,
    new: Map<Seq<char>, Entry>,
    key: Seq<char>,
    value: Seq<u8>,
    expires_at: Option<i64>,
    policy: Option<EvictionPolicy>,
    max_keys: usize,
    later: i64,
)
    requires
        set_stored(old, new, key, set_entry(value, expires_at), policy, max_keys),
        expires_at matches Some(t) ==> t >= later,
    ensures
        get_outcome(new, seq![key], later) == (new, ValueModel::BulkString(value)),
{
}

/// After `DEL`, `GET` finds none of the keys it named, and every key it did
/// not name stays as it was.
pub proof fn lemma_get_after_del(m: Map<Seq<char>, Entry>, keys: Seq<Seq<char>>, now: i64)
    requires
        keys.len() > 0,
    ensures
        forall|k: Seq<char>|
            keys.contains(k) ==> #[trigger] get_outcome(del_outcome(m, keys, now).0, seq![k], now).1
                == ValueModel::Null,
        forall|k: Seq<char>|
            !keys.contains(k) ==> (#[trigger] del_outcome(m, keys, now).0.contains_key(k)
                == m.contains_key(k)),
        forall|k: Seq<char>|
            !keys.contains(k) && #[trigger] m.contains_key(k) ==> del_outcome(m, keys, now).0[k]
                == m[k],
{
    lemma_del_fold(m, keys, now);
    let after = del_outcome(m, keys, now).0;
    assert forall|k: Seq<char>| !keys.contains(k) && #[trigger] m.contains_key(k) implies after[k]
        == m[k] by {
        assert(del_fold(m, keys, now).0.contains_key(k));
    }
}

/// `DEL` of `keys` leaves none of them live, and the keys it does not name
/// as they were.
pub proof fn lemma_del_fold(m: Map<Seq<char>, Entry>, keys: Seq<Seq<char>>, now: i64)
    ensures
        forall|k: Seq<char>|
            keys.contains(k) && #[trigger] del_fold(m, keys, now).0.contains_key(k) ==> !is_live(
                del_fold(m, keys, now).0[k],
                now,
            ),
        forall|k: Seq<char>|
            !keys.contains(k) ==> (#[trigger] del_fold(m, keys, now).0.contains_key(k)
                == m.contains_key(k)),
        forall|k: Seq<char>|
            #[trigger] del_fold(m, keys, now).0.contains_key(k) ==> m.contains_key(k) && del_fold(
                m,
                keys,
                now,
            ).0[k] == m[k],
    decreases keys.len(),
{
    if keys.len() > 0 {
        let rest = keys.drop_last();
        lemma_del_fold(m, rest, now);
        let (before, _) = del_fold(m, rest, now);
        let after = del_fold(m, keys, now).0;
        let last = keys.last();
        assert forall|k: Seq<char>| keys.contains(k) && #[trigger] after.contains_key(k) implies !is_live(
            after[k],
            now,
        ) by {
            if k != last {
                let i = choose|i: int| 0 <= i < keys.len() && keys[i] == k;
                assert(rest[i] == k);
                assert(rest.contains(k));
            }
        }
        assert forall|k: Seq<char>| !keys.contains(k) implies (#[trigger] after.contains_key(k)
            == m.contains_key(k)) by {
            assert(k != last);
            if rest.contains(k) {
                let i = choose|i: int| 0 <= i < rest.len() && rest[i] == k;
                assert(keys[i] == k);
            }
        }
    }
}

/// After `EXPIRE` gave a live key `amount` seconds, `TTL` at the same time
/// gives `amount` back.
pub proof fn lemma_ttl_after_expire(
    m: Map<Seq<char>, Entry>,
    key: Seq<char>,
    amount: Seq<char>,
    now: i64,
)
    requires
        m.contains_key(key),
        is_live(m[key], now),
        expiry_from(amount, 1000, now) matches Ok(t) && t != -1,
    ensures
        parse_i64_spec(vstd::utf8::encode_utf8(amount)) matches Some(a) && ttl_outcome(
            expire_outcome(m, seq![key, amount], now).0,
            seq![key],
            now,
        ).1 == ValueModel::Integer(a),
{
    let a = parse_i64_spec(vstd::utf8::encode_utf8(amount)).unwrap();
    let t = (now + a * 1000) as i64;
    assert((t - now) / 1000 == a) by (nonlinear_arith)
        requires
            t == now + a * 1000,
    ;
}

/// `EXPIRE` on a key whose expiry time has passed does not bring it back: it
/// answers 0, the key goes, and `GET` then finds nothing.
pub proof fn lemma_expire_after_expiry(
    m: Map<Seq<char>, Entry>,
    key: Seq<char>,
    amount: Seq<char>,
    now: i64,
)
    requires
        m.contains_key(key),
        !is_live(m[key], now),
        expiry_from(amount, 1000, now) is Ok,
    ensures
        expire_outcome(m, seq![key, amount], now) == (m.remove(key), ValueModel::Integer(0)),
        get_outcome(m.remove(key), seq![key], now).1 == ValueModel::Null,
{
}

/// A key whose expiry time has passed is gone for `GET`, which removes it,
/// and then `TTL` reports it missing.
pub proof fn lemma_lazy_expiry(m: Map<Seq<char>, Entry>, key: Seq<char>, now: i64)
    requires
        m.contains_key(key),
        m[key].expires_at != -1,
        m[key].expires_at < now,
    ensures
        get_outcome(m, seq![key], now) == (m.remove(key), ValueModel::Null),
        ttl_outcome(m.remove(key), seq![key], now).1 == ValueModel::Integer(-2i64),
{
}

/// Without an eviction policy, `SET` never removes another key: it stores
/// the value or, when the store is full, changes nothing.
pub proof fn lemma_no_policy_no_eviction(
    old: Map<Seq<char>, Entry>,
    new: Map<Seq<char>, Entry>,
    new_expiries: Map<Seq<char>, u64>,
    key: Seq<char>,
    e: Entry,
    max_keys: usize,
)
    ensures
        set_stored(old, new, key, e, None, max_keys) ==> new == old.insert(key, e),
        set_refused(old, new, new_expiries, key, None, max_keys) ==> new == old,
{
    if set_stored(old, new, key, e, None, max_keys) {
        assert forall|j: Seq<char>| #[trigger] old.contains_key(j) && j != key implies new.contains_key(j) by {
            assert(old.contains_key(j) && j != key && !new.contains_key(j) ==> false);
        }
        assert forall|j: Seq<char>| #[trigger] new.contains_key(j) && j != key implies old.contains_key(j) by {
            assert(new.remove(key).dom().contains(j));
            assert(old.dom().contains(j));
        }
        assert(new =~= old.insert(key, e)) by {
            assert forall|j: Seq<char>| #[trigger] new.contains_key(j) && j != key implies new[j]
                == old[j] by {
                assert(new.remove(key).dom().contains(j));
                assert(old.dom().contains(j));
                assert(new.remove(key)[j] == new[j]);
            }
        }
    }
    if set_refused(old, new, new_expiries, key, None, max_keys) {
        assert forall|j: Seq<char>| #[trigger] old.contains_key(j) implies new.contains_key(j) by {
            assert(old.contains_key(j) && j != key && !new.contains_key(j) ==> false);
        }
        assert(new =~= old);
    }
}

/// A volatile eviction policy never evicts a key that has no expiry time.
pub proof fn lemma_volatile_policy_keeps_persistent_keys(
    old: Map<Seq<char>, Entry>,
    new: Map<Seq<char>, Entry>,
    key: Seq<char>,
    policy: EvictionPolicy,
    j: Seq<char>,
)
    requires
        is_volatile_policy(policy),
        only_evictable_gone(old, new, key, Some(policy)),
        old.contains_key(j),
        old[j].expires_at == -1,
        j != key,
    ensures
        new.contains_key(j),
{
}

/// The expiry option of `SET` is read without regard to ASCII case: two
/// requests that differ only in the case of the option ask for the same.
pub proof fn lemma_set_option_case(a: Seq<Seq<char>>, b: Seq<Seq<char>>, now: i64)
    requires
        a.len() == 4,
        b.len() == 4,
        a[0] == b[0],
        a[1] == b[1],
        a[3] == b[3],
        ascii_upper_text(a[2]) == ascii_upper_text(b[2]),
    ensures
        set_request(a, now) == set_request(b, now),
{
}

/// `SET key value EX n` (in any case) stores the value with the expiry time
/// `now + n * 1000`, and `PX n` with `now + n`, for every whole `n > 0` whose
/// milliseconds and time fit in `i64`.
pub proof fn lemma_set_option_units(args: Seq<Seq<char>>, n: i64, now: i64)
    requires
        args.len() == 4,
        parse_i64_spec(vstd::utf8::encode_utf8(args[3])) == Some(n),
        n > 0,
    ensures
        ascii_upper_text(args[2]) == "EX"@ && n * 1000 <= i64::MAX && now + n * 1000 <= i64::MAX
            ==> set_request(args, now)
            == Ok::<(Seq<char>, Seq<u8>, Option<i64>), Seq<char>>(
            (args[0], vstd::utf8::encode_utf8(args[1]), Some((now + n * 1000) as i64)),
        ),
        ascii_upper_text(args[2]) == "PX"@ && now + n <= i64::MAX ==> set_request(args, now) == Ok::<
            (Seq<char>, Seq<u8>, Option<i64>),
            Seq<char>,
        >((args[0], vstd::utf8::encode_utf8(args[1]), Some((now + n) as i64))),
{
    if ascii_upper_text(args[2]) == "PX"@ {
        reveal_strlit("EX");
        reveal_strlit("PX");
        assert("PX"@ != "EX"@) by {
            assert("PX"@[0] != "EX"@[0]);
        }
    }
}

/// After `SET key value EX n` stored the value at `now`, `TTL key` at that
/// moment answers `n`, and `GET key` finds the value until the time has
/// passed (for every expiry time but -1, which stands for none).
pub proof fn lemma_ttl_after_set_ex(
    old: Map<Seq<char>, Entry>,
    new: Map<Seq<char>, Entry>,
    key: Seq<char>,
    value: Seq<u8>,
    n: i64,
    now: i64,
    later: i64,
    policy: Option<EvictionPolicy>,
    max_keys: usize,
)
    requires
        n > 0,
        now + n * 1000 <= i64::MAX,
        now + n * 1000 != -1,
        set_stored(
            old,
            new,
            key,
            set_entry(value, Some((now + n * 1000) as i64)),
            policy,
            max_keys,
        ),
        now <= later <= now + n * 1000,
    ensures
        ttl_outcome(new, seq![key], now) == (new, ValueModel::Integer(n)),
        get_outcome(new, seq![key], later) == (new, ValueModel::BulkString(value)),
{
    let t = (now + n * 1000) as i64;
    assert((t - now) / 1000 == n) by (nonlinear_arith)
        requires
            t == now + n * 1000,
    ;
}

/// `TTL` of a key whose expiry time is at or after `now` leaves the store as
/// it is and answers the whole seconds left, rounded down.
pub proof fn lemma_ttl_of_live_key(m: Map<Seq<char>, Entry>, key: Seq<char>, now: i64)
    requires
        m.contains_key(key),
        m[key].expires_at != -1,
        m[key].expires_at >= now,
    ensures
        ttl_outcome(m, seq![key], now).0 == m,
        ttl_outcome(m, seq![key], now).1 matches ValueModel::Integer(r) && 0 <= r && r * 1000
            <= m[key].expires_at - now < (r + 1) * 1000,
{
    let d = m[key].expires_at - now;
    let r = d / 1000;
    assert(0 <= r && r * 1000 <= d < (r + 1) * 1000) by (nonlinear_arith)
        requires
            d >= 0,
            r == d / 1000,
    ;
}

/// `TTL` answers -2 and removes the key exactly when the key is missing or
/// its expiry time lies before `now`; a key without expiry answers -1.
pub proof fn lemma_ttl_minus_two(m: Map<Seq<char>, Entry>, key: Seq<char>, now: i64)
    ensures
        ttl_outcome(m, seq![key], now).1 == ValueModel::Integer(-2i64) <==> (!m.contains_key(key)
            || (m[key].expires_at != -1 && m[key].expires_at < now)),
        ttl_outcome(m, seq![key], now).0 == (if m.contains_key(key) && m[key].expires_at != -1
            && m[key].expires_at < now {
            m.remove(key)
        } else {
            m
        }),
        m.contains_key(key) && m[key].expires_at == -1 ==> ttl_outcome(m, seq![key], now).1
            == ValueModel::Integer(-1i64),
{
    if m.contains_key(key) && m[key].expires_at != -1 && m[key].expires_at >= now {
        lemma_ttl_of_live_key(m, key, now);
    }
}

/// The named keys that are live at `now`.
pub open spec fn live_named(m: Map<Seq<char>, Entry>, keys: Seq<Seq<char>>, now: i64) -> Set<
    Seq<char>,
> {
    Set::new(|k: Seq<char>| keys.contains(k) && m.contains_key(k) && is_live(m[k], now))
}

proof fn lemma_live_named_finite(m: Map<Seq<char>, Entry>, keys: Seq<Seq<char>>, now: i64)
    ensures
        live_named(m, keys, now).finite(),
        live_named(m, keys, now).len() <= keys.len(),
{
    let s = live_named(m, keys, now);
    assert(s.subset_of(keys.to_set()));
    keys.lemma_cardinality_of_set();
    vstd::set_lib::lemma_len_subset(s, keys.to_set());
}

/// `DEL` removes exactly the named keys that are live, each once however
/// often it is named, and counts them.
pub proof fn lemma_del_counts_live_keys(m: Map<Seq<char>, Entry>, keys: Seq<Seq<char>>, now: i64)
    ensures
        del_fold(m, keys, now).0 == m.remove_keys(live_named(m, keys, now)),
        del_fold(m, keys, now).1 == live_named(m, keys, now).len(),
        live_named(m, keys, now).len() <= keys.len(),
    decreases keys.len(),
{
    lemma_live_named_finite(m, keys, now);
    if keys.len() == 0 {
        assert(live_named(m, keys, now) =~= Set::<Seq<char>>::empty());
        assert(m.remove_keys(Set::<Seq<char>>::empty()) =~= m);
    } else {
        let init = keys.drop_last();
        let k = keys.last();
        lemma_del_counts_live_keys(m, init, now);
        lemma_live_named_finite(m, init, now);
        let s0 = live_named(m, init, now);
        let s = live_named(m, keys, now);
        let before = m.remove_keys(s0);
        assert forall|x: Seq<char>| keys.contains(x) <==> (init.contains(x) || x == k) by {
            if keys.contains(x) {
                let i = choose|i: int| 0 <= i < keys.len() && keys[i] == x;
                if i < keys.len() - 1 {
                    assert(init[i] == x);
                }
            }
            if init.contains(x) {
                let i = choose|i: int| 0 <= i < init.len() && init[i] == x;
                assert(keys[i] == x);
            }
            if x == k {
                assert(keys[keys.len() - 1] == x);
            }
        }
        if before.contains_key(k) && is_live(before[k], now) {
            assert(!s0.contains(k));
            assert(s =~= s0.insert(k));
            assert(before.remove(k) =~= m.remove_keys(s));
        } else {
            assert(s =~= s0) by {
                if m.contains_key(k) && is_live(m[k], now) {
                    assert(s0.contains(k));
                }
            }
        }
    }
}

/// `DEL` answers the number of distinct named keys that were live before
/// and are gone after; no other key changes.
pub proof fn lemma_del_reply(m: Map<Seq<char>, Entry>, keys: Seq<Seq<char>>, now: i64)
    requires
        keys.len() > 0,
    ensures
        del_outcome(m, keys, now) == (
            m.remove_keys(live_named(m, keys, now)),
            ValueModel::Integer(live_named(m, keys, now).len() as i64),
        ),
{
    lemma_del_counts_live_keys(m, keys, now);
}

} // verus!
