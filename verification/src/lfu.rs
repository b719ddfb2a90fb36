//! Eviction entry points that leave the store as it is: the store evicts by
//! its configured policy when a write finds it full.
use vstd::prelude::*;

use crate::eval::RedisState;

verus! {

pub fn all_keys_lfu_evict(state: &mut RedisState) -> (r: Result<(), std::io::Error>)
    ensures
        r is Ok,
        *final(state) == *old(state),
{
    Ok(())
}

pub fn volatile_lfu_evict(state: &mut RedisState) -> (r: Result<(), std::io::Error>)
    ensures
        r is Ok,
        *final(state) == *old(state),
{
    Ok(())
}

} // verus!
