//! Recency cache for ICAO transponder addresses.
//!
//! A fixed table of 1024 direct-indexed slots, each holding one address and
//! the time it was last seen. Collisions overwrite: a different address that
//! hashes to the same slot evicts the old occupant, so the cache can forget
//! an address early but never reports one that was not stored. Entries age
//! out when a lookup finds them older than the time-to-live. The cache gates
//! implicit-address recovery: an address recovered from the parity field is
//! trusted only if it was recently seen.

use vstd::prelude::*;

verus! {

/// Number of slots in the cache; a power of two, so a hash is masked to a
/// slot index.
pub const MODES_ICAO_CACHE_LEN: u32 = 1024;

/// Seconds an entry stays fresh.
pub const MODES_ICAO_CACHE_TTL: u32 = 60;

/// Multiplicative/XOR-fold hash of an address, masked to a slot index.
pub open spec fn spec_hash(a: u32) -> u32 {
    let h1 = ((a >> 16) ^ a).wrapping_mul(0x45d9f3b);
    let h2 = ((h1 >> 16) ^ h1).wrapping_mul(0x45d9f3b);
    ((h2 >> 16) ^ h2) & ((MODES_ICAO_CACHE_LEN - 1) as u32)
}

/// The cache contents after storing `addr` at time `now`: its slot holds the
/// address, the slot's companion word holds the time.
pub open spec fn spec_cache_insert(cache: Seq<u32>, addr: u32, now: u32) -> Seq<u32> {
    cache.update(2 * spec_hash(addr) as int, addr).update(2 * spec_hash(addr) + 1, now)
}

/// Whether `addr` counts as recently seen at time `now`: its slot holds the
/// address and the entry is no older than the time-to-live. The zero address
/// marks an empty slot and is never reported. A stored time in the future
/// (the clock went backwards) counts as stale.
pub open spec fn spec_cache_lookup(cache: Seq<u32>, addr: u32, now: u32) -> bool {
    let a = cache[2 * spec_hash(addr) as int];
    let t = cache[2 * spec_hash(addr) + 1];
    a != 0 && a == addr && now >= t && now - t <= MODES_ICAO_CACHE_TTL
}

/// Makes the empty cache: every slot unoccupied.
pub fn new_icao_cache() -> (cache: Vec<u32>)
    ensures
        cache@.len() == 2 * MODES_ICAO_CACHE_LEN,
        forall|j: int| 0 <= j < cache@.len() ==> cache@[j] == 0,
{
    let mut cache: Vec<u32> = Vec::new();
    let mut i: usize = 0;
    while i < 2048
        invariant
            i <= 2048,
            cache@.len() == i,
            forall|j: int| 0 <= j < i ==> cache@[j] == 0,
        decreases 2048 - i,
    {
        cache.push(0);
        i += 1;
    }
    cache
}

/// Hashes an address to its slot index.
pub fn icaocache_hash_address(a: u32) -> (h: u32)
    ensures
        h == spec_hash(a),
        h < MODES_ICAO_CACHE_LEN,
{
    let mut a = a;
    a = ((a >> 16) ^ a).wrapping_mul(0x45d9f3b);
    a = ((a >> 16) ^ a).wrapping_mul(0x45d9f3b);
    a = (a >> 16) ^ a;
    let h = a & (MODES_ICAO_CACHE_LEN - 1);
    proof {
        assert(a & 1023u32 < 1024) by (bit_vector);
    }
    h
}

/// Records that `addr` was seen at time `now`, overwriting whatever address
/// occupied its slot.
pub fn add_recently_seen_icaoaddr(addr: u32, icao_cache: &mut Vec<u32>, now: u32)
    requires
        old(icao_cache)@.len() == 2 * MODES_ICAO_CACHE_LEN,
    ensures
        final(icao_cache)@ == spec_cache_insert(old(icao_cache)@, addr, now),
        final(icao_cache)@.len() == old(icao_cache)@.len(),
{
    let h = icaocache_hash_address(addr);
    icao_cache.set(h as usize * 2, addr);
    icao_cache.set(h as usize * 2 + 1, now);
}

/// Answers whether `addr` was stored no more than the time-to-live ago, as
/// seen from time `now`.
pub fn icaoaddress_was_recently_seen(addr: u32, icao_cache: &Vec<u32>, now: u32) -> (seen: bool)
    requires
        icao_cache@.len() == 2 * MODES_ICAO_CACHE_LEN,
    ensures
        seen == spec_cache_lookup(icao_cache@, addr, now),
{
    let h = icaocache_hash_address(addr);
    let a = icao_cache[h as usize * 2];
    let t = icao_cache[h as usize * 2 + 1];
    a != 0 && a == addr && now >= t && now - t <= MODES_ICAO_CACHE_TTL
}

/// An address looked up right after it was stored is reported seen, and the
/// same address looked up one second past the time-to-live is not.
pub proof fn lemma_cache_recency(cache: Seq<u32>, addr: u32, t: u32)
    requires
        cache.len() == 2 * MODES_ICAO_CACHE_LEN,
        addr != 0,
        t + MODES_ICAO_CACHE_TTL + 1 <= u32::MAX,
    ensures
        spec_cache_lookup(spec_cache_insert(cache, addr, t), addr, t),
        !spec_cache_lookup(
            spec_cache_insert(cache, addr, t),
            addr,
            (t + MODES_ICAO_CACHE_TTL + 1) as u32,
        ),
{
    let h2 = ((((addr >> 16) ^ addr).wrapping_mul(0x45d9f3b) >> 16) ^ ((addr >> 16)
        ^ addr).wrapping_mul(0x45d9f3b)).wrapping_mul(0x45d9f3b);
    assert(((h2 >> 16) ^ h2) & 1023u32 < 1024) by (bit_vector);
    assert(spec_hash(addr) < 1024);
}

} // verus!
