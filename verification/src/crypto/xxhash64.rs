//! xxHash64: a 64-bit hash of a sequence of bytes, not cryptographic, that
//! depends on the bytes, their order and a seed, and on nothing else.

use vstd::prelude::*;

verus! {

pub const PRIME_1: u64 = 11_400_714_785_074_694_791;

pub const PRIME_2: u64 = 14_029_467_366_897_019_727;

pub const PRIME_3: u64 = 1_609_587_929_392_839_161;

pub const PRIME_4: u64 = 9_650_029_242_287_828_579;

pub const PRIME_5: u64 = 2_870_177_450_012_600_261;

/// The bytes that one round of the four lanes takes in.
pub const STRIPE: usize = 32;

/// `x` with its bits rotated to the left by `r` places, for `0 < r < 64`.
pub open spec fn rotl(x: u64, r: u64) -> u64 {
    (x << r) | (x >> ((64 - r) as u64))
}

/// The 64-bit word that the eight bytes of `bytes` from `at` on spell, the
/// first byte lowest.
pub open spec fn word64(bytes: Seq<u8>, at: int) -> u64 {
    (bytes[at] as u64) | ((bytes[at + 1] as u64) << 8) | ((bytes[at + 2] as u64) << 16) | ((
    bytes[at + 3] as u64) << 24) | ((bytes[at + 4] as u64) << 32) | ((bytes[at + 5] as u64) << 40)
        | ((bytes[at + 6] as u64) << 48) | ((bytes[at + 7] as u64) << 56)
}

/// The 32-bit word that the four bytes of `bytes` from `at` on spell, the
/// first byte lowest.
pub open spec fn word32(bytes: Seq<u8>, at: int) -> u64 {
    (bytes[at] as u64) | ((bytes[at + 1] as u64) << 8) | ((bytes[at + 2] as u64) << 16) | ((
    bytes[at + 3] as u64) << 24)
}

/// One round of a lane: the lane `acc` takes in the word `lane`.
pub open spec fn round(acc: u64, lane: u64) -> u64 {
    rotl(acc.wrapping_add(lane.wrapping_mul(PRIME_2)), 31).wrapping_mul(PRIME_1)
}

/// The hash `hash` takes in the lane `acc`, once all stripes are read.
pub open spec fn merge(hash: u64, acc: u64) -> u64 {
    (hash ^ round(0, acc)).wrapping_mul(PRIME_1).wrapping_add(PRIME_4)
}

/// The four lanes.
pub struct Lanes {
    pub v1: u64,
    pub v2: u64,
    pub v3: u64,
    pub v4: u64,
}

/// The lanes before any stripe is read.
pub open spec fn initial_lanes(seed: u64) -> Lanes {
    Lanes {
        v1: seed.wrapping_add(PRIME_1).wrapping_add(PRIME_2),
        v2: seed.wrapping_add(PRIME_2),
        v3: seed,
        v4: seed.wrapping_sub(PRIME_1),
    }
}

/// The lanes once they have taken in the stripe of `bytes` that begins at
/// `at`.
pub open spec fn lanes_step(lanes: Lanes, bytes: Seq<u8>, at: int) -> Lanes {
    Lanes {
        v1: round(lanes.v1, word64(bytes, at)),
        v2: round(lanes.v2, word64(bytes, at + 8)),
        v3: round(lanes.v3, word64(bytes, at + 16)),
        v4: round(lanes.v4, word64(bytes, at + 24)),
    }
}

/// The lanes once they have taken in the first `stripes` stripes of `bytes`.
pub open spec fn lanes_after(bytes: Seq<u8>, stripes: nat, seed: u64) -> Lanes
    decreases stripes,
{
    if stripes == 0 {
        initial_lanes(seed)
    } else {
        lanes_step(lanes_after(bytes, (stripes - 1) as nat, seed), bytes, 32 * (stripes - 1))
    }
}

/// The four lanes folded into one hash.
pub open spec fn converge(lanes: Lanes) -> u64 {
    let hash = rotl(lanes.v1, 1).wrapping_add(rotl(lanes.v2, 7)).wrapping_add(
        rotl(lanes.v3, 12),
    ).wrapping_add(rotl(lanes.v4, 18));
    merge(merge(merge(merge(hash, lanes.v1), lanes.v2), lanes.v3), lanes.v4)
}

/// The hash takes in eight bytes that no stripe holds.
pub open spec fn tail8(hash: u64, word: u64) -> u64 {
    rotl(hash ^ round(0, word), 27).wrapping_mul(PRIME_1).wrapping_add(PRIME_4)
}

/// The hash takes in four bytes that no stripe holds.
pub open spec fn tail4(hash: u64, word: u64) -> u64 {
    rotl(hash ^ word.wrapping_mul(PRIME_1), 23).wrapping_mul(PRIME_2).wrapping_add(PRIME_3)
}

/// The hash takes in one byte that no stripe holds.
pub open spec fn tail1(hash: u64, byte: u8) -> u64 {
    rotl(hash ^ (byte as u64).wrapping_mul(PRIME_5), 11).wrapping_mul(PRIME_1)
}

/// The hash once it has taken in what `bytes` holds from `at` on: eight bytes
/// at a time while eight are left, then four if four are left, then one at a
/// time.
pub open spec fn tail(bytes: Seq<u8>, at: int, hash: u64) -> u64
    decreases bytes.len() - at,
{
    if at < 0 || at >= bytes.len() {
        hash
    } else if at + 8 <= bytes.len() {
        tail(bytes, at + 8, tail8(hash, word64(bytes, at)))
    } else if at + 4 <= bytes.len() {
        tail(bytes, at + 4, tail4(hash, word32(bytes, at)))
    } else {
        tail(bytes, at + 1, tail1(hash, bytes[at]))
    }
}

/// The last mixing of the bits.
pub open spec fn avalanche(hash: u64) -> u64 {
    let a = (hash ^ (hash >> 33)).wrapping_mul(PRIME_2);
    let b = (a ^ (a >> 29)).wrapping_mul(PRIME_3);
    b ^ (b >> 32)
}

/// The xxHash64 of `bytes` under `seed`.
pub open spec fn xxh64(bytes: Seq<u8>, seed: u64) -> u64 {
    let stripes = bytes.len() / 32;
    let start = if bytes.len() >= 32 {
        converge(lanes_after(bytes, stripes, seed))
    } else {
        seed.wrapping_add(PRIME_5)
    };
    avalanche(tail(bytes, (32 * stripes) as int, start.wrapping_add(bytes.len() as u64)))
}

fn rotate(x: u64, r: u64) -> (y: u64)
    requires
        0 < r < 64,
    ensures
        y == rotl(x, r),
{
    (x << r) | (x >> (64 - r))
}

fn read64(bytes: &[u8], at: usize) -> (w: u64)
    requires
        at + 8 <= bytes.len(),
    ensures
        w == word64(bytes@, at as int),
{
    (bytes[at] as u64) | ((bytes[at + 1] as u64) << 8) | ((bytes[at + 2] as u64) << 16) | ((
    bytes[at + 3] as u64) << 24) | ((bytes[at + 4] as u64) << 32) | ((bytes[at + 5] as u64) << 40)
        | ((bytes[at + 6] as u64) << 48) | ((bytes[at + 7] as u64) << 56)
}

fn read32(bytes: &[u8], at: usize) -> (w: u64)
    requires
        at + 4 <= bytes.len(),
    ensures
        w == word32(bytes@, at as int),
{
    (bytes[at] as u64) | ((bytes[at + 1] as u64) << 8) | ((bytes[at + 2] as u64) << 16) | ((
    bytes[at + 3] as u64) << 24)
}

fn mix(acc: u64, lane: u64) -> (r: u64)
    ensures
        r == round(acc, lane),
{
    rotate(acc.wrapping_add(lane.wrapping_mul(PRIME_2)), 31).wrapping_mul(PRIME_1)
}

fn fold(hash: u64, acc: u64) -> (r: u64)
    ensures
        r == merge(hash, acc),
{
    (hash ^ mix(0, acc)).wrapping_mul(PRIME_1).wrapping_add(PRIME_4)
}

/// The xxHash64 of `bytes` under `seed`.
pub fn xxhash64(bytes: &[u8], seed: u64) -> (hash: u64)
    ensures
        hash == xxh64(bytes@, seed),
{
    let len: usize = bytes.len();
    let mut at: usize = 0;
    let mut hash: u64;
    if len >= STRIPE {
        let mut v1: u64 = seed.wrapping_add(PRIME_1).wrapping_add(PRIME_2);
        let mut v2: u64 = seed.wrapping_add(PRIME_2);
        let mut v3: u64 = seed;
        let mut v4: u64 = seed.wrapping_sub(PRIME_1);
        let ghost mut done: nat = 0;
        while len - at >= STRIPE
            invariant
                len == bytes@.len(),
                at <= len,
                at == 32 * done,
                (Lanes { v1, v2, v3, v4 }) == lanes_after(bytes@, done, seed),
            decreases len - at,
        {
            v1 = mix(v1, read64(bytes, at));
            v2 = mix(v2, read64(bytes, at + 8));
            v3 = mix(v3, read64(bytes, at + 16));
            v4 = mix(v4, read64(bytes, at + 24));
            at += STRIPE;
            proof {
                done = done + 1;
            }
        }
        assert(done == bytes@.len() / 32);
        hash = rotate(v1, 1).wrapping_add(rotate(v2, 7)).wrapping_add(rotate(v3, 12)).wrapping_add(
            rotate(v4, 18),
        );
        hash = fold(hash, v1);
        hash = fold(hash, v2);
        hash = fold(hash, v3);
        hash = fold(hash, v4);
    } else {
        hash = seed.wrapping_add(PRIME_5);
    }
    hash = hash.wrapping_add(len as u64);
    let ghost whole = tail(bytes@, at as int, hash);
    assert(xxh64(bytes@, seed) == avalanche(whole));
    while len - at >= 8
        invariant
            len == bytes@.len(),
            at <= len,
            tail(bytes@, at as int, hash) == whole,
        decreases len - at,
    {
        hash = rotate(hash ^ mix(0, read64(bytes, at)), 27).wrapping_mul(PRIME_1).wrapping_add(
            PRIME_4,
        );
        at += 8;
    }
    if len - at >= 4 {
        hash = rotate(hash ^ read32(bytes, at).wrapping_mul(PRIME_1), 23).wrapping_mul(
            PRIME_2,
        ).wrapping_add(PRIME_3);
        at += 4;
    }
    while at < len
        invariant
            len == bytes@.len(),
            at <= len,
            len - at < 4,
            tail(bytes@, at as int, hash) == whole,
        decreases len - at,
    {
        hash = rotate(hash ^ (bytes[at] as u64).wrapping_mul(PRIME_5), 11).wrapping_mul(PRIME_1);
        at += 1;
    }
    hash = (hash ^ (hash >> 33)).wrapping_mul(PRIME_2);
    hash = (hash ^ (hash >> 29)).wrapping_mul(PRIME_3);
    hash ^ (hash >> 32)
}

} // verus!
