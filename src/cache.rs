//! The cache store's rules: how a logical name becomes a record's file name,
//! and when a stored record may stand in for a fresh computation.
//!
//! Times and durations are whole milliseconds. The identifiers shown for
//! recordings and assignments are hashes too.

use std::hash::{Hash, Hasher};
use vstd::prelude::*;

verus! {

/// The hash that std's `DefaultHasher` gives the string `name`.
pub uninterp spec fn name_hash(name: Seq<char>) -> u64;

/// The hash that std's `DefaultHasher` gives the string `a` followed by the string `b`.
pub uninterp spec fn pair_hash(a: Seq<char>, b: Seq<char>) -> u64;

/// The hash that std's `DefaultHasher` gives the strings `a`, `b` and `c`, in order.
pub uninterp spec fn triple_hash(a: Seq<char>, b: Seq<char>, c: Seq<char>) -> u64;

/// Relies on `str: Hash` fed to a fresh `std::hash::DefaultHasher`, whose keys
/// are fixed, so that one name hashes alike in every run of one build.
#[verifier::external_body]
fn hash_name(name: &str) -> (r: u64)
    ensures
        r == name_hash(name@),
{
    let mut hasher = std::hash::DefaultHasher::new();
    name.hash(&mut hasher);
    hasher.finish()
}

/// Relies on `(&str, &str): Hash` fed to a fresh `std::hash::DefaultHasher`,
/// which hashes the two strings in order.
#[verifier::external_body]
pub(crate) fn hash_pair(a: &str, b: &str) -> (r: u64)
    ensures
        r == pair_hash(a@, b@),
{
    let mut hasher = std::hash::DefaultHasher::new();
    (a, b).hash(&mut hasher);
    hasher.finish()
}

/// Relies on `(&str, &str, &str): Hash` fed to a fresh `std::hash::DefaultHasher`,
/// which hashes the three strings in order.
#[verifier::external_body]
pub(crate) fn hash_triple(a: &str, b: &str, c: &str) -> (r: u64)
    ensures
        r == triple_hash(a@, b@, c@),
{
    let mut hasher = std::hash::DefaultHasher::new();
    (a, b, c).hash(&mut hasher);
    hasher.finish()
}

/// The lower-case hexadecimal digit for `d < 16`.
pub open spec fn hex_char(d: nat) -> char {
    if d < 10 {
        ('0' as u8 + d) as char
    } else {
        ('a' as u8 + (d - 10)) as char
    }
}

/// `v` in lower-case hexadecimal, without leading zeros (`0` for zero).
pub open spec fn hex_lower(v: nat) -> Seq<char>
    decreases v,
{
    if v < 16 {
        seq![hex_char(v)]
    } else {
        hex_lower(v / 16).push(hex_char(v % 16))
    }
}

/// The file name of the record with key `key`: values are kept under
/// `with_cache-<hex>`, raw bytes under `with_cache_bytes-<hex>`.
pub open spec fn cache_file_name_of(key: u64, bytes: bool) -> Seq<char> {
    if bytes {
        "with_cache_bytes-"@ + hex_lower(key as nat)
    } else {
        "with_cache-"@ + hex_lower(key as nat)
    }
}

pub(crate) fn push_hex(v: u64, out: &mut Vec<char>)
    ensures
        final(out)@ == old(out)@ + hex_lower(v as nat),
    decreases v,
{
    if v >= 16 {
        push_hex(v / 16, out);
    }
    let d = (v % 16) as u8;
    let c = if d < 10 {
        ('0' as u8 + d) as char
    } else {
        ('a' as u8 + (d - 10)) as char
    };
    out.push(c);
}

/// The file name of the record with key `key`.
pub fn cache_file_name(key: u64, bytes: bool) -> (r: String)
    ensures
        r@ == cache_file_name_of(key, bytes),
{
    let mut digits: Vec<char> = Vec::new();
    push_hex(key, &mut digits);
    assert(digits@ == hex_lower(key as nat));
    let hex = crate::text::string_of_chars(&digits);
    if bytes {
        crate::text::concat("with_cache_bytes-", hex.as_str())
    } else {
        crate::text::concat("with_cache-", hex.as_str())
    }
}

/// The key of the record of raw bytes cached under `name`.
pub fn bytes_cache_key(name: &str) -> (r: u64)
    ensures
        r == name_hash(name@),
{
    hash_name(name)
}

/// The key of the record of a value of the type tagged `tag` cached under
/// `name`: two types cached under one name never share a record.
pub fn value_cache_key(name: &str, tag: &str) -> (r: u64)
    ensures
        r == pair_hash(name@, tag@),
{
    hash_pair(name, tag)
}

/// `v` in lower-case hexadecimal.
pub fn hex_string(v: u64) -> (r: String)
    ensures
        r@ == hex_lower(v as nat),
{
    let mut digits: Vec<char> = Vec::new();
    push_hex(v, &mut digits);
    assert(digits@ =~= hex_lower(v as nat));
    crate::text::string_of_chars(&digits)
}

/// A stored record: its payload and when it was last written.
pub struct CacheRecord {
    pub payload: Vec<u8>,
    pub modified_at: u64,
}

/// Whether a record written at `modified_at` may be used at time `now` under
/// `ttl`: only with a time-to-live, and only while less than it has passed.
pub open spec fn fresh(modified_at: u64, ttl: Option<u64>, now: u64) -> bool {
    match ttl {
        Some(d) => now - modified_at < d,
        None => false,
    }
}

/// What a lookup gives: the stored payload on a hit, `None` on a miss, after
/// which the value is computed and stored afresh.
pub open spec fn lookup_of(record: Option<CacheRecord>, ttl: Option<u64>, now: u64) -> Option<
    Seq<u8>,
> {
    match record {
        Some(r) => if fresh(r.modified_at, ttl, now) {
            Some(r.payload@)
        } else {
            None
        },
        None => None,
    }
}

/// Whether a record written at `modified_at` may be used at `now` under `ttl`.
pub fn is_fresh(modified_at: u64, ttl: Option<u64>, now: u64) -> (r: bool)
    ensures
        r == fresh(modified_at, ttl, now),
{
    match ttl {
        Some(d) => (now as i128) - (modified_at as i128) < d as i128,
        None => false,
    }
}

/// Looks a record up: its payload where it exists and is fresh, else `None`
/// (a miss: the caller computes the value and stores it with `store`).
pub fn lookup(record: &Option<CacheRecord>, ttl: Option<u64>, now: u64) -> (r: Option<&[u8]>)
    ensures
        match r {
            Some(p) => lookup_of(*record, ttl, now) == Some(p@),
            None => lookup_of(*record, ttl, now) is None,
        },
{
    match record {
        Some(rec) => if is_fresh(rec.modified_at, ttl, now) {
            Some(rec.payload.as_slice())
        } else {
            None
        },
        None => None,
    }
}

/// The record that a miss writes at time `now`; it replaces any earlier one.
pub fn store(payload: Vec<u8>, now: u64) -> (r: CacheRecord)
    ensures
        r.payload@ == payload@,
        r.modified_at == now,
{
    CacheRecord { payload, modified_at: now }
}

/// A value stored at `t0` and looked up at `t1` under a time-to-live `d` that
/// has not yet run out is found, unchanged, with no second computation.
pub proof fn lemma_hit_within_ttl(stored: CacheRecord, d: u64, t1: u64)
    requires
        stored.modified_at <= t1,
        t1 - stored.modified_at < d,
    ensures
        lookup_of(Some(stored), Some(d), t1) == Some(stored.payload@),
{
}

/// Without a time-to-live every lookup misses, so the value is always computed;
/// the record it then stores is found by a later lookup with a time-to-live
/// that has not run out.
pub proof fn lemma_no_ttl_bypasses(
    record: Option<CacheRecord>,
    now: u64,
    stored: CacheRecord,
    d: u64,
    t1: u64,
)
    requires
        stored.modified_at <= t1,
        t1 - stored.modified_at < d,
    ensures
        lookup_of(record, None, now) is None,
        lookup_of(Some(stored), Some(d), t1) == Some(stored.payload@),
{
}

} // verus!
