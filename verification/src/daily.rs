//! Daily poem: a deterministic choice by date, the same poem all day long.

use vstd::prelude::*;
use vstd::string::StringSliceAdditionalSpecFns;

verus! {

/// Offset basis of 64-bit FNV-1a.
pub const FNV_OFFSET_BASIS: u64 = 0xcbf2_9ce4_8422_2325;

/// Prime of 64-bit FNV-1a.
pub const FNV_PRIME: u64 = 0x100_0000_01b3;

/// 64-bit FNV-1a of a byte sequence, folded from the left.
pub open spec fn fnv1a_spec(bytes: Seq<u8>) -> u64
    decreases bytes.len(),
{
    if bytes.len() == 0 {
        FNV_OFFSET_BASIS
    } else {
        let h = fnv1a_spec(bytes.drop_last());
        vstd::wrapping::u64_specs::wrapping_mul(h ^ (bytes.last() as u64), FNV_PRIME)
    }
}

/// The index that `stable_index` chooses for a date (given as its UTF-8 bytes).
pub open spec fn stable_index_spec(date: Seq<u8>, total: nat) -> nat {
    if total == 0 {
        0
    } else {
        (fnv1a_spec(date) as nat) % total
    }
}

/// 64-bit FNV-1a hash of `bytes`.
pub fn fnv1a(bytes: &[u8]) -> (hash: u64)
    ensures
        hash == fnv1a_spec(bytes@),
{
    let mut hash: u64 = FNV_OFFSET_BASIS;
    let n = bytes.len();
    let mut i: usize = 0;
    while i < n
        invariant
            n == bytes@.len(),
            i <= n,
            hash == fnv1a_spec(bytes@.take(i as int)),
        decreases n - i,
    {
        let b = bytes[i];
        assert(bytes@.take(i + 1).drop_last() =~= bytes@.take(i as int));
        hash = (hash ^ (b as u64)).wrapping_mul(FNV_PRIME);
        i = i + 1;
    }
    assert(bytes@.take(n as int) =~= bytes@);
    hash
}

/// A stable index in `0..total` derived from a date string, used as an offset
/// into the curated poems; 0 when `total` is 0.
///
/// Uses FNV-1a, whose result is the same in every process and on every
/// platform (unlike the randomly seeded default hasher of std).
pub fn stable_index(date: &str, total: usize) -> (idx: usize)
    ensures
        idx == stable_index_spec(date.spec_bytes(), total as nat),
        total > 0 ==> idx as nat == (fnv1a_spec(date.spec_bytes()) as nat) % (total as nat),
        total == 0 ==> idx == 0,
        total > 0 ==> idx < total,
{
    if total == 0 {
        return 0;
    }
    let h = fnv1a(date.as_bytes());
    (h % (total as u64)) as usize
}

/// FNV-1a, 64 bits: the hash of no bytes is the offset basis
/// 0xcbf29ce484222325, and each further byte is XORed into the hash, which
/// is then multiplied by the prime 0x100000001b3 modulo 2^64.
pub proof fn lemma_fnv1a_steps(bytes: Seq<u8>, b: u8)
    ensures
        fnv1a_spec(Seq::<u8>::empty()) == 0xcbf2_9ce4_8422_2325u64,
        fnv1a_spec(bytes.push(b)) as nat == ((fnv1a_spec(bytes) ^ (b as u64)) as nat
            * 0x100_0000_01b3nat) % 0x1_0000_0000_0000_0000nat,
{
    assert(bytes.push(b).drop_last() =~= bytes);
    assert(bytes.push(b).last() == b);
}

/// The daily index is the FNV-1a hash of every byte of the date, modulo the
/// number of curated poems; so two dates (e.g. two days of one month) get
/// the same poem only where their hashes agree modulo that number.
pub proof fn lemma_daily_index(d1: Seq<u8>, d2: Seq<u8>, total: nat)
    requires
        total > 0,
    ensures
        stable_index_spec(d1, total) == (fnv1a_spec(d1) as nat) % total,
        stable_index_spec(d1, total) == stable_index_spec(d2, total) <==> (fnv1a_spec(d1) as nat)
            % total == (fnv1a_spec(d2) as nat) % total,
{
}

} // verus!
