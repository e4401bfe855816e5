//! Slot identifiers and the shape of a bucket.
//!
//! A slot names one entry of one bucket: `slot = bucket * len + entry`,
//! where `len` is the number of entries of a bucket and `entry < len`.

use vstd::prelude::*;

verus! {

/// The bucket shapes that the arena accepts: a bucket has at least one
/// entry, no more than a slot identifier can count, and one bitmap bit for
/// each entry, in `words` machine words.
pub open spec fn valid_config(words: nat, len: nat) -> bool {
    &&& 0 < len <= u32::MAX
    &&& len == words * usize::BITS
}

/// The number of buckets that slot identifiers can tell apart.
pub open spec fn max_buckets_of(len: nat) -> nat
    recommends
        len > 0,
{
    (u32::MAX as nat) / len
}

/// The slot of entry `entry` of bucket `bucket`.
pub open spec fn slot_of(bucket: nat, entry: nat, len: nat) -> nat {
    bucket * len + entry
}

/// The position reached from `start` after `step` moves round a ring of
/// `len` positions.
pub open spec fn rotated_of(start: nat, step: nat, len: nat) -> nat
    recommends
        len > 0,
{
    (start + step) % len
}

/// Whether `BITARRAY_LEN` words of bitmap and `LEN` entries make a bucket
/// shape that the arena accepts.
pub fn check_const_generics<const BITARRAY_LEN: usize, const LEN: usize>() -> (ok: bool)
    ensures
        ok == valid_config(BITARRAY_LEN as nat, LEN as nat),
{
    let bits: usize = usize::BITS as usize;
    if LEN == 0 || LEN > u32::MAX as usize {
        return false;
    }
    let whole = LEN % bits == 0;
    let words: usize = LEN / bits;
    proof {
        lemma_whole_words(LEN as int, bits as int, BITARRAY_LEN as int);
    }
    whole && words == BITARRAY_LEN
}

/// The number of buckets that slot identifiers can tell apart, for
/// buckets of `len` entries.
pub fn bucket_limit(len: u32) -> (r: u32)
    requires
        len > 0,
    ensures
        r == max_buckets_of(len as nat),
{
    u32::MAX / len
}

/// The slot of entry `index` of bucket `bucket_index`.
pub fn slot_at(bucket_index: u32, index: u32, len: u32) -> (slot: u32)
    requires
        index < len,
        slot_of(bucket_index as nat, index as nat, len as nat) <= u32::MAX,
    ensures
        slot == slot_of(bucket_index as nat, index as nat, len as nat),
        slot / len == bucket_index,
        slot % len == index,
{
    proof {
        lemma_slot_splits(bucket_index as nat, index as nat, len as nat);
        assert(bucket_index * len <= bucket_index * len + index);
    }
    bucket_index * len + index
}

/// The slot of entry `index` of bucket `bucket_index`, if it fits a slot
/// identifier.
pub fn checked_slot(bucket_index: u32, index: u32, len: u32) -> (r: Option<u32>)
    requires
        index < len,
    ensures
        r is Some <==> slot_of(bucket_index as nat, index as nat, len as nat) <= u32::MAX,
        r matches Some(slot) ==> {
            &&& slot == slot_of(bucket_index as nat, index as nat, len as nat)
            &&& slot / len == bucket_index
            &&& slot % len == index
        },
{
    assert(bucket_index * len <= 0xffff_ffff * 0xffff_ffff) by (nonlinear_arith)
        requires
            bucket_index <= 0xffff_ffff,
            len <= 0xffff_ffff,
    ;
    let wide: u64 = bucket_index as u64 * len as u64 + index as u64;
    if wide <= u32::MAX as u64 {
        Some(slot_at(bucket_index, index, len))
    } else {
        None
    }
}

/// The bucket that a slot lies in.
pub fn bucket_of(slot: u32, len: u32) -> (r: u32)
    requires
        len > 0,
    ensures
        r == slot / len,
        r <= max_buckets_of(len as nat),
{
    proof {
        lemma_slot_in_range(slot as nat, len as nat);
    }
    slot / len
}

/// The entry of its bucket that a slot names.
pub fn entry_of(slot: u32, len: u32) -> (r: u32)
    requires
        len > 0,
    ensures
        r == slot % len,
        r < len,
        slot_of(bucket_of_spec(slot, len), r as nat, len as nat) == slot,
{
    proof {
        lemma_slot_joins(slot as nat, len as nat);
    }
    slot % len
}

/// The bucket that a slot lies in, as a number.
pub open spec fn bucket_of_spec(slot: u32, len: u32) -> nat {
    (slot / len) as nat
}

/// The position reached from `start` after `step` moves round a ring of
/// `len` positions.
pub fn rotated(start: usize, step: usize, len: usize) -> (r: usize)
    requires
        start < len,
        step < len,
    ensures
        r == rotated_of(start as nat, step as nat, len as nat),
        r < len,
{
    let room: usize = len - start;
    proof {
        lemma_ring((start + step) as int, len as int);
    }
    if step < room {
        start + step
    } else {
        step - room
    }
}

/// A slot made of a bucket and an entry splits into the same two again.
pub proof fn lemma_slot_splits(bucket: nat, entry: nat, len: nat)
    requires
        entry < len,
    ensures
        slot_of(bucket, entry, len) / len == bucket,
        slot_of(bucket, entry, len) % len == entry,
{
    assert((bucket * len + entry) / len == bucket && (bucket * len + entry) % len == entry)
        by (nonlinear_arith)
        requires
            entry < len,
    ;
}

/// Every slot is the slot of its bucket and its entry, and the entry lies
/// inside the bucket.
pub proof fn lemma_slot_joins(slot: nat, len: nat)
    requires
        len > 0,
    ensures
        slot % len < len,
        slot_of(slot / len, slot % len, len) == slot,
{
    assert((slot / len) * len + slot % len == slot && slot % len < len) by (nonlinear_arith)
        requires
            len > 0,
    ;
}

/// Two entries have the same slot only if they are the same entry of the
/// same bucket.
pub proof fn lemma_slots_differ(b1: nat, e1: nat, b2: nat, e2: nat, len: nat)
    requires
        e1 < len,
        e2 < len,
        slot_of(b1, e1, len) == slot_of(b2, e2, len),
    ensures
        b1 == b2,
        e1 == e2,
{
    lemma_slot_splits(b1, e1, len);
    lemma_slot_splits(b2, e2, len);
}

/// A slot that fits a slot identifier lies in a bucket no further than
/// the bucket limit, and every entry of a bucket below the limit has a
/// slot that fits.
pub proof fn lemma_slot_in_range(slot: nat, len: nat)
    requires
        len > 0,
        slot <= u32::MAX,
    ensures
        slot / len <= max_buckets_of(len),
{
    assert(slot / len <= (u32::MAX as nat) / len) by (nonlinear_arith)
        requires
            len > 0,
            slot <= u32::MAX,
    ;
}

/// Every entry of a bucket below the bucket limit has a slot that fits a
/// slot identifier.
pub proof fn lemma_bucket_in_range(bucket: nat, entry: nat, len: nat)
    requires
        entry < len,
        bucket < max_buckets_of(len),
    ensures
        slot_of(bucket, entry, len) <= u32::MAX,
{
    let top = u32::MAX as nat;
    assert(bucket * len + entry <= top) by (nonlinear_arith)
        requires
            entry < len,
            bucket < top / len,
    ;
}

/// Round a ring, distinct numbers of moves below its length reach
/// distinct positions, and every position is reached.
pub proof fn lemma_rotation_visits_all(start: nat, len: nat, target: nat)
    requires
        start < len,
        target < len,
    ensures
        rotated_of(start, rotation_to(start, target, len), len) == target,
        rotation_to(start, target, len) < len,
        forall|step: nat|
            step < len && #[trigger] rotated_of(start, step, len) == target ==> step
                == rotation_to(start, target, len),
{
    let want = rotation_to(start, target, len);
    lemma_ring((start + want) as int, len as int);
    assert forall|step: nat|
        step < len && #[trigger] rotated_of(start, step, len) == target implies step == want by {
        lemma_ring((start + step) as int, len as int);
    }
}

/// Below twice the length of a ring, a position wraps at most once.
proof fn lemma_ring(x: int, len: int)
    requires
        0 <= x < 2 * len,
    ensures
        x < len ==> x % len == x,
        x >= len ==> x % len == x - len,
{
    assert(x < len ==> x % len == x) by (nonlinear_arith)
        requires
            0 <= x < 2 * len,
    ;
    assert(x >= len ==> x % len == x - len) by (nonlinear_arith)
        requires
            0 <= x < 2 * len,
    ;
}

/// A length is a whole number of words exactly if it leaves no remainder
/// and the quotient is that number.
proof fn lemma_whole_words(len: int, bits: int, words: int)
    requires
        bits > 0,
        len >= 0,
        words >= 0,
    ensures
        (len % bits == 0 && len / bits == words) <==> len == words * bits,
{
    assert(len == bits * (len / bits) + len % bits) by (nonlinear_arith)
        requires
            bits > 0,
    ;
    assert((words * bits) % bits == 0 && (words * bits) / bits == words) by (nonlinear_arith)
        requires
            bits > 0,
            words >= 0,
    ;
    assert(words * bits == bits * words) by (nonlinear_arith);
}

/// The number of moves that lead from `start` to `target` round a ring of
/// `len` positions.
pub open spec fn rotation_to(start: nat, target: nat, len: nat) -> nat {
    if target >= start {
        (target - start) as nat
    } else {
        (target + len - start) as nat
    }
}

} // verus!
