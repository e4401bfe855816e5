//! The arena: a table of buckets that grows under pressure.

use vstd::prelude::*;
use crate::arcs::Arcs;
use crate::bitmap::RETRY_LIMIT;
use crate::bucket::share_again;
use crate::bucket::share_new;
use crate::bucket::ArenaArc;
use crate::bucket::Bucket;
use crate::layout::bucket_limit;
use crate::layout::bucket_of;
use crate::layout::entry_of;
use crate::layout::lemma_slot_splits;
use crate::layout::max_buckets_of;
use crate::layout::rotated;
use crate::layout::valid_config;
use crate::thread_id::get_thread_id;

verus! {

/// The rounds of an insertion that only try to grow the table, before it
/// starts to wait for its turn to grow it.
pub const FAST_ROUNDS: u64 = 5;

/// The buckets that a round of the fast kind asks for beyond those it
/// found.
pub const FAST_GROWTH: u32 = 4;

/// The buckets that a round of the slow kind asks for beyond those it
/// found.
pub const SLOW_GROWTH: u32 = 8;

/// What an insertion does after a round in which every bucket was full.
#[derive(Clone, Copy, Debug, PartialEq, Eq)]
pub enum Growth {
    /// The table has all the buckets it can have: wait for a removal.
    Hold,
    /// Try to grow the table to this many buckets, without waiting.
    Try(u32),
    /// Grow the table to this many buckets, waiting for other growers.
    Wait(u32),
}

/// The smaller of two numbers.
pub open spec fn least(a: int, b: int) -> int {
    if a <= b {
        a
    } else {
        b
    }
}

/// What an insertion does after round number `round`, counted from zero,
/// found `len` buckets and all of them full, in an arena that can have
/// `max` buckets.
pub open spec fn growth_of(round: u64, len: u32, max: u32) -> Growth {
    if len >= max {
        Growth::Hold
    } else if round < FAST_ROUNDS {
        Growth::Try(least(len + FAST_GROWTH, max as int) as u32)
    } else {
        Growth::Wait(least(len + SLOW_GROWTH, max as int) as u32)
    }
}

/// `len` and `more`, but no more than `max`.
fn raised(len: u32, more: u32, max: u32) -> (r: u32)
    requires
        len <= max,
    ensures
        r == least(len + more, max as int),
{
    if max - len <= more {
        max
    } else {
        len + more
    }
}

/// Decides what an insertion does after a round that found every bucket
/// full.
pub fn growth_step(round: u64, len: u32, max: u32) -> (r: Growth)
    ensures
        r == growth_of(round, len, max),
{
    if len >= max {
        Growth::Hold
    } else if round < FAST_ROUNDS {
        Growth::Try(raised(len, FAST_GROWTH, max))
    } else {
        Growth::Wait(raised(len, SLOW_GROWTH, max))
    }
}

/// The number of buckets to reserve when `new_len` are asked for in an
/// arena that can have `max`.
pub fn capped(new_len: u32, max: u32) -> (r: u32)
    ensures
        r == least(new_len as int, max as int),
{
    if new_len <= max {
        new_len
    } else {
        max
    }
}

/// A new bucket behind a shared pointer.
pub fn fresh_bucket<T, const BITARRAY_LEN: usize, const LEN: usize>() -> triomphe::Arc<
    Bucket<T, BITARRAY_LEN, LEN>,
>
    requires
        valid_config(BITARRAY_LEN as nat, LEN as nat),
{
    share_new(Bucket::new())
}

/// An arena of values of type `T`, in buckets of `LEN` entries with
/// `BITARRAY_LEN` words of bitmap each.
///
/// Values are inserted, looked up and removed by any number of threads at
/// once, without a lock.  A value never moves, and lives until the last
/// handle to it is dropped.
#[verifier::reject_recursive_types(T)]
#[verifier::reject_recursive_types(BITARRAY_LEN)]
#[verifier::reject_recursive_types(LEN)]
pub struct Arena<T, const BITARRAY_LEN: usize, const LEN: usize> {
    buckets: Arcs<triomphe::Arc<Bucket<T, BITARRAY_LEN, LEN>>>,
}

impl<T, const BITARRAY_LEN: usize, const LEN: usize> Arena<T, BITARRAY_LEN, LEN> {
    #[verifier::type_invariant]
    spec fn shaped(&self) -> bool {
        valid_config(BITARRAY_LEN as nat, LEN as nat)
    }

    /// The number of buckets that the arena can have.
    pub fn max_buckets() -> (max: u32)
        requires
            valid_config(BITARRAY_LEN as nat, LEN as nat),
        ensures
            max == max_buckets_of(LEN as nat),
    {
        bucket_limit(LEN as u32)
    }

    /// An arena with two buckets.
    pub fn new() -> Self
        requires
            valid_config(BITARRAY_LEN as nat, LEN as nat),
    {
        Self::with_capacity(2)
    }

    /// An arena with no bucket yet: nothing is set aside for values until
    /// the first insertion or reservation.
    pub fn const_new() -> Self
        requires
            valid_config(BITARRAY_LEN as nat, LEN as nat),
    {
        Arena { buckets: Arcs::new() }
    }

    /// An arena with `cap` buckets, or with as many as it can have where
    /// that is less.
    pub fn with_capacity(cap: u32) -> Self
        requires
            valid_config(BITARRAY_LEN as nat, LEN as nat),
    {
        let cap = capped(cap, Self::max_buckets());
        let buckets = Arcs::new();
        buckets.grow(cap as usize, fresh_bucket::<T, BITARRAY_LEN, LEN>);
        Arena { buckets }
    }

    /// Puts `value` into a free entry of one of the buckets that the arena
    /// has now, and returns the first handle to it.  When every bucket
    /// was found full, gives `value` back together with the number of
    /// buckets that were tried.  The search starts at a bucket picked by
    /// the calling thread's identifier and goes round the table once.
    pub fn try_insert(&self, value: T) -> (r: Result<ArenaArc<T, BITARRAY_LEN, LEN>, (T, u32)>)
        ensures
            match r {
                Ok(handle) => {
                    &&& handle@ == value
                    &&& !handle.never_counts()
                    &&& handle.entry_index() < LEN
                    &&& (handle.slot_id() as nat) / (LEN as nat) < max_buckets_of(LEN as nat)
                },
                Err((back, len)) => back == value && len <= max_buckets_of(LEN as nat),
            },
    {
        proof {
            use_type_invariant(self);
        }
        let slice = self.buckets.as_slice();
        let items = slice.as_items();
        let max = Self::max_buckets() as usize;
        let len = if items.len() <= max {
            items.len()
        } else {
            max
        };
        if len == 0 {
            return Err((value, 0));
        }
        let start = get_thread_id() % len;
        let mut item = value;
        let mut step: usize = 0;
        while step < len
            invariant
                valid_config(BITARRAY_LEN as nat, LEN as nat),
                item == value,
                start < len,
                step <= len,
                len <= items@.len(),
                len <= max_buckets_of(LEN as nat),
            decreases len - step,
        {
            let pos = rotated(start, step, len);
            match Bucket::try_insert(&items[pos], pos as u32, item) {
                Ok(handle) => {
                    proof {
                        lemma_slot_splits(
                            pos as nat,
                            handle.entry_index() as nat,
                            LEN as nat,
                        );
                    }
                    return Ok(handle);
                },
                Err(back) => {
                    item = back;
                },
            }
            step = step + 1;
        }
        Err((item, len as u32))
    }

    /// Tries to grow the arena to `new_len` buckets, or to as many as it
    /// can have where that is less.  Returns `false` when another thread
    /// is growing the arena at this moment.
    pub fn try_reserve(&self, new_len: u32) -> (done: bool)
        ensures
            new_len == 0 ==> done,
    {
        proof {
            use_type_invariant(self);
        }
        if new_len == 0 {
            return true;
        }
        let new_len = capped(new_len, Self::max_buckets());
        self.buckets.try_grow(new_len as usize, fresh_bucket::<T, BITARRAY_LEN, LEN>).is_ok()
    }

    /// Grows the arena to `new_len` buckets, or to as many as it can have
    /// where that is less, waiting for other threads that grow it.
    pub fn reserve(&self, new_len: u32) {
        proof {
            use_type_invariant(self);
        }
        if new_len != 0 {
            let new_len = capped(new_len, Self::max_buckets());
            self.buckets.grow(new_len as usize, fresh_bucket::<T, BITARRAY_LEN, LEN>);
        }
    }

    /// Inserts `value` and returns the first handle to it.  After a round
    /// that found every bucket full, the arena is grown as
    /// [`growth_step`] says, and the insertion starts again.  It gives
    /// `value` back only after [`RETRY_LIMIT`] rounds have failed.
    pub fn insert(&self, value: T) -> (r: Result<ArenaArc<T, BITARRAY_LEN, LEN>, T>)
        ensures
            match r {
                Ok(handle) => {
                    &&& handle@ == value
                    &&& !handle.never_counts()
                    &&& handle.entry_index() < LEN
                    &&& (handle.slot_id() as nat) / (LEN as nat) < max_buckets_of(LEN as nat)
                },
                Err(back) => back == value,
            },
    {
        self.insert_within(value, RETRY_LIMIT)
    }

    /// Inserts `value` like [`Arena::insert`], but gives it back after
    /// `rounds` rounds have failed.
    pub fn insert_within(&self, value: T, rounds: u64) -> (r: Result<
        ArenaArc<T, BITARRAY_LEN, LEN>,
        T,
    >)
        ensures
            match r {
                Ok(handle) => {
                    &&& handle@ == value
                    &&& !handle.never_counts()
                    &&& handle.entry_index() < LEN
                    &&& (handle.slot_id() as nat) / (LEN as nat) < max_buckets_of(LEN as nat)
                },
                Err(back) => back == value,
            },
            rounds == 0 ==> r is Err,
    {
        proof {
            use_type_invariant(self);
        }
        let max = Self::max_buckets();
        let mut item = value;
        let mut round: u64 = 0;
        while round < rounds
            invariant
                item == value,
                valid_config(BITARRAY_LEN as nat, LEN as nat),
                max == max_buckets_of(LEN as nat),
            decreases rounds - round,
        {
            match self.try_insert(item) {
                Ok(handle) => {
                    return Ok(handle);
                },
                Err((back, len)) => {
                    item = back;
                    match growth_step(round, len, max) {
                        Growth::Hold => {},
                        Growth::Try(target) => {
                            let _ = self.try_reserve(target);
                        },
                        Growth::Wait(target) => {
                            self.reserve(target);
                        },
                    }
                },
            }
            round = round + 1;
        }
        Err(item)
    }

    /// Removes the entry of `slot` and returns a handle to it, which does
    /// not count as a reference, or `None` when the slot lies in no bucket
    /// that the arena has now or can ever have, or its entry is free or
    /// removed already.
    pub fn remove(&self, slot: u32) -> (r: Option<ArenaArc<T, BITARRAY_LEN, LEN>>)
        ensures
            r matches Some(handle) ==> handle.slot_id() == slot && handle.never_counts(),
            (slot as nat) / (LEN as nat) >= max_buckets_of(LEN as nat) ==> r is None,
    {
        proof {
            use_type_invariant(self);
        }
        let bucket_index = bucket_of(slot, LEN as u32);
        let index = entry_of(slot, LEN as u32);
        let slice = self.buckets.as_slice();
        let items = slice.as_items();
        if bucket_index >= Self::max_buckets() || bucket_index as usize >= items.len() {
            return None;
        }
        Bucket::remove(share_again(&items[bucket_index as usize]), bucket_index, index)
    }

    /// A new handle to the entry of `slot`, which counts as one more
    /// reference, or `None` when the slot lies in no bucket that the arena
    /// has now or can ever have, or its entry is free, removed or at its
    /// limit of references.
    pub fn get(&self, slot: u32) -> (r: Option<ArenaArc<T, BITARRAY_LEN, LEN>>)
        ensures
            r matches Some(handle) ==> handle.slot_id() == slot && !handle.never_counts(),
            (slot as nat) / (LEN as nat) >= max_buckets_of(LEN as nat) ==> r is None,
    {
        proof {
            use_type_invariant(self);
        }
        let bucket_index = bucket_of(slot, LEN as u32);
        let index = entry_of(slot, LEN as u32);
        let slice = self.buckets.as_slice();
        let items = slice.as_items();
        if bucket_index >= Self::max_buckets() || bucket_index as usize >= items.len() {
            return None;
        }
        Bucket::get(share_again(&items[bucket_index as usize]), bucket_index, index)
    }

    /// The number of buckets that the arena has now.
    pub fn len(&self) -> (len: u32)
        ensures
            len <= max_buckets_of(LEN as nat),
    {
        proof {
            use_type_invariant(self);
        }
        let max = Self::max_buckets();
        let len = self.buckets.len();
        if len <= max as usize {
            len as u32
        } else {
            max
        }
    }

    /// Whether the arena has no bucket now.
    pub fn is_empty(&self) -> bool {
        self.buckets.is_empty()
    }
}

/// What an insertion asks for is more than it found and no more than the
/// arena can have; it asks for nothing only when the arena has all its
/// buckets.
pub proof fn lemma_growth_is_bounded(round: u64, len: u32, max: u32)
    ensures
        match growth_of(round, len, max) {
            Growth::Hold => len >= max,
            Growth::Try(target) => len < target <= max && round < FAST_ROUNDS,
            Growth::Wait(target) => len < target <= max && round >= FAST_ROUNDS,
        },
{
}

} // verus!
