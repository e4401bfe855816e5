//! Buckets, their entries, and the handles that refer to them.
//!
//! A bucket is a bitmap and a fixed array of entries.  An entry is a state
//! byte and a cell for one value.  A handle keeps its bucket and its value
//! alive, and gives up one reference on its entry when it is dropped.

use vstd::prelude::*;
use std::sync::atomic::AtomicBool;
use std::sync::atomic::AtomicU8;
use std::sync::atomic::Ordering;
use std::sync::Arc;
use arc_swap::ArcSwapOption;
use crate::bitmap::BitMap;
use crate::bitmap::RETRY_LIMIT;
use crate::layout::bucket_limit;
use crate::layout::checked_slot;
use crate::layout::lemma_bucket_in_range;
use crate::layout::max_buckets_of;
use crate::layout::slot_of;
use crate::layout::valid_config;
use crate::state::refcount;
use crate::state::release_is_last;
use crate::state::seen_removed;
use crate::state::step_for;
use crate::state::step_of;
use crate::state::Access;
use crate::state::Exchange;
use crate::state::Step;
use crate::state::EMPTY;
use crate::state::FRESH;

verus! {

/// The `Arc` of triomphe: a shared pointer without weak references.
/// Nothing is known here of what it points to.
#[verifier::external_type_specification]
#[verifier::external_body]
#[verifier::reject_recursive_types(T)]
pub struct ExBucketArc<T: ?Sized>(triomphe::Arc<T>);

/// `std::hint::spin_loop` tells the processor that the thread is waiting.
/// It takes nothing and gives nothing back.
pub assume_specification[ std::hint::spin_loop ]();

/// The cell of an entry: an `ArcSwapOption` of arc-swap, which holds the
/// value of the entry while the entry is taken.  Any thread may fill or
/// clear it at any time, so nothing is known of what it holds from one
/// call to the next.
#[verifier::external_body]
#[verifier::reject_recursive_types(T)]
struct ValueCell<T> {
    inner: ArcSwapOption<T>,
}

/// A cell that holds nothing, by `ArcSwapOption::empty`.
#[verifier::external_body]
fn empty_cell<T>() -> ValueCell<T> {
    ValueCell { inner: ArcSwapOption::empty() }
}

/// Replaces what the cell holds and hands out what it held, by
/// `ArcSwapAny::swap`.  The call never unwinds: it exchanges two pointers
/// and runs no code of `T`.
#[verifier::external_body]
fn cell_swap<T>(cell: &ValueCell<T>, value: Option<Arc<T>>) -> Option<Arc<T>>
    opens_invariants none
    no_unwind
{
    cell.inner.swap(value)
}

/// What the cell holds at the moment of the call, by
/// `ArcSwapAny::load_full`.
#[verifier::external_body]
fn cell_load<T>(cell: &ValueCell<T>) -> Option<Arc<T>> {
    cell.inner.load_full()
}

/// One more pointer to the value of `shared`, by `Arc::clone` of std.
#[verifier::external_body]
fn share_value<T>(shared: &Arc<T>) -> (r: Arc<T>)
    ensures
        r == *shared,
{
    Arc::clone(shared)
}

/// A new bucket behind a shared pointer, by `Arc::new` of triomphe.
#[verifier::external_body]
pub(crate) fn share_new<T>(value: T) -> triomphe::Arc<T> {
    triomphe::Arc::new(value)
}

/// One more pointer to a shared bucket, by `Arc::clone` of triomphe.
#[verifier::external_body]
pub(crate) fn share_again<T>(shared: &triomphe::Arc<T>) -> triomphe::Arc<T> {
    triomphe::Arc::clone(shared)
}

/// The bucket behind a shared pointer, by `Deref::deref` of triomphe's
/// `Arc`.  The call never unwinds.
#[verifier::external_body]
fn shared_ref<T>(shared: &triomphe::Arc<T>) -> &T
    opens_invariants none
    no_unwind
{
    &**shared
}

/// `AtomicU8::fetch_sub` of one, with release ordering.  The call never
/// unwinds, and wraps round below zero; what it returns is the byte as
/// some thread left it.
#[verifier::external_body]
fn drop_reference(counter: &AtomicU8) -> (prev: u8)
    opens_invariants none
    no_unwind
{
    counter.fetch_sub(1, Ordering::Release)
}

/// `AtomicU8::store` with release ordering.  The call never unwinds.
#[verifier::external_body]
fn store_state(counter: &AtomicU8, state: u8)
    opens_invariants none
    no_unwind
{
    counter.store(state, Ordering::Release)
}

/// `AtomicBool::load` with relaxed ordering.  The call never unwinds.
#[verifier::external_body]
fn flag_is_set(flag: &AtomicBool) -> bool
    opens_invariants none
    no_unwind
{
    flag.load(Ordering::Relaxed)
}

/// `std::sync::atomic::fence` with acquire ordering.  The call never
/// unwinds.
#[verifier::external_body]
fn acquire_fence()
    opens_invariants none
    no_unwind
{
    std::sync::atomic::fence(Ordering::Acquire)
}

/// An array of `LEN` free entries, by `array_init` of array-init.
#[verifier::external_body]
fn new_entries<T, const LEN: usize>() -> [Entry<T>; LEN] {
    array_init::array_init(|_| Entry::new())
}

/// One slot of a bucket: its state byte and the cell for its value.
#[verifier::reject_recursive_types(T)]
struct Entry<T> {
    counter: AtomicU8,
    val: ValueCell<T>,
}

impl<T> Entry<T> {
    /// A free entry.
    fn new() -> Self {
        Entry { counter: AtomicU8::new(EMPTY), val: empty_cell() }
    }
}

/// A bitmap of `BITARRAY_LEN` words and the `LEN` entries that its bits
/// stand for.
#[verifier::reject_recursive_types(T)]
pub struct Bucket<T, const BITARRAY_LEN: usize, const LEN: usize> {
    bitset: BitMap<BITARRAY_LEN>,
    entries: [Entry<T>; LEN],
}

/// Tries once to replace the state byte `seen` by `next`.  On failure it
/// hands out the byte that it found instead.  The acquire ordering lets
/// the thread that succeeds find the value in the cell.
fn try_swap(counter: &AtomicU8, seen: u8, next: u8) -> Result<u8, u8> {
    counter.compare_exchange_weak(seen, next, Ordering::Acquire, Ordering::Relaxed)
}

/// Reads a state byte with relaxed ordering.
fn read_state(counter: &AtomicU8) -> u8 {
    counter.load(Ordering::Relaxed)
}

/// Waits until the state byte of an entry that was just claimed reads
/// empty, and returns whether it did.  The acquire ordering pairs with the
/// release of the handle that freed the entry, so that what that handle
/// did to the cell is seen here.
fn await_release(counter: &AtomicU8) -> (empty: bool) {
    let mut tries = RETRY_LIMIT;
    while tries > 0
        decreases tries,
    {
        tries = tries - 1;
        if counter.load(Ordering::Acquire) == EMPTY {
            return true;
        }
        std::hint::spin_loop();
    }
    false
}

/// Publishes an insertion: one handle, no tombstone.  The release
/// ordering lets whoever reads the state byte find the value in the cell.
fn publish_fresh(counter: &AtomicU8) {
    counter.store(FRESH, Ordering::Release)
}

/// Marks a handle as one that does not count as a reference.
fn stop_counting(flag: &AtomicBool) {
    flag.store(false, Ordering::Relaxed)
}

/// A handle to one entry of a bucket.  It keeps the bucket and the value
/// alive.  A handle made by an insertion, a lookup or a clone counts as
/// one reference on the entry until it is dropped; the handle that a
/// removal leaves does not.  An entry can have at most
/// [`crate::state::MAX_REFCNT`] references.
#[verifier::reject_recursive_types(T)]
#[verifier::reject_recursive_types(BITARRAY_LEN)]
#[verifier::reject_recursive_types(LEN)]
pub struct ArenaArc<T, const BITARRAY_LEN: usize, const LEN: usize> {
    slot: u32,
    index: u32,
    spare: bool,
    counted: AtomicBool,
    bucket: triomphe::Arc<Bucket<T, BITARRAY_LEN, LEN>>,
    value: Arc<T>,
}

impl<T, const BITARRAY_LEN: usize, const LEN: usize> Bucket<T, BITARRAY_LEN, LEN> {
    #[verifier::type_invariant]
    spec fn shaped(&self) -> bool {
        valid_config(BITARRAY_LEN as nat, LEN as nat)
    }

    /// A bucket with every entry free.
    pub fn new() -> Self
        requires
            valid_config(BITARRAY_LEN as nat, LEN as nat),
    {
        Bucket { bitset: BitMap::new(), entries: new_entries() }
    }

    /// Carries operation `access` out on the state byte of entry `index`:
    /// reads it, takes the step that the operation asks for, and starts
    /// again when another thread changed the byte first.  While it waits
    /// for an insertion to publish the entry, it gives up as soon as the
    /// bitmap says that the entry is free after all.  Returns the
    /// exchange that it made, if it made one: the byte that it replaced
    /// asked for a swap, and the byte that it put there is the one asked
    /// for.
    fn settle(&self, index: u32, access: Access) -> (made: Option<Exchange>)
        requires
            index < LEN,
        ensures
            made matches Some(exchange) ==> step_of(exchange.seen, access) == Step::Swap(
                exchange.next,
            ),
    {
        let counter = &self.entries[index as usize].counter;
        let mut state = read_state(counter);
        let mut tries = RETRY_LIMIT;
        while tries > 0
            invariant
                index < LEN,
            decreases tries,
        {
            tries = tries - 1;
            match step_for(state, access) {
                Step::Refuse => {
                    return None;
                },
                Step::Wait => {
                    if !self.bitset.load(index) {
                        return None;
                    }
                    std::hint::spin_loop();
                    state = read_state(counter);
                },
                Step::Swap(next) => {
                    match try_swap(counter, state, next) {
                        Ok(_) => {
                            return Some(Exchange { seen: state, next });
                        },
                        Err(seen) => {
                            state = seen;
                        },
                    }
                },
            }
        }
        None
    }

    /// Gives up one reference on entry `index`.  The caller that finds
    /// the last reference clears the cell, empties the state byte and
    /// releases the bit, in this order.
    fn release(&self, index: u32)
        requires
            index < LEN,
        opens_invariants none
        no_unwind
    {
        let entry = &self.entries[index as usize];
        let prev = drop_reference(&entry.counter);
        if release_is_last(prev) {
            acquire_fence();
            let _ = cell_swap(&entry.val, None);
            store_state(&entry.counter, EMPTY);
            self.bitset.deallocate(index as usize);
        }
    }
}

impl<T, const BITARRAY_LEN: usize, const LEN: usize> Bucket<T, BITARRAY_LEN, LEN> {
    /// Puts `value` into a free entry and returns the first handle to it,
    /// or gives `value` back when no entry was found free, or when the
    /// slots of bucket `bucket_index` do not fit a slot identifier.  The
    /// value is written into the cell before the state byte is published.
    pub fn try_insert(this: &triomphe::Arc<Self>, bucket_index: u32, value: T) -> (r: Result<
        ArenaArc<T, BITARRAY_LEN, LEN>,
        T,
    >)
        ensures
            match r {
                Ok(handle) => {
                    &&& handle@ == value
                    &&& !handle.never_counts()
                    &&& handle.entry_index() < LEN
                    &&& handle.slot_id() == slot_of(
                        bucket_index as nat,
                        handle.entry_index() as nat,
                        LEN as nat,
                    )
                },
                Err(back) => back == value,
            },
            bucket_index >= max_buckets_of(LEN as nat) ==> r is Err,
    {
        let bucket = shared_ref(this);
        proof {
            use_type_invariant(bucket);
        }
        if bucket_index >= bucket_limit(LEN as u32) {
            return Err(value);
        }
        let place = match bucket.bitset.allocate() {
            Some(place) => place,
            None => {
                return Err(value);
            },
        };
        let index = place as u32;
        proof {
            lemma_bucket_in_range(bucket_index as nat, index as nat, LEN as nat);
        }
        let slot = match checked_slot(bucket_index, index, LEN as u32) {
            Some(slot) => slot,
            None => {
                return Err(value);
            },
        };
        let entry = &bucket.entries[place];
        if !await_release(&entry.counter) {
            bucket.bitset.deallocate(place);
            return Err(value);
        }
        let shared = Arc::new(value);
        let _ = cell_swap(&entry.val, Some(share_value(&shared)));
        publish_fresh(&entry.counter);
        Ok(
            ArenaArc {
                slot,
                index,
                spare: false,
                counted: AtomicBool::new(true),
                bucket: share_again(this),
                value: shared,
            },
        )
    }

    /// A new handle to entry `index`, which counts as one more reference,
    /// or `None` when the entry is free, removed, or at its limit of
    /// references, when `index` lies outside the bucket, or when the slot
    /// does not fit a slot identifier.
    pub fn get(this: triomphe::Arc<Self>, bucket_index: u32, index: u32) -> (r: Option<
        ArenaArc<T, BITARRAY_LEN, LEN>,
    >)
        ensures
            r matches Some(handle) ==> {
                &&& !handle.never_counts()
                &&& handle.entry_index() == index
                &&& index < LEN
                &&& handle.slot_id() == slot_of(bucket_index as nat, index as nat, LEN as nat)
            },
            index >= LEN ==> r is None,
            slot_of(bucket_index as nat, index as nat, LEN as nat) > u32::MAX ==> r is None,
    {
        let bucket = shared_ref(&this);
        proof {
            use_type_invariant(bucket);
        }
        if index >= LEN as u32 {
            return None;
        }
        let slot = match checked_slot(bucket_index, index, LEN as u32) {
            Some(slot) => slot,
            None => {
                return None;
            },
        };
        if !bucket.bitset.load(index) {
            return None;
        }
        if bucket.settle(index, Access::Get).is_none() {
            return None;
        }
        match cell_load(&bucket.entries[index as usize].val) {
            Some(value) => Some(
                ArenaArc {
                    slot,
                    index,
                    spare: false,
                    counted: AtomicBool::new(true),
                    bucket: this,
                    value,
                },
            ),
            None => {
                bucket.release(index);
                None
            },
        }
    }

    /// Removes entry `index` and returns a handle to it, or `None` when
    /// the entry is free or removed already, when `index` lies outside the
    /// bucket, or when the slot does not fit a slot identifier.  The count
    /// of the entry stays as it is, and the handle does not count as a
    /// reference.  The value lives on until its last handle is dropped.
    pub fn remove(this: triomphe::Arc<Self>, bucket_index: u32, index: u32) -> (r: Option<
        ArenaArc<T, BITARRAY_LEN, LEN>,
    >)
        ensures
            r matches Some(handle) ==> {
                &&& handle.never_counts()
                &&& handle.entry_index() == index
                &&& index < LEN
                &&& handle.slot_id() == slot_of(bucket_index as nat, index as nat, LEN as nat)
            },
            index >= LEN ==> r is None,
            slot_of(bucket_index as nat, index as nat, LEN as nat) > u32::MAX ==> r is None,
    {
        let bucket = shared_ref(&this);
        proof {
            use_type_invariant(bucket);
        }
        if index >= LEN as u32 {
            return None;
        }
        let slot = match checked_slot(bucket_index, index, LEN as u32) {
            Some(slot) => slot,
            None => {
                return None;
            },
        };
        if !bucket.bitset.load(index) {
            return None;
        }
        if bucket.settle(index, Access::Remove).is_none() {
            return None;
        }
        match cell_load(&bucket.entries[index as usize].val) {
            Some(value) => Some(
                ArenaArc {
                    slot,
                    index,
                    spare: true,
                    counted: AtomicBool::new(false),
                    bucket: this,
                    value,
                },
            ),
            None => None,
        }
    }
}

impl<T, const BITARRAY_LEN: usize, const LEN: usize> ArenaArc<T, BITARRAY_LEN, LEN> {
    #[verifier::type_invariant]
    spec fn well_formed(&self) -> bool {
        &&& valid_config(BITARRAY_LEN as nat, LEN as nat)
        &&& self.index < LEN
        &&& self.slot as nat == slot_of((self.slot as nat) / (LEN as nat), self.index as nat, LEN as nat)
    }

    /// The slot that the handle refers to.
    pub closed spec fn slot_id(&self) -> u32 {
        self.slot
    }

    /// The entry of its bucket that the handle refers to.
    pub closed spec fn entry_index(&self) -> u32 {
        self.index
    }

    /// The value that the handle refers to.
    pub closed spec fn view(&self) -> T {
        *self.value
    }

    /// Whether the handle was made without counting as a reference: the
    /// handle that a removal by slot hands out, and every clone of a
    /// handle that does not count.
    pub closed spec fn never_counts(&self) -> bool {
        self.spare
    }

    /// The slot that the handle refers to: the slot of an entry inside a
    /// bucket.
    pub fn slot(this: &Self) -> (slot: u32)
        ensures
            slot == this.slot_id(),
            this.entry_index() < LEN,
            slot as nat == slot_of((slot as nat) / (LEN as nat), this.entry_index() as nat, LEN as nat),
    {
        proof {
            use_type_invariant(this);
        }
        this.slot
    }

    /// The entry of its bucket that the handle refers to.
    pub fn index(this: &Self) -> (index: u32)
        ensures
            index == this.entry_index(),
            index < LEN,
    {
        proof {
            use_type_invariant(this);
        }
        this.index
    }

    fn get_entry(this: &Self) -> &Entry<T> {
        proof {
            use_type_invariant(this);
        }
        &shared_ref(&this.bucket).entries[this.index as usize]
    }

    /// The number of references on the entry at the moment of the call.
    pub fn strong_count(this: &Self) -> (count: u8)
        ensures
            count <= crate::state::MAX_REFCNT,
    {
        refcount(read_state(&Self::get_entry(this).counter))
    }

    /// Whether the entry was removed by the moment of the call.  A handle
    /// that does not count as a reference is what a removal left, so its
    /// entry was removed.
    pub fn is_removed(this: &Self) -> (removed: bool)
        ensures
            this.never_counts() ==> removed,
    {
        let counted = !this.spare && flag_is_set(&this.counted);
        seen_removed(counted, read_state(&Self::get_entry(this).counter))
    }

    /// Removes the entry and gives up the reference of this handle, which
    /// lives on without counting.  Returns `false` when the entry is
    /// removed already, as it is for a handle that does not count, or when
    /// this handle holds the only reference, and leaves it as it is.
    pub fn remove(this: &Self) -> (done: bool)
        ensures
            this.never_counts() ==> !done,
    {
        if this.spare || !flag_is_set(&this.counted) {
            return false;
        }
        proof {
            use_type_invariant(this);
        }
        let done = shared_ref(&this.bucket).settle(this.index, Access::Detach).is_some();
        if done {
            stop_counting(&this.counted);
        }
        done
    }

    /// One more handle to the same value, or `None` when the entry is at
    /// its limit of references.  The clone of a handle that counts as a
    /// reference counts as one more; the clone of one that does not, does
    /// not either, and is always made.
    pub fn try_clone(this: &Self) -> (r: Option<Self>)
        ensures
            this.never_counts() ==> r is Some,
            r matches Some(handle) ==> {
                &&& handle@ == this@
                &&& handle.slot_id() == this.slot_id()
                &&& handle.entry_index() == this.entry_index()
                &&& this.never_counts() ==> handle.never_counts()
            },
    {
        proof {
            use_type_invariant(this);
        }
        let counted = !this.spare && flag_is_set(&this.counted);
        if counted && shared_ref(&this.bucket).settle(this.index, Access::Share).is_none() {
            return None;
        }
        Some(
            ArenaArc {
                slot: this.slot,
                index: this.index,
                spare: !counted,
                counted: AtomicBool::new(counted),
                bucket: share_again(&this.bucket),
                value: share_value(&this.value),
            },
        )
    }
}

impl<T, const BITARRAY_LEN: usize, const LEN: usize> std::ops::Deref for ArenaArc<
    T,
    BITARRAY_LEN,
    LEN,
> {
    type Target = T;

    fn deref(&self) -> (value: &T)
        ensures
            *value == self@,
    {
        &*self.value
    }
}

impl<T, const BITARRAY_LEN: usize, const LEN: usize> Drop for ArenaArc<T, BITARRAY_LEN, LEN> {
    fn drop(&mut self)
        opens_invariants none
        no_unwind
    {
        proof {
            use_type_invariant(&*self);
        }
        if !self.spare && flag_is_set(&self.counted) {
            shared_ref(&self.bucket).release(self.index);
        }
    }
}

} // verus!
