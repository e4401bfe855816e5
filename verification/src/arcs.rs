//! A table that grows while it is read.
//!
//! The table is one shared array behind an atomic pointer.  A reader takes
//! a snapshot and works on it for as long as it likes; a writer builds a
//! longer array that begins with the items of the old one, and publishes
//! it in one step.  Nothing is ever taken out.

use vstd::prelude::*;
use arc_swap::ArcSwapAny;
use arc_swap::Guard;
use parking_lot::Mutex;
use parking_lot::MutexGuard;
use triomphe::ThinArc;

verus! {

/// The `Mutex` of lock_api, which parking_lot's `Mutex` is made of.
/// Nothing is known here of its state.
#[verifier::external_type_specification]
#[verifier::external_body]
#[verifier::reject_recursive_types(R)]
#[verifier::reject_recursive_types(T)]
pub struct ExMutex<R, T: ?Sized>(parking_lot::lock_api::Mutex<R, T>);

/// The `RawMutex` of parking_lot, the lock inside its `Mutex`.
#[verifier::external_type_specification]
#[verifier::external_body]
pub struct ExRawMutex(parking_lot::RawMutex);

/// The atomic pointer to the array that is published now: an
/// `ArcSwapAny` of arc-swap over an optional `ThinArc` of triomphe.  Any
/// thread may replace the array at any time, so nothing is known of what
/// it holds from one call to the next.
#[verifier::external_body]
#[verifier::reject_recursive_types(T)]
struct Published<T> {
    inner: ArcSwapAny<Option<ThinArc<(), T>>>,
}

/// A snapshot of the table: the `Guard` that `ArcSwapAny::load` hands
/// out.  It keeps the array that it was taken from alive and unchanged.
#[verifier::external_body]
#[verifier::reject_recursive_types(T)]
pub struct Slice<T> {
    guard: Guard<Option<ThinArc<(), T>>>,
}

/// The right to grow the table: the guard of a parking_lot mutex.  The
/// mutex is released when the guard is dropped.
#[verifier::external_body]
struct GrowGuard<'a> {
    guard: MutexGuard<'a, ()>,
}

/// A pointer that publishes no array yet, by `ArcSwapAny::new`.
#[verifier::external_body]
fn unpublished<T>() -> Published<T> {
    Published { inner: ArcSwapAny::new(None) }
}

/// The array that is published now, by `ArcSwapAny::load`.
#[verifier::external_body]
fn load_published<T>(array: &Published<T>) -> Slice<T> {
    Slice { guard: array.inner.load() }
}

/// The items of a snapshot: the slice of the `ThinArc` that the guard
/// holds, and the empty slice where it holds none.
#[verifier::external_body]
fn snapshot_items<T>(slice: &Slice<T>) -> &[T] {
    slice.guard.as_ref().map(|array| &array.slice[..]).unwrap_or(&[])
}

/// Publishes `items` as the new array, by `ThinArc::from_header_and_iter`
/// and `ArcSwapAny::swap`.  The first panics on an iterator that reports
/// a wrong length, which that of a `Vec` never does.  The array that was
/// published before lives on for as long as a snapshot holds it.
#[verifier::external_body]
fn publish<T>(array: &Published<T>, items: Vec<T>) {
    let _old = array.inner.swap(Some(ThinArc::from_header_and_iter((), items.into_iter())));
}

/// A mutex that nobody holds, by `Mutex::new` of parking_lot.
#[verifier::external_body]
fn new_mutex() -> Mutex<()> {
    Mutex::new(())
}

/// Waits for the mutex, by `Mutex::lock` of parking_lot.
#[verifier::external_body]
fn lock_growth(mutex: &Mutex<()>) -> GrowGuard<'_> {
    GrowGuard { guard: mutex.lock() }
}

/// Takes the mutex if nobody holds it, by `Mutex::try_lock` of
/// parking_lot.  Whether it is free is for the other threads to decide.
#[verifier::external_body]
fn try_lock_growth(mutex: &Mutex<()>) -> Option<GrowGuard<'_>> {
    mutex.try_lock().map(|guard| GrowGuard { guard })
}

/// The length of a table of `old_len` items after it was asked to grow to
/// `new_len`: a table never shrinks.
pub open spec fn grown_len(old_len: nat, new_len: nat) -> nat {
    if old_len >= new_len {
        old_len
    } else {
        new_len
    }
}

/// A table of shared items that grows without disturbing its readers.
#[verifier::reject_recursive_types(T)]
pub struct Arcs<T> {
    array: Published<T>,
    mutex: Mutex<()>,
}

impl<T> Slice<T> {
    /// The items of the snapshot.
    pub fn as_items(&self) -> &[T] {
        snapshot_items(self)
    }

    /// The number of items of the snapshot.
    pub fn len(&self) -> usize {
        snapshot_items(self).len()
    }

    /// Whether the snapshot holds no item.
    pub fn is_empty(&self) -> bool {
        snapshot_items(self).len() == 0
    }
}

impl<T> Arcs<T> {
    /// An empty table.
    pub fn new() -> Self {
        Arcs { array: unpublished(), mutex: new_mutex() }
    }

    /// A snapshot of the table as it is now.
    pub fn as_slice(&self) -> Slice<T> {
        load_published(&self.array)
    }

    /// The number of items of the table as it is now.
    pub fn len(&self) -> usize {
        self.as_slice().len()
    }

    /// Whether the table holds no item now.
    pub fn is_empty(&self) -> bool {
        self.len() == 0
    }
}

/// The array that follows `old` when a table grows to `new_len` items:
/// the items of `old`, each cloned, in their places, and behind them
/// items made by `make` up to the new length.  When `old` is that long
/// already, it is `old` again.
pub fn extended<T: Clone, F: Fn() -> T>(old: &[T], new_len: usize, make: &F) -> (items: Vec<T>)
    requires
        make.requires(()),
    ensures
        items@.len() == grown_len(old@.len(), new_len as nat),
        forall|i: int| 0 <= i < old@.len() ==> cloned(old@[i], #[trigger] items@[i]),
        forall|i: int| old@.len() <= i < items@.len() ==> make.ensures((), #[trigger] items@[i]),
{
    let mut items: Vec<T> = Vec::new();
    let old_len = old.len();
    let mut at: usize = 0;
    while at < old_len
        invariant
            old_len == old@.len(),
            at <= old_len,
            items@.len() == at,
            forall|i: int| 0 <= i < at ==> cloned(old@[i], #[trigger] items@[i]),
        decreases old_len - at,
    {
        items.push(old[at].clone());
        at = at + 1;
    }
    while at < new_len
        invariant
            old_len == old@.len(),
            old_len <= at,
            at <= new_len || at == old_len,
            items@.len() == at,
            make.requires(()),
            forall|i: int| 0 <= i < old_len ==> cloned(old@[i], #[trigger] items@[i]),
            forall|i: int| old_len <= i < at ==> make.ensures((), #[trigger] items@[i]),
        decreases new_len - at,
    {
        items.push(make());
        at = at + 1;
    }
    items
}

impl<T: Clone> Arcs<T> {
    /// Grows the table to `new_len` items made by `make`, unless it is
    /// that long already.  Growers wait for one another; readers never
    /// wait.
    pub fn grow<F: Fn() -> T>(&self, new_len: usize, make: F)
        requires
            make.requires(()),
    {
        if self.len() < new_len {
            let _guard = lock_growth(&self.mutex);
            self.do_grow(new_len, &make);
        }
    }

    /// Grows the table like [`Arcs::grow`], but gives up with `Err` when
    /// another thread is growing it at this moment.
    pub fn try_grow<F: Fn() -> T>(&self, new_len: usize, make: F) -> (r: Result<(), ()>)
        requires
            make.requires(()),
        ensures
            new_len == 0 ==> r is Ok,
    {
        if self.len() < new_len {
            match try_lock_growth(&self.mutex) {
                Some(_guard) => {
                    self.do_grow(new_len, &make);
                    Ok(())
                },
                None => Err(()),
            }
        } else {
            Ok(())
        }
    }

    /// Publishes the array that follows the one published now, if that
    /// one is shorter than `new_len`.  The caller holds the mutex.
    fn do_grow<F: Fn() -> T>(&self, new_len: usize, make: &F)
        requires
            make.requires(()),
    {
        let slice = self.as_slice();
        let old = slice.as_items();
        if old.len() >= new_len {
            return ;
        }
        publish(&self.array, extended(old, new_len, make));
    }
}

/// A table that grows is never shorter than before, and is as long as was
/// asked for.
pub proof fn lemma_table_never_shrinks(old_len: nat, new_len: nat)
    ensures
        grown_len(old_len, new_len) >= old_len,
        grown_len(old_len, new_len) >= new_len,
        grown_len(grown_len(old_len, new_len), new_len) == grown_len(old_len, new_len),
{
}

} // verus!
