//! The state byte of an entry.
//!
//! The high bit is the tombstone: once set, the slot is logically removed.
//! The low seven bits count the handles that count as references on the
//! entry.  Every decision that the concurrent code takes on a state byte
//! it has read is a pure function of that byte, defined and proved here.

use vstd::prelude::*;

verus! {

/// The tombstone bit of a state byte.
pub const REMOVED_MASK: u8 = 0x80;

/// The bits of a state byte that hold the reference count.
pub const REFCNT_MASK: u8 = 0x7f;

/// The largest reference count that a state byte can hold.
pub const MAX_REFCNT: u8 = 0x7f;

/// The state of a free entry: no tombstone, no handle.
pub const EMPTY: u8 = 0;

/// The state that an insertion publishes: one handle, the inserter's.
pub const FRESH: u8 = 1;

/// The reference count that a state byte holds.
pub open spec fn refcount_of(state: u8) -> nat {
    (state % 128) as nat
}

/// Whether the tombstone bit of a state byte is set.
pub open spec fn tombstoned(state: u8) -> bool {
    state >= 128
}

/// What to do with a state byte that was just read.
#[derive(Clone, Copy, Debug, PartialEq, Eq)]
pub enum Step {
    /// The operation fails and leaves the byte alone.
    Refuse,
    /// The entry is being initialised: read the byte again.
    Wait,
    /// Try to replace the byte that was read by this one.
    Swap(u8),
}

/// The step of a lookup: one more handle on a live entry.
pub open spec fn acquire_of(state: u8) -> Step {
    if tombstoned(state) {
        Step::Refuse
    } else if state == 0 {
        Step::Wait
    } else if state == 127 {
        Step::Refuse
    } else {
        Step::Swap((state + 1) as u8)
    }
}

/// The step of a removal by slot: the tombstone is set, the count stays.
pub open spec fn tombstone_of(state: u8) -> Step {
    if tombstoned(state) {
        Step::Refuse
    } else if state == 0 {
        Step::Wait
    } else {
        Step::Swap((state + 128) as u8)
    }
}

/// The step of a removal through a handle: the tombstone is set and the
/// count drops by one.  It needs a second reference besides the handle's.
pub open spec fn detach_of(state: u8) -> Step {
    if tombstoned(state) || state < 2 {
        Step::Refuse
    } else {
        Step::Swap((state + 127) as u8)
    }
}

/// The step of a clone: one more handle, the tombstone untouched.
pub open spec fn share_of(state: u8) -> Step {
    if refcount_of(state) == 0 || refcount_of(state) == 127 {
        Step::Refuse
    } else {
        Step::Swap((state + 1) as u8)
    }
}

/// The operations that exchange a state byte.
#[derive(Clone, Copy, Debug, PartialEq, Eq)]
pub enum Access {
    /// A lookup by slot.
    Get,
    /// A removal by slot.
    Remove,
    /// A removal through a handle.
    Detach,
    /// A clone of a handle.
    Share,
}

/// An exchange that was made on a state byte: the byte that was read, and
/// the byte that took its place.
#[derive(Clone, Copy, Debug, PartialEq, Eq)]
pub struct Exchange {
    pub seen: u8,
    pub next: u8,
}

/// The step that an operation takes on a state byte.
pub open spec fn step_of(state: u8, access: Access) -> Step {
    match access {
        Access::Get => acquire_of(state),
        Access::Remove => tombstone_of(state),
        Access::Detach => detach_of(state),
        Access::Share => share_of(state),
    }
}

/// Whether a handle that found `prev` when it gave up its reference was
/// the last one.
pub open spec fn last_release(prev: u8) -> bool {
    refcount_of(prev) == 1
}

/// The state byte after a handle gave up its reference on `prev`: empty
/// after the last one, else one less, wrapping as the atomic decrement does.
pub open spec fn released(prev: u8) -> u8 {
    if last_release(prev) {
        0
    } else if prev == 0 {
        255
    } else {
        (prev - 1) as u8
    }
}

/// The reference count of a state byte.
pub fn refcount(state: u8) -> (r: u8)
    ensures
        r == refcount_of(state),
        r <= MAX_REFCNT,
    opens_invariants none
    no_unwind
{
    assert(state & 0x7f == state % 128) by (bit_vector);
    state & REFCNT_MASK
}

/// Whether a state byte carries the tombstone.
pub fn is_tombstoned(state: u8) -> (r: bool)
    ensures
        r == tombstoned(state),
    opens_invariants none
    no_unwind
{
    assert((state & 0x80 != 0) == (state >= 128)) by (bit_vector);
    (state & REMOVED_MASK) != 0
}

/// Whether a handle finds its entry removed: a handle that does not
/// count as a reference is what a removal left, and any other handle
/// goes by the tombstone of the state byte read.
pub open spec fn removed_of(counted: bool, state: u8) -> bool {
    !counted || tombstoned(state)
}

/// Whether a handle that counts or not, and that read this state byte,
/// finds its entry removed.
pub fn seen_removed(counted: bool, state: u8) -> (r: bool)
    ensures
        r == removed_of(counted, state),
{
    !counted || is_tombstoned(state)
}

/// Decides a lookup on the state byte read.
pub fn acquire_step(state: u8) -> (r: Step)
    ensures
        r == acquire_of(state),
{
    if is_tombstoned(state) {
        Step::Refuse
    } else if state == 0 {
        Step::Wait
    } else if state == MAX_REFCNT {
        Step::Refuse
    } else {
        Step::Swap(state + 1)
    }
}

/// Decides a removal by slot on the state byte read.
pub fn tombstone_step(state: u8) -> (r: Step)
    ensures
        r == tombstone_of(state),
{
    if is_tombstoned(state) {
        Step::Refuse
    } else if state == 0 {
        Step::Wait
    } else {
        assert(state < 128 ==> state | 0x80 == state + 128) by (bit_vector);
        Step::Swap(state | REMOVED_MASK)
    }
}

/// Decides a removal through a handle on the state byte read.
pub fn detach_step(state: u8) -> (r: Step)
    ensures
        r == detach_of(state),
{
    if is_tombstoned(state) || state < 2 {
        Step::Refuse
    } else {
        let less: u8 = state - 1;
        assert(less < 128 ==> less | 0x80 == less + 128) by (bit_vector);
        Step::Swap(less | REMOVED_MASK)
    }
}

/// Decides a clone on the state byte read.
pub fn share_step(state: u8) -> (r: Step)
    ensures
        r == share_of(state),
{
    let count = refcount(state);
    if count == 0 || count == MAX_REFCNT {
        Step::Refuse
    } else {
        Step::Swap(state + 1)
    }
}

/// Decides operation `access` on the state byte read.
pub fn step_for(state: u8, access: Access) -> (r: Step)
    ensures
        r == step_of(state, access),
{
    match access {
        Access::Get => acquire_step(state),
        Access::Remove => tombstone_step(state),
        Access::Detach => detach_step(state),
        Access::Share => share_step(state),
    }
}

/// Whether the handle that read `prev` while giving up its reference was
/// the last one, so that the value and the slot are now its to release.
pub fn release_is_last(prev: u8) -> (r: bool)
    ensures
        r == last_release(prev),
    opens_invariants none
    no_unwind
{
    refcount(prev) == 1
}

} // verus!
