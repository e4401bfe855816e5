//! A number that tells the calling thread from the others.

use vstd::prelude::*;
use parking_lot::lock_api::GetThreadId;
use parking_lot::RawThreadId;

verus! {

/// The identifier of the calling thread, by `RawThreadId::nonzero_thread_id`
/// of parking_lot.  It is the address of a thread-local variable, so it
/// differs from thread to thread and from run to run; all that is claimed
/// of it is that it is not zero, which the `NonZeroUsize` it comes in
/// guarantees.
#[verifier::external_body]
pub(crate) fn get_thread_id() -> (id: usize)
    ensures
        id != 0,
{
    RawThreadId::INIT.nonzero_thread_id().get()
}

} // verus!
