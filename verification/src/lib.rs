//! A concurrent arena: stable storage for values of one type, with a
//! reference count on each slot and insertion, lookup and removal that
//! take no lock.
//!
//! An [`Arena`] is a table of buckets ([`arcs`], [`bucket`]); a bucket is a
//! bitmap ([`bitmap`]) and a fixed array of entries; an entry is one state
//! byte ([`state`]) and a cell for one value.  A slot identifier names one
//! entry of one bucket ([`layout`]).  An [`ArenaArc`] is a handle to an
//! entry: it keeps the value alive, and an entry is free again when the
//! last handle that counts on it is dropped.
//!
//! What a thread reads of a word or a byte that other threads write may
//! be stale at once, so the operations on the arena promise of their
//! results only what holds whatever the other threads do.  What they
//! decide on a value they have read is decided by functions on plain
//! values, which are proved to do what [`lifecycle`] describes; the laws
//! of the arena are proved there, of every history of one slot.
//!
//! No operation waits without end: one that is overtaken by other threads
//! [`bitmap::RETRY_LIMIT`] times in a row gives up as if it had been
//! refused.

pub mod arcs;
pub mod arena;
pub mod bitmap;
pub mod bucket;
pub mod layout;
pub mod lifecycle;
pub mod state;
mod thread_id;

pub use arena::Arena;
pub use bucket::ArenaArc;
pub use state::MAX_REFCNT;
