//! The life of one slot, as a sequential model.
//!
//! A slot is its bitmap bit, its state byte, the value in its cell, and
//! the handles that count as references on it.  Each operation of the
//! arena acts on a slot by one of the steps of [`crate::state`]; the model
//! below applies those steps one after another, and the laws that follow
//! say what then holds of every history.
//!
//! A handle counts as a reference from the insertion, lookup or clone that
//! made it until it is dropped.  A removal leaves one handle that does not
//! count: the handle that a removal by slot hands out never did, and the
//! handle that a removal goes through stops counting.  Such a handle keeps
//! the value alive and leaves the state byte alone.

use vstd::prelude::*;
use crate::state::{
    last_release, refcount_of, released, step_of, tombstoned, Access, Step, EMPTY, FRESH,
};

verus! {

/// One slot: its bit in the bucket's bitmap, its state byte, the number
/// of handles that count as references on it, and what its cell holds.
pub struct Slot<V> {
    pub bit: bool,
    pub state: u8,
    pub holders: nat,
    pub cell: Option<V>,
}

/// What happens to a slot.
pub enum Event<V> {
    /// An insertion of this value claims the slot.
    Insert(V),
    /// An operation exchanges the state byte.
    Touch(Access),
    /// A handle that counts is dropped.
    Release,
}

/// The state byte that a step leaves when its exchange succeeds.
pub open spec fn settled(step: Step, state: u8) -> u8 {
    match step {
        Step::Swap(next) => next,
        _ => state,
    }
}

/// Whether an event succeeds on a slot: an insertion claims it, a lookup
/// or a removal by slot hands out a handle, a removal through a handle
/// reports `true`, a clone hands out a handle.
pub open spec fn granted<V>(s: Slot<V>, e: Event<V>) -> bool {
    match e {
        Event::Insert(_) => !s.bit,
        Event::Touch(access) => match access {
            Access::Get | Access::Remove => s.bit && step_of(s.state, access) is Swap,
            Access::Detach | Access::Share => step_of(s.state, access) is Swap,
        },
        Event::Release => true,
    }
}

/// The handles that count on a slot after an exchange that succeeded.
pub open spec fn holders_after(holders: nat, access: Access) -> nat {
    match access {
        Access::Get | Access::Share => holders + 1,
        Access::Remove => holders,
        Access::Detach => less_one(holders),
    }
}

/// One less, but not below zero.
pub open spec fn less_one(n: nat) -> nat {
    if n > 0 {
        (n - 1) as nat
    } else {
        0
    }
}

/// The slot after an event.
pub open spec fn after<V>(s: Slot<V>, e: Event<V>) -> Slot<V> {
    match e {
        Event::Insert(value) => if s.bit {
            s
        } else {
            Slot { bit: true, state: FRESH, holders: 1, cell: Some(value) }
        },
        Event::Touch(access) => if granted(s, e) {
            Slot {
                bit: s.bit,
                state: settled(step_of(s.state, access), s.state),
                holders: holders_after(s.holders, access),
                cell: s.cell,
            }
        } else {
            s
        },
        Event::Release => Slot {
            bit: s.bit && !last_release(s.state),
            state: released(s.state),
            holders: less_one(s.holders),
            cell: if last_release(s.state) {
                None
            } else {
                s.cell
            },
        },
    }
}

/// The value that the handle refers to which an event hands out, when it
/// hands one out.
pub open spec fn handed<V>(s: Slot<V>, e: Event<V>) -> Option<V> {
    if granted(s, e) {
        match e {
            Event::Insert(value) => Some(value),
            Event::Touch(Access::Detach) => None,
            Event::Touch(_) => s.cell,
            Event::Release => None,
        }
    } else {
        None
    }
}

/// Whether an event can happen at all: a clone, a removal through a
/// handle and a drop need a handle that counts.
pub open spec fn possible<V>(s: Slot<V>, e: Event<V>) -> bool {
    match e {
        Event::Touch(Access::Detach) | Event::Touch(Access::Share) | Event::Release => s.holders
            >= 1,
        _ => true,
    }
}

/// The slot after a history of events, oldest first.
pub open spec fn run<V>(s: Slot<V>, events: Seq<Event<V>>) -> Slot<V>
    decreases events.len(),
{
    if events.len() == 0 {
        s
    } else {
        after(run(s, events.drop_last()), events.last())
    }
}

/// Whether every event of a history can happen when its turn comes.
pub open spec fn feasible<V>(s: Slot<V>, events: Seq<Event<V>>) -> bool
    decreases events.len(),
{
    if events.len() == 0 {
        true
    } else {
        feasible(s, events.drop_last()) && possible(run(s, events.drop_last()), events.last())
    }
}

/// Whether a history holds no insertion.
pub open spec fn without_insert<V>(events: Seq<Event<V>>) -> bool {
    forall|i: int| 0 <= i < events.len() ==> !(#[trigger] events[i] is Insert)
}

/// A slot that is free.
pub open spec fn free_slot<V>() -> Slot<V> {
    Slot { bit: false, state: EMPTY, holders: 0, cell: None }
}

/// A slot on which the insertion of `value` has just been published.
pub open spec fn fresh_slot<V>(value: V) -> Slot<V> {
    Slot { bit: true, state: FRESH, holders: 1, cell: Some(value) }
}

/// A slot whose state byte tells the truth: a slot that is taken holds a
/// value and counts as many references as handles count on it, and at
/// least one; a free slot holds no value, has an empty state byte and no
/// such handle.
pub open spec fn sound<V>(s: Slot<V>) -> bool {
    if s.bit {
        refcount_of(s.state) == s.holders && s.holders >= 1 && s.cell is Some
    } else {
        s.state == EMPTY && s.holders == 0 && s.cell is None
    }
}

/// A slot that no lookup and no removal by slot can reach: its bit is
/// clear, or it carries the tombstone and some handle still holds it.
pub open spec fn hidden<V>(s: Slot<V>) -> bool {
    !s.bit || (tombstoned(s.state) && refcount_of(s.state) >= 1)
}

/// The clones of a history minus its drops.
pub open spec fn net_shares<V>(events: Seq<Event<V>>) -> int
    decreases events.len(),
{
    if events.len() == 0 {
        0
    } else {
        net_shares(events.drop_last()) + match events.last() {
            Event::Touch(Access::Share) => 1int,
            Event::Release => -1int,
            _ => 0int,
        }
    }
}

/// A history of clones and drops on handles that stay alive: every clone
/// is granted, and no drop is the last one.
pub open spec fn steady<V>(s: Slot<V>, events: Seq<Event<V>>) -> bool
    decreases events.len(),
{
    if events.len() == 0 {
        true
    } else {
        let before = run(s, events.drop_last());
        &&& steady(s, events.drop_last())
        &&& match events.last() {
            Event::Touch(Access::Share) => granted(before, events.last()),
            Event::Release => refcount_of(before.state) >= 2,
            _ => false,
        }
    }
}

/// An insertion that is granted publishes its value, and the lookup that
/// follows it at once is granted, hands out a handle to that value, and
/// leaves two handles on a slot that is not removed.
pub proof fn lemma_insert_then_get<V>(s: Slot<V>, value: V)
    requires
        granted(s, Event::Insert(value)),
    ensures
        after(s, Event::Insert(value)) == fresh_slot(value),
        handed(s, Event::Insert(value)) == Some(value),
        granted(fresh_slot(value), Event::Touch(Access::Get)),
        handed(fresh_slot(value), Event::Touch(Access::Get)) == Some(value),
        after(fresh_slot(value), Event::Touch(Access::Get)) == (Slot {
            bit: true,
            state: 2,
            holders: 2,
            cell: Some(value),
        }),
{
}

/// Until it is removed or its last handle is dropped, a slot that was
/// inserted into answers every lookup with a handle to the value that was
/// inserted, as long as it is below its limit of references.
pub proof fn lemma_lookup_finds_the_value<V>(value: V, events: Seq<Event<V>>)
    requires
        feasible(fresh_slot(value), events),
        forall|i: int|
            0 <= i < events.len() ==> (#[trigger] events[i] is Touch
                && events[i]->Touch_0 != Access::Remove && events[i]->Touch_0 != Access::Detach)
                || (events[i] is Release && refcount_of(
                run(fresh_slot(value), events.take(i)).state,
            ) >= 2),
    ensures
        sound(run(fresh_slot(value), events)),
        run(fresh_slot(value), events).bit,
        !tombstoned(run(fresh_slot(value), events).state),
        run(fresh_slot(value), events).cell == Some(value),
        refcount_of(run(fresh_slot(value), events).state) < 127 ==> handed(
            run(fresh_slot(value), events),
            Event::Touch(Access::Get),
        ) == Some(value),
    decreases events.len(),
{
    let start = fresh_slot(value);
    if events.len() > 0 {
        let head = events.drop_last();
        assert forall|i: int| 0 <= i < head.len() implies (#[trigger] head[i] is Touch
            && head[i]->Touch_0 != Access::Remove && head[i]->Touch_0 != Access::Detach) || (
        head[i] is Release && refcount_of(run(start, head.take(i)).state) >= 2) by {
            assert(head[i] == events[i]);
            assert(head.take(i) == events.take(i));
        }
        lemma_lookup_finds_the_value(value, head);
        assert(events.take(events.len() - 1) == head);
        assert(events[events.len() - 1] == events.last());
        lemma_sound_is_kept(run(start, head), events.last());
    }
}

/// Whatever happens to a hidden slot, short of a new insertion, leaves it
/// hidden.
pub proof fn lemma_hidden_is_kept<V>(s: Slot<V>, e: Event<V>)
    requires
        hidden(s),
        !(e is Insert),
    ensures
        hidden(after(s, e)),
        !granted(s, Event::<V>::Touch(Access::Get)),
        !granted(s, Event::<V>::Touch(Access::Remove)),
{
}

/// A hidden slot stays hidden through every history that holds no
/// insertion.
pub proof fn lemma_hidden_stays_hidden<V>(s: Slot<V>, events: Seq<Event<V>>)
    requires
        hidden(s),
        without_insert(events),
    ensures
        hidden(run(s, events)),
        !granted(run(s, events), Event::<V>::Touch(Access::Get)),
        !granted(run(s, events), Event::<V>::Touch(Access::Remove)),
    decreases events.len(),
{
    if events.len() > 0 {
        let head = events.drop_last();
        assert forall|i: int| 0 <= i < head.len() implies !(#[trigger] head[i] is Insert) by {
            assert(head[i] == events[i]);
        }
        lemma_hidden_stays_hidden(s, head);
        lemma_hidden_is_kept(run(s, head), events.last());
    }
    lemma_hidden_is_kept(run(s, events), Event::<V>::Release);
}

/// A removal by slot that is granted hides the slot: until a new
/// insertion claims it, every later lookup and every later removal by
/// slot is refused.
pub proof fn lemma_removed_stays_hidden<V>(s: Slot<V>, events: Seq<Event<V>>)
    requires
        granted(s, Event::<V>::Touch(Access::Remove)),
        without_insert(events),
    ensures
        !granted(run(after(s, Event::<V>::Touch(Access::Remove)), events), Event::<V>::Touch(Access::Get)),
        !granted(
            run(after(s, Event::<V>::Touch(Access::Remove)), events),
            Event::<V>::Touch(Access::Remove),
        ),
{
    lemma_hidden_stays_hidden(after(s, Event::<V>::Touch(Access::Remove)), events);
}

/// A removal through a handle that is granted hides the slot in the same
/// way.
pub proof fn lemma_detached_stays_hidden<V>(s: Slot<V>, events: Seq<Event<V>>)
    requires
        granted(s, Event::<V>::Touch(Access::Detach)),
        without_insert(events),
    ensures
        !granted(run(after(s, Event::<V>::Touch(Access::Detach)), events), Event::<V>::Touch(Access::Get)),
        !granted(
            run(after(s, Event::<V>::Touch(Access::Detach)), events),
            Event::<V>::Touch(Access::Remove),
        ),
{
    lemma_hidden_stays_hidden(after(s, Event::<V>::Touch(Access::Detach)), events);
}

/// Of two removals in a row, the second is refused, whether by slot or
/// through a handle; the first leaves the count as it was.
pub proof fn lemma_remove_once<V>(s: Slot<V>)
    requires
        granted(s, Event::<V>::Touch(Access::Remove)),
    ensures
        !granted(after(s, Event::<V>::Touch(Access::Remove)), Event::<V>::Touch(Access::Remove)),
        !granted(after(s, Event::<V>::Touch(Access::Remove)), Event::<V>::Touch(Access::Detach)),
        handed(s, Event::<V>::Touch(Access::Remove)) == s.cell,
        refcount_of(after(s, Event::<V>::Touch(Access::Remove)).state) == refcount_of(s.state),
        tombstoned(after(s, Event::<V>::Touch(Access::Remove)).state),
{
}

/// The drop that finds one reference on a slot frees it: the state byte
/// is empty, the bit is clear, the cell holds nothing, and an insertion
/// may claim the slot again.
pub proof fn lemma_last_release_frees<V>(s: Slot<V>, next: V)
    requires
        last_release(s.state),
    ensures
        !after(s, Event::Release).bit,
        after(s, Event::Release).state == EMPTY,
        after(s, Event::Release).cell is None,
        sound(s) ==> after(s, Event::Release) == free_slot::<V>(),
        granted(after(s, Event::Release), Event::Insert(next)),
        after(after(s, Event::Release), Event::Insert(next)) == fresh_slot(next),
{
}

/// The state byte tells the truth after every event that can happen, if
/// it did before: the count of a slot that is taken is the number of
/// handles that count on it, and its cell holds a value.
pub proof fn lemma_sound_is_kept<V>(s: Slot<V>, e: Event<V>)
    requires
        sound(s),
        possible(s, e),
    ensures
        sound(after(s, e)),
{
}

/// From a free slot on, the state byte tells the truth after every
/// history in which each event can happen when its turn comes.
pub proof fn lemma_count_is_true<V>(events: Seq<Event<V>>)
    requires
        feasible(free_slot::<V>(), events),
    ensures
        sound(run(free_slot::<V>(), events)),
    decreases events.len(),
{
    if events.len() > 0 {
        lemma_count_is_true(events.drop_last());
        lemma_sound_is_kept(run(free_slot::<V>(), events.drop_last()), events.last());
    }
}

/// The tombstone, once set on a slot that a handle holds, stays until the
/// drop that empties the state byte and clears the bit.
pub proof fn lemma_tombstone_is_final<V>(s: Slot<V>, e: Event<V>)
    requires
        tombstoned(s.state),
        refcount_of(s.state) >= 1,
        !(e is Insert),
    ensures
        tombstoned(after(s, e).state) || (!after(s, e).bit && after(s, e).state == EMPTY),
{
}

/// A clone that is granted adds one to the count, a drop that is not the
/// last takes one away, and neither touches the tombstone, the bit or the
/// value.
pub proof fn lemma_share_and_release<V>(s: Slot<V>)
    ensures
        granted(s, Event::<V>::Touch(Access::Share)) ==> {
            let t = after(s, Event::<V>::Touch(Access::Share));
            &&& refcount_of(t.state) == refcount_of(s.state) + 1
            &&& tombstoned(t.state) == tombstoned(s.state)
            &&& t.bit == s.bit
            &&& t.cell == s.cell
        },
        refcount_of(s.state) >= 2 ==> {
            let t = after(s, Event::<V>::Release);
            &&& refcount_of(t.state) == refcount_of(s.state) - 1
            &&& tombstoned(t.state) == tombstoned(s.state)
            &&& t.bit == s.bit
            &&& t.cell == s.cell
        },
{
}

/// Over a history of clones and drops on handles that stay alive, the
/// count moves by the clones minus the drops.
pub proof fn lemma_count_is_conserved<V>(s: Slot<V>, events: Seq<Event<V>>)
    requires
        steady(s, events),
    ensures
        refcount_of(run(s, events).state) == refcount_of(s.state) + net_shares(events),
        tombstoned(run(s, events).state) == tombstoned(s.state),
        run(s, events).bit == s.bit,
        run(s, events).cell == s.cell,
    decreases events.len(),
{
    if events.len() > 0 {
        lemma_count_is_conserved(s, events.drop_last());
        lemma_share_and_release(run(s, events.drop_last()));
    }
}

} // verus!
