//! Single-slot, reentrancy-safe holder for one user callback per event kind.
//!
//! The hazard is synchronous reentrancy: the stored callback may, while it
//! runs, replace or clear its own slot, and a nested dispatch may try to
//! invoke the slot again.  The discipline is detach - execute - reattach:
//! `begin_invoke` moves the callback out and marks the slot executing, the
//! caller runs it without holding any borrow of the slot, and `end_invoke`
//! puts it back only if nothing else wrote to the slot meanwhile; a newer
//! value written during execution wins.  A nested `begin_invoke` on an
//! executing slot yields nothing, so a callback is never reentered.

use vstd::prelude::*;

verus! {

/// The state of one callback slot.
enum SlotState<F> {
    /// No callback is registered.
    Empty,
    /// A callback is registered and at rest.
    Filled(F),
    /// The registered callback was detached and is currently running.
    Executing,
}

/// Reentrancy-safe storage for one callback of type `F`.
pub struct CallbackSlot<F> {
    state: SlotState<F>,
}

impl<F> CallbackSlot<F> {
    /// True while no callback is registered and none is running.
    pub closed spec fn is_empty(self) -> bool {
        self.state is Empty
    }

    /// True while a callback is registered and at rest.
    pub closed spec fn is_filled(self) -> bool {
        self.state is Filled
    }

    /// True while the registered callback is detached and running.
    pub closed spec fn is_executing(self) -> bool {
        self.state is Executing
    }

    /// The registered callback, when one is at rest in the slot.
    pub closed spec fn spec_value(self) -> F
        recommends
            self.is_filled(),
    {
        self.state->Filled_0
    }

    /// A fresh, empty slot.
    pub fn new() -> (r: CallbackSlot<F>)
        ensures
            r.is_empty(),
            !r.is_filled(),
            !r.is_executing(),
    {
        CallbackSlot { state: SlotState::Empty }
    }

    /// Replace the stored value; with `None` the slot is cleared.  Safe to
    /// call while a previous instance is executing: the new value takes
    /// effect for future invocations only, and the executing instance is
    /// discarded when it finishes.
    pub fn set(&mut self, f: Option<F>)
        ensures
            match f {
                Some(g) => final(self).is_filled() && final(self).spec_value() == g,
                None => final(self).is_empty(),
            },
            !final(self).is_executing(),
            final(self).is_filled() <==> !final(self).is_empty(),
    {
        self.state = match f {
            Some(g) => SlotState::Filled(g),
            None => SlotState::Empty,
        };
    }

    /// Detach the callback for one invocation.  Yields the callback and
    /// marks the slot executing when one is at rest; yields nothing and
    /// leaves the slot untouched otherwise.  In particular a nested attempt
    /// to invoke an executing slot is a no-op, so `begin_invoke` can never
    /// hand out the same callback twice concurrently.
    pub fn begin_invoke(&mut self) -> (r: Option<F>)
        ensures
            old(self).is_filled() ==> r == Some(old(self).spec_value())
                && final(self).is_executing() && !final(self).is_filled()
                && !final(self).is_empty(),
            !old(self).is_filled() ==> r is None && *final(self) == *old(self),
            old(self).is_executing() ==> r is None && final(self).is_executing(),
    {
        if matches!(self.state, SlotState::Filled(_)) {
            let mut prev = SlotState::Executing;
            core::mem::swap(&mut self.state, &mut prev);
            match prev {
                SlotState::Filled(f) => Some(f),
                _ => None,
            }
        } else {
            None
        }
    }

    /// Reattach a callback detached by `begin_invoke`.  If the slot is still
    /// executing (nothing wrote to it meanwhile) the callback goes back in;
    /// otherwise a newer value already written wins and the detached
    /// instance is discarded.
    pub fn end_invoke(&mut self, f: F)
        ensures
            old(self).is_executing() ==> final(self).is_filled()
                && final(self).spec_value() == f && !final(self).is_empty()
                && !final(self).is_executing(),
            !old(self).is_executing() ==> *final(self) == *old(self),
    {
        if matches!(self.state, SlotState::Executing) {
            self.state = SlotState::Filled(f);
        }
    }
}

/// At most one invocation of a slot is ever active: while the slot is
/// executing, `begin_invoke` hands nothing out, so a callback can never be
/// reentered through its own slot.
pub proof fn lemma_no_reentrant_detach<F>(s: CallbackSlot<F>)
    ensures
        s.is_empty() || s.is_filled() || s.is_executing(),
        s.is_empty() ==> !s.is_filled() && !s.is_executing(),
        s.is_filled() ==> !s.is_executing() && !s.is_empty(),
        s.is_executing() ==> !s.is_filled() && !s.is_empty(),
{
}

} // verus!
