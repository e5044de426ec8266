//! Recursion-counted dispatch state: the unit allocated when a native
//! object is created and freed exactly once, only after every nested
//! dispatch frame has unwound.
//!
//! Dispatch calls reenter arbitrarily: a callback running in one frame can
//! synchronously trigger another native call that loops back into the
//! router before the first frame returns.  The state must therefore survive
//! until the whole nested stack unwinds, not merely until the terminal
//! message is seen.  Each frame increments the entry counter on the way in
//! and decrements it on the way out; teardown only marks the state, and the
//! frame that brings the counter back to zero performs the one deallocation.

use vstd::prelude::*;

verus! {

/// The notification kinds the router understands.  Every other native
/// message kind passes through untouched to the default handler.
#[derive(Clone, Copy, Debug, PartialEq, Eq, Structural)]
pub enum Msg {
    /// The close request for a window.
    Close,
    /// The pre-destruction notification, delivered while the object still
    /// exists.
    PreDestroy,
    /// The terminal destruction notification, after which no managed
    /// reference to the native object may remain.
    Terminal,
    /// The paint hook, forwarded to the rendering collaborator.
    Paint,
    /// Any other native message kind, carried by its raw number.
    Other(u32),
}

/// Per-object dispatch bookkeeping: how many dispatch frames are currently
/// inside this object's logic, whether teardown is due, and whether the
/// state is still allocated.
pub struct DispatchState {
    entry_count: u32,
    pending_teardown: bool,
    allocated: bool,
    free_count: u32,
}

impl DispatchState {
    /// How many dispatch frames currently hold this state live.
    pub closed spec fn count(self) -> u32 {
        self.entry_count
    }

    /// Whether teardown was scheduled (terminal notification seen, or a
    /// fault was contained).
    pub closed spec fn pending(self) -> bool {
        self.pending_teardown
    }

    /// Whether the state is still allocated.
    pub closed spec fn is_allocated(self) -> bool {
        self.allocated
    }

    /// How many times the state has been deallocated.
    pub closed spec fn frees(self) -> u32 {
        self.free_count
    }

    /// The structural invariant: the state is freed at most once, only
    /// while no frame holds it, and only once teardown was scheduled.
    pub closed spec fn wf(self) -> bool {
        &&& self.free_count <= 1
        &&& (self.allocated <==> self.free_count == 0)
        &&& (!self.allocated ==> self.entry_count == 0 && self.pending_teardown)
    }

    /// The current entry count, readable from anywhere.
    pub fn current_count(&self) -> (r: u32)
        ensures
            r == self.count(),
    {
        self.entry_count
    }

    /// How many times the state has been deallocated, readable anywhere.
    pub fn current_frees(&self) -> (r: u32)
        ensures
            r == self.frees(),
    {
        self.free_count
    }

    /// Fresh state for a newly created object: no frames inside, no
    /// teardown due, allocated.
    pub fn new() -> (r: DispatchState)
        ensures
            r.wf(),
            r.count() == 0,
            !r.pending(),
            r.is_allocated(),
            r.frees() == 0,
    {
        DispatchState { entry_count: 0, pending_teardown: false, allocated: true, free_count: 0 }
    }

    /// One dispatch frame comes in.  Fails exactly when the counter would
    /// overflow; the caller must treat that as fatal, never as wraparound,
    /// because a counter that lies breaks the deallocation protocol.
    pub fn try_enter(&mut self) -> (r: bool)
        requires
            old(self).wf(),
            old(self).is_allocated(),
        ensures
            final(self).wf(),
            r == (old(self).count() < u32::MAX),
            r ==> final(self).count() == old(self).count() + 1,
            !r ==> *final(self) == *old(self),
            final(self).pending() == old(self).pending(),
            final(self).is_allocated() == old(self).is_allocated(),
            final(self).frees() == old(self).frees(),
    {
        if self.entry_count < u32::MAX {
            self.entry_count = self.entry_count + 1;
            true
        } else {
            false
        }
    }

    /// Schedule teardown: the terminal notification was seen, or a fault
    /// was contained at the dispatch boundary.  The state itself stays
    /// allocated until the last frame leaves.
    pub fn mark_teardown(&mut self)
        requires
            old(self).wf(),
            old(self).count() > 0,
        ensures
            final(self).wf(),
            final(self).pending(),
            final(self).count() == old(self).count(),
            final(self).is_allocated() == old(self).is_allocated(),
            final(self).frees() == old(self).frees(),
    {
        self.pending_teardown = true;
    }

    /// One dispatch frame leaves.  Exactly the frame that brings the
    /// counter back to zero with teardown scheduled performs the one
    /// deallocation; every other frame leaves the allocation untouched.
    pub fn leave(&mut self) -> (freed_now: bool)
        requires
            old(self).wf(),
            old(self).count() > 0,
            old(self).is_allocated(),
        ensures
            final(self).wf(),
            final(self).count() == old(self).count() - 1,
            freed_now == (old(self).count() == 1 && old(self).pending()),
            final(self).pending() == old(self).pending(),
            final(self).is_allocated() == !freed_now,
            final(self).frees() == old(self).frees() + (if freed_now { 1int } else { 0 }),
    {
        self.entry_count = self.entry_count - 1;
        if self.entry_count == 0 && self.pending_teardown {
            self.allocated = false;
            self.free_count = self.free_count + 1;
            true
        } else {
            false
        }
    }
}

/// The four observations determine the state completely.
pub proof fn lemma_state_determined(a: DispatchState, b: DispatchState)
    requires
        a.count() == b.count(),
        a.pending() == b.pending(),
        a.is_allocated() == b.is_allocated(),
        a.frees() == b.frees(),
    ensures
        a == b,
{
}

/// The deallocation happens at most once in any run: the invariant bounds
/// the free count by one, and a freed state is never brought back.
pub proof fn lemma_freed_at_most_once(d: DispatchState)
    requires
        d.wf(),
    ensures
        d.frees() <= 1,
        !d.is_allocated() ==> d.frees() == 1 && d.count() == 0,
        d.is_allocated() ==> d.frees() == 0,
{
}

} // verus!
