//! The cell holding the current native identity of one windowing object.
//!
//! A native identity is an opaque, equality-comparable token issued by the
//! foreign runtime; the value `0` is the reserved sentinel meaning "no
//! object".  A `HandleCell` goes through the one-way lifecycle
//! absent -> present (exactly once, at creation) -> absent (terminal):
//! once cleared it can never look present again, so a late, identical-looking
//! call cannot resurrect a dead handle.

use vstd::prelude::*;

verus! {

/// The reserved native identity meaning "no object".
pub const NULL_HANDLE: u64 = 0;

#[derive(Clone, Copy, Debug, PartialEq, Eq, Structural)]
enum CellState {
    /// No identity was ever stored.
    Unset,
    /// The identity stored at creation time.
    Present(u64),
    /// The identity was released; terminal.
    Cleared,
}

/// Holds the current native identity of one windowing object, or nothing.
pub struct HandleCell {
    state: CellState,
}

impl HandleCell {
    /// True while no identity was ever stored.
    pub closed spec fn is_unset(self) -> bool {
        self.state is Unset
    }

    /// True while the cell holds a live native identity.
    pub closed spec fn is_present(self) -> bool {
        self.state is Present
    }

    /// True once the identity has been released; irreversible.
    pub closed spec fn is_cleared(self) -> bool {
        self.state is Cleared
    }

    /// The identity held, or the null sentinel when none is.
    pub closed spec fn spec_get(self) -> u64 {
        match self.state {
            CellState::Present(h) => h,
            _ => NULL_HANDLE,
        }
    }

    /// A fresh cell that never held an identity.
    pub fn new() -> (r: HandleCell)
        ensures
            r.is_unset(),
            !r.is_present(),
            !r.is_cleared(),
    {
        HandleCell { state: CellState::Unset }
    }

    /// Store the identity issued at creation; legal only while nothing was
    /// ever stored, which makes the present phase unrepeatable.
    pub fn set(&mut self, h: u64)
        requires
            old(self).is_unset(),
            h != NULL_HANDLE,
        ensures
            final(self).is_present(),
            !final(self).is_unset(),
            !final(self).is_cleared(),
            final(self).spec_get() == h,
    {
        self.state = CellState::Present(h);
    }

    /// Release the identity; idempotent, and terminal from any state.
    pub fn clear(&mut self)
        ensures
            final(self).is_cleared(),
            !final(self).is_present(),
            !final(self).is_unset(),
    {
        self.state = CellState::Cleared;
    }

    /// The current identity; the null sentinel while absent.  Callable from
    /// anywhere, including nested dispatch frames.
    pub fn get(&self) -> (r: u64)
        ensures
            r == self.spec_get(),
            !self.is_present() ==> r == NULL_HANDLE,
    {
        match self.state {
            CellState::Present(h) => h,
            _ => NULL_HANDLE,
        }
    }

    /// Whether the cell currently holds a live identity.
    pub fn present(&self) -> (r: bool)
        ensures
            r == self.is_present(),
    {
        matches!(self.state, CellState::Present(_))
    }
}

/// The lifecycle is one-way: a cell is in exactly one phase, and `set` is
/// only allowed in the unset phase, so a cleared cell can never be brought
/// back to the present phase by any sequence of calls.
pub proof fn lemma_phases_exclusive(c: HandleCell)
    ensures
        c.is_unset() || c.is_present() || c.is_cleared(),
        c.is_unset() ==> !c.is_present() && !c.is_cleared(),
        c.is_present() ==> !c.is_unset() && !c.is_cleared(),
{
}

} // verus!
