//! The window system itself, modelled as one verified state machine.
//!
//! The foreign runtime issues opaque handles, delivers notifications
//! synchronously and reentrantly on the one owning thread, and can destroy
//! objects unilaterally.  `World` models that runtime together with the
//! managed layer over it: an arena of window nodes, the association from
//! native identity to dispatch state, and the router that every inbound
//! notification passes through.  Callbacks are scripts of plain actions, so
//! that the reentrant cycles they trigger - a close handler destroying its
//! own window, a nested dispatch in mid-callback - run inside verified code.
//!
//! Nodes are never removed from the arena; a destroyed window remains as a
//! record whose handle cell is cleared and whose dispatch state has been
//! freed.  Deallocation of the dispatch state is modelled by its
//! `allocated` flag, and happens exactly once, when the last nested
//! dispatch frame unwinds.

use vstd::prelude::*;
use crate::bitmap::{spec_swizzle, swizzle_pixel, Bitmap};
use crate::callback::CallbackSlot;
use crate::dispatch::{DispatchState, Msg};
use crate::error::Error;
use crate::handle::HandleCell;
use crate::styles::{
    child_request, NativeClass, WS_CLIPCHILDREN, WS_EX_CONTROLPARENT, WS_EX_OVERLAPPEDWINDOW,
    WS_OVERLAPPEDWINDOW, WS_VISIBLE,
};
use crate::{ChildType, Color};

verus! {

/// One step of a scripted callback.
#[derive(Clone, Debug)]
pub enum Action {
    /// Request destruction of the node with this index.
    Destroy(usize),
    /// Deliver a close request to the node with this index: one more
    /// nested dispatch cycle.
    Close(usize),
    /// Create a child of the given kind under the node with this index,
    /// ignoring the outcome.
    CreateChild(usize, ChildType),
    /// Ask the event loop to exit.
    ExitLoop,
    /// Record the current dispatch entry count of the node with this
    /// index, for instrumentation.
    Probe(usize),
    /// Raise a fault; the dispatch boundary must contain it.
    Fault,
}

/// A registered callback: the actions it performs when invoked, in order.
/// A `Fault` action abandons the rest of the script.
pub type Script = Vec<Action>;

/// Where the model's virtual screen ends: `move_offscreen` places a
/// window just past this x coordinate.
pub const OFFSCREEN_X: i32 = 32778;

/// The saturating increment used for event counters.
pub open spec fn sat_inc(x: u64) -> u64 {
    if x < u64::MAX { (x + 1) as u64 } else { x }
}

/// Saturating increment of one event counter.
fn bump(c: &mut u64)
    ensures
        *final(c) == sat_inc(*old(c)),
{
    if *c < u64::MAX {
        *c = *c + 1;
    }
}

/// One windowing object: its handle cell, its dispatch state, one callback
/// slot per event kind, and its owned children, together with the plain
/// window attributes the operation surface maintains.
struct Node {
    /// The native identity this node was created with; never the null
    /// sentinel, and never reused by the runtime model.
    handle: u64,
    /// The current native identity, or absent.
    cell: HandleCell,
    /// Whether this node is a subclassed native control rather than a
    /// primary window.
    is_control: bool,
    /// Entry counting and teardown bookkeeping.
    state: DispatchState,
    /// Whether the identity-to-dispatch-state association is registered.
    assoc: bool,
    on_close: CallbackSlot<Script>,
    on_destroy: CallbackSlot<Script>,
    /// Indices of the children, in creation order.
    children: Vec<usize>,
    background: Option<Color>,
    text: String,
    x: i32,
    y: i32,
    w: i32,
    h: i32,
    /// The native style word the node was created with.
    style: u32,
    /// The native extended style word the node was created with.
    ex_style: u32,
    visible: bool,
    needs_paint: bool,
    /// How many times the close callback actually ran.
    close_fires: u64,
    /// How many times the destroy callback actually ran.
    destroy_fires: u64,
    /// How many faults were contained at this node's dispatch boundary.
    faults: u64,
    /// How many paint notifications this node handled itself.
    paints: u64,
}

/// The whole single-threaded world: the managed nodes and the runtime
/// model they talk to.
pub struct World {
    nodes: Vec<Node>,
    /// The next native identity the runtime model will issue.
    next_handle: u64,
    /// How deep dispatch may nest before the model gives up with `Fatal`,
    /// standing in for the aborted process of an overflowing entry counter.
    nest_budget: u32,
    /// Whether the event loop was asked to exit.
    quit: bool,
    /// When set, the next creation request fails natively with this code.
    inject_fail: Option<u32>,
    /// Entry counts recorded by `Probe` actions, in order.
    probes: Vec<u32>,
}

impl World {
    /// How many nodes were ever created.
    pub closed spec fn n(self) -> int {
        self.nodes@.len() as int
    }

    /// The native identity node `i` was created with.
    pub closed spec fn handle(self, i: int) -> u64 {
        self.nodes@[i].handle
    }

    /// Whether node `i` is live: its handle cell holds an identity.
    pub closed spec fn live(self, i: int) -> bool {
        self.nodes@[i].cell.is_present()
    }

    /// Whether node `i` has gone through teardown: its handle cell is
    /// cleared, terminally.
    pub closed spec fn torn(self, i: int) -> bool {
        self.nodes@[i].cell.is_cleared()
    }

    /// Whether node `i` is a subclassed native control.
    pub closed spec fn is_control(self, i: int) -> bool {
        self.nodes@[i].is_control
    }

    /// Whether the router still resolves node `i`'s identity.
    pub closed spec fn assoc(self, i: int) -> bool {
        self.nodes@[i].assoc
    }

    /// How many dispatch frames are currently inside node `i`.
    pub closed spec fn count(self, i: int) -> u32 {
        self.nodes@[i].state.count()
    }

    /// Whether node `i`'s teardown is scheduled.
    pub closed spec fn pending(self, i: int) -> bool {
        self.nodes@[i].state.pending()
    }

    /// Whether node `i`'s dispatch state is still allocated.
    pub closed spec fn allocated(self, i: int) -> bool {
        self.nodes@[i].state.is_allocated()
    }

    /// How many times node `i`'s dispatch state was deallocated.
    pub closed spec fn frees(self, i: int) -> u64 {
        self.nodes@[i].state.frees() as u64
    }

    /// Node `i`'s children, in creation order.
    pub closed spec fn children(self, i: int) -> Seq<usize> {
        self.nodes@[i].children@
    }

    /// How many times node `i`'s close callback ran.
    pub closed spec fn close_fires(self, i: int) -> u64 {
        self.nodes@[i].close_fires
    }

    /// How many times node `i`'s destroy callback ran.
    pub closed spec fn destroy_fires(self, i: int) -> u64 {
        self.nodes@[i].destroy_fires
    }

    /// How many faults were contained at node `i`'s boundary.
    pub closed spec fn faults(self, i: int) -> u64 {
        self.nodes@[i].faults
    }

    /// How many paint notifications node `i` handled itself.
    pub closed spec fn paints(self, i: int) -> u64 {
        self.nodes@[i].paints
    }

    /// Whether node `i`'s close slot currently holds a callback at rest.
    pub closed spec fn close_slot_filled(self, i: int) -> bool {
        self.nodes@[i].on_close.is_filled()
    }

    /// Whether node `i`'s destroy slot currently holds a callback at rest.
    pub closed spec fn destroy_slot_filled(self, i: int) -> bool {
        self.nodes@[i].on_destroy.is_filled()
    }

    /// The script registered in node `i`'s close slot, when one is at
    /// rest there.
    pub closed spec fn close_script(self, i: int) -> Seq<Action> {
        self.nodes@[i].on_close.spec_value()@
    }

    /// The script registered in node `i`'s destroy slot, when one is at
    /// rest there.
    pub closed spec fn destroy_script(self, i: int) -> Seq<Action> {
        self.nodes@[i].on_destroy.spec_value()@
    }

    /// Whether node `i`'s close callback is detached and running.
    pub closed spec fn close_slot_executing(self, i: int) -> bool {
        self.nodes@[i].on_close.is_executing()
    }

    /// Whether node `i`'s close slot is empty.
    pub closed spec fn close_slot_empty(self, i: int) -> bool {
        self.nodes@[i].on_close.is_empty()
    }

    /// Whether node `i`'s destroy slot is empty.
    pub closed spec fn destroy_slot_empty(self, i: int) -> bool {
        self.nodes@[i].on_destroy.is_empty()
    }

    /// Whether node `i`'s destroy callback is detached and running.
    pub closed spec fn destroy_slot_executing(self, i: int) -> bool {
        self.nodes@[i].on_destroy.is_executing()
    }

    /// Node `i`'s background colour, when one was set.
    pub closed spec fn background_of(self, i: int) -> Option<Color> {
        self.nodes@[i].background
    }

    /// Node `i`'s text.
    pub closed spec fn text_of(self, i: int) -> Seq<char> {
        self.nodes@[i].text@
    }

    /// Node `i`'s bounds as upper-left corner and size.
    pub closed spec fn bounds_of(self, i: int) -> (i32, i32, i32, i32) {
        (self.nodes@[i].x, self.nodes@[i].y, self.nodes@[i].w, self.nodes@[i].h)
    }

    /// The native style word node `i` was created with.
    pub closed spec fn style_of(self, i: int) -> u32 {
        self.nodes@[i].style
    }

    /// The native extended style word node `i` was created with.
    pub closed spec fn ex_style_of(self, i: int) -> u32 {
        self.nodes@[i].ex_style
    }

    /// Whether node `i` is shown.
    pub closed spec fn shown(self, i: int) -> bool {
        self.nodes@[i].visible
    }

    /// Whether node `i` has an invalidated client area.
    pub closed spec fn needs_paint(self, i: int) -> bool {
        self.nodes@[i].needs_paint
    }

    /// The next native identity the runtime model will issue.
    pub closed spec fn next_handle(self) -> u64 {
        self.next_handle
    }

    /// Whether the event loop was asked to exit.
    pub closed spec fn quit_flag(self) -> bool {
        self.quit
    }

    /// The entry counts recorded by `Probe` actions so far.
    pub closed spec fn probes_log(self) -> Seq<u32> {
        self.probes@
    }

    /// The nesting budget.
    pub closed spec fn budget(self) -> u32 {
        self.nest_budget
    }

    /// Whether a native creation failure is armed, and with which code.
    pub closed spec fn armed_failure(self) -> Option<u32> {
        self.inject_fail
    }

    /// The per-node invariant.  The handle is a real identity the runtime
    /// issued; the cell was filled at creation, so it is never in its unset
    /// phase; while it is present it holds exactly the creation identity
    /// and the router association is registered; teardown clears cell and
    /// association together; and children always point forward in the
    /// arena, which keeps ownership a tree.
    spec fn node_ok(self, i: int) -> bool {
        let nd = self.nodes@[i];
        &&& nd.handle != 0
        &&& nd.handle < self.next_handle
        &&& !nd.cell.is_unset()
        &&& nd.cell.is_present() ==> nd.cell.spec_get() == nd.handle
        &&& nd.cell.is_present() <==> nd.assoc
        &&& nd.state.wf()
        &&& nd.assoc ==> nd.state.is_allocated()
        &&& nd.state.pending() <==> nd.cell.is_cleared()
        &&& nd.state.pending() && nd.state.count() == 0 ==> !nd.state.is_allocated()
        &&& forall|k: int|
            0 <= k < nd.children@.len() ==> i < #[trigger] nd.children@[k] < self.n()
    }

    /// The world invariant: every node satisfies its invariant, and no two
    /// nodes share a native identity, so the router's resolution is
    /// unambiguous.
    pub closed spec fn wf(self) -> bool {
        &&& self.next_handle >= 1
        &&& forall|i: int| 0 <= i < self.n() ==> self.node_ok(i)
        &&& forall|i: int, j: int|
            0 <= i < self.n() && 0 <= j < self.n() && i != j ==> self.handle(i) != self.handle(j)
    }

    /// No dispatch frame is anywhere inside: the state between two turns
    /// of the event loop.
    pub closed spec fn quiescent(self) -> bool {
        forall|i: int| 0 <= i < self.n() ==> self.count(i) == 0
    }

    /// Whether two worlds hold exactly the same nodes in the same states.
    pub closed spec fn same_nodes(self, other: World) -> bool {
        self.nodes@ == other.nodes@
    }

    /// A fresh world: no nodes, no quit request, the first identity ready
    /// to be issued, and a deep default nesting budget.
    pub fn new() -> (r: World)
        ensures
            r.wf(),
            r.quiescent(),
            r.n() == 0,
            r.next_handle() == 1,
            !r.quit_flag(),
            r.armed_failure() is None,
            r.probes_log() == Seq::<u32>::empty(),
            r.budget() == 4096u32,
    {
        World {
            nodes: Vec::new(),
            next_handle: 1,
            nest_budget: 4096,
            quit: false,
            inject_fail: None,
            probes: Vec::new(),
        }
    }

    /// Change how deep dispatch may nest before the model declares the
    /// fatal condition.
    pub fn set_nest_budget(&mut self, b: u32)
        requires
            old(self).wf(),
        ensures
            final(self).wf(),
            final(self).budget() == b,
            final(self).same_nodes(*old(self)),
            final(self).next_handle() == old(self).next_handle(),
    {
        self.nest_budget = b;
        proof {
            World::lemma_wf_unchanged_nodes(*old(self), *self);
        }
    }

    /// Arm the runtime model so that the next creation request fails
    /// natively with the given code, the way the foreign runtime may
    /// refuse a creation unilaterally.
    pub fn fail_next_create(&mut self, code: u32)
        requires
            old(self).wf(),
        ensures
            final(self).wf(),
            final(self).armed_failure() == Some(code),
            final(self).same_nodes(*old(self)),
            final(self).next_handle() == old(self).next_handle(),
    {
        self.inject_fail = Some(code);
        proof {
            World::lemma_wf_unchanged_nodes(*old(self), *self);
        }
    }

    /// Ask the event loop to exit at its next turn.
    pub fn exit_loop(&mut self) -> (r: Result<(), Error>)
        requires
            old(self).wf(),
        ensures
            final(self).wf(),
            r is Ok,
            final(self).quit_flag(),
            final(self).same_nodes(*old(self)),
            final(self).next_handle() == old(self).next_handle(),
    {
        self.quit = true;
        proof {
            World::lemma_wf_unchanged_nodes(*old(self), *self);
        }
        Ok(())
    }
}

impl World {
    /// A world differing only outside the node arena and the identity
    /// counter keeps the invariant.
    proof fn lemma_wf_unchanged_nodes(a: World, b: World)
        requires
            a.wf(),
            b.nodes@ == a.nodes@,
            b.next_handle == a.next_handle,
        ensures
            b.wf(),
    {
        assert forall|i: int| 0 <= i < b.n() implies b.node_ok(i) by {
            assert(a.node_ok(i));
            let nd = b.nodes@[i];
            assert forall|k: int| 0 <= k < nd.children@.len() implies i < #[trigger] nd.children@[k]
                < b.n() by {
                assert(i < a.nodes@[i].children@[k] < a.n());
            }
        }
        assert forall|i: int, j: int|
            0 <= i < b.n() && 0 <= j < b.n() && i != j implies b.handle(i) != b.handle(j) by {
            assert(a.handle(i) != a.handle(j));
        }
    }
}

/// Two worlds with the same nodes agree on every per-node observation.
pub proof fn lemma_same_nodes(a: World, b: World)
    requires
        a.same_nodes(b),
    ensures
        a.n() == b.n(),
        forall|i: int| 0 <= i < a.n() ==> #[trigger] a.handle(i) == b.handle(i),
        forall|i: int| 0 <= i < a.n() ==> #[trigger] a.live(i) == b.live(i),
        forall|i: int| 0 <= i < a.n() ==> #[trigger] a.torn(i) == b.torn(i),
        forall|i: int| 0 <= i < a.n() ==> #[trigger] a.assoc(i) == b.assoc(i),
        forall|i: int| 0 <= i < a.n() ==> #[trigger] a.count(i) == b.count(i),
        forall|i: int| 0 <= i < a.n() ==> #[trigger] a.pending(i) == b.pending(i),
        forall|i: int| 0 <= i < a.n() ==> #[trigger] a.allocated(i) == b.allocated(i),
        forall|i: int| 0 <= i < a.n() ==> #[trigger] a.frees(i) == b.frees(i),
        forall|i: int| 0 <= i < a.n() ==> #[trigger] a.children(i) == b.children(i),
        forall|i: int| 0 <= i < a.n() ==> #[trigger] a.close_fires(i) == b.close_fires(i),
        forall|i: int| 0 <= i < a.n() ==> #[trigger] a.destroy_fires(i) == b.destroy_fires(i),
        forall|i: int| 0 <= i < a.n() ==> #[trigger] a.faults(i) == b.faults(i),
        forall|i: int| 0 <= i < a.n() ==> #[trigger] a.paints(i) == b.paints(i),
        forall|i: int| 0 <= i < a.n() ==> #[trigger] a.close_slot_filled(i)
            == b.close_slot_filled(i),
        forall|i: int| 0 <= i < a.n() ==> #[trigger] a.destroy_slot_filled(i)
            == b.destroy_slot_filled(i),
        forall|i: int| 0 <= i < a.n() ==> #[trigger] a.close_slot_empty(i) == b.close_slot_empty(
            i,
        ),
        forall|i: int| 0 <= i < a.n() ==> #[trigger] a.destroy_slot_empty(i)
            == b.destroy_slot_empty(i),
        forall|i: int| 0 <= i < a.n() ==> #[trigger] a.close_slot_executing(i)
            == b.close_slot_executing(i),
        forall|i: int| 0 <= i < a.n() ==> #[trigger] a.destroy_slot_executing(i)
            == b.destroy_slot_executing(i),
        forall|i: int| 0 <= i < a.n() ==> #[trigger] a.background_of(i) == b.background_of(i),
        forall|i: int| 0 <= i < a.n() ==> #[trigger] a.text_of(i) == b.text_of(i),
        forall|i: int| 0 <= i < a.n() ==> #[trigger] a.bounds_of(i) == b.bounds_of(i),
        forall|i: int| 0 <= i < a.n() ==> #[trigger] a.shown(i) == b.shown(i),
        forall|i: int| 0 <= i < a.n() ==> #[trigger] a.needs_paint(i) == b.needs_paint(i),
        a.quiescent() <==> b.quiescent(),
{
    assert(a.quiescent() <==> b.quiescent()) by {
        if a.quiescent() {
            assert forall|i: int| 0 <= i < b.n() implies b.count(i) == 0 by {
                assert(a.count(i) == 0);
            }
        }
        if b.quiescent() {
            assert forall|i: int| 0 <= i < a.n() implies a.count(i) == 0 by {
                assert(b.count(i) == 0);
            }
        }
    }
}


/// The dispatch-protocol state of every node below `m` is untouched
/// between `a` and `b`: identity, liveness, association, entry count,
/// teardown mark, allocation, free count, callback slots and event
/// counters all stay what they were.
pub open spec fn protocol_unchanged_below(a: World, b: World, m: int) -> bool {
    &&& forall|i: int| 0 <= i < m ==> (#[trigger] b.handle(i)) == a.handle(i)
    &&& forall|i: int| 0 <= i < m ==> (#[trigger] b.live(i)) == a.live(i)
    &&& forall|i: int| 0 <= i < m ==> (#[trigger] b.torn(i)) == a.torn(i)
    &&& forall|i: int| 0 <= i < m ==> (#[trigger] b.assoc(i)) == a.assoc(i)
    &&& forall|i: int| 0 <= i < m ==> (#[trigger] b.count(i)) == a.count(i)
    &&& forall|i: int| 0 <= i < m ==> (#[trigger] b.pending(i)) == a.pending(i)
    &&& forall|i: int| 0 <= i < m ==> (#[trigger] b.allocated(i)) == a.allocated(i)
    &&& forall|i: int| 0 <= i < m ==> (#[trigger] b.frees(i)) == a.frees(i)
    &&& forall|i: int| 0 <= i < m ==> (#[trigger] b.close_fires(i)) == a.close_fires(i)
    &&& forall|i: int| 0 <= i < m ==> (#[trigger] b.destroy_fires(i)) == a.destroy_fires(i)
    &&& forall|i: int| 0 <= i < m ==> (#[trigger] b.faults(i)) == a.faults(i)
    &&& forall|i: int| 0 <= i < m ==> (#[trigger] b.close_slot_filled(i)) == a.close_slot_filled(i)
    &&& forall|i: int| 0 <= i < m
        ==> (#[trigger] b.destroy_slot_filled(i)) == a.destroy_slot_filled(i)
    &&& forall|i: int| 0 <= i < m
        ==> (#[trigger] b.close_slot_executing(i)) == a.close_slot_executing(i)
    &&& forall|i: int| 0 <= i < m
        ==> (#[trigger] b.destroy_slot_executing(i)) == a.destroy_slot_executing(i)
    &&& forall|i: int| 0 <= i < m ==> (#[trigger] b.close_slot_empty(i)) == a.close_slot_empty(i)
    &&& forall|i: int| 0 <= i < m
        ==> (#[trigger] b.destroy_slot_empty(i)) == a.destroy_slot_empty(i)
    &&& forall|i: int| 0 <= i < m ==> (#[trigger] b.is_control(i)) == a.is_control(i)
    &&& forall|i: int| 0 <= i < m ==> (#[trigger] b.style_of(i)) == a.style_of(i)
    &&& forall|i: int| 0 <= i < m ==> (#[trigger] b.ex_style_of(i)) == a.ex_style_of(i)
}

/// Every plain window attribute of every node except `t` is unchanged.
pub open spec fn attrs_unchanged_except(a: World, b: World, t: int) -> bool {
    forall|i: int|
        0 <= i < a.n() && i != t ==> (#[trigger] b.background_of(i)) == a.background_of(i)
            && b.text_of(i) == a.text_of(i)
            && b.bounds_of(i) == a.bounds_of(i)
            && b.shown(i) == a.shown(i)
            && b.needs_paint(i) == a.needs_paint(i)
            && b.paints(i) == a.paints(i)
}

/// The child list of every node except `t` is unchanged.
pub open spec fn children_unchanged_except(a: World, b: World, t: int) -> bool {
    forall|i: int| 0 <= i < a.n() && i != t ==> (#[trigger] b.children(i)) == a.children(i)
}

/// What a successful creation request guarantees: the new node `id` is
/// appended live and at rest, it got the identity the runtime model had
/// ready, and nothing about the existing nodes' protocol state moved.
pub open spec fn created_ok(
    a: World,
    b: World,
    id: usize,
    style: u32,
    ex_style: u32,
    control: bool,
) -> bool {
    &&& id == a.n()
    &&& b.n() == a.n() + 1
    &&& a.next_handle() < u64::MAX
    &&& b.next_handle() == a.next_handle() + 1
    &&& b.handle(id as int) == a.next_handle()
    &&& b.live(id as int)
    &&& !b.torn(id as int)
    &&& b.assoc(id as int)
    &&& b.count(id as int) == 0
    &&& !b.pending(id as int)
    &&& b.allocated(id as int)
    &&& b.frees(id as int) == 0
    &&& b.children(id as int) == Seq::<usize>::empty()
    &&& !b.close_slot_filled(id as int)
    &&& !b.destroy_slot_filled(id as int)
    &&& b.close_slot_empty(id as int)
    &&& b.destroy_slot_empty(id as int)
    &&& b.close_fires(id as int) == 0
    &&& b.destroy_fires(id as int) == 0
    &&& b.faults(id as int) == 0
    &&& b.paints(id as int) == 0
    &&& b.background_of(id as int) is None
    &&& b.text_of(id as int) == Seq::<char>::empty()
    &&& b.bounds_of(id as int) == (0i32, 0i32, 640i32, 480i32)
    &&& b.style_of(id as int) == style
    &&& b.ex_style_of(id as int) == ex_style
    &&& b.is_control(id as int) == control
    &&& b.shown(id as int) == (style & WS_VISIBLE != 0)
    &&& !b.needs_paint(id as int)
    &&& protocol_unchanged_below(a, b, a.n())
    &&& attrs_unchanged_except(a, b, a.n())
}

impl World {
    /// Ask the runtime model to create one native object and register its
    /// dispatch state with it.  The association and the handle cell are
    /// filled before the request returns, as the pre-creation notification
    /// does for primary windows and the post-creation subclass
    /// registration does for controls.
    fn create_node(
        &mut self,
        parent: Option<usize>,
        class: NativeClass,
        style: u32,
        ex_style: u32,
    ) -> (r: Result<usize, Error>)
        requires
            old(self).wf(),
            match parent {
                Some(p) => p < old(self).n() && old(self).live(p as int),
                None => true,
            },
        ensures
            final(self).wf(),
            final(self).budget() == old(self).budget(),
            final(self).quit_flag() == old(self).quit_flag(),
            final(self).armed_failure() is None,
            final(self).probes_log() == old(self).probes_log(),
            match r {
                Ok(id) => {
                    &&& old(self).armed_failure() is None
                    &&& old(self).next_handle() < u64::MAX
                    &&& created_ok(
                        *old(self),
                        *final(self),
                        id,
                        style,
                        ex_style,
                        !(class is General),
                    )
                    &&& match parent {
                        Some(p) => final(self).children(p as int) == old(self).children(
                            p as int,
                        ).push(id) && children_unchanged_except(*old(self), *final(self), p as int),
                        None => children_unchanged_except(
                            *old(self),
                            *final(self),
                            old(self).n(),
                        ),
                    }
                },
                Err(e) => {
                    &&& final(self).same_nodes(*old(self))
                    &&& final(self).next_handle() == old(self).next_handle()
                    &&& match old(self).armed_failure() {
                        Some(c) => e == Error::Windows(c),
                        None => e == Error::Fatal && old(self).next_handle() == u64::MAX,
                    }
                },
            },
    {
        if let Some(code) = self.inject_fail {
            self.inject_fail = None;
            proof {
                World::lemma_wf_unchanged_nodes(*old(self), *self);
            }
            return Err(Error::Windows(code));
        }
        if self.next_handle == u64::MAX {
            // The runtime model has run out of identities; treated like an
            // exhausted counter.
            proof {
                World::lemma_wf_unchanged_nodes(*old(self), *self);
            }
            return Err(Error::Fatal);
        }
        let nh = self.next_handle;
        self.next_handle = nh + 1;
        let mut cell = HandleCell::new();
        cell.set(nh);
        let node = Node {
            handle: nh,
            cell,
            is_control: !matches!(class, NativeClass::General),
            state: DispatchState::new(),
            assoc: true,
            on_close: CallbackSlot::new(),
            on_destroy: CallbackSlot::new(),
            children: Vec::new(),
            background: None,
            text: String::new(),
            x: 0,
            y: 0,
            w: 640,
            h: 480,
            style,
            ex_style,
            visible: style & WS_VISIBLE != 0,
            needs_paint: false,
            close_fires: 0,
            destroy_fires: 0,
            faults: 0,
            paints: 0,
        };
        let id = self.nodes.len();
        self.nodes.push(node);
        if let Some(p) = parent {
            self.nodes[p].children.push(id);
        }
        proof {
            let a = *old(self);
            let b = *self;
            assert forall|i: int| 0 <= i < b.n() implies b.node_ok(i) by {
                if i < a.n() {
                    assert(a.node_ok(i));
                    let nd = b.nodes@[i];
                    assert forall|k: int| 0 <= k < nd.children@.len() implies i
                        < #[trigger] nd.children@[k] < b.n() by {
                        if parent == Some(i as usize) {
                            if k < a.nodes@[i].children@.len() {
                                assert(i < a.nodes@[i].children@[k] < a.n());
                            }
                        } else {
                            assert(i < a.nodes@[i].children@[k] < a.n());
                        }
                    }
                }
            }
            assert forall|i: int, j: int|
                0 <= i < b.n() && 0 <= j < b.n() && i != j implies b.handle(i) != b.handle(j) by {
                if i < a.n() && j < a.n() {
                    assert(a.handle(i) != a.handle(j));
                } else if i < a.n() {
                    assert(a.node_ok(i));
                } else if j < a.n() {
                    assert(a.node_ok(j));
                }
            }
        }
        Ok(id)
    }
}


impl World {
    /// A world in which exactly one node changed, and only in its plain
    /// window attributes, keeps the invariant.
    proof fn lemma_wf_update_attrs(a: World, b: World, t: int)
        requires
            a.wf(),
            0 <= t < a.n(),
            b.next_handle == a.next_handle,
            b.nodes@.len() == a.nodes@.len(),
            forall|i: int| 0 <= i < a.n() && i != t ==> b.nodes@[i] == a.nodes@[i],
            b.nodes@[t].handle == a.nodes@[t].handle,
            b.nodes@[t].cell == a.nodes@[t].cell,
            b.nodes@[t].state == a.nodes@[t].state,
            b.nodes@[t].assoc == a.nodes@[t].assoc,
            b.nodes@[t].children@ == a.nodes@[t].children@,
        ensures
            b.wf(),
    {
        assert forall|i: int| 0 <= i < b.n() implies b.node_ok(i) by {
            assert(a.node_ok(i));
            let nd = b.nodes@[i];
            assert forall|k: int| 0 <= k < nd.children@.len() implies i < #[trigger] nd.children@[k]
                < b.n() by {
                assert(i < a.nodes@[i].children@[k] < a.n());
            }
        }
        assert forall|i: int, j: int|
            0 <= i < b.n() && 0 <= j < b.n() && i != j implies b.handle(i) != b.handle(j) by {
            assert(a.handle(i) != a.handle(j));
        }
    }

    /// Create the main window: a primary window of the general class,
    /// initially not shown.  On success the returned node is live, at
    /// rest, and owns no children yet.
    pub fn new_main(&mut self) -> (r: Result<usize, Error>)
        requires
            old(self).wf(),
        ensures
            final(self).wf(),
            final(self).budget() == old(self).budget(),
            final(self).quit_flag() == old(self).quit_flag(),
            final(self).armed_failure() is None,
            final(self).probes_log() == old(self).probes_log(),
            match r {
                Ok(id) => {
                    &&& old(self).armed_failure() is None
                    &&& created_ok(
                        *old(self),
                        *final(self),
                        id,
                        WS_OVERLAPPEDWINDOW | WS_CLIPCHILDREN,
                        WS_EX_OVERLAPPEDWINDOW | WS_EX_CONTROLPARENT,
                        false,
                    )
                    &&& children_unchanged_except(*old(self), *final(self), old(self).n())
                },
                Err(e) => {
                    &&& final(self).same_nodes(*old(self))
                    &&& final(self).next_handle() == old(self).next_handle()
                    &&& match old(self).armed_failure() {
                        Some(c) => e == Error::Windows(c),
                        None => e == Error::Fatal && old(self).next_handle() == u64::MAX,
                    }
                },
            },
    {
        self.create_node(
            None,
            NativeClass::General,
            WS_OVERLAPPEDWINDOW | WS_CLIPCHILDREN,
            WS_EX_OVERLAPPEDWINDOW | WS_EX_CONTROLPARENT,
        )
    }

    /// Create a child window of the given kind under `parent`.  Requires
    /// the parent to be live: on a destroyed parent the request fails with
    /// `Destroyed` and no native object is created.  On success the child
    /// is appended to the parent's list in creation order.
    pub fn create_child(&mut self, parent: usize, ty: &ChildType) -> (r: Result<usize, Error>)
        requires
            old(self).wf(),
        ensures
            final(self).wf(),
            r is Ok ==> final(self).armed_failure() is None,
            final(self).budget() == old(self).budget(),
            final(self).quit_flag() == old(self).quit_flag(),
            final(self).probes_log() == old(self).probes_log(),
            match r {
                Ok(id) => {
                    &&& parent < old(self).n()
                    &&& old(self).live(parent as int)
                    &&& old(self).armed_failure() is None
                    &&& created_ok(
                        *old(self),
                        *final(self),
                        id,
                        crate::styles::spec_child_request(*ty).1,
                        0u32,
                        !(crate::styles::spec_child_request(*ty).0 is General),
                    )
                    &&& final(self).children(parent as int) == old(self).children(
                        parent as int,
                    ).push(id)
                    &&& children_unchanged_except(*old(self), *final(self), parent as int)
                },
                Err(e) => {
                    &&& final(self).same_nodes(*old(self))
                    &&& final(self).next_handle() == old(self).next_handle()
                    &&& !(parent < old(self).n() && old(self).live(parent as int)) ==> e
                        == Error::Destroyed && final(self).armed_failure() == old(self).armed_failure()
                    &&& (parent < old(self).n() && old(self).live(parent as int)) ==> match old(self).armed_failure() {
                        Some(c) => e == Error::Windows(c) && final(self).armed_failure() is None,
                        None => e == Error::Fatal && old(self).next_handle() == u64::MAX,
                    }
                },
            },
    {
        if parent >= self.nodes.len() {
            return Err(Error::Destroyed);
        }
        if !self.nodes[parent].cell.present() {
            return Err(Error::Destroyed);
        }
        let (class, style) = child_request(ty);
        self.create_node(Some(parent), class, style, 0)
    }
}



/// Everything the dispatch protocol tracks except the callback slots is
/// unchanged for every existing node.
pub open spec fn core_protocol_unchanged(a: World, b: World) -> bool {
    &&& forall|i: int| 0 <= i < a.n() ==> (#[trigger] b.handle(i)) == a.handle(i)
    &&& forall|i: int| 0 <= i < a.n() ==> (#[trigger] b.live(i)) == a.live(i)
    &&& forall|i: int| 0 <= i < a.n() ==> (#[trigger] b.torn(i)) == a.torn(i)
    &&& forall|i: int| 0 <= i < a.n() ==> (#[trigger] b.assoc(i)) == a.assoc(i)
    &&& forall|i: int| 0 <= i < a.n() ==> (#[trigger] b.count(i)) == a.count(i)
    &&& forall|i: int| 0 <= i < a.n() ==> (#[trigger] b.pending(i)) == a.pending(i)
    &&& forall|i: int| 0 <= i < a.n() ==> (#[trigger] b.allocated(i)) == a.allocated(i)
    &&& forall|i: int| 0 <= i < a.n() ==> (#[trigger] b.frees(i)) == a.frees(i)
    &&& forall|i: int| 0 <= i < a.n() ==> (#[trigger] b.close_fires(i)) == a.close_fires(i)
    &&& forall|i: int| 0 <= i < a.n() ==> (#[trigger] b.destroy_fires(i)) == a.destroy_fires(i)
    &&& forall|i: int| 0 <= i < a.n() ==> (#[trigger] b.faults(i)) == a.faults(i)
    &&& forall|i: int| 0 <= i < a.n() ==> (#[trigger] b.is_control(i)) == a.is_control(i)
    &&& forall|i: int| 0 <= i < a.n() ==> (#[trigger] b.style_of(i)) == a.style_of(i)
}

/// What every attribute operation guarantees besides its own change: the
/// invariant holds, the arena and the protocol state are untouched, and no
/// other node's attributes moved.
pub open spec fn attr_op_frame(a: World, b: World, t: int) -> bool {
    &&& b.wf()
    &&& b.n() == a.n()
    &&& b.next_handle() == a.next_handle()
    &&& b.armed_failure() == a.armed_failure()
    &&& b.budget() == a.budget()
    &&& b.quit_flag() == a.quit_flag()
    &&& protocol_unchanged_below(a, b, a.n())
    &&& attrs_unchanged_except(a, b, t)
    &&& children_unchanged_except(a, b, a.n())
}

impl World {
    /// Check that a node index denotes a live window, which every
    /// mutating operation requires first.
    fn check_live(&self, id: usize) -> (r: Result<(), Error>)
        requires
            self.wf(),
        ensures
            r is Ok <==> id < self.n() && self.live(id as int),
            r is Err ==> r == Err::<(), Error>(Error::Destroyed),
    {
        if id >= self.nodes.len() {
            return Err(Error::Destroyed);
        }
        if !self.nodes[id].cell.present() {
            return Err(Error::Destroyed);
        }
        Ok(())
    }

    /// Set the background colour and invalidate the client area.  Fails
    /// with `Destroyed` past the live phase, without any change.
    pub fn background(&mut self, id: usize, color: Color) -> (r: Result<(), Error>)
        requires
            old(self).wf(),
        ensures
            final(self).wf(),
            r is Ok <==> id < old(self).n() && old(self).live(id as int),
            r is Err ==> r == Err::<(), Error>(Error::Destroyed) && final(self).same_nodes(
                *old(self),
            ) && final(self).next_handle() == old(self).next_handle(),
            r is Ok ==> attr_op_frame(*old(self), *final(self), id as int)
                && final(self).background_of(id as int) == Some(color)
                && final(self).needs_paint(id as int)
                && final(self).text_of(id as int) == old(self).text_of(id as int)
                && final(self).bounds_of(id as int) == old(self).bounds_of(id as int)
                && final(self).shown(id as int) == old(self).shown(id as int)
                && final(self).paints(id as int) == old(self).paints(id as int),
    {
        if let Err(e) = self.check_live(id) {
            return Err(e);
        }
        self.nodes[id].background = Some(color);
        self.nodes[id].needs_paint = true;
        proof {
            World::lemma_wf_update_attrs(*old(self), *self, id as int);
        }
        Ok(())
    }

    /// Set the window text.  Fails with `Destroyed` past the live phase,
    /// without any change.
    pub fn text(&mut self, id: usize, t: &str) -> (r: Result<(), Error>)
        requires
            old(self).wf(),
        ensures
            final(self).wf(),
            r is Ok <==> id < old(self).n() && old(self).live(id as int),
            r is Err ==> r == Err::<(), Error>(Error::Destroyed) && final(self).same_nodes(
                *old(self),
            ) && final(self).next_handle() == old(self).next_handle(),
            r is Ok ==> attr_op_frame(*old(self), *final(self), id as int)
                && final(self).text_of(id as int) == t@
                && final(self).background_of(id as int) == old(self).background_of(id as int)
                && final(self).bounds_of(id as int) == old(self).bounds_of(id as int)
                && final(self).shown(id as int) == old(self).shown(id as int)
                && final(self).needs_paint(id as int) == old(self).needs_paint(id as int)
                && final(self).paints(id as int) == old(self).paints(id as int),
    {
        if let Err(e) = self.check_live(id) {
            return Err(e);
        }
        self.nodes[id].text = String::from_str(t);
        proof {
            World::lemma_wf_update_attrs(*old(self), *self, id as int);
        }
        Ok(())
    }

    /// Reposition and resize: a given corner or size replaces the current
    /// one, an omitted one is kept.  Fails with `Destroyed` past the live
    /// phase, without any change.
    pub fn bounds(&mut self, id: usize, upper_left: Option<(i32, i32)>, size: Option<(i32, i32)>)
        -> (r: Result<(), Error>)
        requires
            old(self).wf(),
        ensures
            final(self).wf(),
            r is Ok <==> id < old(self).n() && old(self).live(id as int),
            r is Err ==> r == Err::<(), Error>(Error::Destroyed) && final(self).same_nodes(
                *old(self),
            ) && final(self).next_handle() == old(self).next_handle(),
            r is Ok ==> attr_op_frame(*old(self), *final(self), id as int) && final(self).bounds_of(
                id as int,
            ) == {
                let (ox, oy, ow, oh) = old(self).bounds_of(id as int);
                let (nx, ny) = match upper_left {
                    Some(p) => p,
                    None => (ox, oy),
                };
                let (nw, nh) = match size {
                    Some(q) => q,
                    None => (ow, oh),
                };
                (nx, ny, nw, nh)
            } && final(self).background_of(id as int) == old(self).background_of(id as int) && final(self).text_of(id as int) == old(self).text_of(id as int) && final(self).shown(id as int)
                == old(self).shown(id as int) && final(self).paints(id as int) == old(self).paints(id as int),
    {
        if let Err(e) = self.check_live(id) {
            return Err(e);
        }
        if let Some((nx, ny)) = upper_left {
            self.nodes[id].x = nx;
            self.nodes[id].y = ny;
        }
        if let Some((nw, nh)) = size {
            self.nodes[id].w = nw;
            self.nodes[id].h = nh;
        }
        proof {
            World::lemma_wf_update_attrs(*old(self), *self, id as int);
        }
        Ok(())
    }

    /// Show or hide the window.  Fails with `Destroyed` past the live
    /// phase, without any change.
    pub fn visible(&mut self, id: usize, v: bool) -> (r: Result<(), Error>)
        requires
            old(self).wf(),
        ensures
            final(self).wf(),
            r is Ok <==> id < old(self).n() && old(self).live(id as int),
            r is Err ==> r == Err::<(), Error>(Error::Destroyed) && final(self).same_nodes(
                *old(self),
            ) && final(self).next_handle() == old(self).next_handle(),
            r is Ok ==> attr_op_frame(*old(self), *final(self), id as int)
                && final(self).shown(id as int) == v
                && final(self).background_of(id as int) == old(self).background_of(id as int)
                && final(self).text_of(id as int) == old(self).text_of(id as int)
                && final(self).bounds_of(id as int) == old(self).bounds_of(id as int)
                && final(self).paints(id as int) == old(self).paints(id as int),
    {
        if let Err(e) = self.check_live(id) {
            return Err(e);
        }
        self.nodes[id].visible = v;
        proof {
            World::lemma_wf_update_attrs(*old(self), *self, id as int);
        }
        Ok(())
    }

    /// Invalidate the client area so the next paint pass redraws it.
    /// Fails with `Destroyed` past the live phase, without any change.
    pub fn redraw(&mut self, id: usize) -> (r: Result<(), Error>)
        requires
            old(self).wf(),
        ensures
            final(self).wf(),
            r is Ok <==> id < old(self).n() && old(self).live(id as int),
            r is Err ==> r == Err::<(), Error>(Error::Destroyed) && final(self).same_nodes(
                *old(self),
            ) && final(self).next_handle() == old(self).next_handle(),
            r is Ok ==> attr_op_frame(*old(self), *final(self), id as int)
                && final(self).needs_paint(id as int)
                && final(self).background_of(id as int) == old(self).background_of(id as int)
                && final(self).text_of(id as int) == old(self).text_of(id as int)
                && final(self).bounds_of(id as int) == old(self).bounds_of(id as int)
                && final(self).shown(id as int) == old(self).shown(id as int)
                && final(self).paints(id as int) == old(self).paints(id as int),
    {
        if let Err(e) = self.check_live(id) {
            return Err(e);
        }
        self.nodes[id].needs_paint = true;
        proof {
            World::lemma_wf_update_attrs(*old(self), *self, id as int);
        }
        Ok(())
    }

    /// Move the window past the right edge of the virtual screen, keeping
    /// its size.  The model places the virtual screen edge at a fixed
    /// coordinate.  Fails with `Destroyed` past the live phase.
    pub fn move_offscreen(&mut self, id: usize) -> (r: Result<(), Error>)
        requires
            old(self).wf(),
        ensures
            final(self).wf(),
            r is Ok <==> id < old(self).n() && old(self).live(id as int),
            r is Err ==> r == Err::<(), Error>(Error::Destroyed) && final(self).same_nodes(
                *old(self),
            ) && final(self).next_handle() == old(self).next_handle(),
            r is Ok ==> attr_op_frame(*old(self), *final(self), id as int) && final(self).bounds_of(
                id as int,
            ) == {
                let (ox, oy, ow, oh) = old(self).bounds_of(id as int);
                (OFFSCREEN_X, 0i32, ow, oh)
            } && final(self).background_of(id as int) == old(self).background_of(id as int) && final(self).text_of(id as int) == old(self).text_of(id as int) && final(self).shown(id as int)
                == old(self).shown(id as int) && final(self).paints(id as int) == old(self).paints(id as int),
    {
        if let Err(e) = self.check_live(id) {
            return Err(e);
        }
        self.nodes[id].x = OFFSCREEN_X;
        self.nodes[id].y = 0;
        proof {
            World::lemma_wf_update_attrs(*old(self), *self, id as int);
        }
        Ok(())
    }

    /// Register the close callback.  On a live node the script replaces
    /// whatever the slot held; on any other node this is a harmless no-op,
    /// as registration past the live phase must be.
    pub fn on_close(&mut self, id: usize, script: Script) -> (r: Result<(), Error>)
        requires
            old(self).wf(),
        ensures
            final(self).wf(),
            r is Ok,
            final(self).n() == old(self).n(),
            final(self).next_handle() == old(self).next_handle(),
            final(self).armed_failure() == old(self).armed_failure(),
            id < old(self).n() && old(self).live(id as int) ==> {
                &&& core_protocol_unchanged(*old(self), *final(self))
                &&& final(self).close_slot_filled(id as int)
                &&& final(self).close_script(id as int) == script@
                &&& final(self).destroy_slot_filled(id as int) == old(self).destroy_slot_filled(
                    id as int,
                )
                &&& final(self).destroy_script(id as int) == old(self).destroy_script(id as int)
                &&& attrs_unchanged_except(*old(self), *final(self), old(self).n())
                &&& children_unchanged_except(*old(self), *final(self), old(self).n())
                &&& forall|i: int|
                    0 <= i < old(self).n() && i != id ==> (#[trigger] final(self).close_slot_filled(
                        i,
                    )) == old(self).close_slot_filled(i) && final(self).destroy_slot_filled(i)
                        == old(self).destroy_slot_filled(i)
                &&& final(self).live(id as int)
            },
            !(id < old(self).n() && old(self).live(id as int)) ==> final(self).same_nodes(
                *old(self),
            ),
    {
        if self.check_live(id).is_err() {
            return Ok(());
        }
        self.nodes[id].on_close.set(Some(script));
        proof {
            World::lemma_wf_update_attrs(*old(self), *self, id as int);
        }
        Ok(())
    }

    /// Register the destroy callback.  On a live node the script replaces
    /// whatever the slot held; on any other node this is a harmless no-op.
    pub fn on_destroy(&mut self, id: usize, script: Script) -> (r: Result<(), Error>)
        requires
            old(self).wf(),
        ensures
            final(self).wf(),
            r is Ok,
            final(self).n() == old(self).n(),
            final(self).next_handle() == old(self).next_handle(),
            final(self).armed_failure() == old(self).armed_failure(),
            id < old(self).n() && old(self).live(id as int) ==> {
                &&& core_protocol_unchanged(*old(self), *final(self))
                &&& final(self).destroy_slot_filled(id as int)
                &&& final(self).destroy_script(id as int) == script@
                &&& final(self).close_slot_filled(id as int) == old(self).close_slot_filled(
                    id as int,
                )
                &&& final(self).close_script(id as int) == old(self).close_script(id as int)
                &&& attrs_unchanged_except(*old(self), *final(self), old(self).n())
                &&& children_unchanged_except(*old(self), *final(self), old(self).n())
                &&& forall|i: int|
                    0 <= i < old(self).n() && i != id ==> (#[trigger] final(self).close_slot_filled(
                        i,
                    )) == old(self).close_slot_filled(i) && final(self).destroy_slot_filled(i)
                        == old(self).destroy_slot_filled(i)
                &&& final(self).live(id as int)
            },
            !(id < old(self).n() && old(self).live(id as int)) ==> final(self).same_nodes(
                *old(self),
            ),
    {
        if self.check_live(id).is_err() {
            return Ok(());
        }
        self.nodes[id].on_destroy.set(Some(script));
        proof {
            World::lemma_wf_update_attrs(*old(self), *self, id as int);
        }
        Ok(())
    }
}


/// What any balanced dispatch activity guarantees, however deep it nests:
/// nodes are only added, identities never change, every entry counter is
/// back where it was, no dispatch state held by an open frame was freed,
/// teardown is irreversible, faults only accumulate and each one tears its
/// node down, and a detached callback is never fired again while it is
/// detached - its slot either stays executing or its node was torn down.
/// Further, a node torn down without a fault went through the terminal
/// path, which released its children and callbacks; a torn node's child
/// list never changes again; an empty slot can only be filled by
/// registration, which no dispatch activity performs; and every node the
/// activity created still carries empty slots.
pub open spec fn dispatch_frame(a: World, b: World) -> bool {
    &&& b.n() >= a.n()
    &&& forall|i: int| 0 <= i < a.n() ==> (#[trigger] b.handle(i)) == a.handle(i)
    &&& forall|i: int| 0 <= i < a.n() ==> (#[trigger] b.count(i)) == a.count(i)
    &&& forall|i: int|
        0 <= i < a.n() && a.count(i) > 0 ==> (#[trigger] b.allocated(i)) == a.allocated(i)
            && b.frees(i) == a.frees(i)
    &&& forall|i: int| 0 <= i < a.n() && a.torn(i) ==> #[trigger] b.torn(i)
    &&& forall|i: int|
        0 <= i < a.n() && a.torn(i) ==> (#[trigger] b.close_fires(i)) == a.close_fires(i)
            && b.destroy_fires(i) == a.destroy_fires(i)
    &&& forall|i: int|
        0 <= i < a.n() ==> (#[trigger] b.faults(i)) >= a.faults(i) && (b.faults(i) > a.faults(i)
            ==> b.torn(i))
    &&& forall|i: int|
        0 <= i < a.n() && (#[trigger] a.close_slot_executing(i)) ==> b.close_fires(i)
            == a.close_fires(i) && (b.close_slot_executing(i) || b.torn(i))
    &&& forall|i: int|
        0 <= i < a.n() && (#[trigger] a.destroy_slot_executing(i)) ==> b.destroy_fires(i)
            == a.destroy_fires(i) && (b.destroy_slot_executing(i) || b.torn(i))
    &&& forall|i: int|
        0 <= i < a.n() && !a.torn(i) && (#[trigger] b.torn(i)) && b.faults(i) == a.faults(i)
            && a.faults(i) < u64::MAX ==> b.children(i) == Seq::<usize>::empty()
            && b.close_slot_empty(i) && b.destroy_slot_empty(i)
    &&& forall|i: int|
        0 <= i < a.n() && (#[trigger] a.close_slot_empty(i)) ==> b.close_slot_empty(i)
    &&& forall|i: int|
        0 <= i < a.n() && (#[trigger] a.destroy_slot_empty(i)) ==> b.destroy_slot_empty(i)
    &&& forall|i: int|
        0 <= i < a.n() && a.torn(i) ==> (#[trigger] b.children(i)) == a.children(i)
    &&& forall|i: int| a.n() <= i < b.n() ==> #[trigger] b.close_slot_empty(i)
    &&& forall|i: int| a.n() <= i < b.n() ==> #[trigger] b.destroy_slot_empty(i)
}

impl World {
    /// Direct consequence of the frame relation: a node added during the
    /// activity has empty callback slots.
    proof fn lemma_frame_new_node(a: World, b: World, i: int)
        requires
            dispatch_frame(a, b),
            a.n() <= i < b.n(),
        ensures
            b.close_slot_empty(i),
            b.destroy_slot_empty(i),
    {
    }

    /// Direct consequence of the frame relation for a detached close slot.
    proof fn lemma_frame_close_executing(a: World, b: World, i: int)
        requires
            dispatch_frame(a, b),
            0 <= i < a.n(),
            a.close_slot_executing(i),
        ensures
            b.close_fires(i) == a.close_fires(i),
            b.close_slot_executing(i) || b.torn(i),
    {
    }

    /// Direct consequence of the frame relation for a detached destroy
    /// slot.
    proof fn lemma_frame_destroy_executing(a: World, b: World, i: int)
        requires
            dispatch_frame(a, b),
            0 <= i < a.n(),
            a.destroy_slot_executing(i),
        ensures
            b.destroy_fires(i) == a.destroy_fires(i),
            b.destroy_slot_executing(i) || b.torn(i),
    {
    }

    /// Direct consequence of the frame relation: a node torn without a
    /// fault was released by the terminal path, so nothing it owned or
    /// stored survives it.
    pub proof fn lemma_frame_tear_released(a: World, b: World, i: int)
        requires
            dispatch_frame(a, b),
            0 <= i < a.n(),
            !a.torn(i),
            b.torn(i),
            b.faults(i) == a.faults(i),
            a.faults(i) < u64::MAX,
        ensures
            b.children(i) == Seq::<usize>::empty(),
            b.close_slot_empty(i),
            b.destroy_slot_empty(i),
    {
    }

    /// Direct consequences of the frame relation for one held node.
    proof fn lemma_frame_held_node(a: World, b: World, i: int)
        requires
            dispatch_frame(a, b),
            0 <= i < a.n(),
            a.count(i) > 0,
        ensures
            b.allocated(i) == a.allocated(i),
            b.frees(i) == a.frees(i),
            b.count(i) == a.count(i),
    {
    }

    /// The frame relation is reflexive.
    proof fn lemma_frame_refl(a: World)
        ensures
            dispatch_frame(a, a),
    {
    }

    /// The frame relation composes across consecutive calls.
    proof fn lemma_frame_trans(a: World, b: World, c: World)
        requires
            dispatch_frame(a, b),
            dispatch_frame(b, c),
        ensures
            dispatch_frame(a, c),
    {
        assert forall|i: int| 0 <= i < a.n() implies (#[trigger] c.handle(i)) == a.handle(i) by {
            assert(b.handle(i) == a.handle(i));
        }
        assert forall|i: int| 0 <= i < a.n() implies (#[trigger] c.count(i)) == a.count(i) by {
            assert(b.count(i) == a.count(i));
        }
        assert forall|i: int|
            0 <= i < a.n() && a.count(i) > 0 implies (#[trigger] c.allocated(i)) == a.allocated(i)
            && c.frees(i) == a.frees(i) by {
            assert(b.count(i) == a.count(i));
            assert(b.allocated(i) == a.allocated(i) && b.frees(i) == a.frees(i));
        }
        assert forall|i: int| 0 <= i < a.n() && a.torn(i) implies #[trigger] c.torn(i) by {
            assert(b.torn(i));
        }
        assert forall|i: int|
            0 <= i < a.n() && a.torn(i) implies (#[trigger] c.close_fires(i)) == a.close_fires(i)
            && c.destroy_fires(i) == a.destroy_fires(i) by {
            assert(b.torn(i));
            assert(b.close_fires(i) == a.close_fires(i));
            assert(0 <= i < b.n());
            assert(c.close_fires(i) == b.close_fires(i));
        }
        assert forall|i: int|
            0 <= i < a.n() implies (#[trigger] c.faults(i)) >= a.faults(i) && (c.faults(i)
            > a.faults(i) ==> c.torn(i)) by {
            assert(b.faults(i) >= a.faults(i));
            if c.faults(i) > a.faults(i) {
                if c.faults(i) > b.faults(i) {
                } else {
                    assert(b.faults(i) > a.faults(i));
                    assert(b.torn(i));
                }
            }
        }
        assert forall|i: int|
            0 <= i < a.n() && (#[trigger] a.close_slot_executing(i)) implies c.close_fires(i)
            == a.close_fires(i) && (c.close_slot_executing(i) || c.torn(i)) by {
            assert(b.close_fires(i) == a.close_fires(i));
            if b.close_slot_executing(i) {
            } else {
                assert(b.torn(i));
                assert(c.torn(i));
                assert(0 <= i < b.n());
                assert(c.close_fires(i) == b.close_fires(i));
            }
        }
        assert forall|i: int|
            0 <= i < a.n() && (#[trigger] a.destroy_slot_executing(i)) implies c.destroy_fires(i)
            == a.destroy_fires(i) && (c.destroy_slot_executing(i) || c.torn(i)) by {
            assert(b.destroy_fires(i) == a.destroy_fires(i));
            if b.destroy_slot_executing(i) {
            } else {
                assert(b.torn(i));
                assert(c.torn(i));
                assert(0 <= i < b.n());
                assert(c.close_fires(i) == b.close_fires(i));
                assert(c.destroy_fires(i) == b.destroy_fires(i));
            }
        }
        assert forall|i: int|
            0 <= i < a.n() && !a.torn(i) && (#[trigger] c.torn(i)) && c.faults(i) == a.faults(i)
            && a.faults(i) < u64::MAX implies c.children(i) == Seq::<usize>::empty()
            && c.close_slot_empty(i) && c.destroy_slot_empty(i) by {
            assert(b.faults(i) >= a.faults(i) && c.faults(i) >= b.faults(i));
            if b.torn(i) {
                assert(b.faults(i) == a.faults(i));
                assert(b.children(i) == Seq::<usize>::empty() && b.close_slot_empty(i)
                    && b.destroy_slot_empty(i));
                assert(0 <= i < b.n());
                assert(c.children(i) == b.children(i));
                assert(c.close_slot_empty(i) && c.destroy_slot_empty(i));
            } else {
                assert(b.faults(i) == a.faults(i));
                assert(0 <= i < b.n());
                assert(c.faults(i) == b.faults(i));
                World::lemma_frame_tear_released(b, c, i);
            }
        }
        assert forall|i: int|
            0 <= i < a.n() && (#[trigger] a.close_slot_empty(i)) implies c.close_slot_empty(i) by {
            assert(b.close_slot_empty(i));
        }
        assert forall|i: int|
            0 <= i < a.n() && (#[trigger] a.destroy_slot_empty(i)) implies c.destroy_slot_empty(
            i,
        ) by {
            assert(b.destroy_slot_empty(i));
        }
        assert forall|i: int|
            0 <= i < a.n() && a.torn(i) implies (#[trigger] c.children(i)) == a.children(i) by {
            assert(b.torn(i));
            assert(b.children(i) == a.children(i));
            assert(c.children(i) == b.children(i));
        }
        assert forall|i: int| a.n() <= i < c.n() implies #[trigger] c.close_slot_empty(i) by {
            if i < b.n() {
                World::lemma_frame_new_node(a, b, i);
            } else {
                World::lemma_frame_new_node(b, c, i);
            }
        }
        assert forall|i: int| a.n() <= i < c.n() implies #[trigger] c.destroy_slot_empty(i) by {
            if i < b.n() {
                World::lemma_frame_new_node(a, b, i);
            } else {
                World::lemma_frame_new_node(b, c, i);
            }
        }
    }

    /// Worlds with equal node arenas are related by the frame.
    proof fn lemma_frame_same_nodes(a: World, b: World)
        requires
            a.nodes@ == b.nodes@,
        ensures
            dispatch_frame(a, b),
    {
    }

    /// Untouched protocol state below the old length gives the frame, as
    /// long as torn nodes also kept their child lists and any added nodes
    /// carry empty callback slots.
    proof fn lemma_frame_from_protocol(a: World, b: World)
        requires
            b.n() >= a.n(),
            protocol_unchanged_below(a, b, a.n()),
            forall|i: int|
                0 <= i < a.n() && a.torn(i) ==> (#[trigger] b.children(i)) == a.children(i),
            forall|i: int| a.n() <= i < b.n() ==> #[trigger] b.close_slot_empty(i),
            forall|i: int| a.n() <= i < b.n() ==> #[trigger] b.destroy_slot_empty(i),
        ensures
            dispatch_frame(a, b),
    {
        assert forall|i: int|
            0 <= i < a.n() && a.torn(i) implies (#[trigger] b.close_fires(i)) == a.close_fires(i)
            && b.destroy_fires(i) == a.destroy_fires(i) by {
            assert(b.close_fires(i) == a.close_fires(i));
        }
        assert forall|i: int|
            0 <= i < a.n() && (#[trigger] a.close_slot_executing(i)) implies b.close_fires(i)
            == a.close_fires(i) && (b.close_slot_executing(i) || b.torn(i)) by {
            assert(b.close_slot_executing(i) == a.close_slot_executing(i));
            assert(b.close_fires(i) == a.close_fires(i));
        }
        assert forall|i: int|
            0 <= i < a.n() && (#[trigger] a.destroy_slot_executing(i)) implies b.destroy_fires(i)
            == a.destroy_fires(i) && (b.destroy_slot_executing(i) || b.torn(i)) by {
            assert(b.destroy_slot_executing(i) == a.destroy_slot_executing(i));
            assert(b.destroy_fires(i) == a.destroy_fires(i));
        }
        assert forall|i: int|
            0 <= i < a.n() && !a.torn(i) && (#[trigger] b.torn(i)) && b.faults(i) == a.faults(i)
            && a.faults(i) < u64::MAX implies b.children(i) == Seq::<usize>::empty()
            && b.close_slot_empty(i) && b.destroy_slot_empty(i) by {
            assert(b.torn(i) == a.torn(i));
        }
        assert forall|i: int|
            0 <= i < a.n() && (#[trigger] a.close_slot_empty(i)) implies b.close_slot_empty(i) by {
            assert(b.close_slot_empty(i) == a.close_slot_empty(i));
        }
        assert forall|i: int|
            0 <= i < a.n() && (#[trigger] a.destroy_slot_empty(i)) implies b.destroy_slot_empty(
            i,
        ) by {
            assert(b.destroy_slot_empty(i) == a.destroy_slot_empty(i));
        }
    }

    /// A world in which exactly one node changed keeps the invariant, as
    /// long as that node itself still satisfies the per-node conditions
    /// and its identity and children stand (children may also have been
    /// released wholesale at teardown).
    proof fn lemma_wf_update_protocol(a: World, b: World, t: int)
        requires
            a.wf(),
            0 <= t < a.n(),
            b.nodes@.len() == a.nodes@.len(),
            b.next_handle == a.next_handle,
            forall|i: int| 0 <= i < a.n() && i != t ==> b.nodes@[i] == a.nodes@[i],
            b.nodes@[t].handle == a.nodes@[t].handle,
            b.nodes@[t].children@ == a.nodes@[t].children@ || b.nodes@[t].children@ =~= Seq::<
                usize,
            >::empty(),
            !b.nodes@[t].cell.is_unset(),
            b.nodes@[t].cell.is_present() ==> b.nodes@[t].cell.spec_get() == b.nodes@[t].handle,
            b.nodes@[t].cell.is_present() <==> b.nodes@[t].assoc,
            b.nodes@[t].state.wf(),
            b.nodes@[t].assoc ==> b.nodes@[t].state.is_allocated(),
            b.nodes@[t].state.pending() <==> b.nodes@[t].cell.is_cleared(),
            b.nodes@[t].state.pending() && b.nodes@[t].state.count() == 0
                ==> !b.nodes@[t].state.is_allocated(),
        ensures
            b.wf(),
    {
        assert forall|i: int| 0 <= i < b.n() implies b.node_ok(i) by {
            assert(a.node_ok(i));
            let nd = b.nodes@[i];
            assert forall|k: int| 0 <= k < nd.children@.len() implies i < #[trigger] nd.children@[k]
                < b.n() by {
                if i == t {
                    assert(nd.children@ == a.nodes@[t].children@);
                    assert(i < a.nodes@[i].children@[k] < a.n());
                } else {
                    assert(i < a.nodes@[i].children@[k] < a.n());
                }
            }
        }
        assert forall|i: int, j: int|
            0 <= i < b.n() && 0 <= j < b.n() && i != j implies b.handle(i) != b.handle(j) by {
            assert(a.handle(i) != a.handle(j));
        }
    }

    /// Resolve an inbound native identity to its dispatch state, the
    /// router's first step.  Exactly the node whose association is
    /// registered under this identity is found; if none is, the caller
    /// forwards to the default handler and fabricates nothing.
    fn resolve(&self, h: u64) -> (r: Option<usize>)
        requires
            self.wf(),
        ensures
            match r {
                Some(t) => t < self.n() && self.assoc(t as int) && self.handle(t as int) == h,
                None => forall|i: int|
                    0 <= i < self.n() ==> !((#[trigger] self.assoc(i)) && self.handle(i) == h),
            },
    {
        let mut k: usize = 0;
        while k < self.nodes.len()
            invariant
                k <= self.n(),
                self.wf(),
                forall|i: int| 0 <= i < k ==> !((#[trigger] self.assoc(i)) && self.handle(i) == h),
            decreases self.n() - k,
        {
            if self.nodes[k].assoc && self.nodes[k].handle == h {
                return Some(k);
            }
            k = k + 1;
        }
        None
    }
}


/// What one dispatch call guarantees about the node `t` it resolved,
/// depending on the message: the terminal notification tears the node
/// down; a close or pre-destruction request fires the matching callback
/// exactly once if one was at rest, and not at all otherwise; the paint
/// hook repaints a primary window; every other message kind passes through
/// to the default handler with the world untouched.
pub open spec fn dispatch_effect(a: World, b: World, t: int, msg: Msg) -> bool {
    &&& msg == Msg::Terminal ==> b.torn(t) && !b.assoc(t) && b.children(t) == Seq::<
        usize,
    >::empty() && b.close_slot_empty(t) && b.destroy_slot_empty(t) && !b.close_slot_filled(t)
        && !b.destroy_slot_filled(t)
    &&& msg == Msg::Close ==> b.close_fires(t) == (if a.close_slot_filled(t) {
        sat_inc(a.close_fires(t))
    } else {
        a.close_fires(t)
    })
    &&& msg == Msg::PreDestroy ==> b.destroy_fires(t) == (if a.destroy_slot_filled(t) {
        sat_inc(a.destroy_fires(t))
    } else {
        a.destroy_fires(t)
    })
    &&& msg == Msg::Close && !a.close_slot_filled(t) ==> b.same_nodes(a)
    &&& msg == Msg::PreDestroy && !a.destroy_slot_filled(t) ==> b.same_nodes(a)
    &&& msg == Msg::Paint && !a.is_control(t) ==> b.paints(t) == sat_inc(a.paints(t))
        && !b.needs_paint(t)
    &&& msg == Msg::Paint && a.is_control(t) ==> b.same_nodes(a)
    &&& msg is Other ==> b.same_nodes(a)
}

impl World {
    /// One inbound native call through the router.  Steps: resolve the
    /// identity (no association: forward to the default handler and touch
    /// nothing); count the frame in, treating counter overflow as fatal;
    /// run the user dispatch logic with faults contained at this boundary;
    /// on the terminal notification or a contained fault, schedule
    /// teardown, drop the association and clear the handle cell; count the
    /// frame out, freeing the dispatch state exactly when the counter
    /// returns to zero with teardown scheduled.
    #[verifier::rlimit(100)]
    fn dispatch(&mut self, h: u64, msg: Msg, fuel: u32) -> (r: Result<u64, Error>)
        requires
            old(self).wf(),
        ensures
            final(self).wf(),
            final(self).budget() == old(self).budget(),
            r is Err ==> r == Err::<u64, Error>(Error::Fatal),
            r is Ok ==> r == Ok::<u64, Error>(0u64) && dispatch_frame(*old(self), *final(self)),
            r is Ok && msg == Msg::Terminal ==> final(self).n() == old(self).n(),
            r is Ok && (forall|i: int|
                0 <= i < old(self).n() ==> !((#[trigger] old(self).assoc(i)) && old(self).handle(i)
                    == h)) ==> final(self).same_nodes(*old(self)),
            r is Ok ==> forall|t: int|
                0 <= t < old(self).n() && (#[trigger] old(self).assoc(t)) && old(self).handle(t)
                    == h ==> dispatch_effect(*old(self), *final(self), t, msg),
            r is Err ==> fuel == 0 || exists|t: int|
                0 <= t < old(self).n() && (#[trigger] old(self).assoc(t)) && old(self).handle(t)
                    == h && (old(self).count(t) == u32::MAX || (msg == Msg::Close && old(self).close_slot_filled(t)) || (msg == Msg::PreDestroy && old(self).destroy_slot_filled(t))),
        decreases fuel,
    {
        let ghost w0 = *old(self);
        let target = self.resolve(h);
        let t = match target {
            Some(t) => t,
            None => {
                return Ok(0u64);
            },
        };
        if fuel == 0 {
            return Err(Error::Fatal);
        }
        proof {
            assert(w0.node_ok(t as int));
            crate::handle::lemma_phases_exclusive(w0.nodes@[t as int].cell);
        }
        if !self.nodes[t].state.try_enter() {
            proof {
                assert(self.nodes@ =~= w0.nodes@);
                World::lemma_wf_unchanged_nodes(w0, *self);
            }
            return Err(Error::Fatal);
        }
        let ghost w1 = *self;
        proof {
            World::lemma_wf_update_protocol(w0, w1, t as int);
        }
        match msg {
            Msg::Other(_) => {
                proof {
                    assert(!w0.pending(t as int));
                    assert(w0.allocated(t as int));
                }
                let _freed = self.nodes[t].state.leave();
                proof {
                    crate::dispatch::lemma_state_determined(
                        self.nodes@[t as int].state,
                        w0.nodes@[t as int].state,
                    );
                    assert(self.nodes@[t as int] == w0.nodes@[t as int]);
                    assert(self.nodes@ =~= w0.nodes@);
                    World::lemma_frame_same_nodes(w0, *self);
                    World::lemma_wf_unchanged_nodes(w0, *self);
                    World::lemma_effect_unique(w0, *self, t as int, h, msg);
                }
                Ok(0u64)
            },
            Msg::Paint => {
                if !self.nodes[t].is_control {
                    self.nodes[t].needs_paint = false;
                    bump(&mut self.nodes[t].paints);
                }
                proof {
                    assert(!w0.pending(t as int));
                    assert(w0.allocated(t as int));
                }
                let _freed = self.nodes[t].state.leave();
                proof {
                    crate::dispatch::lemma_state_determined(
                        self.nodes@[t as int].state,
                        w0.nodes@[t as int].state,
                    );
                    if w0.is_control(t as int) {
                        assert(self.nodes@[t as int] == w0.nodes@[t as int]);
                        assert(self.nodes@ =~= w0.nodes@);
                        World::lemma_frame_same_nodes(w0, *self);
                        World::lemma_wf_unchanged_nodes(w0, *self);
                        World::lemma_effect_unique(w0, *self, t as int, h, msg);
                    } else {
                        World::lemma_wf_update_protocol(w0, *self, t as int);
                        assert(dispatch_frame(w0, *self));
                        World::lemma_effect_unique(w0, *self, t as int, h, msg);
                    }
                }
                Ok(0u64)
            },
            Msg::Close => {
                let detached = self.nodes[t].on_close.begin_invoke();
                if let Some(script) = detached {
                    bump(&mut self.nodes[t].close_fires);
                    let ghost w2 = *self;
                    proof {
                        World::lemma_wf_update_attrs(w1, w2, t as int);
                        crate::callback::lemma_no_reentrant_detach(w0.nodes@[t as int].on_close);
                        assert(w0.close_slot_filled(t as int));
                        assert(!w0.pending(t as int));
                        assert(w0.allocated(t as int));
                    }
                    let sres = self.run_script(&script, fuel - 1);
                    let ghost w3 = *self;
                    let faulted = match sres {
                        Ok(f) => f,
                        Err(_) => {
                            return Err(Error::Fatal);
                        },
                    };
                    proof {
                        assert(w3.count(t as int) == w2.count(t as int));
                        assert(w3.node_ok(t as int));
                    }
                    self.nodes[t].on_close.end_invoke(script);
                    let ghost w4 = *self;
                    proof {
                        World::lemma_wf_update_attrs(w3, w4, t as int);
                        assert(w4.node_ok(t as int));
                        crate::callback::lemma_no_reentrant_detach(w3.nodes@[t as int].on_close);
                        assert(w4.close_slot_empty(t as int) == w3.close_slot_empty(t as int));
                        assert(w4.destroy_slot_empty(t as int) == w3.destroy_slot_empty(t as int));
                    }
                    if faulted {
                        bump(&mut self.nodes[t].faults);
                        self.nodes[t].state.mark_teardown();
                        self.nodes[t].assoc = false;
                        self.nodes[t].cell.clear();
                        proof {
                            World::lemma_wf_update_protocol(w4, *self, t as int);
                        }
                    }
                    let ghost w5 = *self;
                    proof {
                        assert(w5.node_ok(t as int));
                        assert(dispatch_frame(w2, w3));
                        assert(w1.n() == w0.n() && w2.n() == w0.n());
                        assert((t as int) < w2.n());
                        assert(w1.count(t as int) == w0.count(t as int) + 1);
                        assert(w2.count(t as int) == w1.count(t as int));
                        assert(w2.count(t as int) > 0);
                        World::lemma_frame_held_node(w2, w3, t as int);
                        assert(w3.count(t as int) == w2.count(t as int));
                        assert(w3.allocated(t as int) == w2.allocated(t as int) && w3.frees(
                            t as int,
                        ) == w2.frees(t as int));
                        assert(w5.count(t as int) == w0.count(t as int) + 1);
                        assert(w5.allocated(t as int));
                        if w5.assoc(t as int) {
                            crate::handle::lemma_phases_exclusive(w5.nodes@[t as int].cell);
                            assert(!w5.pending(t as int));
                        }
                    }
                    let _freed = self.nodes[t].state.leave();
                    proof {
                        World::lemma_wf_update_protocol(w5, *self, t as int);
                        World::lemma_dispatch_invoke_frame(
                            w0,
                            w1,
                            w2,
                            w3,
                            w5,
                            *self,
                            t as int,
                            true,
                        );
                        World::lemma_effect_unique(w0, *self, t as int, h, msg);
                    }
                    Ok(0u64)
                } else {
                    let _freed = self.nodes[t].state.leave();
                    proof {
                        crate::dispatch::lemma_state_determined(
                            self.nodes@[t as int].state,
                            w0.nodes@[t as int].state,
                        );
                        assert(self.nodes@[t as int] == w0.nodes@[t as int]);
                        assert(self.nodes@ =~= w0.nodes@);
                        World::lemma_frame_same_nodes(w0, *self);
                        World::lemma_wf_unchanged_nodes(w0, *self);
                        World::lemma_effect_unique(w0, *self, t as int, h, msg);
                    }
                    Ok(0u64)
                }
            },
            Msg::PreDestroy => {
                let detached = self.nodes[t].on_destroy.begin_invoke();
                if let Some(script) = detached {
                    bump(&mut self.nodes[t].destroy_fires);
                    let ghost w2 = *self;
                    proof {
                        World::lemma_wf_update_attrs(w1, w2, t as int);
                        crate::callback::lemma_no_reentrant_detach(w0.nodes@[t as int].on_destroy);
                        assert(w0.destroy_slot_filled(t as int));
                        assert(!w0.pending(t as int));
                        assert(w0.allocated(t as int));
                    }
                    let sres = self.run_script(&script, fuel - 1);
                    let ghost w3 = *self;
                    let faulted = match sres {
                        Ok(f) => f,
                        Err(_) => {
                            return Err(Error::Fatal);
                        },
                    };
                    proof {
                        assert(w3.count(t as int) == w2.count(t as int));
                        assert(w3.node_ok(t as int));
                    }
                    self.nodes[t].on_destroy.end_invoke(script);
                    let ghost w4 = *self;
                    proof {
                        World::lemma_wf_update_attrs(w3, w4, t as int);
                        assert(w4.node_ok(t as int));
                        crate::callback::lemma_no_reentrant_detach(w3.nodes@[t as int].on_destroy);
                        assert(w4.close_slot_empty(t as int) == w3.close_slot_empty(t as int));
                        assert(w4.destroy_slot_empty(t as int) == w3.destroy_slot_empty(t as int));
                    }
                    if faulted {
                        bump(&mut self.nodes[t].faults);
                        self.nodes[t].state.mark_teardown();
                        self.nodes[t].assoc = false;
                        self.nodes[t].cell.clear();
                        proof {
                            World::lemma_wf_update_protocol(w4, *self, t as int);
                        }
                    }
                    let ghost w5 = *self;
                    proof {
                        assert(w5.node_ok(t as int));
                        assert(dispatch_frame(w2, w3));
                        assert(w1.n() == w0.n() && w2.n() == w0.n());
                        assert((t as int) < w2.n());
                        assert(w1.count(t as int) == w0.count(t as int) + 1);
                        assert(w2.count(t as int) == w1.count(t as int));
                        assert(w2.count(t as int) > 0);
                        World::lemma_frame_held_node(w2, w3, t as int);
                        assert(w3.count(t as int) == w2.count(t as int));
                        assert(w3.allocated(t as int) == w2.allocated(t as int) && w3.frees(
                            t as int,
                        ) == w2.frees(t as int));
                        assert(w5.count(t as int) == w0.count(t as int) + 1);
                        assert(w5.allocated(t as int));
                        if w5.assoc(t as int) {
                            crate::handle::lemma_phases_exclusive(w5.nodes@[t as int].cell);
                            assert(!w5.pending(t as int));
                        }
                    }
                    let _freed = self.nodes[t].state.leave();
                    proof {
                        World::lemma_wf_update_protocol(w5, *self, t as int);
                        World::lemma_dispatch_invoke_frame(
                            w0,
                            w1,
                            w2,
                            w3,
                            w5,
                            *self,
                            t as int,
                            false,
                        );
                        World::lemma_effect_unique(w0, *self, t as int, h, msg);
                    }
                    Ok(0u64)
                } else {
                    let _freed = self.nodes[t].state.leave();
                    proof {
                        crate::dispatch::lemma_state_determined(
                            self.nodes@[t as int].state,
                            w0.nodes@[t as int].state,
                        );
                        assert(self.nodes@[t as int] == w0.nodes@[t as int]);
                        assert(self.nodes@ =~= w0.nodes@);
                        World::lemma_frame_same_nodes(w0, *self);
                        World::lemma_wf_unchanged_nodes(w0, *self);
                        World::lemma_effect_unique(w0, *self, t as int, h, msg);
                    }
                    Ok(0u64)
                }
            },
            Msg::Terminal => {
                // The user dispatch logic releases the managed references:
                // handle, owned children, and the callbacks that may close
                // a reference cycle back to this node.
                self.nodes[t].cell.clear();
                self.nodes[t].children = Vec::new();
                self.nodes[t].on_close.set(None);
                self.nodes[t].on_destroy.set(None);
                // The router removes the association so no further call
                // resolves here, and schedules the deallocation.
                self.nodes[t].state.mark_teardown();
                self.nodes[t].assoc = false;
                self.nodes[t].cell.clear();
                let ghost w5 = *self;
                proof {
                    World::lemma_wf_update_protocol(w1, w5, t as int);
                    assert(w5.node_ok(t as int));
                }
                let _freed = self.nodes[t].state.leave();
                proof {
                    World::lemma_wf_update_protocol(w5, *self, t as int);
                    World::lemma_dispatch_terminal_frame(w0, w1, w5, *self, t as int);
                    World::lemma_effect_unique(w0, *self, t as int, h, msg);
                }
                Ok(0u64)
            },
        }
    }
}


/// Worlds `a` and `b` agree on every node except possibly `t`, and on the
/// arena length and identity counter.
spec fn same_except(a: World, b: World, t: int) -> bool {
    &&& b.nodes@.len() == a.nodes@.len()
    &&& b.next_handle == a.next_handle
    &&& forall|i: int| 0 <= i < a.n() && i != t ==> b.nodes@[i] == a.nodes@[i]
}

/// No node from `i` onward has a destroy callback registered.  Children
/// always carry larger indices than their parent, so this covers the
/// whole subtree under `i` (together with every node created after it):
/// a destruction cascade starting at `i` runs no user callback at all.
pub open spec fn quiet_from(w: World, i: int) -> bool {
    forall|j: int| i <= j < w.n() ==> #[trigger] w.destroy_slot_empty(j)
}

/// Every entry counter from `i` onward has room for one more frame.
pub open spec fn counts_clear_from(w: World, i: int) -> bool {
    forall|j: int| i <= j < w.n() ==> (#[trigger] w.count(j)) < u32::MAX
}

impl World {
    /// The association resolves at most one node, so an effect shown for
    /// the resolved node holds for every node the identity matches.
    proof fn lemma_effect_unique(a: World, b: World, t: int, h: u64, msg: Msg)
        requires
            a.wf(),
            0 <= t < a.n(),
            a.assoc(t),
            a.handle(t) == h,
            dispatch_effect(a, b, t, msg),
        ensures
            forall|t2: int|
                0 <= t2 < a.n() && (#[trigger] a.assoc(t2)) && a.handle(t2) == h
                    ==> dispatch_effect(a, b, t2, msg),
    {
        assert forall|t2: int|
            0 <= t2 < a.n() && (#[trigger] a.assoc(t2)) && a.handle(t2) == h implies dispatch_effect(
            a,
            b,
            t2,
            msg,
        ) by {
            if t2 != t {
                assert(a.handle(t2) != a.handle(t));
            }
        }
    }

    /// The balanced composition of one callback-invoking dispatch frame:
    /// entry raised the count, the detach marked the slot executing and
    /// counted the one firing, the script ran inside the frame, the
    /// aftermath touched only this node without firing it again, and the
    /// exit lowered the count.  Together they satisfy the frame relation,
    /// and the callback of the given kind fired exactly once.
    #[verifier::rlimit(100)]
    proof fn lemma_dispatch_invoke_frame(
        w0: World,
        w1: World,
        w2: World,
        w3: World,
        w5: World,
        wf_: World,
        t: int,
        is_close: bool,
    )
        requires
            w0.wf(),
            0 <= t < w0.n(),
            w0.assoc(t),
            !w0.torn(t),
            // entry: only the count moved
            same_except(w0, w1, t),
            w1.handle(t) == w0.handle(t),
            w1.count(t) == w0.count(t) + 1,
            w1.torn(t) == w0.torn(t),
            w1.allocated(t) == w0.allocated(t),
            w1.frees(t) == w0.frees(t),
            w1.close_fires(t) == w0.close_fires(t),
            w1.destroy_fires(t) == w0.destroy_fires(t),
            w1.faults(t) == w0.faults(t),
            w1.close_slot_executing(t) == w0.close_slot_executing(t),
            w1.destroy_slot_executing(t) == w0.destroy_slot_executing(t),
            w0.close_slot_filled(t) == w1.close_slot_filled(t),
            w0.destroy_slot_filled(t) == w1.destroy_slot_filled(t),
            w1.close_slot_empty(t) == w0.close_slot_empty(t),
            w1.destroy_slot_empty(t) == w0.destroy_slot_empty(t),
            w1.children(t) == w0.children(t),
            // detach and count the firing
            same_except(w1, w2, t),
            w2.handle(t) == w1.handle(t),
            w2.count(t) == w1.count(t),
            w2.torn(t) == w1.torn(t),
            w2.allocated(t) == w1.allocated(t),
            w2.frees(t) == w1.frees(t),
            w2.faults(t) == w1.faults(t),
            is_close ==> w1.close_slot_filled(t) && w2.close_slot_executing(t) && w2.close_fires(t)
                == sat_inc(w1.close_fires(t)) && w2.destroy_fires(t) == w1.destroy_fires(t)
                && w2.destroy_slot_executing(t) == w1.destroy_slot_executing(t)
                && w2.destroy_slot_empty(t) == w1.destroy_slot_empty(t) && !w2.close_slot_empty(t)
                && !w1.close_slot_empty(t),
            !is_close ==> w1.destroy_slot_filled(t) && w2.destroy_slot_executing(t)
                && w2.destroy_fires(t) == sat_inc(w1.destroy_fires(t)) && w2.close_fires(t)
                == w1.close_fires(t) && w2.close_slot_executing(t) == w1.close_slot_executing(t)
                && w2.close_slot_empty(t) == w1.close_slot_empty(t) && !w2.destroy_slot_empty(t)
                && !w1.destroy_slot_empty(t),
            w2.children(t) == w1.children(t),
            // the slot exclusivity of the detached slot
            is_close ==> !w0.close_slot_executing(t),
            !is_close ==> !w0.destroy_slot_executing(t),
            // the script ran inside the frame
            dispatch_frame(w2, w3),
            // reattach, fault containment and teardown marking
            same_except(w3, w5, t),
            w5.handle(t) == w3.handle(t),
            w5.count(t) == w3.count(t),
            w5.allocated(t) == w3.allocated(t),
            w5.frees(t) == w3.frees(t),
            w5.close_fires(t) == w3.close_fires(t),
            w5.destroy_fires(t) == w3.destroy_fires(t),
            w5.faults(t) >= w3.faults(t),
            w5.faults(t) > w3.faults(t) ==> w5.torn(t),
            w3.torn(t) ==> w5.torn(t),
            !w3.torn(t) && w5.faults(t) == w3.faults(t) && w3.faults(t) < u64::MAX ==> !w5.torn(
                t,
            ),
            is_close ==> w5.destroy_slot_executing(t) == w3.destroy_slot_executing(t),
            !is_close ==> w5.close_slot_executing(t) == w3.close_slot_executing(t),
            w5.close_slot_empty(t) == w3.close_slot_empty(t),
            w5.destroy_slot_empty(t) == w3.destroy_slot_empty(t),
            w5.children(t) == w3.children(t),
            // exit: only the count moved, except the one allowed free
            same_except(w5, wf_, t),
            wf_.handle(t) == w5.handle(t),
            wf_.count(t) == w5.count(t) - 1,
            wf_.torn(t) == w5.torn(t),
            wf_.close_fires(t) == w5.close_fires(t),
            wf_.destroy_fires(t) == w5.destroy_fires(t),
            wf_.faults(t) == w5.faults(t),
            wf_.close_slot_executing(t) == w5.close_slot_executing(t),
            wf_.destroy_slot_executing(t) == w5.destroy_slot_executing(t),
            wf_.close_slot_empty(t) == w5.close_slot_empty(t),
            wf_.destroy_slot_empty(t) == w5.destroy_slot_empty(t),
            wf_.children(t) == w5.children(t),
            w0.count(t) > 0 ==> wf_.allocated(t) == w5.allocated(t) && wf_.frees(t) == w5.frees(
                t,
            ),
        ensures
            dispatch_frame(w0, wf_),
            is_close ==> wf_.close_fires(t) == sat_inc(w0.close_fires(t)),
            !is_close ==> wf_.destroy_fires(t) == sat_inc(w0.destroy_fires(t)),
    {
        assert(w2.n() == w0.n() && w1.n() == w0.n());
        assert(wf_.n() == w5.n() && w5.n() == w3.n());
        assert(w3.n() >= w2.n());
        // fires of t are frozen while the slot is executing
        if is_close {
            assert(w3.close_fires(t) == w2.close_fires(t));
        } else {
            assert(w3.destroy_fires(t) == w2.destroy_fires(t));
        }
        assert forall|i: int| 0 <= i < w0.n() implies (#[trigger] wf_.handle(i)) == w0.handle(
            i,
        ) by {
            if i != t {
                assert(w2.nodes@[i] == w1.nodes@[i] && w1.nodes@[i] == w0.nodes@[i]);
                assert(w5.nodes@[i] == w3.nodes@[i] && wf_.nodes@[i] == w5.nodes@[i]);
                assert(w3.handle(i) == w2.handle(i));
            }
        }
        assert forall|i: int| 0 <= i < w0.n() implies (#[trigger] wf_.count(i)) == w0.count(i) by {
            if i != t {
                assert(w2.nodes@[i] == w1.nodes@[i] && w1.nodes@[i] == w0.nodes@[i]);
                assert(w5.nodes@[i] == w3.nodes@[i] && wf_.nodes@[i] == w5.nodes@[i]);
                assert(w3.count(i) == w2.count(i));
            }
        }
        assert forall|i: int|
            0 <= i < w0.n() && w0.count(i) > 0 implies (#[trigger] wf_.allocated(i))
            == w0.allocated(i) && wf_.frees(i) == w0.frees(i) by {
            if i != t {
                assert(w2.nodes@[i] == w1.nodes@[i] && w1.nodes@[i] == w0.nodes@[i]);
                assert(w5.nodes@[i] == w3.nodes@[i] && wf_.nodes@[i] == w5.nodes@[i]);
                assert(w2.count(i) > 0);
                assert(w3.allocated(i) == w2.allocated(i) && w3.frees(i) == w2.frees(i));
            } else {
                assert(w2.count(t) > 0);
                assert(w3.allocated(t) == w2.allocated(t) && w3.frees(t) == w2.frees(t));
            }
        }
        assert forall|i: int| 0 <= i < w0.n() && w0.torn(i) implies #[trigger] wf_.torn(i) by {
            if i != t {
                assert(w2.nodes@[i] == w1.nodes@[i] && w1.nodes@[i] == w0.nodes@[i]);
                assert(w5.nodes@[i] == w3.nodes@[i] && wf_.nodes@[i] == w5.nodes@[i]);
                assert(w2.torn(i));
                assert(w3.torn(i));
            }
        }
        assert forall|i: int|
            0 <= i < w0.n() && w0.torn(i) implies (#[trigger] wf_.close_fires(i))
            == w0.close_fires(i) && wf_.destroy_fires(i) == w0.destroy_fires(i) by {
            if i != t {
                assert(w2.nodes@[i] == w1.nodes@[i] && w1.nodes@[i] == w0.nodes@[i]);
                assert(w5.nodes@[i] == w3.nodes@[i] && wf_.nodes@[i] == w5.nodes@[i]);
                assert(w2.torn(i));
                assert(w3.close_fires(i) == w2.close_fires(i) && w3.destroy_fires(i)
                    == w2.destroy_fires(i));
            }
        }
        assert forall|i: int|
            0 <= i < w0.n() implies (#[trigger] wf_.faults(i)) >= w0.faults(i) && (wf_.faults(i)
            > w0.faults(i) ==> wf_.torn(i)) by {
            if i != t {
                assert(w2.nodes@[i] == w1.nodes@[i] && w1.nodes@[i] == w0.nodes@[i]);
                assert(w5.nodes@[i] == w3.nodes@[i] && wf_.nodes@[i] == w5.nodes@[i]);
                assert(w3.faults(i) >= w2.faults(i) && (w3.faults(i) > w2.faults(i) ==> w3.torn(
                    i,
                )));
            } else {
                if wf_.faults(t) > w0.faults(t) {
                    if w3.faults(t) > w2.faults(t) {
                        assert(w3.torn(t));
                        assert(w5.torn(t));
                    } else {
                        assert(w5.faults(t) > w3.faults(t));
                        assert(w5.torn(t));
                    }
                }
            }
        }
        assert forall|i: int|
            0 <= i < w0.n() && (#[trigger] w0.close_slot_executing(i)) implies wf_.close_fires(i)
            == w0.close_fires(i) && (wf_.close_slot_executing(i) || wf_.torn(i)) by {
            if i != t {
                assert(w2.nodes@[i] == w1.nodes@[i] && w1.nodes@[i] == w0.nodes@[i]);
                assert(w5.nodes@[i] == w3.nodes@[i] && wf_.nodes@[i] == w5.nodes@[i]);
                assert(w2.close_slot_executing(i));
                World::lemma_frame_close_executing(w2, w3, i);
            } else {
                assert(!is_close);
                assert(w2.close_slot_executing(t));
                World::lemma_frame_close_executing(w2, w3, t);
                if w3.close_slot_executing(t) {
                    assert(w5.close_slot_executing(t));
                } else {
                    assert(w3.torn(t));
                    assert(w5.torn(t));
                }
            }
        }
        assert forall|i: int|
            0 <= i < w0.n() && (#[trigger] w0.destroy_slot_executing(i)) implies wf_.destroy_fires(
            i,
        ) == w0.destroy_fires(i) && (wf_.destroy_slot_executing(i) || wf_.torn(i)) by {
            if i != t {
                assert(w2.nodes@[i] == w1.nodes@[i] && w1.nodes@[i] == w0.nodes@[i]);
                assert(w5.nodes@[i] == w3.nodes@[i] && wf_.nodes@[i] == w5.nodes@[i]);
                assert(w2.destroy_slot_executing(i));
                World::lemma_frame_destroy_executing(w2, w3, i);
            } else {
                assert(is_close);
                assert(w2.destroy_slot_executing(t));
                World::lemma_frame_destroy_executing(w2, w3, t);
                if w3.destroy_slot_executing(t) {
                    assert(w5.destroy_slot_executing(t));
                } else {
                    assert(w3.torn(t));
                    assert(w5.torn(t));
                }
            }
        }
        assert forall|i: int|
            0 <= i < w0.n() && !w0.torn(i) && (#[trigger] wf_.torn(i)) && wf_.faults(i)
            == w0.faults(i) && w0.faults(i) < u64::MAX implies wf_.children(i) == Seq::<
            usize,
        >::empty() && wf_.close_slot_empty(i) && wf_.destroy_slot_empty(i) by {
            if i != t {
                assert(w2.nodes@[i] == w1.nodes@[i] && w1.nodes@[i] == w0.nodes@[i]);
                assert(w5.nodes@[i] == w3.nodes@[i] && wf_.nodes@[i] == w5.nodes@[i]);
                assert(w3.faults(i) >= w2.faults(i));
                assert(w3.faults(i) == w2.faults(i));
                World::lemma_frame_tear_released(w2, w3, i);
            } else {
                assert(w5.faults(t) == w3.faults(t));
                assert(w3.faults(t) >= w2.faults(t));
                assert(w3.faults(t) == w2.faults(t));
                assert(w5.torn(t));
                assert(w3.torn(t));
                World::lemma_frame_tear_released(w2, w3, t);
            }
        }
        assert forall|i: int|
            0 <= i < w0.n() && (#[trigger] w0.close_slot_empty(i)) implies wf_.close_slot_empty(
            i,
        ) by {
            if i != t {
                assert(w2.nodes@[i] == w1.nodes@[i] && w1.nodes@[i] == w0.nodes@[i]);
                assert(w5.nodes@[i] == w3.nodes@[i] && wf_.nodes@[i] == w5.nodes@[i]);
                assert(w2.close_slot_empty(i));
                assert(w3.close_slot_empty(i));
            } else {
                crate::callback::lemma_no_reentrant_detach(w0.nodes@[t].on_close);
                assert(!is_close);
                assert(w2.close_slot_empty(t));
                assert(w3.close_slot_empty(t));
            }
        }
        assert forall|i: int|
            0 <= i < w0.n() && (#[trigger] w0.destroy_slot_empty(i)) implies wf_.destroy_slot_empty(
            i,
        ) by {
            if i != t {
                assert(w2.nodes@[i] == w1.nodes@[i] && w1.nodes@[i] == w0.nodes@[i]);
                assert(w5.nodes@[i] == w3.nodes@[i] && wf_.nodes@[i] == w5.nodes@[i]);
                assert(w2.destroy_slot_empty(i));
                assert(w3.destroy_slot_empty(i));
            } else {
                crate::callback::lemma_no_reentrant_detach(w0.nodes@[t].on_destroy);
                assert(is_close);
                assert(w2.destroy_slot_empty(t));
                assert(w3.destroy_slot_empty(t));
            }
        }
        assert forall|i: int|
            0 <= i < w0.n() && w0.torn(i) implies (#[trigger] wf_.children(i)) == w0.children(
            i,
        ) by {
            if i != t {
                assert(w2.nodes@[i] == w1.nodes@[i] && w1.nodes@[i] == w0.nodes@[i]);
                assert(w5.nodes@[i] == w3.nodes@[i] && wf_.nodes@[i] == w5.nodes@[i]);
                assert(w2.torn(i));
                assert(w3.children(i) == w2.children(i));
            }
        }
        assert forall|i: int| w0.n() <= i < wf_.n() implies #[trigger] wf_.close_slot_empty(i) by {
            assert(w2.n() <= i < w3.n());
            World::lemma_frame_new_node(w2, w3, i);
            assert(i != t);
            assert(w5.nodes@[i] == w3.nodes@[i] && wf_.nodes@[i] == w5.nodes@[i]);
        }
        assert forall|i: int|
            w0.n() <= i < wf_.n() implies #[trigger] wf_.destroy_slot_empty(i) by {
            assert(w2.n() <= i < w3.n());
            World::lemma_frame_new_node(w2, w3, i);
            assert(i != t);
            assert(w5.nodes@[i] == w3.nodes@[i] && wf_.nodes@[i] == w5.nodes@[i]);
        }
    }

    /// The balanced composition of one terminal dispatch frame: the user
    /// logic and the router released everything together, and the exit
    /// lowered the count, freeing the state exactly when this was the
    /// outermost frame.
    proof fn lemma_dispatch_terminal_frame(w0: World, w1: World, w5: World, wf_: World, t: int)
        requires
            w0.wf(),
            0 <= t < w0.n(),
            w0.assoc(t),
            !w0.torn(t),
            same_except(w0, w1, t),
            w1.handle(t) == w0.handle(t),
            w1.count(t) == w0.count(t) + 1,
            w1.allocated(t) == w0.allocated(t),
            w1.frees(t) == w0.frees(t),
            w1.close_fires(t) == w0.close_fires(t),
            w1.destroy_fires(t) == w0.destroy_fires(t),
            w1.faults(t) == w0.faults(t),
            same_except(w1, w5, t),
            w5.handle(t) == w1.handle(t),
            w5.count(t) == w1.count(t),
            w5.torn(t),
            !w5.assoc(t),
            w5.allocated(t) == w1.allocated(t),
            w5.frees(t) == w1.frees(t),
            w5.close_fires(t) == w1.close_fires(t),
            w5.destroy_fires(t) == w1.destroy_fires(t),
            w5.faults(t) == w1.faults(t),
            same_except(w5, wf_, t),
            wf_.handle(t) == w5.handle(t),
            wf_.count(t) == w5.count(t) - 1,
            wf_.torn(t) == w5.torn(t),
            !wf_.assoc(t),
            wf_.close_fires(t) == w5.close_fires(t),
            wf_.destroy_fires(t) == w5.destroy_fires(t),
            wf_.faults(t) == w5.faults(t),
            w5.children(t) == Seq::<usize>::empty(),
            w5.close_slot_empty(t),
            w5.destroy_slot_empty(t),
            wf_.children(t) == w5.children(t),
            wf_.close_slot_empty(t) == w5.close_slot_empty(t),
            wf_.destroy_slot_empty(t) == w5.destroy_slot_empty(t),
            w0.count(t) > 0 ==> wf_.allocated(t) == w5.allocated(t) && wf_.frees(t) == w5.frees(
                t,
            ),
        ensures
            dispatch_frame(w0, wf_),
            wf_.torn(t),
            !wf_.assoc(t),
            wf_.children(t) == Seq::<usize>::empty(),
            wf_.close_slot_empty(t),
            wf_.destroy_slot_empty(t),
    {
        assert forall|i: int|
            0 <= i < w0.n() && i != t implies wf_.nodes@[i] == w0.nodes@[i] by {
            assert(w1.nodes@[i] == w0.nodes@[i]);
            assert(w5.nodes@[i] == w1.nodes@[i]);
        }
    }
}


impl World {
    /// Run one detached callback script inside the current dispatch frame.
    /// Each action may reenter the router arbitrarily deep; a `Fault`
    /// abandons the rest of the script and reports the fault to the
    /// enclosing dispatch boundary, which contains it.
    fn run_script(&mut self, script: &Script, fuel: u32) -> (r: Result<bool, Error>)
        requires
            old(self).wf(),
        ensures
            final(self).wf(),
            final(self).budget() == old(self).budget(),
            r is Err ==> r == Err::<bool, Error>(Error::Fatal),
            r is Ok ==> dispatch_frame(*old(self), *final(self)),
        decreases fuel,
    {
        let ghost w0 = *old(self);
        if fuel == 0 {
            return Err(Error::Fatal);
        }
        let mut k: usize = 0;
        proof {
            World::lemma_frame_refl(w0);
        }
        while k < script.len()
            invariant
                w0 == *old(self),
                self.wf(),
                self.budget() == w0.budget(),
                dispatch_frame(w0, *self),
                fuel >= 1,
            decreases script.len() - k,
        {
            let ghost pre = *self;
            match &script[k] {
                Action::Destroy(id) => {
                    match self.destroy_at(*id, fuel - 1) {
                        Err(Error::Fatal) => {
                            return Err(Error::Fatal);
                        },
                        Err(_) => {
                            proof {
                                World::lemma_frame_same_nodes(pre, *self);
                                World::lemma_frame_trans(w0, pre, *self);
                            }
                        },
                        Ok(_) => {
                            proof {
                                World::lemma_frame_trans(w0, pre, *self);
                            }
                        },
                    }
                },
                Action::Close(id) => {
                    if *id < self.nodes.len() {
                        let h = self.nodes[*id].handle;
                        match self.dispatch(h, Msg::Close, fuel - 1) {
                            Err(_) => {
                                return Err(Error::Fatal);
                            },
                            Ok(_) => {
                                proof {
                                    World::lemma_frame_trans(w0, pre, *self);
                                }
                            },
                        }
                    }
                },
                Action::CreateChild(p, ty) => {
                    match self.create_child(*p, ty) {
                        Err(Error::Fatal) => {
                            return Err(Error::Fatal);
                        },
                        Err(_) => {
                            proof {
                                World::lemma_frame_same_nodes(pre, *self);
                                World::lemma_frame_trans(w0, pre, *self);
                            }
                        },
                        Ok(_) => {
                            proof {
                                assert forall|i: int|
                                    0 <= i < pre.n() && pre.torn(i) implies (#[trigger] self.children(
                                    i,
                                )) == pre.children(i) by {
                                    if i == *p as int {
                                        crate::handle::lemma_phases_exclusive(pre.nodes@[i].cell);
                                    }
                                }
                                assert forall|i: int|
                                    pre.n() <= i < self.n() implies #[trigger] self.close_slot_empty(
                                    i,
                                ) by {
                                    assert(i == pre.n());
                                }
                                assert forall|i: int|
                                    pre.n() <= i < self.n() implies #[trigger] self.destroy_slot_empty(
                                    i,
                                ) by {
                                    assert(i == pre.n());
                                }
                                World::lemma_frame_from_protocol(pre, *self);
                                World::lemma_frame_trans(w0, pre, *self);
                            }
                        },
                    }
                },
                Action::ExitLoop => {
                    self.quit = true;
                    proof {
                        World::lemma_wf_unchanged_nodes(pre, *self);
                        World::lemma_frame_same_nodes(pre, *self);
                        World::lemma_frame_trans(w0, pre, *self);
                    }
                },
                Action::Probe(id) => {
                    let c = if *id < self.nodes.len() {
                        self.nodes[*id].state.current_count()
                    } else {
                        0
                    };
                    self.probes.push(c);
                    proof {
                        World::lemma_wf_unchanged_nodes(pre, *self);
                        World::lemma_frame_same_nodes(pre, *self);
                        World::lemma_frame_trans(w0, pre, *self);
                    }
                },
                Action::Fault => {
                    return Ok(true);
                },
            }
            k = k + 1;
        }
        Ok(false)
    }

    /// Request destruction of a node: a no-op returning success past the
    /// live phase, and the full native teardown sequence while live.
    fn destroy_at(&mut self, id: usize, fuel: u32) -> (r: Result<(), Error>)
        requires
            old(self).wf(),
        ensures
            final(self).wf(),
            final(self).budget() == old(self).budget(),
            r is Err ==> r == Err::<(), Error>(Error::Fatal) || (r == Err::<(), Error>(
                Error::Destroyed,
            ) && id >= old(self).n() && final(self).same_nodes(*old(self))),
            r is Ok ==> id < old(self).n() && dispatch_frame(*old(self), *final(self)) && final(self).torn(id as int),
            r is Ok && old(self).torn(id as int) ==> final(self).same_nodes(*old(self)),
            id < old(self).n() && old(self).torn(id as int) ==> r is Ok,
            id < old(self).n() && fuel >= 3 && old(self).count(id as int) < u32::MAX && !old(self).destroy_slot_filled(id as int) && old(self).children(id as int).len() == 0 ==> r
                is Ok,
            id < old(self).n() && (fuel as int) >= 2 * (old(self).n() - id) + 2 && quiet_from(
                *old(self),
                id as int,
            ) && counts_clear_from(*old(self), id as int) ==> r is Ok && final(self).n() == old(
                self,
            ).n(),
        decreases fuel,
    {
        if id >= self.nodes.len() {
            return Err(Error::Destroyed);
        }
        if !self.nodes[id].cell.present() {
            proof {
                assert(old(self).node_ok(id as int));
                crate::handle::lemma_phases_exclusive(old(self).nodes@[id as int].cell);
                World::lemma_frame_refl(*old(self));
            }
            return Ok(());
        }
        proof {
            crate::handle::lemma_phases_exclusive(old(self).nodes@[id as int].cell);
        }
        if fuel == 0 {
            return Err(Error::Fatal);
        }
        match self.destroy_native(id, fuel - 1) {
            Ok(_) => Ok(()),
            Err(e) => Err(Error::Fatal),
        }
    }

    /// The runtime model's native destruction: deliver the
    /// pre-destruction notification, cascade over the children the node
    /// owned, then deliver the terminal notification that tears the
    /// association down.  Children attached while the cascade is already
    /// running are not revisited.
    fn destroy_native(&mut self, id: usize, fuel: u32) -> (r: Result<(), Error>)
        requires
            old(self).wf(),
            id < old(self).n(),
            old(self).live(id as int),
        ensures
            final(self).wf(),
            final(self).budget() == old(self).budget(),
            r is Err ==> r == Err::<(), Error>(Error::Fatal),
            r is Ok ==> dispatch_frame(*old(self), *final(self)) && final(self).torn(id as int),
            fuel >= 2 && old(self).count(id as int) < u32::MAX && !old(self).destroy_slot_filled(
                id as int,
            ) && old(self).children(id as int).len() == 0 ==> r is Ok,
            (fuel as int) >= 2 * (old(self).n() - id) + 1 && quiet_from(*old(self), id as int)
                && counts_clear_from(*old(self), id as int) ==> r is Ok && final(self).n() == old(
                self,
            ).n(),
        decreases fuel,
    {
        let ghost w0 = *old(self);
        let ghost quiet = fuel >= 2 && w0.count(id as int) < u32::MAX && !w0.destroy_slot_filled(
            id as int,
        ) && w0.children(id as int).len() == 0;
        let ghost qsub = (fuel as int) >= 2 * (w0.n() - id) + 1 && quiet_from(w0, id as int)
            && counts_clear_from(w0, id as int);
        proof {
            if qsub {
                assert(w0.destroy_slot_empty(id as int));
                crate::callback::lemma_no_reentrant_detach(w0.nodes@[id as int].on_destroy);
            }
        }
        if fuel == 0 {
            return Err(Error::Fatal);
        }
        let h = self.nodes[id].handle;
        proof {
            assert(w0.node_ok(id as int));
        }
        match self.dispatch(h, Msg::PreDestroy, fuel - 1) {
            Err(_) => {
                proof {
                    if quiet || qsub {
                        let t = choose|t: int|
                            0 <= t < w0.n() && (#[trigger] w0.assoc(t)) && w0.handle(t) == h && (
                            w0.count(t) == u32::MAX || w0.destroy_slot_filled(t));
                        assert(w0.handle(t) == w0.handle(id as int));
                        assert(t == id as int);
                        assert(false);
                    }
                }
                return Err(Error::Fatal);
            },
            Ok(_) => {},
        }
        proof {
            if quiet || qsub {
                assert(w0.assoc(id as int));
                assert(dispatch_effect(w0, *self, id as int, Msg::PreDestroy));
                assert(self.same_nodes(w0));
                lemma_same_nodes(*self, w0);
            }
            if qsub {
                assert(self.n() == w0.n());
                assert forall|j: int|
                    id as int <= j < self.n() implies #[trigger] self.destroy_slot_empty(j) by {
                    assert(w0.destroy_slot_empty(j));
                }
                assert forall|j: int|
                    id as int <= j < self.n() implies (#[trigger] self.count(j)) < u32::MAX by {
                    assert(w0.count(j) < u32::MAX);
                }
            }
        }
        let snap = self.nodes[id].children.len();
        proof {
            assert(quiet ==> snap == 0);
        }
        let mut k: usize = 0;
        while k < snap
            invariant
                w0 == *old(self),
                self.wf(),
                dispatch_frame(w0, *self),
                id < w0.n(),
                h == w0.handle(id as int),
                fuel >= 1,
                quiet == (fuel >= 2 && w0.count(id as int) < u32::MAX && !w0.destroy_slot_filled(
                    id as int,
                ) && w0.children(id as int).len() == 0),
                quiet ==> snap == 0,
                quiet ==> self.same_nodes(w0),
                qsub == ((fuel as int) >= 2 * (w0.n() - id) + 1 && quiet_from(w0, id as int)
                    && counts_clear_from(w0, id as int)),
                qsub ==> self.n() == w0.n() && quiet_from(*self, id as int) && counts_clear_from(
                    *self,
                    id as int,
                ),
                self.budget() == w0.budget(),
            decreases snap - k,
        {
            if k >= self.nodes[id].children.len() {
                break ;
            }
            proof {
                assert(self.node_ok(id as int));
            }
            let c = self.nodes[id].children[k];
            let ghost pre = *self;
            proof {
                if qsub {
                    assert((c as int) > id as int && (c as int) < pre.n());
                    assert forall|j: int|
                        c as int <= j < pre.n() implies #[trigger] pre.destroy_slot_empty(j) by {
                        assert(pre.destroy_slot_empty(j));
                    }
                    assert forall|j: int|
                        c as int <= j < pre.n() implies (#[trigger] pre.count(j)) < u32::MAX by {
                        assert(pre.count(j) < u32::MAX);
                    }
                }
            }
            match self.destroy_at(c, fuel - 1) {
                Err(Error::Fatal) => {
                    proof {
                        assert(!quiet);
                        if qsub {
                            assert(false);
                        }
                    }
                    return Err(Error::Fatal);
                },
                Err(_) => {
                    proof {
                        World::lemma_frame_same_nodes(pre, *self);
                        World::lemma_frame_trans(w0, pre, *self);
                        if qsub {
                            lemma_same_nodes(*self, pre);
                        }
                    }
                },
                Ok(_) => {
                    proof {
                        World::lemma_frame_trans(w0, pre, *self);
                        if qsub {
                            assert(self.n() == pre.n());
                            assert forall|j: int|
                                id as int <= j < self.n() implies #[trigger] self.destroy_slot_empty(
                                j,
                            ) by {
                                assert(pre.destroy_slot_empty(j));
                            }
                            assert forall|j: int|
                                id as int <= j < self.n() implies (#[trigger] self.count(j))
                                < u32::MAX by {
                                assert(pre.count(j) < u32::MAX);
                                assert(self.count(j) == pre.count(j));
                            }
                        }
                    }
                },
            }
            k = k + 1;
        }
        let ghost wb = *self;
        match self.dispatch(h, Msg::Terminal, fuel - 1) {
            Err(_) => {
                proof {
                    if quiet {
                        lemma_same_nodes(wb, w0);
                    }
                    if quiet || qsub {
                        let t = choose|t: int|
                            0 <= t < wb.n() && (#[trigger] wb.assoc(t)) && wb.handle(t) == h
                                && wb.count(t) == u32::MAX;
                        assert(wb.handle(t) == wb.handle(id as int));
                        assert(wb.wf());
                        assert(t == id as int);
                        if qsub {
                            assert(wb.count(id as int) < u32::MAX);
                        }
                        assert(false);
                    }
                }
                return Err(Error::Fatal);
            },
            Ok(_) => {},
        }
        proof {
            World::lemma_frame_trans(w0, wb, *self);
            if wb.assoc(id as int) {
                assert(wb.handle(id as int) == w0.handle(id as int));
                assert(dispatch_effect(wb, *self, id as int, Msg::Terminal));
            } else {
                assert(wb.node_ok(id as int));
                crate::handle::lemma_phases_exclusive(wb.nodes@[id as int].cell);
                assert(wb.torn(id as int));
            }
        }
        Ok(())
    }
}


/// The raw capture word the runtime model reads back for a window filled
/// with the given background: red, green and blue packed high to low, a
/// white surface when no background was ever set.
pub open spec fn capture_word(bg: Option<Color>) -> u32 {
    match bg {
        Some(c) => ((c.0 as u32) << 16) | ((c.1 as u32) << 8) | (c.2 as u32),
        None => 0xffffffu32,
    }
}

impl World {
    /// Request destruction of a window.  On an already-destroyed node this
    /// is a no-op returning success; on a live node the runtime model
    /// delivers the full teardown sequence synchronously, nested dispatch
    /// and all, before this returns: the node comes back torn down, with
    /// children and callback slots released unless a fresh fault kept the
    /// terminal cleanup from running, and its dispatch state deallocated
    /// exactly once when no outer frame still held it.  Success is
    /// guaranteed outright when no destroy callback anywhere at or above
    /// the node's index could run - children always sit at larger indices
    /// than their parent, so this covers the whole subtree - and the
    /// budget covers the cascade.
    pub fn destroy(&mut self, id: usize) -> (r: Result<(), Error>)
        requires
            old(self).wf(),
        ensures
            final(self).wf(),
            r is Err ==> r == Err::<(), Error>(Error::Fatal) || (r == Err::<(), Error>(
                Error::Destroyed,
            ) && id >= old(self).n() && final(self).same_nodes(*old(self))),
            r is Ok ==> id < old(self).n() && dispatch_frame(*old(self), *final(self)) && final(self).torn(id as int),
            id < old(self).n() && old(self).torn(id as int) ==> r is Ok && final(self).same_nodes(
                *old(self),
            ),
            id < old(self).n() && old(self).budget() >= 3 && old(self).count(id as int) < u32::MAX
                && !old(self).destroy_slot_filled(id as int) && old(self).children(
                id as int,
            ).len() == 0 ==> r is Ok,
            final(self).budget() == old(self).budget(),
            r is Ok && old(self).live(id as int) && final(self).faults(id as int) == old(self).faults(id as int) && old(self).faults(id as int) < u64::MAX ==> final(self).children(
                id as int,
            ) == Seq::<usize>::empty() && final(self).close_slot_empty(id as int) && final(self).destroy_slot_empty(id as int) && !final(self).close_slot_filled(id as int) && !final(self).destroy_slot_filled(id as int),
            r is Ok && old(self).live(id as int) && old(self).count(id as int) == 0 ==> final(self).frees(id as int) == 1 && !final(self).allocated(id as int),
            id < old(self).n() && (old(self).budget() as int) >= 2 * old(self).n() + 2
                && quiet_from(*old(self), id as int) && counts_clear_from(*old(self), id as int)
                ==> r is Ok,
    {
        let budget = self.nest_budget;
        let r = self.destroy_at(id, budget);
        proof {
            let a = *old(self);
            if r is Ok && a.live(id as int) {
                assert(a.node_ok(id as int));
                crate::handle::lemma_phases_exclusive(a.nodes@[id as int].cell);
                if final(self).faults(id as int) == a.faults(id as int) && a.faults(id as int)
                    < u64::MAX {
                    World::lemma_frame_tear_released(a, *self, id as int);
                    crate::callback::lemma_no_reentrant_detach(self.nodes@[id as int].on_close);
                    crate::callback::lemma_no_reentrant_detach(self.nodes@[id as int].on_destroy);
                }
                if a.count(id as int) == 0 {
                    assert(self.count(id as int) == a.count(id as int));
                    lemma_terminal_deallocates(*self, id as int);
                }
            }
        }
        r
    }

    /// Deliver a close request to a window, as the user clicking the close
    /// box would.  The registered close callback fires at most once per
    /// request, and never once the terminal notification has been seen; a
    /// fault it raises is contained and tears the window down.
    pub fn close(&mut self, id: usize) -> (r: Result<u64, Error>)
        requires
            old(self).wf(),
        ensures
            final(self).wf(),
            r is Err ==> (r == Err::<u64, Error>(Error::Destroyed) && id >= old(self).n() && final(self).same_nodes(*old(self))) || r == Err::<u64, Error>(Error::Fatal),
            r is Ok ==> r == Ok::<u64, Error>(0u64) && dispatch_frame(*old(self), *final(self))
                && id < old(self).n(),
            id < old(self).n() && old(self).torn(id as int) && r is Ok ==> final(self).same_nodes(
                *old(self),
            ),
            id < old(self).n() && r is Ok ==> final(self).close_fires(id as int) == (if old(self).live(id as int) && old(self).close_slot_filled(id as int) {
                sat_inc(old(self).close_fires(id as int))
            } else {
                old(self).close_fires(id as int)
            }),
            id < old(self).n() && r is Ok && final(self).faults(id as int) > old(self).faults(
                id as int,
            ) ==> final(self).torn(id as int),
            id < old(self).n() && old(self).budget() >= 1 && old(self).count(id as int) < u32::MAX
                && !old(self).close_slot_filled(id as int) ==> r is Ok,
            final(self).budget() == old(self).budget(),
            id < old(self).n() && r is Ok && old(self).live(id as int) && !old(self).close_slot_filled(id as int) ==> final(self).same_nodes(*old(self)),
    {
        if id >= self.nodes.len() {
            return Err(Error::Destroyed);
        }
        let h = self.nodes[id].handle;
        let budget = self.nest_budget;
        let r = self.dispatch(h, Msg::Close, budget);
        proof {
            let a = *old(self);
            assert(a.node_ok(id as int));
            crate::handle::lemma_phases_exclusive(a.nodes@[id as int].cell);
            if r is Ok && !a.live(id as int) {
                assert forall|i: int|
                    0 <= i < a.n() implies !((#[trigger] a.assoc(i)) && a.handle(i) == h) by {
                    if i != id as int {
                        assert(a.handle(i) != a.handle(id as int));
                    }
                }
                assert(final(self).same_nodes(a));
                lemma_same_nodes(*self, a);
            }
            if r is Ok && a.live(id as int) {
                assert(a.assoc(id as int));
                assert(dispatch_effect(a, *self, id as int, Msg::Close));
            }
            if r is Err && a.budget() >= 1 {
                let t = choose|t: int|
                    0 <= t < a.n() && (#[trigger] a.assoc(t)) && a.handle(t) == h && (a.count(t)
                        == u32::MAX || a.close_slot_filled(t));
                assert(a.handle(t) == a.handle(id as int));
                assert(t == id as int);
            }
        }
        r
    }

    /// Hand one raw native notification to the router by identity, the
    /// way the event loop does.  An identity no association resolves is
    /// forwarded to the default handler and nothing is fabricated.
    pub fn send_message(&mut self, h: u64, msg: Msg) -> (r: Result<u64, Error>)
        requires
            old(self).wf(),
        ensures
            final(self).wf(),
            r is Err ==> r == Err::<u64, Error>(Error::Fatal),
            r is Ok ==> r == Ok::<u64, Error>(0u64) && dispatch_frame(*old(self), *final(self)),
            r is Ok && (forall|i: int|
                0 <= i < old(self).n() ==> !((#[trigger] old(self).assoc(i)) && old(self).handle(i)
                    == h)) ==> final(self).same_nodes(*old(self)),
            r is Ok ==> forall|t: int|
                0 <= t < old(self).n() && (#[trigger] old(self).assoc(t)) && old(self).handle(t)
                    == h ==> dispatch_effect(*old(self), *final(self), t, msg),
            old(self).budget() >= 1 && (forall|t: int|
                0 <= t < old(self).n() && (#[trigger] old(self).assoc(t)) && old(self).handle(t)
                    == h ==> old(self).count(t) < u32::MAX && !(msg == Msg::Close && old(self).close_slot_filled(t)) && !(msg == Msg::PreDestroy && old(self).destroy_slot_filled(t))) ==> r is Ok,
    {
        let budget = self.nest_budget;
        let r = self.dispatch(h, msg, budget);
        proof {
            let a = *old(self);
            if r is Err && a.budget() >= 1 {
                let t = choose|t: int|
                    0 <= t < a.n() && (#[trigger] a.assoc(t)) && a.handle(t) == h && (a.count(t)
                        == u32::MAX || (msg == Msg::Close && a.close_slot_filled(t)) || (msg
                        == Msg::PreDestroy && a.destroy_slot_filled(t)));
                assert(a.assoc(t));
            }
        }
        r
    }

    /// Deliver the paint hook to a window.  A primary window repaints its
    /// client area itself; a subclassed control forwards to the native
    /// default paint, untouched.
    pub fn pump_paint(&mut self, id: usize) -> (r: Result<u64, Error>)
        requires
            old(self).wf(),
        ensures
            final(self).wf(),
            r is Err ==> (r == Err::<u64, Error>(Error::Destroyed) && id >= old(self).n() && final(self).same_nodes(*old(self))) || r == Err::<u64, Error>(Error::Fatal),
            r is Ok ==> r == Ok::<u64, Error>(0u64) && dispatch_frame(*old(self), *final(self)),
            id < old(self).n() && r is Ok && old(self).live(id as int) && !old(self).is_control(
                id as int,
            ) ==> final(self).paints(id as int) == sat_inc(old(self).paints(id as int)) && !final(self).needs_paint(id as int),
            id < old(self).n() && r is Ok && !(old(self).live(id as int) && !old(self).is_control(
                id as int,
            )) ==> final(self).same_nodes(*old(self)),
            id < old(self).n() && old(self).budget() >= 1 && old(self).count(id as int) < u32::MAX
                ==> r is Ok,
    {
        if id >= self.nodes.len() {
            return Err(Error::Destroyed);
        }
        let h = self.nodes[id].handle;
        let budget = self.nest_budget;
        let r = self.dispatch(h, Msg::Paint, budget);
        proof {
            let a = *old(self);
            assert(a.node_ok(id as int));
            crate::handle::lemma_phases_exclusive(a.nodes@[id as int].cell);
            if r is Ok && !a.live(id as int) {
                assert forall|i: int|
                    0 <= i < a.n() implies !((#[trigger] a.assoc(i)) && a.handle(i) == h) by {
                    if i != id as int {
                        assert(a.handle(i) != a.handle(id as int));
                    }
                }
                assert(final(self).same_nodes(a));
                lemma_same_nodes(*self, a);
            }
            if r is Ok && a.live(id as int) {
                assert(a.assoc(id as int));
                assert(dispatch_effect(a, *self, id as int, Msg::Paint));
            }
            if r is Err && a.budget() >= 1 {
                let t = choose|t: int|
                    0 <= t < a.n() && (#[trigger] a.assoc(t)) && a.handle(t) == h && a.count(t)
                        == u32::MAX;
                assert(a.handle(t) == a.handle(id as int));
                assert(t == id as int);
            }
        }
        r
    }

    /// Capture the window's client area as a bitmap: its current size,
    /// every pixel the swizzled capture word of its background.  Fails
    /// with `Destroyed` past the live phase and refuses a degenerate
    /// surface rather than guessing a layout.
    pub fn snapshot(&self, id: usize) -> (r: Result<Bitmap, Error>)
        requires
            self.wf(),
        ensures
            match r {
                Ok(bm) => {
                    &&& id < self.n() && self.live(id as int)
                    &&& self.bounds_of(id as int).2 > 0 && self.bounds_of(id as int).3 > 0
                    &&& bm.width == self.bounds_of(id as int).2 as u32
                    &&& bm.height == self.bounds_of(id as int).3 as u32
                    &&& bm.wf()
                    &&& forall|k: int|
                        0 <= k < bm.data@.len() ==> bm.data@[k] == spec_swizzle(
                            capture_word(self.background_of(id as int)),
                        )
                },
                Err(e) => {
                    &&& !(id < self.n() && self.live(id as int)) ==> e == Error::Destroyed
                    &&& (id < self.n() && self.live(id as int)) ==> e
                        == Error::UnsupportedBitmapFormat && (self.bounds_of(id as int).2 <= 0
                        || self.bounds_of(id as int).3 <= 0)
                },
            },
    {
        if let Err(e) = self.check_live(id) {
            return Err(e);
        }
        let w = self.nodes[id].w;
        let hh = self.nodes[id].h;
        if w <= 0 || hh <= 0 {
            return Err(Error::UnsupportedBitmapFormat);
        }
        let raw: u32 = match self.nodes[id].background {
            Some(c) => ((c.0 as u32) << 16) | ((c.1 as u32) << 8) | (c.2 as u32),
            None => 0xffffff,
        };
        let px = swizzle_pixel(raw);
        proof {
            assert(((w as u64) as int) * ((hh as u64) as int) < 0x10000000000000000int)
                by (nonlinear_arith)
                requires
                    0 <= (w as u64) < 0x80000000u64,
                    0 <= (hh as u64) < 0x80000000u64,
            ;
        }
        let total: u64 = (w as u64) * (hh as u64);
        let mut data: Vec<u32> = Vec::new();
        while (data.len() as u64) < total
            invariant
                data@.len() <= total,
                forall|k: int|
                    0 <= k < data@.len() ==> data@[k] == spec_swizzle(
                        capture_word(self.background_of(id as int)),
                    ),
                px == spec_swizzle(capture_word(self.background_of(id as int))),
                total == (self.bounds_of(id as int).2 as int) * (self.bounds_of(id as int).3 as int),
            decreases total - data.len(),
        {
            data.push(px);
        }
        proof {
            assert(data@.len() == (w as u32 as int) * (hh as u32 as int)) by {
                assert(data@.len() == total);
            }
        }
        Ok(Bitmap { width: w as u32, height: hh as u32, data })
    }
}


impl World {
    /// How many nodes were ever created.
    pub fn node_count(&self) -> (r: usize)
        ensures
            r == self.n(),
    {
        self.nodes.len()
    }

    /// The native identity of a node, or the null sentinel for an index
    /// that denotes no node.
    pub fn handle_of(&self, id: usize) -> (r: u64)
        ensures
            id < self.n() ==> r == self.handle(id as int),
            id >= self.n() ==> r == 0,
    {
        if id < self.nodes.len() {
            self.nodes[id].handle
        } else {
            0
        }
    }

    /// Whether the node is live: created and not yet torn down.
    pub fn is_live(&self, id: usize) -> (r: bool)
        ensures
            r == (id < self.n() && self.live(id as int)),
    {
        id < self.nodes.len() && self.nodes[id].cell.present()
    }

    /// Whether the node has gone through teardown.
    pub fn is_torn(&self, id: usize) -> (r: bool)
        requires
            self.wf(),
        ensures
            id < self.n() ==> r == self.torn(id as int),
            id >= self.n() ==> r == false,
    {
        if id < self.nodes.len() {
            proof {
                assert(self.node_ok(id as int));
                crate::handle::lemma_phases_exclusive(self.nodes@[id as int].cell);
            }
            !self.nodes[id].cell.present()
        } else {
            false
        }
    }

    /// The node's current dispatch entry count.
    pub fn entry_count_of(&self, id: usize) -> (r: u32)
        ensures
            id < self.n() ==> r == self.count(id as int),
            id >= self.n() ==> r == 0,
    {
        if id < self.nodes.len() {
            self.nodes[id].state.current_count()
        } else {
            0
        }
    }

    /// How many times the node's dispatch state was deallocated.
    pub fn free_count_of(&self, id: usize) -> (r: u64)
        ensures
            id < self.n() ==> r == self.frees(id as int),
            id >= self.n() ==> r == 0,
    {
        if id < self.nodes.len() {
            self.nodes[id].state.current_frees() as u64
        } else {
            0
        }
    }

    /// How many times the node's close callback ran.
    pub fn close_fire_count(&self, id: usize) -> (r: u64)
        ensures
            id < self.n() ==> r == self.close_fires(id as int),
            id >= self.n() ==> r == 0,
    {
        if id < self.nodes.len() {
            self.nodes[id].close_fires
        } else {
            0
        }
    }

    /// How many times the node's destroy callback ran.
    pub fn destroy_fire_count(&self, id: usize) -> (r: u64)
        ensures
            id < self.n() ==> r == self.destroy_fires(id as int),
            id >= self.n() ==> r == 0,
    {
        if id < self.nodes.len() {
            self.nodes[id].destroy_fires
        } else {
            0
        }
    }

    /// How many faults were contained at the node's dispatch boundary.
    pub fn fault_count_of(&self, id: usize) -> (r: u64)
        ensures
            id < self.n() ==> r == self.faults(id as int),
            id >= self.n() ==> r == 0,
    {
        if id < self.nodes.len() {
            self.nodes[id].faults
        } else {
            0
        }
    }

    /// How many paint notifications the node handled itself.
    pub fn paint_count_of(&self, id: usize) -> (r: u64)
        ensures
            id < self.n() ==> r == self.paints(id as int),
            id >= self.n() ==> r == 0,
    {
        if id < self.nodes.len() {
            self.nodes[id].paints
        } else {
            0
        }
    }

    /// How many children the node owns.
    pub fn child_count(&self, id: usize) -> (r: usize)
        ensures
            id < self.n() ==> r == self.children(id as int).len(),
            id >= self.n() ==> r == 0,
    {
        if id < self.nodes.len() {
            self.nodes[id].children.len()
        } else {
            0
        }
    }

    /// The `k`-th child of the node, in creation order.
    pub fn child_at(&self, id: usize, k: usize) -> (r: usize)
        requires
            id < self.n(),
            k < self.children(id as int).len(),
        ensures
            r == self.children(id as int)[k as int],
    {
        self.nodes[id].children[k]
    }

    /// The native style word the node was created with.
    pub fn style_at(&self, id: usize) -> (r: u32)
        ensures
            id < self.n() ==> r == self.style_of(id as int),
            id >= self.n() ==> r == 0,
    {
        if id < self.nodes.len() {
            self.nodes[id].style
        } else {
            0
        }
    }

    /// The native extended style word the node was created with.
    pub fn ex_style_at(&self, id: usize) -> (r: u32)
        ensures
            id < self.n() ==> r == self.ex_style_of(id as int),
            id >= self.n() ==> r == 0,
    {
        if id < self.nodes.len() {
            self.nodes[id].ex_style
        } else {
            0
        }
    }

    /// The node's background colour, when one was set.
    pub fn background_at(&self, id: usize) -> (r: Option<Color>)
        ensures
            id < self.n() ==> r == self.background_of(id as int),
            id >= self.n() ==> r is None,
    {
        if id < self.nodes.len() {
            self.nodes[id].background
        } else {
            None
        }
    }

    /// The node's text.
    pub fn text_at(&self, id: usize) -> (r: String)
        ensures
            id < self.n() ==> r@ == self.text_of(id as int),
            id >= self.n() ==> r@ == Seq::<char>::empty(),
    {
        if id < self.nodes.len() {
            String::from_str(self.nodes[id].text.as_str())
        } else {
            String::new()
        }
    }

    /// The node's bounds as upper-left corner and size.
    pub fn bounds_at(&self, id: usize) -> (r: (i32, i32, i32, i32))
        ensures
            id < self.n() ==> r == self.bounds_of(id as int),
            id >= self.n() ==> r == (0i32, 0i32, 0i32, 0i32),
    {
        if id < self.nodes.len() {
            (self.nodes[id].x, self.nodes[id].y, self.nodes[id].w, self.nodes[id].h)
        } else {
            (0, 0, 0, 0)
        }
    }

    /// Whether the node is shown.
    pub fn is_visible(&self, id: usize) -> (r: bool)
        ensures
            id < self.n() ==> r == self.shown(id as int),
            id >= self.n() ==> r == false,
    {
        if id < self.nodes.len() {
            self.nodes[id].visible
        } else {
            false
        }
    }

    /// Whether the event loop was asked to exit.
    pub fn quit_requested(&self) -> (r: bool)
        ensures
            r == self.quit_flag(),
    {
        self.quit
    }

    /// How many entry counts the `Probe` actions have recorded.
    pub fn probe_count(&self) -> (r: usize)
        ensures
            r == self.probes_log().len(),
    {
        self.probes.len()
    }

    /// The `k`-th recorded entry count.
    pub fn probe_at(&self, k: usize) -> (r: u32)
        requires
            k < self.probes_log().len(),
        ensures
            r == self.probes_log()[k as int],
    {
        self.probes[k]
    }
}

/// A node's handle cell is filled exactly while the node is strictly
/// between its successful creation and the delivery of its terminal
/// notification: every node in the arena was created with its identity in
/// the cell, and the cell is cleared exactly by the teardown path, never
/// to fill again.
pub proof fn lemma_liveness_window(w: World, i: int)
    requires
        w.wf(),
        0 <= i < w.n(),
    ensures
        w.live(i) <==> !w.torn(i),
        w.live(i) <==> w.assoc(i),
        w.live(i) ==> w.handle(i) != 0,
        w.torn(i) ==> !w.assoc(i),
{
    assert(w.node_ok(i));
    crate::handle::lemma_phases_exclusive(w.nodes@[i].cell);
}

/// Once a node has seen its terminal notification, no dispatch activity,
/// however reentrant, fires either of its callbacks again, and the
/// teardown is irreversible.
pub proof fn lemma_no_fire_after_terminal(a: World, b: World, i: int)
    requires
        dispatch_frame(a, b),
        0 <= i < a.n(),
        a.torn(i),
    ensures
        b.torn(i),
        b.close_fires(i) == a.close_fires(i),
        b.destroy_fires(i) == a.destroy_fires(i),
{
}

/// A node's dispatch state is deallocated at most once, only while no
/// dispatch frame holds it, and dispatch activity never deallocates a
/// state some open frame still holds.
pub proof fn lemma_freed_exactly_once(w: World, i: int)
    requires
        w.wf(),
        0 <= i < w.n(),
    ensures
        w.frees(i) <= 1,
        !w.allocated(i) ==> w.frees(i) == 1 && w.count(i) == 0,
        w.allocated(i) ==> w.frees(i) == 0,
{
    assert(w.node_ok(i));
    crate::dispatch::lemma_freed_at_most_once(w.nodes@[i].state);
}

/// A node that has gone through teardown and has no dispatch frame left
/// inside it has had its dispatch state deallocated, exactly once: the
/// frame that brought the counter back to zero performed it.
pub proof fn lemma_terminal_deallocates(w: World, i: int)
    requires
        w.wf(),
        0 <= i < w.n(),
        w.torn(i),
        w.count(i) == 0,
    ensures
        !w.allocated(i),
        w.frees(i) == 1,
{
    assert(w.node_ok(i));
    crate::dispatch::lemma_freed_at_most_once(w.nodes@[i].state);
}

/// While any dispatch frame is inside a node, balanced dispatch activity
/// leaves its allocation untouched: the deallocation can only happen
/// after the outermost frame returns.
pub proof fn lemma_no_free_while_held(a: World, b: World, i: int)
    requires
        dispatch_frame(a, b),
        0 <= i < a.n(),
        a.count(i) > 0,
    ensures
        b.allocated(i) == a.allocated(i),
        b.frees(i) == a.frees(i),
        b.count(i) == a.count(i),
{
}

/// A fault contained at a node's dispatch boundary always leaves the node
/// torn down: faults only accumulate together with teardown.
pub proof fn lemma_fault_tears_down(a: World, b: World, i: int)
    requires
        dispatch_frame(a, b),
        0 <= i < a.n(),
        b.faults(i) > a.faults(i),
    ensures
        b.torn(i),
{
}

} // verus!
