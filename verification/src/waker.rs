//! Who owns a waker.
//!
//! A waker of the host crosses to the guest as a handle to a box that the host
//! has made for it. Each handle is given back exactly once, in a call that frees
//! the box.
use vstd::prelude::*;

verus! {

/// A call from the guest to the host that passes a waker's handle.
#[derive(Clone, Copy, PartialEq, Eq, Structural, Debug)]
pub enum WakerCall {
    /// Makes another handle for the same waker.
    Clone,
    /// Wakes the task and gives the handle back.
    Wake,
    /// Wakes the task and keeps the handle.
    WakeByRef,
    /// Gives the handle back.
    Drop,
    /// Polls a socket, which keeps a waker of its own, and gives the handle back.
    PollSocket,
}

/// What a call does with the waker whose handle it passes.
#[derive(Clone, Copy, PartialEq, Eq, Structural, Debug)]
pub struct WakerEffect {
    /// The task is woken.
    pub wakes: bool,
    /// A new box is made, and its handle returned.
    pub makes: bool,
    /// The box behind the handle is freed.
    pub frees: bool,
}

/// Only the calls that wake by value, drop or poll give the handle back, and
/// only a clone makes a new one.
pub open spec fn effect(call: WakerCall) -> WakerEffect {
    WakerEffect {
        wakes: call is Wake || call is WakeByRef,
        makes: call is Clone,
        frees: call is Wake || call is Drop || call is PollSocket,
    }
}

/// What a call does with the waker whose handle it passes.
pub fn waker_effect(call: WakerCall) -> (e: WakerEffect)
    ensures
        e == effect(call),
        e.wakes <==> call is Wake || call is WakeByRef,
        e.makes <==> call is Clone,
        e.frees <==> call is Wake || call is Drop || call is PollSocket,
{
    match call {
        WakerCall::Clone => WakerEffect { wakes: false, makes: true, frees: false },
        WakerCall::Wake => WakerEffect { wakes: true, makes: false, frees: true },
        WakerCall::WakeByRef => WakerEffect { wakes: true, makes: false, frees: false },
        WakerCall::Drop => WakerEffect { wakes: false, makes: false, frees: true },
        WakerCall::PollSocket => WakerEffect { wakes: false, makes: false, frees: true },
    }
}

/// The boxes that are left after a call that passes `handle`, where `fresh` is
/// the handle of the box that the call makes, if it makes one.
pub open spec fn boxes_after(
    boxes: Set<u64>,
    call: WakerCall,
    handle: u64,
    fresh: u64,
) -> Set<u64> {
    let kept = if effect(call).frees {
        boxes.remove(handle)
    } else {
        boxes
    };
    if effect(call).makes {
        kept.insert(fresh)
    } else {
        kept
    }
}

/// What each call does to the boxes and to the task: a clone adds a box and
/// touches no other, a wake by reference changes no box, and every other call
/// takes away the box behind its handle. Only the two wakes wake the task.
pub proof fn calls_and_boxes(boxes: Set<u64>, call: WakerCall, handle: u64, fresh: u64)
    ensures
        boxes_after(boxes, call, handle, fresh) == (match call {
            WakerCall::Clone => boxes.insert(fresh),
            WakerCall::WakeByRef => boxes,
            WakerCall::Wake | WakerCall::Drop | WakerCall::PollSocket => boxes.remove(handle),
        }),
        effect(call).wakes <==> call is Wake || call is WakeByRef,
        effect(call).makes <==> call is Clone,
        effect(call).frees <==> !(call is Clone || call is WakeByRef),
{
}

/// A call, with the handle that it passes and the one that it returns, if it
/// returns one.
pub struct WakerUse {
    pub call: WakerCall,
    pub handle: u64,
    pub fresh: u64,
}

/// The boxes that are left after some calls.
pub open spec fn boxes_after_all(boxes: Set<u64>, uses: Seq<WakerUse>) -> Set<u64>
    decreases uses.len(),
{
    if uses.len() == 0 {
        boxes
    } else {
        let last = uses.last();
        boxes_after(boxes_after_all(boxes, uses.drop_last()), last.call, last.handle, last.fresh)
    }
}

/// Whether each call passes the handle of a box that is still there, and each
/// new box gets a handle that no other box has.
pub open spec fn uses_live_handles(boxes: Set<u64>, uses: Seq<WakerUse>) -> bool
    decreases uses.len(),
{
    uses.len() == 0 || {
        let last = uses.last();
        let now = boxes_after_all(boxes, uses.drop_last());
        &&& uses_live_handles(boxes, uses.drop_last())
        &&& now.contains(last.handle)
        &&& effect(last.call).makes ==> !now.contains(last.fresh)
    }
}

/// How many of the calls free a box.
pub open spec fn frees(uses: Seq<WakerUse>) -> nat {
    uses.filter(|u: WakerUse| effect(u.call).frees).len()
}

/// How many of the calls make a box.
pub open spec fn makes(uses: Seq<WakerUse>) -> nat {
    uses.filter(|u: WakerUse| effect(u.call).makes).len()
}

/// Each box is freed once: a guest that passes only handles that it still has
/// leaves as many boxes as it was given and made, less the calls that freed one,
/// so none is left once it has given back as many handles as it ever had.
pub proof fn each_box_is_freed_once(boxes: Set<u64>, uses: Seq<WakerUse>)
    requires
        boxes.finite(),
        uses_live_handles(boxes, uses),
    ensures
        boxes_after_all(boxes, uses).finite(),
        boxes_after_all(boxes, uses).len() + frees(uses) == boxes.len() + makes(uses),
        frees(uses) == boxes.len() + makes(uses) ==> boxes_after_all(boxes, uses)
            == Set::<u64>::empty(),
    decreases uses.len(),
{
    reveal(Seq::filter);
    if uses.len() > 0 {
        each_box_is_freed_once(boxes, uses.drop_last());
    }
    let left = boxes_after_all(boxes, uses);
    if left.len() == 0 {
        assert(left =~= Set::<u64>::empty()) by {
            left.lemma_len0_is_empty();
        }
    }
}

/// A call frees no box but the one whose handle it passes, and frees that one
/// exactly if it gives the handle back.
pub proof fn a_call_frees_its_own_box(boxes: Set<u64>, call: WakerCall, handle: u64, fresh: u64)
    requires
        boxes.contains(handle),
        fresh != handle,
    ensures
        boxes_after(boxes, call, handle, fresh).contains(handle) == !effect(call).frees,
        forall|other: u64| #[trigger]
            boxes.contains(other) && other != handle ==> boxes_after(
                boxes,
                call,
                handle,
                fresh,
            ).contains(other),
{
}

} // verus!
