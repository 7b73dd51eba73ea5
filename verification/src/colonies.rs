//! The colonies in which the host keeps what it hands out handles for.
//!
//! A colony is the slot map of the `colony` crate: it chooses the handle of
//! each item that is put into it. The host has three of them: one of tasks, one
//! of connections that are being opened, and one of streams.
//!
//! Nothing here is proved: each function calls one method of the colony, and
//! its contract says what that method does.
use vstd::prelude::*;

use colony::Colony;
use colony::FlaggedColony;
use colony::Handle;

verus! {

/// How many tasks may have been removed from a colony of tasks before another
/// is put in.
///
/// A slot has 2^20 generations, by which the handles of the tasks that it holds
/// in turn are told apart, and each task uses up two. Only when as many tasks as
/// this have been removed can a slot have no generation left, and from then on
/// the colony may take memory behind its last slot for a free one. The tasks of
/// such a colony have to move to a new one first.
pub const REMOVAL_LIMIT: u32 = 0x8_0000;

/// How many items a colony may hold before another is put in.
///
/// A slot takes at most 32 bytes and a colony doubles when it grows, so below
/// this number the new size is one that an allocation can have.
pub const SLOT_LIMIT: usize = usize::MAX / 128;

/// The limits are the ones that the machine and the colony set: 128 bytes for
/// each item of the largest colony just fit an address space, and as many tasks
/// as may be removed use up a slot's 2^20 generations, two each.
pub proof fn limits_are_tight()
    ensures
        SLOT_LIMIT * 128 <= usize::MAX < (SLOT_LIMIT + 1) * 128,
        REMOVAL_LIMIT * 2 == 0x10_0000,
{
}

/// The handle of a task: `colony::Handle`.
#[verifier::external_type_specification]
#[verifier::external_body]
pub struct ExHandle(Handle);

/// A colony of tasks, each known by the number that the guest gave it.
#[verifier::external_body]
pub struct TaskColony {
    inner: Colony<u32>,
}

/// The tasks that a colony holds, with their handles, in the order in which the
/// colony is walked.
pub uninterp spec fn task_items(tasks: TaskColony) -> Seq<(Handle, u32)>;

/// How many tasks have been removed from a colony since it was made.
pub uninterp spec fn tasks_removed(tasks: TaskColony) -> nat;

/// `Colony::new`: a colony that holds nothing.
#[verifier::external_body]
pub(crate) fn tasks_new() -> (tasks: TaskColony)
    ensures
        task_items(tasks) == Seq::<(Handle, u32)>::empty(),
        tasks_removed(tasks) == 0,
{
    TaskColony { inner: Colony::new() }
}

/// `Colony::insert`: puts the task into a slot of the colony's choosing, under a
/// handle that no other task in it has. The tasks that were there keep their
/// handles and their order. A colony from which nothing was ever removed has no
/// free slot among the others, so there the task comes last. That memory can be
/// had is left unsaid, and that the process has made fewer than 2^44 colonies with
/// such handles.
#[verifier::external_body]
pub(crate) fn tasks_insert(tasks: &mut TaskColony, task: u32) -> (handle: Handle)
    requires
        tasks_removed(*old(tasks)) < REMOVAL_LIMIT,
        task_items(*old(tasks)).len() < SLOT_LIMIT,
    ensures
        forall|i: int|
            0 <= i < task_items(*old(tasks)).len() ==> (#[trigger] task_items(*old(tasks))[i]).0
                != handle,
        exists|at: int|
            0 <= at <= task_items(*old(tasks)).len() && task_items(*final(tasks))
                == #[trigger] task_items(*old(tasks)).insert(at, (handle, task)),
        tasks_removed(*old(tasks)) == 0 ==> task_items(*final(tasks)) == task_items(
            *old(tasks),
        ).push((handle, task)),
        tasks_removed(*final(tasks)) == tasks_removed(*old(tasks)),
{
    tasks.inner.insert(task)
}

/// `Colony::remove`: takes out the task with this handle and returns it, or
/// returns `None` and does nothing if the colony holds no such task. The tasks
/// that stay keep their handles and their order.
#[verifier::external_body]
pub(crate) fn tasks_remove(tasks: &mut TaskColony, handle: Handle) -> (task: Option<u32>)
    ensures
        match task {
            Some(t) => exists|at: int|
                0 <= at < task_items(*old(tasks)).len() && task_items(*old(tasks))[at] == (
                    handle,
                    t,
                ) && task_items(*final(tasks)) == #[trigger] task_items(*old(tasks)).remove(at),
            None => task_items(*final(tasks)) == task_items(*old(tasks)) && forall|i: int|
                0 <= i < task_items(*old(tasks)).len() ==> (#[trigger] task_items(
                    *old(tasks),
                )[i]).0 != handle,
        },
        tasks_removed(*final(tasks)) == tasks_removed(*old(tasks)) + (if task is Some {
            1nat
        } else {
            0nat
        }),
{
    tasks.inner.remove(handle)
}

/// `Colony::len`: the number of tasks.
#[verifier::external_body]
pub(crate) fn tasks_len(tasks: &TaskColony) -> (len: usize)
    ensures
        len == task_items(*tasks).len(),
{
    tasks.inner.len()
}

/// `Colony::is_empty`: whether the colony holds no task.
#[verifier::external_body]
pub(crate) fn tasks_is_empty(tasks: &TaskColony) -> (empty: bool)
    ensures
        empty == (task_items(*tasks).len() == 0),
{
    tasks.inner.is_empty()
}

/// `Colony::iter`: the tasks with their handles, in the colony's order.
#[verifier::external_body]
pub(crate) fn tasks_list(tasks: &TaskColony) -> (list: Vec<(Handle, u32)>)
    ensures
        list@ == task_items(*tasks),
{
    tasks.inner.iter().map(|(handle, task)| (handle, *task)).collect()
}

/// A colony of connections that are being opened, each known by a number that
/// its owner chose.
#[verifier::external_body]
pub struct ConnectColony {
    inner: FlaggedColony<u64>,
}

/// The connections that a colony holds, by their handles.
pub uninterp spec fn connect_slots(connects: ConnectColony) -> Map<usize, u64>;

/// `Colony::flagged`: a colony that holds nothing.
#[verifier::external_body]
pub(crate) fn connects_new() -> (connects: ConnectColony)
    ensures
        connect_slots(connects) == (Map::<usize, u64>::empty()),
{
    ConnectColony { inner: Colony::flagged() }
}

/// `Colony::len`: the number of connections.
#[verifier::external_body]
pub(crate) fn connects_len(connects: &ConnectColony) -> (len: usize)
    ensures
        len == connect_slots(*connects).len(),
{
    connects.inner.len()
}

/// `Colony::insert`: puts the connection into a slot of the colony's choosing,
/// one that holds nothing. That memory can be had is left unsaid.
#[verifier::external_body]
pub(crate) fn connects_insert(connects: &mut ConnectColony, connect: u64) -> (handle: usize)
    requires
        connect_slots(*old(connects)).len() < SLOT_LIMIT,
    ensures
        !connect_slots(*old(connects)).contains_key(handle),
        connect_slots(*final(connects)) == connect_slots(*old(connects)).insert(handle, connect),
{
    connects.inner.insert(connect)
}

/// `Colony::get`: the connection with this handle, if the colony holds one.
#[verifier::external_body]
pub(crate) fn connects_get(connects: &ConnectColony, handle: usize) -> (connect: Option<u64>)
    ensures
        connect == (if connect_slots(*connects).contains_key(handle) {
            Some(connect_slots(*connects)[handle])
        } else {
            None
        }),
{
    connects.inner.get(handle).copied()
}

/// `Colony::remove`: takes out the connection with this handle and returns it,
/// if the colony holds one.
#[verifier::external_body]
pub(crate) fn connects_remove(connects: &mut ConnectColony, handle: usize) -> (connect: Option<u64>)
    ensures
        connect == (if connect_slots(*old(connects)).contains_key(handle) {
            Some(connect_slots(*old(connects))[handle])
        } else {
            None
        }),
        connect_slots(*final(connects)) == connect_slots(*old(connects)).remove(handle),
{
    connects.inner.remove(handle)
}

/// A colony of streams, each known by a number that its owner chose. A slot
/// whose stream has been taken out for a moment holds `None`.
#[verifier::external_body]
pub struct StreamColony {
    inner: FlaggedColony<Option<u64>>,
}

/// The slots of a colony of streams, by their handles.
pub uninterp spec fn stream_slots(streams: StreamColony) -> Map<usize, Option<u64>>;

/// `Colony::flagged`: a colony that holds nothing.
#[verifier::external_body]
pub(crate) fn streams_new() -> (streams: StreamColony)
    ensures
        stream_slots(streams) == (Map::<usize, Option<u64>>::empty()),
{
    StreamColony { inner: Colony::flagged() }
}

/// `Colony::len`: the number of slots in use.
#[verifier::external_body]
pub(crate) fn streams_len(streams: &StreamColony) -> (len: usize)
    ensures
        len == stream_slots(*streams).len(),
{
    streams.inner.len()
}

/// `Colony::insert`: puts the stream into a slot of the colony's choosing, one
/// that was not in use. That memory can be had is left unsaid.
#[verifier::external_body]
pub(crate) fn streams_insert(streams: &mut StreamColony, stream: Option<u64>) -> (handle: usize)
    requires
        stream_slots(*old(streams)).len() < SLOT_LIMIT,
    ensures
        !stream_slots(*old(streams)).contains_key(handle),
        stream_slots(*final(streams)) == stream_slots(*old(streams)).insert(handle, stream),
{
    streams.inner.insert(stream)
}

/// `Colony::get_mut`: the slot with this handle, if it is in use, to be read and
/// written in place.
#[verifier::external_body]
pub(crate) fn streams_get_mut(streams: &mut StreamColony, handle: usize) -> (slot: Option<
    &mut Option<u64>,
>)
    ensures
        match slot {
            Some(s) => stream_slots(*old(streams)).contains_key(handle) && *s == stream_slots(
                *old(streams),
            )[handle] && stream_slots(*final(streams)) == stream_slots(*old(streams)).insert(
                handle,
                *final(s),
            ),
            None => !stream_slots(*old(streams)).contains_key(handle) && stream_slots(
                *final(streams),
            ) == stream_slots(*old(streams)),
        },
{
    streams.inner.get_mut(handle)
}

} // verus!
