//! The host's executor: it polls every task of the guest once a round, and
//! drops those that have finished.
//!
//! A round has two halves, between which the host calls into the guest. The
//! first takes in the tasks that were spawned since the last round and names
//! those to poll. The second takes the guest's answers.
use vstd::multiset::Multiset;
use vstd::prelude::*;

use colony::Handle;

use crate::colonies::REMOVAL_LIMIT;
use crate::colonies::SLOT_LIMIT;
use crate::colonies::TaskColony;
use crate::colonies::task_items;
use crate::colonies::tasks_insert;
use crate::colonies::tasks_is_empty;
use crate::colonies::tasks_len;
use crate::colonies::tasks_list;
use crate::colonies::tasks_new;
use crate::colonies::tasks_remove;
use crate::colonies::tasks_removed;
use crate::outcome::Poll;
use crate::wire::ANSWER_READY;
use crate::wire::task_answer;

verus! {

/// The numbers of the tasks, in their order.
pub open spec fn number_list(items: Seq<(Handle, u32)>) -> Seq<u32> {
    items.map_values(|item: (Handle, u32)| item.1)
}

/// The numbers of the tasks, without their order.
pub open spec fn numbers(items: Seq<(Handle, u32)>) -> Multiset<u32> {
    number_list(items).to_multiset()
}

/// Whether one of the items has this handle.
pub open spec fn has_handle(items: Seq<(Handle, u32)>, handle: Handle) -> bool {
    exists|i: int| 0 <= i < items.len() && (#[trigger] items[i]).0 == handle
}

/// Whether no two items share a handle.
pub open spec fn distinct_handles(items: Seq<(Handle, u32)>) -> bool {
    forall|i: int, j: int|
        0 <= i < j < items.len() ==> (#[trigger] items[i]).0 != (#[trigger] items[j]).0
}

/// Whether `after` is `before` with one more task, under a handle of its own,
/// somewhere among the others.
pub open spec fn took_in(before: Seq<(Handle, u32)>, after: Seq<(Handle, u32)>, task: u32) -> bool {
    exists|at: int, handle: Handle|
        0 <= at <= before.len() && !has_handle(before, handle) && after
            == #[trigger] before.insert(at, (handle, task))
}

/// Whether `after` is `before` with these tasks taken in, one after the other.
pub open spec fn took_in_all(
    before: Seq<(Handle, u32)>,
    after: Seq<(Handle, u32)>,
    tasks: Seq<u32>,
) -> bool
    decreases tasks.len(),
{
    if tasks.len() == 0 {
        after == before
    } else {
        exists|mid: Seq<(Handle, u32)>|
            took_in_all(before, mid, tasks.drop_last()) && #[trigger] took_in(
                mid,
                after,
                tasks.last(),
            )
    }
}

/// Whether `after` holds the same tasks as `before`, in the same order, under
/// other handles.
pub open spec fn renewed(before: Seq<(Handle, u32)>, after: Seq<(Handle, u32)>) -> bool {
    &&& after.len() == before.len()
    &&& forall|i: int| 0 <= i < before.len() ==> (#[trigger] after[i]).1 == before[i].1
    &&& distinct_handles(after)
}

/// Whether `held` is what a round has of the tasks that the last one left: the
/// same, or the same under other handles if it renews them.
pub open spec fn held_over(
    before: Seq<(Handle, u32)>,
    held: Seq<(Handle, u32)>,
    renews: bool,
) -> bool {
    if renews {
        renewed(before, held)
    } else {
        held == before
    }
}

/// Whether `after` is what a round polls, if the last one left `before` and
/// these tasks were spawned since.
pub open spec fn resumed(
    before: Seq<(Handle, u32)>,
    after: Seq<(Handle, u32)>,
    spawned: Seq<u32>,
    renews: bool,
) -> bool {
    exists|held: Seq<(Handle, u32)>| #[trigger]
        held_over(before, held, renews) && took_in_all(held, after, spawned)
}

/// Whether the answers say that the task with this handle is done.
pub open spec fn is_finished(answers: Seq<(Handle, u32)>, handle: Handle) -> bool {
    exists|i: int| 0 <= i < answers.len() && #[trigger] answers[i] == (handle, 1u32)
}

/// The items that the answers leave to be polled again, in their order.
pub open spec fn unfinished(items: Seq<(Handle, u32)>, answers: Seq<(Handle, u32)>) -> Seq<
    (Handle, u32),
> {
    items.filter(|item: (Handle, u32)| !is_finished(answers, item.0))
}

/// The tasks that the host polls.
pub struct WasmFutures {
    futures: TaskColony,
    /// How many tasks have been dropped, counted up to `REMOVAL_LIMIT`.
    dropped: u32,
}

impl View for WasmFutures {
    type V = Seq<(Handle, u32)>;

    /// The tasks with their handles, in the order in which they are polled.
    closed spec fn view(&self) -> Seq<(Handle, u32)> {
        task_items(self.futures)
    }
}

impl WasmFutures {
    /// How many tasks have finished and been dropped since the handles were last
    /// renewed.
    pub closed spec fn finished(&self) -> nat {
        tasks_removed(self.futures)
    }

    /// No two tasks share a handle, there are not too many of them, and the
    /// count of those dropped is right.
    pub closed spec fn wf(&self) -> bool {
        &&& distinct_handles(task_items(self.futures))
        &&& task_items(self.futures).len() <= SLOT_LIMIT
        &&& self.dropped == (if tasks_removed(self.futures) < REMOVAL_LIMIT {
            tasks_removed(self.futures) as int
        } else {
            REMOVAL_LIMIT as int
        })
    }

    /// An executor with nothing to do.
    pub fn new() -> (futures: WasmFutures)
        ensures
            futures.wf(),
            futures@ == Seq::<(Handle, u32)>::empty(),
            futures.finished() == 0,
    {
        WasmFutures { futures: tasks_new(), dropped: 0 }
    }

    /// How many more tasks can be taken in.
    pub fn room(&self) -> (room: usize)
        requires
            self.wf(),
        ensures
            room == SLOT_LIMIT - self@.len(),
    {
        SLOT_LIMIT - tasks_len(&self.futures)
    }

    /// Moves the tasks to a new colony, where they get other handles.
    fn renew(&mut self)
        requires
            old(self).wf(),
        ensures
            final(self).wf(),
            renewed(old(self)@, final(self)@),
            final(self).finished() == 0,
    {
        let list = tasks_list(&self.futures);
        let mut fresh = tasks_new();
        let mut i: usize = 0;
        while i < list.len()
            invariant
                i <= list@.len(),
                list@.len() <= SLOT_LIMIT,
                tasks_removed(fresh) == 0,
                task_items(fresh).len() == i,
                distinct_handles(task_items(fresh)),
                forall|k: int| 0 <= k < i ==> (#[trigger] task_items(fresh)[k]).1 == list@[k].1,
            decreases list.len() - i,
        {
            let (_, task) = list[i];
            tasks_insert(&mut fresh, task);
            i = i + 1;
        }
        self.futures = fresh;
        self.dropped = 0;
    }

    /// Begins a round: takes in the tasks that were spawned since the last one,
    /// and returns all that are to be polled, or `None` if there are none and
    /// the executor is done. When handles have run short, the tasks that are
    /// held get other ones before any is taken in. As long as none was dropped
    /// under these handles, tasks are polled in the order in which they came.
    pub fn start_round(&mut self, spawned: &Vec<u32>) -> (round: Option<Vec<(Handle, u32)>>)
        requires
            old(self).wf(),
            spawned@.len() > 0 ==> old(self)@.len() + spawned@.len() <= SLOT_LIMIT,
        ensures
            final(self).wf(),
            distinct_handles(final(self)@),
            ({
                let renews = spawned@.len() > 0 && old(self).finished() >= REMOVAL_LIMIT;
                &&& resumed(old(self)@, final(self)@, spawned@, renews)
                &&& final(self).finished() == (if renews {
                    0
                } else {
                    old(self).finished()
                })
            }),
            final(self).finished() == 0 ==> number_list(final(self)@) == number_list(old(self)@)
                + spawned@,
            final(self)@.len() == old(self)@.len() + spawned@.len(),
            final(self).finished() == 0 ==> forall|i: int|
                0 <= i < final(self)@.len() ==> (#[trigger] final(self)@[i]).1 == (if i
                    < old(self)@.len() {
                    old(self)@[i].1
                } else {
                    spawned@[i - old(self)@.len()]
                }),
            final(self)@.map_values(|item: (Handle, u32)| item.1).to_multiset() == old(
                self,
            )@.map_values(|item: (Handle, u32)| item.1).to_multiset().add(spawned@.to_multiset()),
            match round {
                Some(list) => list@ == final(self)@ && final(self)@.len() > 0,
                None => final(self)@.len() == 0,
            },
    {
        let ghost renews = spawned@.len() > 0 && self.finished() >= REMOVAL_LIMIT;
        if spawned.len() > 0 && self.dropped >= REMOVAL_LIMIT {
            self.renew();
        }
        let ghost held = self@;
        let ghost finished = self.finished();
        assert(held_over(old(self)@, held, renews));
        assert(number_list(held) =~= number_list(old(self)@));
        assert(number_list(held) + spawned@.take(0) =~= number_list(held));
        let mut i: usize = 0;
        while i < spawned.len()
            invariant
                self.wf(),
                i <= spawned@.len(),
                took_in_all(held, self@, spawned@.take(i as int)),
                self.finished() == finished,
                finished == 0 ==> number_list(self@) == number_list(held) + spawned@.take(i as int),
                self@.len() == held.len() + i,
                spawned@.len() > 0 ==> finished < REMOVAL_LIMIT && held.len() + spawned@.len()
                    <= SLOT_LIMIT,
            decreases spawned.len() - i,
        {
            let ghost mid = self@;
            let task: u32 = spawned[i];
            let handle = tasks_insert(&mut self.futures, task);
            proof {
                assert(!has_handle(mid, handle));
                assert(took_in(mid, self@, task));
                assert(spawned@.take(i + 1) =~= spawned@.take(i as int).push(task));
                lemma_took_in_more(held, mid, self@, spawned@.take(i as int), task);
                lemma_took_in_distinct(mid, self@, task);
                if finished == 0 {
                    assert(number_list(self@) =~= number_list(mid).push(task));
                    assert(number_list(self@) =~= number_list(held) + spawned@.take(i + 1));
                }
            }
            i = i + 1;
        }
        assert(spawned@.take(i as int) =~= spawned@);
        proof {
            resumed_keeps_and_adds(old(self)@, self@, spawned@, renews);
            if self.finished() == 0 {
                assert forall|k: int| 0 <= k < self@.len() implies (#[trigger] self@[k]).1 == (if k
                    < old(self)@.len() {
                    old(self)@[k].1
                } else {
                    spawned@[k - old(self)@.len()]
                }) by {
                    assert(number_list(self@)[k] == self@[k].1);
                    if k < old(self)@.len() {
                        assert(number_list(old(self)@)[k] == old(self)@[k].1);
                    }
                }
            }
        }
        if tasks_is_empty(&self.futures) {
            None
        } else {
            Some(tasks_list(&self.futures))
        }
    }

    /// Ends a round: drops the tasks that the guest answered for with 1, keeps
    /// the others, and tells whether there are any left.
    pub fn finish_round(&mut self, answers: &Vec<(Handle, u32)>) -> (polled: Poll<()>)
        requires
            old(self).wf(),
        ensures
            final(self).wf(),
            distinct_handles(final(self)@),
            final(self)@ == unfinished(old(self)@, answers@),
            forall|item: (Handle, u32)| #[trigger]
                final(self)@.contains(item) <==> old(self)@.contains(item) && !exists|j: int|
                    0 <= j < answers@.len() && (#[trigger] answers@[j]).0 == item.0
                        && answers@[j].1 == 1,
            final(self).finished() == old(self).finished() + old(self)@.len() - final(self)@.len(),
            polled == (if final(self)@.len() == 0 {
                Poll::Ready(())
            } else {
                Poll::Pending
            }),
    {
        let mut i: usize = 0;
        proof {
            lemma_none_finished(self@, answers@.take(0));
        }
        while i < answers.len()
            invariant
                self.wf(),
                distinct_handles(old(self)@),
                i <= answers@.len(),
                self@ == unfinished(old(self)@, answers@.take(i as int)),
                self.finished() == old(self).finished() + old(self)@.len() - self@.len(),
            decreases answers.len() - i,
        {
            let (handle, status) = answers[i];
            let ghost mid = self@;
            if status == ANSWER_READY as u32 {
                let removed = tasks_remove(&mut self.futures, handle);
                if removed.is_some() && self.dropped < REMOVAL_LIMIT {
                    self.dropped = self.dropped + 1;
                }
                proof {
                    lemma_remove_is_filter(mid, self@, handle, removed);
                }
            }
            proof {
                lemma_one_more_answer(old(self)@, answers@, i as int);
            }
            i = i + 1;
        }
        assert(answers@.take(i as int) =~= answers@);
        proof {
            lemma_unfinished_members(old(self)@, answers@);
        }
        if tasks_is_empty(&self.futures) {
            Poll::Ready(())
        } else {
            Poll::Pending
        }
    }
}

/// Taking in tasks loses none: the tasks that were there keep their handles and
/// their order, each new task is there as often as it was spawned, and no two
/// share a handle.
pub proof fn intake_keeps_and_adds(
    before: Seq<(Handle, u32)>,
    after: Seq<(Handle, u32)>,
    tasks: Seq<u32>,
)
    requires
        distinct_handles(before),
        took_in_all(before, after, tasks),
    ensures
        distinct_handles(after),
        after.len() == before.len() + tasks.len(),
        after.filter(|item: (Handle, u32)| has_handle(before, item.0)) == before,
        numbers(after) == numbers(before).add(tasks.to_multiset()),
    decreases tasks.len(),
{
    if tasks.len() == 0 {
        lemma_filter_all(before, |item: (Handle, u32)| has_handle(before, item.0));
        assert(tasks.to_multiset() =~= Multiset::empty()) by {
            tasks.to_multiset_ensures();
        }
        assert(numbers(before).add(tasks.to_multiset()) =~= numbers(before));
    } else {
        let mid = choose|mid: Seq<(Handle, u32)>|
            took_in_all(before, mid, tasks.drop_last()) && #[trigger] took_in(
                mid,
                after,
                tasks.last(),
            );
        intake_keeps_and_adds(before, mid, tasks.drop_last());
        lemma_took_in_distinct(mid, after, tasks.last());
        lemma_took_in_keeps(before, mid, after, tasks.last());
        lemma_took_in_adds(before, mid, after, tasks);
    }
}

/// What a round polls, from what the last one left: as many tasks more as were
/// spawned, no two under one handle. The task that was at `k` is at `places[k]`,
/// so they are in the same order, and under the same handles unless the round
/// renews those. Each number is there as often as it was left and spawned.
pub proof fn resumed_keeps_and_adds(
    before: Seq<(Handle, u32)>,
    after: Seq<(Handle, u32)>,
    spawned: Seq<u32>,
    renews: bool,
) -> (places: Seq<int>)
    requires
        forall|i: int, j: int|
            0 <= i < j < before.len() ==> (#[trigger] before[i]).0 != (#[trigger] before[j]).0,
        resumed(before, after, spawned, renews),
    ensures
        after.len() == before.len() + spawned.len(),
        forall|i: int, j: int|
            0 <= i < j < after.len() ==> (#[trigger] after[i]).0 != (#[trigger] after[j]).0,
        places.len() == before.len(),
        forall|k: int, l: int|
            0 <= k < l < places.len() ==> #[trigger] places[k] < #[trigger] places[l],
        forall|k: int|
            0 <= k < places.len() ==> {
                &&& 0 <= #[trigger] places[k] < after.len()
                &&& after[places[k]].1 == before[k].1
                &&& !renews ==> after[places[k]].0 == before[k].0
            },
        forall|i: int|
            0 <= i < after.len() ==> places.contains(i) || spawned.contains(
                (#[trigger] after[i]).1,
            ),
        after.map_values(|item: (Handle, u32)| item.1).to_multiset() == before.map_values(
            |item: (Handle, u32)| item.1,
        ).to_multiset().add(spawned.to_multiset()),
{
    let held = choose|held: Seq<(Handle, u32)>| #[trigger]
        held_over(before, held, renews) && took_in_all(held, after, spawned);
    assert(number_list(held) =~= number_list(before));
    intake_keeps_and_adds(held, after, spawned);
    lemma_took_in_places(held, after, spawned)
}

/// Exactly the tasks that got no answer 1 stay: the one that is at `k` after the
/// round was at `places[k]` before it, so they are in the same order.
pub proof fn unfinished_keeps_in_order(
    items: Seq<(Handle, u32)>,
    answers: Seq<(Handle, u32)>,
) -> (places: Seq<int>)
    ensures
        places.len() == unfinished(items, answers).len(),
        forall|k: int, l: int|
            0 <= k < l < places.len() ==> #[trigger] places[k] < #[trigger] places[l],
        forall|k: int|
            0 <= k < places.len() ==> 0 <= #[trigger] places[k] < items.len() && unfinished(
                items,
                answers,
            )[k] == items[places[k]],
        forall|i: int|
            0 <= i < items.len() ==> (#[trigger] places.contains(i) <==> !exists|j: int|
                0 <= j < answers.len() && (#[trigger] answers[j]).0 == items[i].0 && answers[j].1
                    == 1),
{
    let places = lemma_filter_places(
        items,
        |item: (Handle, u32)| !is_finished(answers, item.0),
    );
    assert forall|i: int| 0 <= i < items.len() implies (is_finished(answers, items[i].0)
        <==> exists|j: int|
        0 <= j < answers.len() && (#[trigger] answers[j]).0 == items[i].0 && answers[j].1 == 1) by {
        if is_finished(answers, items[i].0) {
            let j = choose|j: int|
                0 <= j < answers.len() && #[trigger] answers[j] == (items[i].0, 1u32);
            assert(answers[j].0 == items[i].0 && answers[j].1 == 1);
        }
        if exists|j: int|
            0 <= j < answers.len() && (#[trigger] answers[j]).0 == items[i].0 && answers[j].1
                == 1 {
            let j = choose|j: int|
                0 <= j < answers.len() && (#[trigger] answers[j]).0 == items[i].0 && answers[j].1
                    == 1;
            assert(answers[j] == (items[i].0, 1u32));
        }
    }
    places
}

/// A round in which every task was polled drops those that answered 1 and no
/// others, and the executor is done when all did.
pub proof fn round_drops_the_finished(items: Seq<(Handle, u32)>, answers: Seq<(Handle, u32)>)
    requires
        distinct_handles(items),
        answers.len() == items.len(),
        forall|i: int| 0 <= i < items.len() ==> (#[trigger] answers[i]).0 == items[i].0,
    ensures
        forall|i: int|
            0 <= i < items.len() ==> (unfinished(items, answers).contains(#[trigger] items[i])
                <==> answers[i].1 != 1),
        forall|item: (Handle, u32)|
            unfinished(items, answers).contains(item) ==> #[trigger] items.contains(item),
        unfinished(items, answers).len() == 0 <==> forall|i: int|
            0 <= i < items.len() ==> (#[trigger] answers[i]).1 == 1,
{
    let keep = |item: (Handle, u32)| !is_finished(answers, item.0);
    assert forall|i: int| 0 <= i < items.len() implies (unfinished(items, answers).contains(
        #[trigger] items[i],
    ) <==> answers[i].1 != 1) by {
        if answers[i].1 == 1 {
            assert(answers[i] == (items[i].0, 1u32));
            if unfinished(items, answers).contains(items[i]) {
                items.lemma_filter_contains_rev(keep, items[i]);
                let k = choose|k: int|
                    0 <= k < items.filter(keep).len() && items.filter(keep)[k] == items[i];
                items.lemma_filter_pred(keep, k);
            }
        } else {
            if is_finished(answers, items[i].0) {
                let j = choose|j: int|
                    0 <= j < answers.len() && #[trigger] answers[j] == (items[i].0, 1u32);
                assert(items[j].0 == items[i].0);
            }
            items.lemma_filter_contains(keep, i);
        }
    }
    assert forall|item: (Handle, u32)| unfinished(items, answers).contains(
        item,
    ) implies #[trigger] items.contains(item) by {
        items.lemma_filter_contains_rev(keep, item);
    }
    let left = unfinished(items, answers);
    if left.len() == 0 {
        assert forall|i: int| 0 <= i < items.len() implies (#[trigger] answers[i]).1 == 1 by {
            assert(!left.contains(items[i]));
        }
    } else {
        assert(left.contains(left[0]));
        assert(items.contains(left[0]));
        let i = choose|i: int| 0 <= i < items.len() && items[i] == left[0];
        assert(answers[i].1 != 1);
    }
}

/// Whether there is an answer for each of the items.
pub open spec fn answers_all(items: Seq<(Handle, u32)>, answers: Seq<(Handle, u32)>) -> bool {
    &&& answers.len() == items.len()
    &&& forall|i: int| 0 <= i < items.len() ==> (#[trigger] answers[i]).0 == items[i].0
}

/// Whether a task with this number is among the items.
pub open spec fn has_number(items: Seq<(Handle, u32)>, task: u32) -> bool {
    exists|i: int| 0 <= i < items.len() && (#[trigger] items[i]).1 == task
}

/// Whether `next` is what the next round polls after one that polled `items`
/// and got these answers, if these tasks were spawned in between.
pub open spec fn next_round(
    items: Seq<(Handle, u32)>,
    answers: Seq<(Handle, u32)>,
    spawned: Seq<u32>,
    next: Seq<(Handle, u32)>,
) -> bool {
    ||| resumed(unfinished(items, answers), next, spawned, false)
    ||| resumed(unfinished(items, answers), next, spawned, true)
}

/// The next round polls the tasks that this one left, as often as they are held,
/// and those that were spawned since, and no others.
pub proof fn next_round_polls_the_rest(
    items: Seq<(Handle, u32)>,
    answers: Seq<(Handle, u32)>,
    spawned: Seq<u32>,
    next: Seq<(Handle, u32)>,
)
    requires
        distinct_handles(items),
        answers_all(items, answers),
        next_round(items, answers, spawned, next),
    ensures
        distinct_handles(next),
        numbers(next) == numbers(unfinished(items, answers)).add(spawned.to_multiset()),
        forall|i: int|
            0 <= i < items.len() && (#[trigger] answers[i]).1 != 1 ==> has_number(next, items[i].1),
        forall|task: u32| #[trigger]
            has_number(next, task) ==> spawned.contains(task) || exists|i: int|
                0 <= i < items.len() && (#[trigger] items[i]).1 == task && answers[i].1 != 1,
        forall|i: int|
            0 <= i < items.len() && (#[trigger] answers[i]).1 != 1 ==> exists|j: int|
                0 <= j < next.len() && (#[trigger] next[j]).1 == items[i].1,
        forall|j: int|
            0 <= j < next.len() ==> spawned.contains((#[trigger] next[j]).1) || exists|i: int|
                0 <= i < items.len() && (#[trigger] items[i]).1 == next[j].1 && answers[i].1 != 1,
{
    let rest = unfinished(items, answers);
    lemma_filter_distinct(items, |item: (Handle, u32)| !is_finished(answers, item.0));
    let renews = !resumed(rest, next, spawned, false);
    let held = choose|held: Seq<(Handle, u32)>| #[trigger]
        held_over(rest, held, renews) && took_in_all(held, next, spawned);
    assert(number_list(held) =~= number_list(rest));
    intake_keeps_and_adds(held, next, spawned);
    lemma_took_in_sources(held, next, spawned);
    round_drops_the_finished(items, answers);

    assert forall|i: int| 0 <= i < items.len() && (#[trigger] answers[i]).1 != 1 implies exists|
        j: int,
    |
        0 <= j < next.len() && (#[trigger] next[j]).1 == items[i].1 by {
        assert(rest.contains(items[i]));
        let k = choose|k: int| 0 <= k < rest.len() && rest[k] == items[i];
        assert(held[k].1 == items[i].1);
        assert(next.contains(held[k]));
        let j = choose|j: int| 0 <= j < next.len() && next[j] == held[k];
        assert(next[j].1 == items[i].1);
    }
    assert forall|j: int| 0 <= j < next.len() && !spawned.contains(
        (#[trigger] next[j]).1,
    ) implies exists|i: int|
        0 <= i < items.len() && (#[trigger] items[i]).1 == next[j].1 && answers[i].1 != 1 by {
        assert(next.contains(next[j]));
        let k = choose|k: int| 0 <= k < held.len() && held[k] == next[j];
        assert(held[k].1 == rest[k].1);
        assert(rest.contains(rest[k]));
        assert(items.contains(rest[k]));
        let i = choose|i: int| 0 <= i < items.len() && items[i] == rest[k];
        assert(answers[i].1 != 1);
    }
}

/// Whether these are the tasks that successive rounds polled, with the answers
/// to each round and the tasks that were spawned before the next.
pub open spec fn is_run(
    rounds: Seq<Seq<(Handle, u32)>>,
    answers: Seq<Seq<(Handle, u32)>>,
    spawned: Seq<Seq<u32>>,
) -> bool {
    &&& rounds.len() > 0
    &&& answers.len() == rounds.len() - 1
    &&& spawned.len() == rounds.len() - 1
    &&& distinct_handles(rounds[0])
    &&& forall|k: int|
        0 <= k < answers.len() ==> answers_all(rounds[k], #[trigger] answers[k]) && next_round(
            rounds[k],
            answers[k],
            spawned[k],
            rounds[k + 1],
        )
}

/// A task that has answered 1 is never polled again, unless it is held twice or
/// spawned again.
pub proof fn finished_task_is_not_polled_again(
    rounds: Seq<Seq<(Handle, u32)>>,
    answers: Seq<Seq<(Handle, u32)>>,
    spawned: Seq<Seq<u32>>,
    from: int,
    at: int,
    to: int,
)
    requires
        is_run(rounds, answers, spawned),
        0 <= from < to < rounds.len(),
        0 <= at < rounds[from].len(),
        answers[from][at].1 == 1,
        forall|j: int|
            0 <= j < rounds[from].len() && j != at ==> (#[trigger] rounds[from][j]).1
                != rounds[from][at].1,
        forall|k: int|
            from <= k < to ==> !(#[trigger] spawned[k]).contains(rounds[from][at].1),
    ensures
        !has_number(rounds[to], rounds[from][at].1),
        forall|j: int|
            0 <= j < rounds[to].len() ==> (#[trigger] rounds[to][j]).1 != rounds[from][at].1,
    decreases to,
{
    let task = rounds[from][at].1;
    let k = to - 1;
    lemma_run_distinct(rounds, answers, spawned, k);
    assert(answers_all(rounds[k], answers[k]));
    next_round_polls_the_rest(rounds[k], answers[k], spawned[k], rounds[k + 1]);
    assert(!spawned[k].contains(task));
    if k > from {
        finished_task_is_not_polled_again(rounds, answers, spawned, from, at, k);
    }
}

/// A task that has answered anything but 1 is polled again in the next round.
pub proof fn unfinished_task_is_polled_again(
    rounds: Seq<Seq<(Handle, u32)>>,
    answers: Seq<Seq<(Handle, u32)>>,
    spawned: Seq<Seq<u32>>,
    from: int,
    at: int,
)
    requires
        is_run(rounds, answers, spawned),
        0 <= from < rounds.len() - 1,
        0 <= at < rounds[from].len(),
        answers[from][at].1 != 1,
    ensures
        has_number(rounds[from + 1], rounds[from][at].1),
        exists|j: int|
            0 <= j < rounds[from + 1].len() && (#[trigger] rounds[from + 1][j]).1
                == rounds[from][at].1,
{
    lemma_run_distinct(rounds, answers, spawned, from);
    assert(answers_all(rounds[from], answers[from]));
    next_round_polls_the_rest(rounds[from], answers[from], spawned[from], rounds[from + 1]);
}

/// No round of a run polls two tasks under one handle.
proof fn lemma_run_distinct(
    rounds: Seq<Seq<(Handle, u32)>>,
    answers: Seq<Seq<(Handle, u32)>>,
    spawned: Seq<Seq<u32>>,
    k: int,
)
    requires
        is_run(rounds, answers, spawned),
        0 <= k < rounds.len(),
    ensures
        distinct_handles(rounds[k]),
    decreases k,
{
    if k > 0 {
        lemma_run_distinct(rounds, answers, spawned, k - 1);
        assert(answers_all(rounds[k - 1], answers[k - 1]));
        next_round_polls_the_rest(
            rounds[k - 1],
            answers[k - 1],
            spawned[k - 1],
            rounds[k - 1 + 1],
        );
    }
}

/// The host drops a task exactly if the guest's poll of it was ready.
pub proof fn answer_ends_a_ready_task(handle: Handle, polled: Poll<()>)
    ensures
        is_finished(seq![(handle, task_answer(polled) as u32)], handle) == (polled is Ready),
{
    let answers = seq![(handle, task_answer(polled) as u32)];
    assert(answers[0] == (handle, task_answer(polled) as u32));
}

/// Two conditions that agree on the items keep the same ones.
proof fn lemma_filter_agree(
    items: Seq<(Handle, u32)>,
    p: spec_fn((Handle, u32)) -> bool,
    q: spec_fn((Handle, u32)) -> bool,
)
    requires
        forall|i: int| 0 <= i < items.len() ==> p(#[trigger] items[i]) == q(items[i]),
    ensures
        items.filter(p) == items.filter(q),
    decreases items.len(),
{
    reveal(Seq::filter);
    if items.len() > 0 {
        let rest = items.drop_last();
        assert forall|i: int| 0 <= i < rest.len() implies p(#[trigger] rest[i]) == q(rest[i]) by {
            assert(rest[i] == items[i]);
        }
        lemma_filter_agree(rest, p, q);
        assert(p(items[items.len() - 1]) == q(items[items.len() - 1]));
    }
}

/// A condition that every item meets keeps them all.
proof fn lemma_filter_all(items: Seq<(Handle, u32)>, p: spec_fn((Handle, u32)) -> bool)
    requires
        forall|i: int| 0 <= i < items.len() ==> p(#[trigger] items[i]),
    ensures
        items.filter(p) == items,
    decreases items.len(),
{
    reveal(Seq::filter);
    if items.len() > 0 {
        let rest = items.drop_last();
        assert forall|i: int| 0 <= i < rest.len() implies p(#[trigger] rest[i]) by {
            assert(rest[i] == items[i]);
        }
        lemma_filter_all(rest, p);
        assert(p(items[items.len() - 1]));
        assert(rest.push(items.last()) =~= items);
    } else {
        assert(items.filter(p) =~= items);
    }
}

/// Two conditions, one after the other, keep what meets both.
proof fn lemma_filter_twice(
    items: Seq<(Handle, u32)>,
    p: spec_fn((Handle, u32)) -> bool,
    q: spec_fn((Handle, u32)) -> bool,
)
    ensures
        items.filter(p).filter(q) == items.filter(|item: (Handle, u32)| p(item) && q(item)),
    decreases items.len(),
{
    reveal(Seq::filter);
    if items.len() > 0 {
        let rest = items.drop_last();
        lemma_filter_twice(rest, p, q);
        if p(items.last()) {
            assert(items.filter(p).drop_last() =~= rest.filter(p));
        }
    }
}

/// The condition that an item has another handle than this one.
spec fn other_than(handle: Handle) -> spec_fn((Handle, u32)) -> bool {
    |item: (Handle, u32)| item.0 != handle
}

/// To remove a handle is to keep the items with other handles.
proof fn lemma_remove_is_filter(
    before: Seq<(Handle, u32)>,
    after: Seq<(Handle, u32)>,
    handle: Handle,
    removed: Option<u32>,
)
    requires
        distinct_handles(before),
        match removed {
            Some(t) => exists|at: int|
                0 <= at < before.len() && before[at] == (handle, t) && after
                    == #[trigger] before.remove(at),
            None => after == before && !has_handle(before, handle),
        },
    ensures
        after == before.filter(other_than(handle)),
        distinct_handles(after),
{
    let keep = other_than(handle);
    match removed {
        Some(t) => {
            let at = choose|at: int|
                0 <= at < before.len() && before[at] == (handle, t) && after
                    == #[trigger] before.remove(at);
            let left = before.take(at);
            let one = seq![before[at]];
            let right = before.skip(at + 1);
            assert(before =~= (left + one) + right);
            Seq::filter_distributes_over_add(left + one, right, keep);
            Seq::filter_distributes_over_add(left, one, keep);
            lemma_filter_all(left, keep);
            assert forall|i: int| 0 <= i < right.len() implies keep(#[trigger] right[i]) by {
                assert(right[i] == before[at + 1 + i]);
            }
            lemma_filter_all(right, keep);
            one.lemma_all_neg_filter_empty(keep);
            assert(one.filter(keep) =~= Seq::<(Handle, u32)>::empty());
            assert(after =~= left + right);
            assert forall|i: int, j: int| 0 <= i < j < after.len() implies (#[trigger] after[i]).0
                != (#[trigger] after[j]).0 by {
                let i0 = if i < at { i } else { i + 1 };
                let j0 = if j < at { j } else { j + 1 };
                assert(after[i] == before[i0] && after[j] == before[j0]);
            }
        },
        None => {
            lemma_filter_all(before, keep);
        },
    }
}

/// No answers leave every item.
proof fn lemma_none_finished(items: Seq<(Handle, u32)>, answers: Seq<(Handle, u32)>)
    requires
        answers.len() == 0,
    ensures
        unfinished(items, answers) == items,
{
    lemma_filter_all(items, |item: (Handle, u32)| !is_finished(answers, item.0));
}

/// One more answer takes out at most the items with its handle.
proof fn lemma_one_more_answer(
    items: Seq<(Handle, u32)>,
    answers: Seq<(Handle, u32)>,
    at: int,
)
    requires
        0 <= at < answers.len(),
    ensures
        unfinished(items, answers.take(at + 1)) == (if answers[at].1 == 1 {
            unfinished(items, answers.take(at)).filter(other_than(answers[at].0))
        } else {
            unfinished(items, answers.take(at))
        }),
{
    let fewer = answers.take(at);
    let more = answers.take(at + 1);
    let handle = answers[at].0;
    let keep_fewer = |item: (Handle, u32)| !is_finished(fewer, item.0);
    let keep_more = |item: (Handle, u32)| !is_finished(more, item.0);
    assert forall|h: Handle|
        is_finished(more, h) == (is_finished(fewer, h) || (h == handle && answers[at].1 == 1)) by {
        if is_finished(fewer, h) {
            let i = choose|i: int| 0 <= i < fewer.len() && #[trigger] fewer[i] == (h, 1u32);
            assert(more[i] == (h, 1u32));
        }
        if h == handle && answers[at].1 == 1 {
            assert(more[at] == (h, 1u32));
        }
        if is_finished(more, h) {
            let i = choose|i: int| 0 <= i < more.len() && #[trigger] more[i] == (h, 1u32);
            if i < at {
                assert(fewer[i] == (h, 1u32));
            }
        }
    }
    if answers[at].1 == 1 {
        lemma_filter_twice(items, keep_fewer, other_than(handle));
        lemma_filter_agree(
            items,
            keep_more,
            |item: (Handle, u32)| keep_fewer(item) && other_than(handle)(item),
        );
    } else {
        lemma_filter_agree(items, keep_more, keep_fewer);
    }
}

/// Taking in some tasks and then another is taking in them all.
proof fn lemma_took_in_more(
    before: Seq<(Handle, u32)>,
    mid: Seq<(Handle, u32)>,
    after: Seq<(Handle, u32)>,
    tasks: Seq<u32>,
    task: u32,
)
    requires
        took_in_all(before, mid, tasks),
        took_in(mid, after, task),
    ensures
        took_in_all(before, after, tasks.push(task)),
{
    reveal_with_fuel(took_in_all, 2);
    assert(tasks.push(task).drop_last() =~= tasks);
    assert(tasks.push(task).last() == task);
}

/// Some of the items keep the handles apart that all of them kept apart.
proof fn lemma_filter_distinct(items: Seq<(Handle, u32)>, p: spec_fn((Handle, u32)) -> bool)
    requires
        distinct_handles(items),
    ensures
        distinct_handles(items.filter(p)),
    decreases items.len(),
{
    reveal(Seq::filter);
    if items.len() > 0 {
        let rest = items.drop_last();
        let kept = rest.filter(p);
        lemma_filter_distinct(rest, p);
        assert forall|i: int| 0 <= i < kept.len() implies (#[trigger] kept[i]).0
            != items.last().0 by {
            assert(kept.contains(kept[i]));
            rest.lemma_filter_contains_rev(p, kept[i]);
            let j = choose|j: int| 0 <= j < rest.len() && rest[j] == kept[i];
            assert(items[j] == kept[i]);
        }
    }
}

/// Each task is there after an intake exactly if it was there before or came in.
proof fn lemma_took_in_sources(
    before: Seq<(Handle, u32)>,
    after: Seq<(Handle, u32)>,
    tasks: Seq<u32>,
)
    requires
        took_in_all(before, after, tasks),
    ensures
        forall|item: (Handle, u32)| before.contains(item) ==> #[trigger] after.contains(item),
        forall|item: (Handle, u32)| #[trigger]
            after.contains(item) ==> before.contains(item) || tasks.contains(item.1),
    decreases tasks.len(),
{
    if tasks.len() > 0 {
        let mid = choose|mid: Seq<(Handle, u32)>|
            took_in_all(before, mid, tasks.drop_last()) && #[trigger] took_in(
                mid,
                after,
                tasks.last(),
            );
        lemma_took_in_sources(before, mid, tasks.drop_last());
        let (at, handle) = choose|at: int, handle: Handle|
            0 <= at <= mid.len() && !has_handle(mid, handle) && after
                == #[trigger] mid.insert(at, (handle, tasks.last()));
        assert forall|item: (Handle, u32)| before.contains(
            item,
        ) implies #[trigger] after.contains(item) by {
            assert(mid.contains(item));
            let i = choose|i: int| 0 <= i < mid.len() && mid[i] == item;
            assert(after[if i < at { i } else { i + 1 }] == item);
        }
        assert forall|item: (Handle, u32)| #[trigger] after.contains(item) implies before.contains(
            item,
        ) || tasks.contains(item.1) by {
            let i = choose|i: int| 0 <= i < after.len() && after[i] == item;
            if i == at {
                assert(tasks[tasks.len() - 1] == item.1);
            } else {
                assert(mid[if i < at { i } else { i - 1 }] == item);
                assert(mid.contains(item));
                if tasks.drop_last().contains(item.1) {
                    let k = choose|k: int|
                        0 <= k < tasks.drop_last().len() && tasks.drop_last()[k] == item.1;
                    assert(tasks[k] == item.1);
                }
            }
        }
    }
}

/// A task taken in leaves those in order that were in order before it.
proof fn lemma_took_in_keeps(
    before: Seq<(Handle, u32)>,
    mid: Seq<(Handle, u32)>,
    after: Seq<(Handle, u32)>,
    task: u32,
)
    requires
        mid.filter(|item: (Handle, u32)| has_handle(before, item.0)) == before,
        took_in(mid, after, task),
    ensures
        after.filter(|item: (Handle, u32)| has_handle(before, item.0)) == before,
{
    let old_ones = |item: (Handle, u32)| has_handle(before, item.0);
    let (at, handle) = choose|at: int, handle: Handle|
        0 <= at <= mid.len() && !has_handle(mid, handle) && after
            == #[trigger] mid.insert(at, (handle, task));
    if has_handle(before, handle) {
        let i = choose|i: int| 0 <= i < before.len() && (#[trigger] before[i]).0 == handle;
        mid.lemma_filter_contains_rev(old_ones, before[i]);
        let j = choose|j: int| 0 <= j < mid.len() && mid[j] == before[i];
        assert(mid[j].0 == handle);
    }
    let left = mid.take(at);
    let right = mid.skip(at);
    let one = seq![(handle, task)];
    assert(mid =~= left + right);
    assert(after =~= (left + one) + right);
    Seq::filter_distributes_over_add(left, right, old_ones);
    Seq::filter_distributes_over_add(left + one, right, old_ones);
    Seq::filter_distributes_over_add(left, one, old_ones);
    one.lemma_all_neg_filter_empty(old_ones);
    assert(left.filter(old_ones) + one.filter(old_ones) =~= left.filter(old_ones));
}

/// A task taken in after others adds its number to theirs.
proof fn lemma_took_in_adds(
    before: Seq<(Handle, u32)>,
    mid: Seq<(Handle, u32)>,
    after: Seq<(Handle, u32)>,
    tasks: Seq<u32>,
)
    requires
        tasks.len() > 0,
        numbers(mid) == numbers(before).add(tasks.drop_last().to_multiset()),
        took_in(mid, after, tasks.last()),
    ensures
        numbers(after) == numbers(before).add(tasks.to_multiset()),
{
    let (at, handle) = choose|at: int, handle: Handle|
        0 <= at <= mid.len() && !has_handle(mid, handle) && after
            == #[trigger] mid.insert(at, (handle, tasks.last()));
    assert(number_list(after) =~= number_list(mid).insert(at, tasks.last()));
    vstd::seq_lib::to_multiset_insert(number_list(mid), at, tasks.last());
    assert(tasks =~= tasks.drop_last().push(tasks.last()));
    vstd::seq_lib::to_multiset_build(tasks.drop_last(), tasks.last());
    assert(numbers(after) =~= numbers(before).add(tasks.to_multiset()));
}

/// What stays after a round is what was there and got no answer 1.
proof fn lemma_unfinished_members(items: Seq<(Handle, u32)>, answers: Seq<(Handle, u32)>)
    ensures
        forall|item: (Handle, u32)| #[trigger]
            unfinished(items, answers).contains(item) <==> items.contains(item) && !exists|j: int|
                0 <= j < answers.len() && (#[trigger] answers[j]).0 == item.0 && answers[j].1 == 1,
{
    let rest = unfinished(items, answers);
    let places = unfinished_keeps_in_order(items, answers);
    assert forall|item: (Handle, u32)| #[trigger] rest.contains(item) <==> items.contains(item)
        && !exists|j: int|
        0 <= j < answers.len() && (#[trigger] answers[j]).0 == item.0 && answers[j].1 == 1 by {
        if rest.contains(item) {
            let k = choose|k: int| 0 <= k < rest.len() && rest[k] == item;
            assert(places.contains(places[k]));
            assert(items[places[k]] == item);
        }
        if items.contains(item) {
            let i = choose|i: int| 0 <= i < items.len() && items[i] == item;
            if places.contains(i) {
                let k = choose|k: int| 0 <= k < places.len() && places[k] == i;
                assert(rest[k] == item);
            }
        }
    }
}

/// Where the items that meet a condition were.
proof fn lemma_filter_places(
    items: Seq<(Handle, u32)>,
    p: spec_fn((Handle, u32)) -> bool,
) -> (places: Seq<int>)
    ensures
        places.len() == items.filter(p).len(),
        forall|k: int, l: int|
            0 <= k < l < places.len() ==> #[trigger] places[k] < #[trigger] places[l],
        forall|k: int|
            0 <= k < places.len() ==> 0 <= #[trigger] places[k] < items.len() && items.filter(p)[k]
                == items[places[k]],
        forall|i: int|
            0 <= i < items.len() ==> (#[trigger] places.contains(i) <==> p(items[i])),
    decreases items.len(),
{
    reveal(Seq::filter);
    if items.len() == 0 {
        Seq::<int>::empty()
    } else {
        let rest = items.drop_last();
        let fewer = lemma_filter_places(rest, p);
        let last = items.len() - 1;
        let places = if p(items[last]) {
            fewer.push(last)
        } else {
            fewer
        };
        assert forall|k: int| 0 <= k < places.len() implies 0 <= #[trigger] places[k] < items.len()
            && items.filter(p)[k] == items[places[k]] by {
            if k < fewer.len() {
                assert(places[k] == fewer[k]);
                assert(rest[fewer[k]] == items[fewer[k]]);
            }
        }
        assert forall|i: int| 0 <= i < items.len() implies (#[trigger] places.contains(i) <==> p(
            items[i],
        )) by {
            if i < last {
                assert(fewer.contains(i) <==> p(rest[i]));
                assert(rest[i] == items[i]);
                if fewer.contains(i) {
                    let k = choose|k: int| 0 <= k < fewer.len() && fewer[k] == i;
                    assert(places[k] == i);
                }
                if places.contains(i) {
                    let k = choose|k: int| 0 <= k < places.len() && places[k] == i;
                    assert(fewer[k] == i);
                }
            } else {
                if p(items[last]) {
                    assert(places[fewer.len() as int] == last);
                } else if places.contains(i) {
                    let k = choose|k: int| 0 <= k < places.len() && places[k] == i;
                    assert(fewer[k] < rest.len());
                }
            }
        }
        places
    }
}

/// Where the tasks are, after an intake, that were there before it.
proof fn lemma_took_in_places(
    before: Seq<(Handle, u32)>,
    after: Seq<(Handle, u32)>,
    tasks: Seq<u32>,
) -> (places: Seq<int>)
    requires
        took_in_all(before, after, tasks),
    ensures
        places.len() == before.len(),
        forall|k: int, l: int|
            0 <= k < l < places.len() ==> #[trigger] places[k] < #[trigger] places[l],
        forall|k: int|
            0 <= k < places.len() ==> 0 <= #[trigger] places[k] < after.len() && after[places[k]]
                == before[k],
        forall|i: int|
            0 <= i < after.len() ==> places.contains(i) || tasks.contains((#[trigger] after[i]).1),
    decreases tasks.len(),
{
    if tasks.len() == 0 {
        let places = Seq::new(before.len(), |k: int| k);
        assert forall|i: int| 0 <= i < after.len() implies places.contains(i) || tasks.contains(
            (#[trigger] after[i]).1,
        ) by {
            assert(places[i] == i);
        }
        places
    } else {
        let mid = choose|mid: Seq<(Handle, u32)>|
            took_in_all(before, mid, tasks.drop_last()) && #[trigger] took_in(
                mid,
                after,
                tasks.last(),
            );
        let earlier = lemma_took_in_places(before, mid, tasks.drop_last());
        let (at, handle) = choose|at: int, handle: Handle|
            0 <= at <= mid.len() && !has_handle(mid, handle) && after
                == #[trigger] mid.insert(at, (handle, tasks.last()));
        let places = Seq::new(
            earlier.len(),
            |k: int|
                if earlier[k] < at {
                    earlier[k]
                } else {
                    earlier[k] + 1
                },
        );
        assert forall|k: int, l: int| 0 <= k < l < places.len() implies #[trigger] places[k]
            < #[trigger] places[l] by {
            assert(earlier[k] < earlier[l]);
        }
        assert forall|k: int| 0 <= k < places.len() implies 0 <= #[trigger] places[k] < after.len()
            && after[places[k]] == before[k] by {
            assert(mid[earlier[k]] == before[k]);
        }
        assert forall|i: int| 0 <= i < after.len() implies places.contains(i) || tasks.contains(
            (#[trigger] after[i]).1,
        ) by {
            if i == at {
                assert(tasks[tasks.len() - 1] == after[i].1);
            } else {
                let i0 = if i < at {
                    i
                } else {
                    i - 1
                };
                assert(mid[i0] == after[i]);
                if earlier.contains(i0) {
                    let k = choose|k: int| 0 <= k < earlier.len() && earlier[k] == i0;
                    assert(places[k] == i);
                } else {
                    let k = choose|k: int|
                        0 <= k < tasks.drop_last().len() && tasks.drop_last()[k] == mid[i0].1;
                    assert(tasks[k] == after[i].1);
                }
            }
        }
        places
    }
}

/// A task taken in keeps the handles apart.
proof fn lemma_took_in_distinct(
    before: Seq<(Handle, u32)>,
    after: Seq<(Handle, u32)>,
    task: u32,
)
    requires
        distinct_handles(before),
        took_in(before, after, task),
    ensures
        distinct_handles(after),
{
}

} // verus!
