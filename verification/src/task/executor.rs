//! An executor that polls a task only when it has been woken.

use crossbeam_queue::ArrayQueue;
use vstd::prelude::*;

use crate::task::queue;

verus! {

/// How many wakes can be waiting.
pub const READY_QUEUE_CAPACITY: usize = 100;

/// The tasks and the queue of those that are ready to be polled.
pub struct Executor {
    /// The ids of the tasks that have not finished.
    tasks: Vec<u64>,
    ready: ArrayQueue<u64>,
}

/// The state of an executor.
#[verifier::ext_equal]
pub struct ExecutorModel {
    /// The ids of the tasks that have not finished, in the order of their creation.
    pub tasks: Seq<u64>,
    /// The ids that are to be polled, the oldest wake first.
    pub ready: Seq<u64>,
}

impl View for Executor {
    type V = ExecutorModel;

    closed spec fn view(&self) -> ExecutorModel {
        ExecutorModel { tasks: self.tasks@, ready: queue::items(self.ready) }
    }
}

/// The wakes from the first on that is for a task that has not finished.
pub open spec fn skipped(tasks: Seq<u64>, ready: Seq<u64>) -> Seq<u64>
    decreases ready.len(),
{
    if ready.len() == 0 || tasks.contains(ready[0]) {
        ready
    } else {
        skipped(tasks, ready.remove(0))
    }
}

/// What taking the next task does: wakes of finished tasks are dropped, and the first other is
/// taken.
pub open spec fn taken(m: ExecutorModel) -> (ExecutorModel, Option<u64>) {
    let rest = skipped(m.tasks, m.ready);
    if rest.len() == 0 {
        (ExecutorModel { ready: rest, ..m }, None)
    } else {
        (ExecutorModel { ready: rest.remove(0), ..m }, Some(rest[0]))
    }
}

/// Tasks that are not the one with this id.
pub open spec fn other_than(id: u64) -> spec_fn(u64) -> bool {
    |x: u64| x != id
}

/// Whether `ids` holds `id`.
fn holds(ids: &Vec<u64>, id: u64) -> (yes: bool)
    ensures
        yes == ids@.contains(id),
{
    let mut i: usize = 0;
    while i < ids.len()
        invariant
            i <= ids@.len(),
            forall|j: int| 0 <= j < i ==> ids@[j] != id,
        decreases ids@.len() - i,
    {
        if ids[i] == id {
            assert(ids@[i as int] == id);
            return true;
        }
        i = i + 1;
    }
    false
}

impl Executor {
    /// What holds of an executor between any two operations.
    pub closed spec fn ok(&self) -> bool {
        queue::capacity(self.ready) == READY_QUEUE_CAPACITY && queue::items(self.ready).len()
            <= READY_QUEUE_CAPACITY
    }

    /// An executor without tasks.
    pub fn new() -> (e: Executor)
        ensures
            e@ == (ExecutorModel { tasks: Seq::empty(), ready: Seq::empty() }),
            e.ok(),
    {
        let e = Executor { tasks: Vec::new(), ready: queue::new_queue(READY_QUEUE_CAPACITY) };
        assert(e@ =~= (ExecutorModel { tasks: Seq::empty(), ready: Seq::empty() }));
        e
    }

    /// Adds a task, which is ready for its first poll.
    pub fn spawn(&mut self, id: u64)
        requires
            old(self).ok(),
            !old(self)@.tasks.contains(id),
            old(self)@.ready.len() < READY_QUEUE_CAPACITY,
        ensures
            final(self).ok(),
            final(self)@ == (ExecutorModel {
                tasks: old(self)@.tasks.push(id),
                ready: old(self)@.ready.push(id),
            }),
    {
        self.tasks.push(id);
        queue::push(&mut self.ready, id);
        assert(self@ =~= (ExecutorModel {
            tasks: old(self)@.tasks.push(id),
            ready: old(self)@.ready.push(id),
        }));
    }

    /// Wakes a task: it is to be polled again. The result is false if too many wakes are waiting.
    pub fn wake_task(&mut self, id: u64) -> (queued: bool)
        requires
            old(self).ok(),
        ensures
            final(self).ok(),
            queued == (old(self)@.ready.len() < READY_QUEUE_CAPACITY),
            final(self)@ == if queued {
                ExecutorModel { ready: old(self)@.ready.push(id), ..old(self)@ }
            } else {
                old(self)@
            },
    {
        queue::push(&mut self.ready, id)
    }

    /// The next task to poll; `None` if none is ready.
    pub fn next_ready(&mut self) -> (id: Option<u64>)
        requires
            old(self).ok(),
        ensures
            final(self).ok(),
            (final(self)@, id) == taken(old(self)@),
    {
        let ghost before = self@;
        loop
            invariant
                self.ok(),
                before == old(self)@,
                self@.tasks == before.tasks,
                skipped(before.tasks, before.ready) == skipped(before.tasks, self@.ready),
            decreases self@.ready.len(),
        {
            match queue::pop(&mut self.ready) {
                Some(id) => {
                    if holds(&self.tasks, id) {
                        assert(self@ =~= taken(before).0);
                        return Some(id);
                    }
                },
                None => {
                    assert(self@ =~= taken(before).0);
                    return None;
                },
            }
        }
    }

    /// A task has finished.
    pub fn finished(&mut self, id: u64)
        requires
            old(self).ok(),
        ensures
            final(self).ok(),
            final(self)@ == (ExecutorModel {
                tasks: old(self)@.tasks.filter(other_than(id)),
                ..old(self)@
            }),
    {
        let ghost before = self@;
        let mut others: Vec<u64> = Vec::new();
        let mut i: usize = 0;
        assert(before.tasks.take(0).filter(other_than(id)) =~= Seq::empty()) by {
            reveal(Seq::filter);
        }
        while i < self.tasks.len()
            invariant
                i <= self.tasks@.len(),
                self.ok(),
                self@ == before,
                before == old(self)@,
                before.tasks == self.tasks@,
                others@ == before.tasks.take(i as int).filter(other_than(id)),
            decreases self.tasks@.len() - i,
        {
            let x: u64 = self.tasks[i];
            proof {
                reveal(Seq::filter);
                assert(before.tasks.take(i + 1).drop_last() =~= before.tasks.take(i as int));
                assert(before.tasks.take(i + 1).last() == x);
            }
            if x != id {
                others.push(x);
            }
            i = i + 1;
        }
        assert(before.tasks.take(i as int) =~= before.tasks);
        self.tasks = others;
        assert(self@ =~= (ExecutorModel {
            tasks: before.tasks.filter(other_than(id)),
            ..before
        }));
    }

    /// Whether no task is ready, so that the CPU may sleep until the next interrupt.
    pub fn sleep_if_idle(&self) -> (sleep: bool)
        ensures
            sleep == (self@.ready.len() == 0),
    {
        queue::is_empty(&self.ready)
    }
}

/// A task that is taken has not finished.
pub proof fn only_living_tasks_are_polled(m: ExecutorModel)
    ensures
        taken(m).1 matches Some(id) ==> m.tasks.contains(id),
    decreases m.ready.len(),
{
    if m.ready.len() > 0 && !m.tasks.contains(m.ready[0]) {
        only_living_tasks_are_polled(ExecutorModel { ready: m.ready.remove(0), ..m });
    }
}

/// No wake is lost: that of a living task, at whatever place, is taken after those before it.
pub proof fn no_wake_is_lost(m: ExecutorModel, k: int)
    requires
        0 <= k < m.ready.len(),
        m.tasks.contains(m.ready[k]),
    ensures
        taken(m).1 is Some,
        ({
            let after = taken(m).0;
            let passed = m.ready.len() - after.ready.len();
            &&& 0 < passed <= k + 1
            &&& after.ready == m.ready.skip(passed)
            &&& taken(m).1 == Some(m.ready[passed - 1])
        }),
    decreases m.ready.len(),
{
    if !m.tasks.contains(m.ready[0]) {
        let n = ExecutorModel { ready: m.ready.remove(0), ..m };
        assert(n.ready[k - 1] == m.ready[k]);
        no_wake_is_lost(n, k - 1);
        let after = taken(m).0;
        let passed = m.ready.len() - after.ready.len();
        assert(m.ready.skip(passed) =~= n.ready.skip(passed - 1));
    } else {
        assert(m.ready.remove(0) =~= m.ready.skip(1));
    }
}

/// A finished task is not polled again.
pub proof fn finished_task_is_gone(m: ExecutorModel, id: u64)
    ensures
        !m.tasks.filter(other_than(id)).contains(id),
{
    broadcast use vstd::seq_lib::group_filter_ensures;

    let a = m.tasks.filter(other_than(id));
    if a.contains(id) {
        let j = choose|j: int| 0 <= j < a.len() && a[j] == id;
        assert(other_than(id)(a[j]));
    }
}

/// With no wake for a living task nothing is taken, and all wakes are used up.
pub proof fn wakes_of_the_dead_are_dropped(m: ExecutorModel)
    requires
        forall|k: int| 0 <= k < m.ready.len() ==> !m.tasks.contains(#[trigger] m.ready[k]),
    ensures
        taken(m).1 is None,
        taken(m).0.ready.len() == 0,
        taken(m).0.tasks == m.tasks,
    decreases m.ready.len(),
{
    if m.ready.len() > 0 {
        let n = ExecutorModel { ready: m.ready.remove(0), ..m };
        assert(!m.tasks.contains(m.ready[0]));
        assert forall|k: int| 0 <= k < n.ready.len() implies !m.tasks.contains(
            #[trigger] n.ready[k],
        ) by {
            assert(n.ready[k] == m.ready[k + 1]);
        }
        wakes_of_the_dead_are_dropped(n);
    }
}

/// The end of a task concerns no other: the others stay, in their order.
pub proof fn other_tasks_stay(m: ExecutorModel, before: Seq<u64>, id: u64, after: Seq<u64>)
    requires
        m.tasks == before + seq![id] + after,
        !before.contains(id),
        !after.contains(id),
    ensures
        m.tasks.filter(other_than(id)) == before + after,
{
    Seq::filter_distributes_over_add(before + seq![id], after, other_than(id));
    Seq::filter_distributes_over_add(before, seq![id], other_than(id));
    lemma_others(before, id);
    lemma_others(after, id);
    reveal(Seq::filter);
    assert(seq![id].drop_last() =~= Seq::<u64>::empty());
    assert(seq![id].drop_last().filter(other_than(id)) =~= Seq::<u64>::empty());
    assert(!other_than(id)(seq![id].last()));
    assert(seq![id].filter(other_than(id)) =~= Seq::<u64>::empty());
    assert(before + Seq::<u64>::empty() =~= before);
}

proof fn lemma_others(s: Seq<u64>, id: u64)
    requires
        !s.contains(id),
    ensures
        s.filter(other_than(id)) == s,
    decreases s.len(),
{
    reveal(Seq::filter);
    if s.len() > 0 {
        assert(s[s.len() - 1] != id);
        assert(!s.drop_last().contains(id)) by {
            if s.drop_last().contains(id) {
                let i = choose|i: int| 0 <= i < s.drop_last().len() && s.drop_last()[i] == id;
                assert(s[i] == id);
            }
        }
        lemma_others(s.drop_last(), id);
        assert(s.drop_last().push(s.last()) =~= s);
    }
}

} // verus!
