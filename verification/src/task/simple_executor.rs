//! A round-robin executor, which polls every task in turn until all have finished.

use vstd::prelude::*;

verus! {

/// The queue of tasks.
pub struct SimpleExecutor {
    queue: Vec<u64>,
}

impl View for SimpleExecutor {
    type V = Seq<u64>;

    closed spec fn view(&self) -> Seq<u64> {
        self.queue@
    }
}

impl SimpleExecutor {
    /// An executor without tasks.
    pub fn new() -> (e: SimpleExecutor)
        ensures
            e@ == Seq::<u64>::empty(),
    {
        SimpleExecutor { queue: Vec::new() }
    }

    /// Adds a task.
    pub fn spawn(&mut self, id: u64)
        ensures
            final(self)@ == old(self)@.push(id),
    {
        self.queue.push(id);
    }

    /// Takes the next task to poll; `None` if all have finished.
    pub fn next(&mut self) -> (id: Option<u64>)
        ensures
            match id {
                Some(x) => old(self)@.len() > 0 && x == old(self)@[0] && final(self)@
                    == old(self)@.remove(0),
                None => old(self)@.len() == 0 && final(self)@ == old(self)@,
            },
    {
        if self.queue.len() == 0 {
            None
        } else {
            Some(self.queue.remove(0))
        }
    }

    /// A task that was taken has been polled. If it has not finished it goes to the end of the
    /// queue.
    pub fn polled(&mut self, id: u64, finished: bool)
        ensures
            final(self)@ == if finished {
                old(self)@
            } else {
                old(self)@.push(id)
            },
    {
        if !finished {
            self.queue.push(id);
        }
    }
}

/// The queue after `n` tasks have been polled that did not finish.
pub open spec fn rounds(queue: Seq<u64>, n: nat) -> Seq<u64>
    decreases n,
{
    if n == 0 || queue.len() == 0 {
        queue
    } else {
        let before = rounds(queue, (n - 1) as nat);
        before.remove(0).push(before[0])
    }
}

/// Tasks take turns: the one at place `k` is the next after `k` others have been polled.
pub proof fn every_task_is_polled(queue: Seq<u64>, k: nat)
    requires
        k < queue.len(),
    ensures
        rounds(queue, k)[0] == queue[k as int],
{
    lemma_moves_up(queue, k as int, k);
}

/// The task at place `k` has moved up `n` places after `n` polls.
proof fn lemma_moves_up(queue: Seq<u64>, k: int, n: nat)
    requires
        n <= k < queue.len(),
    ensures
        rounds(queue, n).len() == queue.len(),
        rounds(queue, n)[k - n] == queue[k],
    decreases n,
{
    if n > 0 {
        lemma_moves_up(queue, k, (n - 1) as nat);
    }
}

} // verus!
