//! The task queue that the workers of a render share.
//!
//! Tasks are closures.  They are queued at the back and handed out from the
//! front, each of them once; whoever takes a task runs it.  Running the
//! workers themselves, on threads, is left to the caller: a worker is a loop
//! that takes the next task under a lock and runs it outside the lock until
//! there is none left.
use std::collections::VecDeque;
use vstd::prelude::*;

verus! {

/// One unit of work: a closure that is run at most once.
pub struct Task<F: FnOnce()>(pub F);

impl<F: FnOnce()> Task<F> {
    /// The task may be run: the closure's own precondition holds.
    pub open spec fn callable(&self) -> bool {
        self.0.requires(())
    }

    /// Runs the task, consuming it.  What the closure promises of a run
    /// holds afterwards.
    pub fn call(self)
        requires
            self.callable(),
        ensures
            self.0.ensures((), ()),
    {
        (self.0)()
    }
}

/// A queue of tasks, first in, first out.
pub struct ThreadPool<F: FnOnce()> {
    task_queue: VecDeque<Task<F>>,
}

impl<F: FnOnce()> View for ThreadPool<F> {
    type V = Seq<Task<F>>;

    /// The tasks that wait, the next one to be handed out first.
    closed spec fn view(&self) -> Seq<Task<F>> {
        self.task_queue@
    }
}

impl<F: FnOnce()> ThreadPool<F> {
    /// Every task that waits may be run.
    pub open spec fn runnable(&self) -> bool {
        forall|i: int| 0 <= i < self@.len() ==> (#[trigger] self@[i]).callable()
    }

    /// A pool with no tasks.
    pub fn new() -> (pool: Self)
        ensures
            pool@ == Seq::<Task<F>>::empty(),
            pool.runnable(),
    {
        ThreadPool { task_queue: VecDeque::new() }
    }

    /// Queues a task behind those that wait already.
    pub fn add_task(&mut self, task: F)
        ensures
            final(self)@ == old(self)@.push(Task(task)),
            old(self).runnable() && task.requires(()) ==> final(self).runnable(),
    {
        self.task_queue.push_back(Task(task));
        proof {
            if old(self).runnable() && task.requires(()) {
                assert forall|i: int| 0 <= i < self@.len() implies (#[trigger] self@[i]).callable() by {
                    if i < old(self)@.len() {
                        assert(self@[i] == old(self)@[i]);
                    }
                }
            }
        }
    }

    /// How many tasks wait.
    pub fn len(&self) -> (n: usize)
        ensures
            n == self@.len(),
    {
        self.task_queue.len()
    }

    /// Takes the task that has waited longest out of the queue; `None` when
    /// no task waits, which tells a worker to stop.
    pub fn next_task(&mut self) -> (task: Option<Task<F>>)
        ensures
            old(self)@.len() == 0 ==> task is None && final(self)@ == old(self)@,
            old(self)@.len() > 0 ==> task == Some(old(self)@[0]) && final(self)@ == old(self)@.skip(1),
            old(self).runnable() ==> final(self).runnable(),
            old(self).runnable() && task is Some ==> task->0.callable(),
    {
        let task = self.task_queue.pop_front();
        proof {
            if old(self)@.len() > 0 {
                assert(final(self)@ == old(self)@.skip(1));
                assert forall|i: int| 0 <= i < final(self)@.len() implies final(self)@[i] == old(
                    self,
                )@[i + 1] by {}
            }
        }
        task
    }

    /// The work of one worker that has the queue to itself: takes task after
    /// task from the front and runs it, until none is left.  Every task
    /// that waited has then been run, so that what each of them promises of
    /// a run holds, and the queue is empty.
    pub fn run_all(&mut self)
        requires
            old(self).runnable(),
        ensures
            final(self)@.len() == 0,
            forall|i: int| 0 <= i < old(self)@.len() ==> (#[trigger] old(self)@[i]).0.ensures((), ()),
    {
        let ghost queued = self@;
        let ghost mut taken: int = 0;
        loop
            invariant
                self.runnable(),
                0 <= taken <= queued.len(),
                self@ == queued.skip(taken),
                forall|i: int| 0 <= i < taken ==> (#[trigger] queued[i]).0.ensures((), ()),
            ensures
                self@.len() == 0,
                taken == queued.len(),
                forall|i: int| 0 <= i < taken ==> (#[trigger] queued[i]).0.ensures((), ()),
            decreases self@.len(),
        {
            let ghost waiting = self@;
            match self.next_task() {
                Some(task) => {
                    proof {
                        assert(task == waiting[0]);
                        assert(waiting[0] == queued[taken]);
                        assert(self@ =~= queued.skip(taken + 1));
                    }
                    task.call();
                    proof {
                        taken = taken + 1;
                    }
                },
                None => break ,
            }
        }
    }

    /// Tasks leave the queue in the order in which they were added: a task
    /// added to a queue of `n` tasks is the one handed out after exactly `n`
    /// others, and adding it changes nothing for those before it.
    pub proof fn lemma_first_in_first_out(queue: Seq<Task<F>>, task: Task<F>)
        ensures
            queue.push(task).skip(queue.len() as int) == seq![task],
            forall|i: int| 0 <= i < queue.len() ==> queue.push(task)[i] == queue[i],
            queue.len() > 0 ==> queue.push(task).skip(1) == queue.skip(1).push(task),
    {
        assert(queue.push(task).skip(queue.len() as int) =~= seq![task]);
        if queue.len() > 0 {
            assert(queue.push(task).skip(1) =~= queue.skip(1).push(task));
        }
    }
}

} // verus!
