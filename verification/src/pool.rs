//! A model of the worker pool's task queue.
//!
//! The pool holds a fixed, positive number of workers and a first-in,
//! first-out queue of pending tasks. Submitting a task appends it; a worker
//! takes the task at the front. Two ghost histories — every task ever
//! enqueued and every task ever handed to a worker — let the conservation
//! law be stated: while the pool lives, tasks are neither lost nor
//! duplicated, and they leave in the order they arrived.
//!
//! The threads themselves, and the loop in which a worker runs a task and
//! returns for the next one, live outside the library; they drive this
//! model through `execute` and `take_task`.

use vstd::prelude::*;
use vstd::seq_lib::lemma_multiset_commutative;

verus! {

/// A fixed set of workers and a first-in, first-out queue of pending
/// tasks.
pub struct ThreadPool<T> {
    worker_count: usize,
    pending: Vec<T>,
    enqueued: Ghost<Seq<T>>,
    dequeued: Ghost<Seq<T>>,
}

impl<T> ThreadPool<T> {
    /// The number of workers the pool was created with.
    pub closed spec fn workers(&self) -> int {
        self.worker_count as int
    }

    /// The tasks submitted and not yet handed to a worker, oldest first.
    pub closed spec fn pending_tasks(&self) -> Seq<T> {
        self.pending@
    }

    /// Every task ever submitted, in submission order.
    pub closed spec fn enqueued_tasks(&self) -> Seq<T> {
        self.enqueued@
    }

    /// Every task ever handed to a worker, in that order.
    pub closed spec fn dequeued_tasks(&self) -> Seq<T> {
        self.dequeued@
    }

    /// The pool's invariant: it has at least one worker, and the submitted
    /// tasks are exactly the handed-out ones followed by the pending ones.
    pub open spec fn wf(&self) -> bool {
        self.workers() > 0 && self.enqueued_tasks() == self.dequeued_tasks()
            + self.pending_tasks()
    }

    /// Create a pool of `worker_count` workers with nothing pending.
    /// A pool must have at least one worker: the caller checks the count
    /// and treats zero as fatal before constructing the pool.
    pub fn new(worker_count: usize) -> (p: ThreadPool<T>)
        requires
            worker_count > 0,
        ensures
            p.wf(),
            p.workers() == worker_count,
            p.pending_tasks() == Seq::<T>::empty(),
            p.enqueued_tasks() == Seq::<T>::empty(),
            p.dequeued_tasks() == Seq::<T>::empty(),
    {
        let p = ThreadPool {
            worker_count,
            pending: Vec::new(),
            enqueued: Ghost(Seq::empty()),
            dequeued: Ghost(Seq::empty()),
        };
        proof {
            assert(p.enqueued_tasks() =~= p.dequeued_tasks() + p.pending_tasks());
        }
        p
    }

    /// Submit a task: it is appended to the pending queue, exactly once.
    pub fn execute(&mut self, task: T)
        requires
            old(self).wf(),
        ensures
            final(self).wf(),
            final(self).workers() == old(self).workers(),
            final(self).pending_tasks() == old(self).pending_tasks().push(task),
            final(self).enqueued_tasks() == old(self).enqueued_tasks().push(task),
            final(self).dequeued_tasks() == old(self).dequeued_tasks(),
    {
        self.pending.push(task);
        proof {
            self.enqueued@ = self.enqueued@.push(task);
            assert(self.enqueued_tasks() =~= self.dequeued_tasks() + self.pending_tasks());
        }
    }

    /// Hand the oldest pending task to a worker, or report that none is
    /// pending. Whatever the worker then does with the task, the pool is
    /// left well-formed and serves the next task unchanged.
    pub fn take_task(&mut self) -> (t: Option<T>)
        requires
            old(self).wf(),
        ensures
            final(self).wf(),
            final(self).workers() == old(self).workers(),
            final(self).enqueued_tasks() == old(self).enqueued_tasks(),
            (t, final(self).pending_tasks()) == spec_take(old(self).pending_tasks()),
            match t {
                Some(task) => old(self).pending_tasks().len() > 0 && task == old(
                    self,
                ).pending_tasks()[0] && final(self).pending_tasks() == old(
                    self,
                ).pending_tasks().skip(1) && final(self).dequeued_tasks() == old(
                    self,
                ).dequeued_tasks().push(task),
                None => old(self).pending_tasks().len() == 0 && final(self).pending_tasks()
                    == old(self).pending_tasks() && final(self).dequeued_tasks() == old(
                    self,
                ).dequeued_tasks(),
            },
    {
        if self.pending.len() == 0 {
            return None;
        }
        let task = self.pending.remove(0);
        proof {
            self.dequeued@ = self.dequeued@.push(task);
            assert(self.pending@ =~= old(self).pending@.skip(1));
            assert(self.enqueued_tasks() =~= self.dequeued_tasks() + self.pending_tasks());
        }
        Some(task)
    }

    /// The number of workers.
    pub fn worker_count(&self) -> (n: usize)
        ensures
            n as int == self.workers(),
    {
        self.worker_count
    }

    /// The number of pending tasks.
    pub fn pending_len(&self) -> (n: usize)
        ensures
            n as int == self.pending_tasks().len(),
    {
        self.pending.len()
    }
}

/// Conservation: while the pool lives, no task is lost and none is
/// duplicated. Every submitted task is either already handed to a worker
/// or still pending — the submitted tasks are, as a multiset, exactly the
/// handed-out ones plus the pending ones — and the tasks handed out so far
/// are the first submitted ones, in submission order.
pub proof fn lemma_task_conservation<T>(p: &ThreadPool<T>)
    requires
        p.wf(),
    ensures
        p.enqueued_tasks().to_multiset() == p.dequeued_tasks().to_multiset().add(
            p.pending_tasks().to_multiset(),
        ),
        p.dequeued_tasks() == p.enqueued_tasks().subrange(
            0,
            p.dequeued_tasks().len() as int,
        ),
{
    lemma_multiset_commutative(p.dequeued_tasks(), p.pending_tasks());
    assert(p.dequeued_tasks() =~= p.enqueued_tasks().subrange(
        0,
        p.dequeued_tasks().len() as int,
    ));
}

/// The queue's hand-out transition, as a function of the pending tasks
/// alone: the front task leaves, the rest move up.
pub open spec fn spec_take<T>(pending: Seq<T>) -> (Option<T>, Seq<T>) {
    if pending.len() == 0 {
        (None, pending)
    } else {
        (Some(pending[0]), pending.skip(1))
    }
}

/// Failure isolation: the hand-out transition is a function of the queue
/// alone, never of how the last task fared. After any task is taken — and
/// however its handler then ends, in success or in failure — the next
/// hand-out yields the next submitted task, unchanged.
pub proof fn lemma_failure_isolated<T>(pending: Seq<T>)
    requires
        pending.len() >= 2,
    ensures
        spec_take(spec_take(pending).1).0 == Some(pending[1]),
        spec_take(spec_take(pending).1).1 == pending.skip(2),
{
    assert(pending.skip(1)[0] == pending[1]);
    assert(pending.skip(1).skip(1) =~= pending.skip(2));
}

} // verus!
