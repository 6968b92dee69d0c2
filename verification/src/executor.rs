//! Bookkeeping for the bounded pool of worker slots.
//!
//! The scheduler decides here whether a slot is free and which tasks hold
//! one; actually running a task's deferred computation, and catching a
//! fault inside it, is the surrounding application's work.  The bound
//! protects local resources and is distinct from any rate-limit capacity.

use vstd::prelude::*;

use crate::queue::find_task;
use crate::queue::lemma_find_task_at;
use crate::queue::lemma_find_task_correct;
use crate::queue::lemma_models_remove;
use crate::queue::models_of;
use crate::queue::TaskDescriptor;
use crate::queue::TaskModel;

verus! {

/// The bounded pool of worker slots and the tasks holding one.
pub struct Executor {
    running: Vec<TaskDescriptor>,
    max_workers: usize,
}

impl View for Executor {
    type V = Seq<TaskModel>;

    closed spec fn view(&self) -> Seq<TaskModel> {
        models_of(self.running@)
    }
}

impl Executor {
    /// The pool's slot bound.
    pub closed spec fn worker_limit(self) -> usize {
        self.max_workers
    }

    /// Never more running tasks than slots.
    pub open spec fn wf(self) -> bool {
        self@.len() <= self.worker_limit()
    }

    /// An idle pool with the given number of slots.
    pub fn new(max_workers: usize) -> (r: Executor)
        ensures
            r.wf(),
            r@.len() == 0,
            r.worker_limit() == max_workers,
    {
        Executor { running: Vec::new(), max_workers }
    }

    pub fn has_free_slot(&self) -> (r: bool)
        ensures
            r == (self@.len() < self.worker_limit()),
    {
        self.running.len() < self.max_workers
    }

    pub fn running_len(&self) -> (r: usize)
        ensures
            r == self@.len(),
    {
        self.running.len()
    }

    /// Seats a task in a free slot.
    pub fn start(&mut self, descriptor: TaskDescriptor)
        requires
            old(self).wf(),
            old(self)@.len() < old(self).worker_limit(),
        ensures
            final(self).wf(),
            final(self).worker_limit() == old(self).worker_limit(),
            final(self)@ == old(self)@.push(descriptor@),
    {
        let ghost s0 = self.running@;
        self.running.push(descriptor);
        proof {
            assert(self@ =~= models_of(s0).push(descriptor@));
        }
    }

    /// Frees the slot of the first running task with the given
    /// identifier, handing the task back; `None`, changing nothing, when
    /// no running task bears it.
    pub fn finish(&mut self, task_id: u64) -> (r: Option<TaskDescriptor>)
        requires
            old(self).wf(),
        ensures
            final(self).wf(),
            final(self).worker_limit() == old(self).worker_limit(),
            match find_task(old(self)@, task_id) {
                None => r is None && final(self)@ == old(self)@,
                Some(i) => r matches Some(d) && d@ == old(self)@[i] && final(self)@ == old(
                    self,
                )@.remove(i),
            },
    {
        let n: usize = self.running.len();
        let mut i: usize = 0;
        while i < n
            invariant
                n == self.running.len(),
                *self == *old(self),
                self.wf(),
                forall|j: int| 0 <= j < i ==> (#[trigger] self@[j]).task_id != task_id,
            decreases n - i,
        {
            if self.running[i].task_id == task_id {
                proof {
                    lemma_find_task_at(self@, task_id, i as int);
                }
                let ghost s0 = self.running@;
                let d = self.running.remove(i);
                proof {
                    lemma_models_remove(s0, i as int);
                }
                return Some(d);
            }
            i = i + 1;
        }
        proof {
            if find_task(self@, task_id) is Some {
                lemma_find_task_correct(self@, task_id);
            }
        }
        None
    }
}

} // verus!
