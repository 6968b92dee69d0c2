//! The arrival-ordered queue of pending task descriptors.
//!
//! Tasks denied admission wait here.  [`TaskQueue::dequeue_ready`] replays
//! them: it scans in arrival order and hands back the first descriptor
//! whose key the rate limiter would admit now, so one stalled target never
//! blocks another target's tasks.  An optional depth bound turns unbounded
//! buffering into a `QueueFull` backpressure signal.

use vstd::prelude::*;

use crate::errors::SchedulerError;
use crate::limiter::LimiterModel;
use crate::limiter::RateLimiter;

verus! {

/// Mathematical model of one task descriptor.
#[verifier::ext_equal]
pub ghost struct TaskModel {
    pub task_id: u64,
    pub target_id: Seq<char>,
    pub task_type: Seq<char>,
    pub enqueue_time: u64,
}

/// One unit of work: an identifier the caller maps to the actual deferred
/// computation, the key it is rate-limited under, and its arrival time.
#[derive(Debug)]
pub struct TaskDescriptor {
    pub task_id: u64,
    pub target_id: String,
    pub task_type: String,
    pub enqueue_time: u64,
}

impl View for TaskDescriptor {
    type V = TaskModel;

    open spec fn view(&self) -> TaskModel {
        TaskModel {
            task_id: self.task_id,
            target_id: self.target_id@,
            task_type: self.task_type@,
            enqueue_time: self.enqueue_time,
        }
    }
}

impl Clone for TaskDescriptor {
    fn clone(&self) -> (r: Self)
        ensures
            r == *self,
    {
        TaskDescriptor {
            task_id: self.task_id,
            target_id: self.target_id.clone(),
            task_type: self.task_type.clone(),
            enqueue_time: self.enqueue_time,
        }
    }
}

/// The models of a sequence of descriptors, in order.
pub open spec fn models_of(s: Seq<TaskDescriptor>) -> Seq<TaskModel> {
    s.map_values(|d: TaskDescriptor| d@)
}

pub proof fn lemma_models_push(s: Seq<TaskDescriptor>, d: TaskDescriptor)
    ensures
        models_of(s.push(d)) =~= models_of(s).push(d@),
{
}

pub proof fn lemma_models_remove(s: Seq<TaskDescriptor>, i: int)
    requires
        0 <= i < s.len(),
    ensures
        models_of(s.remove(i)) =~= models_of(s).remove(i),
{
    s.remove_ensures(i);
    models_of(s).remove_ensures(i);
}

/// The position of the oldest queued task whose key the limiter admits at
/// `now`, scanning in arrival order.
pub open spec fn first_ready(q: Seq<TaskModel>, lim: LimiterModel, now: u64) -> Option<int>
    decreases q.len(),
{
    if q.len() == 0 {
        None
    } else if lim.can_schedule(q[0].target_id, q[0].task_type, now) {
        Some(0int)
    } else {
        match first_ready(q.drop_first(), lim, now) {
            None => None,
            Some(i) => Some(i + 1),
        }
    }
}

/// What `first_ready` finds (the fairness of replay): where it names an
/// index, that task's key is admissible now — never one at capacity — and
/// every older entry is inadmissible, so a stalled target never starves a
/// ready one behind it; where it names none, no queued task is admissible.
pub proof fn lemma_first_ready_correct(q: Seq<TaskModel>, lim: LimiterModel, now: u64)
    ensures
        match first_ready(q, lim, now) {
            Some(i) => {
                &&& 0 <= i < q.len()
                &&& lim.can_schedule(q[i].target_id, q[i].task_type, now)
                &&& forall|j: int|
                    0 <= j < i ==> !lim.can_schedule(
                        (#[trigger] q[j]).target_id,
                        q[j].task_type,
                        now,
                    )
            },
            None => forall|j: int|
                0 <= j < q.len() ==> !lim.can_schedule(
                    (#[trigger] q[j]).target_id,
                    q[j].task_type,
                    now,
                ),
        },
    decreases q.len(),
{
    if q.len() == 0 {
    } else if lim.can_schedule(q[0].target_id, q[0].task_type, now) {
    } else {
        let qt = q.drop_first();
        lemma_first_ready_correct(qt, lim, now);
        match first_ready(qt, lim, now) {
            Some(i) => {
                assert(q[i + 1] == qt[i]);
                assert forall|j: int| 0 <= j < i + 1 implies !lim.can_schedule(
                    (#[trigger] q[j]).target_id,
                    q[j].task_type,
                    now,
                ) by {
                    if j > 0 {
                        assert(q[j] == qt[j - 1]);
                    }
                }
            },
            None => {
                assert forall|j: int| 0 <= j < q.len() implies !lim.can_schedule(
                    (#[trigger] q[j]).target_id,
                    q[j].task_type,
                    now,
                ) by {
                    if j > 0 {
                        assert(q[j] == qt[j - 1]);
                    }
                }
            },
        }
    }
}

/// `first_ready` names the first admissible index.
pub proof fn lemma_first_ready_at(q: Seq<TaskModel>, lim: LimiterModel, now: u64, i: int)
    requires
        0 <= i < q.len(),
        lim.can_schedule(q[i].target_id, q[i].task_type, now),
        forall|j: int|
            0 <= j < i ==> !lim.can_schedule((#[trigger] q[j]).target_id, q[j].task_type, now),
    ensures
        first_ready(q, lim, now) == Some(i),
    decreases i,
{
    if i == 0 {
    } else {
        let qt = q.drop_first();
        assert(forall|j: int| 0 <= j < qt.len() ==> qt[j] == q[j + 1]);
        lemma_first_ready_at(qt, lim, now, i - 1);
    }
}

/// The FIFO queue of pending descriptors, optionally depth-bounded.
pub struct TaskQueue {
    items: Vec<TaskDescriptor>,
    max_depth: Option<usize>,
}

impl View for TaskQueue {
    type V = Seq<TaskModel>;

    closed spec fn view(&self) -> Seq<TaskModel> {
        models_of(self.items@)
    }
}

impl TaskQueue {
    /// The configured depth bound; `None` means unbounded.
    pub closed spec fn depth_limit(self) -> Option<usize> {
        self.max_depth
    }

    /// The queue cannot take another descriptor.
    pub open spec fn is_full(self) -> bool {
        match self.depth_limit() {
            Some(k) => self@.len() >= k,
            None => false,
        }
    }

    /// The queue never stands deeper than its bound.
    pub open spec fn wf(self) -> bool {
        match self.depth_limit() {
            Some(k) => self@.len() <= k,
            None => true,
        }
    }

    /// An empty queue with the given depth bound.
    pub fn new(max_depth: Option<usize>) -> (r: TaskQueue)
        ensures
            r.wf(),
            r@.len() == 0,
            r.depth_limit() == max_depth,
    {
        TaskQueue { items: Vec::new(), max_depth }
    }

    pub fn len(&self) -> (r: usize)
        ensures
            r == self@.len(),
    {
        self.items.len()
    }

    /// Appends a descriptor, keeping arrival order; fails with
    /// `QueueFull`, changing nothing, exactly when the queue stands at
    /// its depth bound.
    pub fn enqueue(&mut self, descriptor: TaskDescriptor) -> (r: Result<(), SchedulerError>)
        requires
            old(self).wf(),
        ensures
            final(self).wf(),
            final(self).depth_limit() == old(self).depth_limit(),
            old(self).is_full() ==> r == Err::<(), SchedulerError>(SchedulerError::QueueFull)
                && final(self)@ == old(self)@,
            !old(self).is_full() ==> r == Ok::<(), SchedulerError>(()) && final(self)@ == old(
                self,
            )@.push(descriptor@),
    {
        let full: bool = match self.max_depth {
            Some(k) => self.items.len() >= k,
            None => false,
        };
        if full {
            Err(SchedulerError::QueueFull)
        } else {
            let ghost s0 = self.items@;
            self.items.push(descriptor);
            proof {
                lemma_models_push(s0, descriptor);
            }
            Ok(())
        }
    }

    /// Removes and returns the oldest descriptor whose key the limiter
    /// admits at `now`; returns `None`, changing nothing, when no queued
    /// descriptor is admissible.
    pub fn dequeue_ready(&mut self, limiter: &RateLimiter, now: u64) -> (r: Option<
        TaskDescriptor,
    >)
        requires
            old(self).wf(),
            limiter@.wf(),
        ensures
            final(self).wf(),
            final(self).depth_limit() == old(self).depth_limit(),
            match first_ready(old(self)@, limiter@, now) {
                None => r is None && final(self)@ == old(self)@,
                Some(i) => r matches Some(d) && d@ == old(self)@[i] && final(self)@ == old(
                    self,
                )@.remove(i) && limiter@.can_schedule(d@.target_id, d@.task_type, now),
            },
    {
        let n: usize = self.items.len();
        let mut i: usize = 0;
        while i < n
            invariant
                n == self.items.len(),
                *self == *old(self),
                self.wf(),
                limiter@.wf(),
                forall|j: int|
                    0 <= j < i ==> !limiter@.can_schedule(
                        (#[trigger] self@[j]).target_id,
                        self@[j].task_type,
                        now,
                    ),
            decreases n - i,
        {
            let admissible: bool = {
                let d = &self.items[i];
                limiter.can_schedule(d.target_id.as_str(), d.task_type.as_str(), now)
            };
            if admissible {
                proof {
                    lemma_first_ready_at(self@, limiter@, now, i as int);
                }
                let ghost s0 = self.items@;
                let d = self.items.remove(i);
                proof {
                    lemma_models_remove(s0, i as int);
                }
                return Some(d);
            }
            i = i + 1;
        }
        proof {
            if first_ready(self@, limiter@, now) is Some {
                lemma_first_ready_correct(self@, limiter@, now);
            }
        }
        None
    }

    /// Removes the first queued descriptor with the given identifier;
    /// true when one was found.
    pub fn remove_by_id(&mut self, task_id: u64) -> (r: Option<TaskDescriptor>)
        requires
            old(self).wf(),
        ensures
            final(self).wf(),
            final(self).depth_limit() == old(self).depth_limit(),
            match find_task(old(self)@, task_id) {
                None => r is None && final(self)@ == old(self)@,
                Some(i) => r matches Some(d) && d@ == old(self)@[i] && final(self)@ == old(
                    self,
                )@.remove(i),
            },
    {
        let n: usize = self.items.len();
        let mut i: usize = 0;
        while i < n
            invariant
                n == self.items.len(),
                *self == *old(self),
                self.wf(),
                forall|j: int| 0 <= j < i ==> (#[trigger] self@[j]).task_id != task_id,
            decreases n - i,
        {
            if self.items[i].task_id == task_id {
                proof {
                    lemma_find_task_at(self@, task_id, i as int);
                }
                let ghost s0 = self.items@;
                let d = self.items.remove(i);
                proof {
                    lemma_models_remove(s0, i as int);
                }
                return Some(d);
            }
            i = i + 1;
        }
        proof {
            if find_task(self@, task_id) is Some {
                lemma_find_task_correct(self@, task_id);
            }
        }
        None
    }

    /// Empties the queue and hands every waiting descriptor back, in
    /// arrival order.
    pub fn drain_all(&mut self) -> (r: Vec<TaskDescriptor>)
        requires
            old(self).wf(),
        ensures
            final(self).wf(),
            final(self).depth_limit() == old(self).depth_limit(),
            final(self)@.len() == 0,
            models_of(r@) == old(self)@,
    {
        let mut out: Vec<TaskDescriptor> = Vec::new();
        core::mem::swap(&mut self.items, &mut out);
        proof {
            assert(self@ =~= Seq::<TaskModel>::empty());
        }
        out
    }
}

/// The position of the first task with the given identifier.
pub open spec fn find_task(q: Seq<TaskModel>, task_id: u64) -> Option<int>
    decreases q.len(),
{
    if q.len() == 0 {
        None
    } else if q[0].task_id == task_id {
        Some(0int)
    } else {
        match find_task(q.drop_first(), task_id) {
            None => None,
            Some(i) => Some(i + 1),
        }
    }
}

/// What `find_task` finds: the first position bearing the identifier, or
/// none where no task bears it.
pub proof fn lemma_find_task_correct(q: Seq<TaskModel>, task_id: u64)
    ensures
        match find_task(q, task_id) {
            Some(i) => 0 <= i < q.len() && q[i].task_id == task_id && forall|j: int|
                0 <= j < i ==> (#[trigger] q[j]).task_id != task_id,
            None => forall|j: int| 0 <= j < q.len() ==> (#[trigger] q[j]).task_id != task_id,
        },
    decreases q.len(),
{
    if q.len() == 0 {
    } else if q[0].task_id == task_id {
    } else {
        let qt = q.drop_first();
        lemma_find_task_correct(qt, task_id);
        match find_task(qt, task_id) {
            Some(i) => {
                assert(q[i + 1] == qt[i]);
                assert forall|j: int| 0 <= j < i + 1 implies (#[trigger] q[j]).task_id != task_id by {
                    if j > 0 {
                        assert(q[j] == qt[j - 1]);
                    }
                }
            },
            None => {
                assert forall|j: int| 0 <= j < q.len() implies (#[trigger] q[j]).task_id
                    != task_id by {
                    if j > 0 {
                        assert(q[j] == qt[j - 1]);
                    }
                }
            },
        }
    }
}

/// `find_task` names the first index bearing the identifier.
pub proof fn lemma_find_task_at(q: Seq<TaskModel>, task_id: u64, i: int)
    requires
        0 <= i < q.len(),
        q[i].task_id == task_id,
        forall|j: int| 0 <= j < i ==> (#[trigger] q[j]).task_id != task_id,
    ensures
        find_task(q, task_id) == Some(i),
    decreases i,
{
    if i == 0 {
    } else {
        let qt = q.drop_first();
        assert(forall|j: int| 0 <= j < qt.len() ==> qt[j] == q[j + 1]);
        lemma_find_task_at(qt, task_id, i - 1);
    }
}

} // verus!
