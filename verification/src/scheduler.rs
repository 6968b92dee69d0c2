//! The composition root: admission, queueing, replay and draining.
//!
//! A [`Scheduler`] owns the rate limiter, the pending queue and the
//! worker-slot bookkeeping.  Each task moves Queued → Admitted → Running →
//! Completed, or ends Rejected when the queue is full, or Cancelled when
//! the scheduler drains.  A submission that passes the admission check
//! while a worker slot is free starts at once; otherwise it waits in the
//! queue, and every completion (or an explicit pump of
//! [`Scheduler::promote_ready`]) replays the oldest admissible waiters
//! while slots and rate budget allow.  Running the started tasks'
//! computations is the caller's work: every call hands back the
//! descriptors it started, and the caller reports each task's end through
//! [`Scheduler::record_completion`].

use vstd::prelude::*;

use crate::errors::SchedulerError;
use crate::executor::Executor;
use crate::limiter::lemma_rate_limit_respected;
use crate::limiter::LimiterModel;
use crate::limiter::RateLimiter;
use crate::queue::find_task;
use crate::queue::first_ready;
use crate::queue::lemma_first_ready_correct;
use crate::queue::models_of;
use crate::queue::TaskDescriptor;
use crate::queue::TaskModel;
use crate::queue::TaskQueue;

verus! {

/// Mathematical model of a whole scheduler.
#[verifier::ext_equal]
pub ghost struct SchedulerModel {
    pub limiter: LimiterModel,
    pub queued: Seq<TaskModel>,
    pub running: Seq<TaskModel>,
    pub max_workers: usize,
    pub queue_depth: Option<usize>,
    pub accepting: bool,
    pub next_task_id: u64,
}

impl SchedulerModel {
    pub open spec fn wf(self) -> bool {
        &&& self.limiter.wf()
        &&& self.running.len() <= self.max_workers
        &&& match self.queue_depth {
            Some(k) => self.queued.len() <= k,
            None => true,
        }
    }

    pub open spec fn queue_full(self) -> bool {
        match self.queue_depth {
            Some(k) => self.queued.len() >= k,
            None => false,
        }
    }

    /// A submission for this key would start at once: the scheduler
    /// accepts work, a worker slot is free, and the limiter admits the
    /// key now.
    pub open spec fn can_start_now(
        self,
        target_id: Seq<char>,
        task_type: Seq<char>,
        now: u64,
    ) -> bool {
        &&& self.accepting
        &&& self.running.len() < self.max_workers
        &&& self.limiter.can_schedule(target_id, task_type, now)
    }

    /// The scheduler after `shutdown`: once draining, nothing changes;
    /// otherwise submissions stop and the queue empties.
    pub open spec fn after_shutdown(self) -> SchedulerModel {
        if !self.accepting {
            self
        } else {
            SchedulerModel { accepting: false, queued: Seq::empty(), ..self }
        }
    }

    /// The queued tasks a `shutdown` call reports as cancelled.
    pub open spec fn shutdown_cancelled(self) -> Seq<TaskModel> {
        if !self.accepting {
            Seq::empty()
        } else {
            self.queued
        }
    }

    /// The running task a completion report names, if any.
    pub open spec fn completion_found(self, task_id: u64) -> Option<TaskModel> {
        match find_task(self.running, task_id) {
            None => None,
            Some(i) => Some(self.running[i]),
        }
    }

    /// The completion found its task but the key's count held no unit.
    pub open spec fn completion_clamped(self, task_id: u64) -> bool {
        match find_task(self.running, task_id) {
            None => false,
            Some(i) => self.limiter.completion_clamped(
                self.running[i].target_id,
                self.running[i].task_type,
            ),
        }
    }

    /// The bookkeeping step of one completion: the first running task
    /// with this identifier leaves its slot and its key's count falls by
    /// one.  Identity for an unknown identifier.
    pub open spec fn after_completion_step(self, task_id: u64) -> SchedulerModel {
        match find_task(self.running, task_id) {
            None => self,
            Some(i) => SchedulerModel {
                running: self.running.remove(i),
                limiter: self.limiter.after_completion(
                    self.running[i].target_id,
                    self.running[i].task_type,
                ),
                ..self
            },
        }
    }

    /// Replay from the queue: while a worker slot is free and some queued
    /// task is admissible, the oldest admissible task is admitted and
    /// seated.  Yields the state reached and the tasks started, oldest
    /// first.
    pub open spec fn after_promotions(self, now: u64) -> (SchedulerModel, Seq<TaskModel>)
        decreases self.queued.len(),
    {
        if self.running.len() >= self.max_workers {
            (self, Seq::empty())
        } else {
            match first_ready(self.queued, self.limiter, now) {
                None => (self, Seq::empty()),
                Some(i) => if 0 <= i < self.queued.len() {
                    let d = self.queued[i];
                    let stepped = SchedulerModel {
                        queued: self.queued.remove(i),
                        running: self.running.push(d),
                        limiter: self.limiter.after_admit(d.target_id, d.task_type, now),
                        ..self
                    };
                    let rest = stepped.after_promotions(now);
                    (rest.0, seq![d] + rest.1)
                } else {
                    (self, Seq::empty())
                },
            }
        }
    }
}

/// The task identifier handed out after `id`, wrapping at the top.
pub open spec fn next_id_after(id: u64) -> u64 {
    if id == u64::MAX {
        0
    } else {
        (id + 1) as u64
    }
}

/// What a submission came to.
#[derive(Clone, Copy, Debug, PartialEq, Eq, Structural)]
pub enum SubmitOutcome {
    /// Admitted at once and seated in a worker slot; the caller runs it.
    Started(u64),
    /// Waiting in the queue for capacity or a slot.
    Queued(u64),
}

/// What one completion report set in motion.
#[derive(Debug)]
pub struct CompletionReport {
    /// The running task the identifier named, if any.
    pub completed: Option<TaskDescriptor>,
    /// The task was found but its key's count held no unit to give back
    /// (log-worthy; the count stays at zero).
    pub clamped: bool,
    /// Queued tasks admitted by the replay, oldest first; the caller
    /// runs them.
    pub started: Vec<TaskDescriptor>,
}

/// Shutting down twice is the same as once: the second call finds the
/// scheduler already draining, changes nothing, and cancels nothing, so
/// no task's cancellation is ever reported twice.
pub proof fn lemma_shutdown_idempotent(m: SchedulerModel)
    ensures
        m.after_shutdown().after_shutdown() == m.after_shutdown(),
        m.after_shutdown().shutdown_cancelled() == Seq::<TaskModel>::empty(),
{
}

/// The rate limit is respected at every observation point: no key's
/// count stands above its bucket's capacity, and a key whose effective
/// count has reached its capacity cannot start another task now.
pub proof fn lemma_capacity_respected(
    m: SchedulerModel,
    target_id: Seq<char>,
    task_type: Seq<char>,
    now: u64,
)
    requires
        m.wf(),
    ensures
        m.limiter.count_for(target_id, task_type) <= if m.limiter.has_bucket(
            target_id,
            task_type,
        ) {
            m.limiter.bucket_for(target_id, task_type).capacity as int
        } else {
            0
        },
        m.limiter.has_bucket(target_id, task_type) && m.limiter.bucket_for(
            target_id,
            task_type,
        ).effective_count(now) >= m.limiter.bucket_for(target_id, task_type).capacity
            ==> !m.can_start_now(target_id, task_type, now),
{
    lemma_rate_limit_respected(m.limiter, target_id, task_type, now);
}

/// The public-facing coordinator: rate limiter, pending queue and worker
/// slots behind one submission interface.
pub struct Scheduler {
    limiter: RateLimiter,
    queue: TaskQueue,
    pool: Executor,
    accepting: bool,
    next_task_id: u64,
}

impl View for Scheduler {
    type V = SchedulerModel;

    closed spec fn view(&self) -> SchedulerModel {
        SchedulerModel {
            limiter: self.limiter@,
            queued: self.queue@,
            running: self.pool@,
            max_workers: self.pool.worker_limit(),
            queue_depth: self.queue.depth_limit(),
            accepting: self.accepting,
            next_task_id: self.next_task_id,
        }
    }
}

impl Scheduler {
    pub open spec fn wf(self) -> bool {
        self@.wf()
    }

    /// A fresh scheduler: accepting, idle, with the given global rate
    /// defaults, worker-slot bound and optional queue depth.
    pub fn new(
        default_capacity: u32,
        default_window_seconds: u64,
        max_workers: usize,
        queue_depth: Option<usize>,
    ) -> (r: Scheduler)
        ensures
            r.wf(),
            r@.accepting,
            r@.queued.len() == 0,
            r@.running.len() == 0,
            r@.max_workers == max_workers,
            r@.queue_depth == queue_depth,
            r@.next_task_id == 0,
            r@.limiter.buckets.len() == 0,
            r@.limiter.configs.len() == 0,
            r@.limiter.default_capacity == default_capacity,
            r@.limiter.default_window_seconds == default_window_seconds,
    {
        Scheduler {
            limiter: RateLimiter::new(default_capacity, default_window_seconds),
            queue: TaskQueue::new(queue_depth),
            pool: Executor::new(max_workers),
            accepting: true,
            next_task_id: 0,
        }
    }

    /// Sets the capacity and window future buckets of `target_id`
    /// receive.
    pub fn configure_target(&mut self, target_id: &str, capacity: u32, window_seconds: u64)
        requires
            old(self).wf(),
        ensures
            final(self).wf(),
            final(self)@ == (SchedulerModel {
                limiter: old(self)@.limiter.with_config(target_id@, capacity, window_seconds),
                ..old(self)@
            }),
    {
        self.limiter.configure_target(target_id, capacity, window_seconds);
        proof {
            assert(final(self)@ =~= SchedulerModel {
                limiter: old(self)@.limiter.with_config(target_id@, capacity, window_seconds),
                ..old(self)@
            });
        }
    }

    /// Pure admission query for a key at `now`; mutates nothing.
    pub fn can_schedule(&self, target_id: &str, task_type: &str, now: u64) -> (r: bool)
        requires
            self.wf(),
        ensures
            r == self@.limiter.can_schedule(target_id@, task_type@, now),
    {
        self.limiter.can_schedule(target_id, task_type, now)
    }

    /// The stored admission count of a key, for observation.
    pub fn admitted_count(&self, target_id: &str, task_type: &str) -> (r: u32)
        requires
            self.wf(),
        ensures
            r == self@.limiter.count_for(target_id@, task_type@),
    {
        self.limiter.admitted_count(target_id, task_type)
    }

    pub fn is_accepting(&self) -> (r: bool)
        ensures
            r == self@.accepting,
    {
        self.accepting
    }

    pub fn queued_len(&self) -> (r: usize)
        ensures
            r == self@.queued.len(),
    {
        self.queue.len()
    }

    pub fn running_len(&self) -> (r: usize)
        ensures
            r == self@.running.len(),
    {
        self.pool.running_len()
    }

    /// Submits a task for the given key at `now`.
    ///
    /// While the scheduler is draining every submission is rejected with
    /// `ShutdownInProgress`.  Otherwise the task starts at once — the
    /// caller runs it — exactly when the limiter admits the key and a
    /// worker slot is free; failing that it waits in the queue, and
    /// `QueueFull` comes back, changing nothing, exactly when the queue
    /// stands at its depth bound.  An empty `target_id` is an ordinary
    /// key: it lands in the reserved unspecified-target bucket under the
    /// default configuration, and is never an error.
    pub fn submit(&mut self, target_id: &str, task_type: &str, now: u64) -> (r: Result<
        SubmitOutcome,
        SchedulerError,
    >)
        requires
            old(self).wf(),
        ensures
            final(self).wf(),
            final(self)@.max_workers == old(self)@.max_workers,
            final(self)@.queue_depth == old(self)@.queue_depth,
            final(self)@.accepting == old(self)@.accepting,
            !old(self)@.accepting ==> r == Err::<SubmitOutcome, SchedulerError>(
                SchedulerError::ShutdownInProgress,
            ) && final(self)@ == old(self)@,
            old(self)@.can_start_now(target_id@, task_type@, now) ==> {
                &&& r == Ok::<SubmitOutcome, SchedulerError>(SubmitOutcome::Started(
                    old(self)@.next_task_id,
                ))
                &&& final(self)@.running == old(self)@.running.push(
                    TaskModel {
                        task_id: old(self)@.next_task_id,
                        target_id: target_id@,
                        task_type: task_type@,
                        enqueue_time: now,
                    },
                )
                &&& final(self)@.limiter == old(self)@.limiter.after_admit(
                    target_id@,
                    task_type@,
                    now,
                )
                &&& final(self)@.queued == old(self)@.queued
                &&& final(self)@.next_task_id == next_id_after(old(self)@.next_task_id)
            },
            old(self)@.accepting && !old(self)@.can_start_now(target_id@, task_type@, now)
                && !old(self)@.queue_full() ==> {
                &&& r == Ok::<SubmitOutcome, SchedulerError>(SubmitOutcome::Queued(
                    old(self)@.next_task_id,
                ))
                &&& final(self)@.queued == old(self)@.queued.push(
                    TaskModel {
                        task_id: old(self)@.next_task_id,
                        target_id: target_id@,
                        task_type: task_type@,
                        enqueue_time: now,
                    },
                )
                &&& final(self)@.running == old(self)@.running
                &&& final(self)@.limiter == old(self)@.limiter
                &&& final(self)@.next_task_id == next_id_after(old(self)@.next_task_id)
            },
            old(self)@.accepting && !old(self)@.can_start_now(target_id@, task_type@, now)
                && old(self)@.queue_full() ==> r == Err::<SubmitOutcome, SchedulerError>(
                SchedulerError::QueueFull,
            ) && final(self)@ == old(self)@,
    {
        if !self.accepting {
            proof {
                assert(final(self)@ =~= old(self)@);
            }
            return Err(SchedulerError::ShutdownInProgress);
        }
        let id: u64 = self.next_task_id;
        if self.pool.has_free_slot() {
            let admitted: bool = self.limiter.try_admit(target_id, task_type, now);
            if admitted {
                let descriptor = TaskDescriptor {
                    task_id: id,
                    target_id: target_id.to_owned(),
                    task_type: task_type.to_owned(),
                    enqueue_time: now,
                };
                self.pool.start(descriptor);
                self.next_task_id = if id == u64::MAX {
                    0
                } else {
                    id + 1
                };
                return Ok(SubmitOutcome::Started(id));
            }
        }
        let descriptor = TaskDescriptor {
            task_id: id,
            target_id: target_id.to_owned(),
            task_type: task_type.to_owned(),
            enqueue_time: now,
        };
        match self.queue.enqueue(descriptor) {
            Ok(()) => {
                self.next_task_id = if id == u64::MAX {
                    0
                } else {
                    id + 1
                };
                Ok(SubmitOutcome::Queued(id))
            },
            Err(e) => {
                proof {
                    assert(final(self)@ =~= old(self)@);
                }
                Err(e)
            },
        }
    }

    /// Replays the queue: admits and seats the oldest admissible waiters
    /// while worker slots and rate budget allow, and hands them back for
    /// the caller to run, oldest first.
    pub fn promote_ready(&mut self, now: u64) -> (started: Vec<TaskDescriptor>)
        requires
            old(self).wf(),
        ensures
            final(self).wf(),
            final(self)@ == old(self)@.after_promotions(now).0,
            models_of(started@) == old(self)@.after_promotions(now).1,
    {
        let mut started: Vec<TaskDescriptor> = Vec::new();
        let ghost m0 = self@;
        proof {
            assert(models_of(started@) =~= Seq::<TaskModel>::empty());
        }
        loop
            invariant
                self.wf(),
                m0.after_promotions(now).0 == self@.after_promotions(now).0,
                m0.after_promotions(now).1 == models_of(started@) + self@.after_promotions(
                    now,
                ).1,
            ensures
                self.wf(),
                m0.after_promotions(now).0 == self@,
                m0.after_promotions(now).1 == models_of(started@),
            decreases self@.queued.len(),
        {
            if !self.pool.has_free_slot() {
                proof {
                    assert(self@.after_promotions(now).0 == self@);
                    assert(m0.after_promotions(now).1 =~= models_of(started@));
                }
                break ;
            }
            let ghost s1 = self@;
            let dequeued: Option<TaskDescriptor> = self.queue.dequeue_ready(&self.limiter, now);
            match dequeued {
                None => {
                    proof {
                        assert(self@ =~= s1);
                        assert(self@.after_promotions(now).0 == self@);
                        assert(m0.after_promotions(now).1 =~= models_of(started@));
                    }
                    break ;
                },
                Some(d) => {
                    let ghost i = first_ready(s1.queued, s1.limiter, now)->Some_0;
                    proof {
                        lemma_first_ready_correct(s1.queued, s1.limiter, now);
                    }
                    let admitted: bool = self.limiter.try_admit(
                        d.target_id.as_str(),
                        d.task_type.as_str(),
                        now,
                    );
                    proof {
                        assert(admitted);
                    }
                    self.pool.start(d.clone());
                    let ghost st0 = started@;
                    started.push(d);
                    proof {
                        let stepped = SchedulerModel {
                            queued: s1.queued.remove(i),
                            running: s1.running.push(s1.queued[i]),
                            limiter: s1.limiter.after_admit(
                                s1.queued[i].target_id,
                                s1.queued[i].task_type,
                                now,
                            ),
                            ..s1
                        };
                        assert(self@ =~= stepped);
                        assert(s1.after_promotions(now).0 == stepped.after_promotions(now).0);
                        assert(s1.after_promotions(now).1 =~= seq![s1.queued[i]]
                            + stepped.after_promotions(now).1);
                        assert(models_of(st0.push(d)) =~= models_of(st0).push(d@));
                        assert(models_of(st0) + (seq![s1.queued[i]] + stepped.after_promotions(
                            now,
                        ).1) =~= models_of(st0).push(d@) + stepped.after_promotions(now).1);
                    }
                },
            }
        }
        started
    }

    /// Reports that a dispatched task finished (well or badly): its
    /// worker slot frees, its key gives one unit back, and the queue is
    /// replayed.  An unknown identifier frees nothing, but the replay
    /// still runs.
    pub fn record_completion(&mut self, task_id: u64, now: u64) -> (r: CompletionReport)
        requires
            old(self).wf(),
        ensures
            final(self).wf(),
            match old(self)@.completion_found(task_id) {
                None => r.completed is None,
                Some(t) => r.completed matches Some(d) && d@ == t,
            },
            r.clamped == old(self)@.completion_clamped(task_id),
            final(self)@ == old(self)@.after_completion_step(task_id).after_promotions(now).0,
            models_of(r.started@) == old(self)@.after_completion_step(task_id).after_promotions(
                now,
            ).1,
    {
        let completed: Option<TaskDescriptor> = self.pool.finish(task_id);
        let mut clamped: bool = false;
        match &completed {
            Some(d) => {
                clamped = self.limiter.record_completion(
                    d.target_id.as_str(),
                    d.task_type.as_str(),
                );
            },
            None => {},
        }
        proof {
            assert(self@ =~= old(self)@.after_completion_step(task_id));
        }
        let started = self.promote_ready(now);
        CompletionReport { completed, clamped, started }
    }

    /// Stops accepting submissions and discards the queue, handing every
    /// cancelled descriptor back so the cancellations can be reported.
    /// Running tasks keep their slots and finish normally.  Once
    /// draining, further calls change nothing and cancel nothing.
    pub fn shutdown(&mut self) -> (cancelled: Vec<TaskDescriptor>)
        requires
            old(self).wf(),
        ensures
            final(self).wf(),
            final(self)@ == old(self)@.after_shutdown(),
            models_of(cancelled@) == old(self)@.shutdown_cancelled(),
    {
        if !self.accepting {
            let out: Vec<TaskDescriptor> = Vec::new();
            proof {
                assert(models_of(out@) =~= Seq::<TaskModel>::empty());
                assert(final(self)@ =~= old(self)@);
            }
            return out;
        }
        self.accepting = false;
        let out = self.queue.drain_all();
        proof {
            assert(final(self)@ =~= old(self)@.after_shutdown());
        }
        out
    }

    /// Cancels a task still waiting in the queue; a task already running
    /// is past cancelling here.  Hands the removed descriptor back, or
    /// `None`, changing nothing, when no queued task bears the
    /// identifier.
    pub fn cancel(&mut self, task_id: u64) -> (r: Option<TaskDescriptor>)
        requires
            old(self).wf(),
        ensures
            final(self).wf(),
            final(self)@.limiter == old(self)@.limiter,
            final(self)@.running == old(self)@.running,
            final(self)@.accepting == old(self)@.accepting,
            match find_task(old(self)@.queued, task_id) {
                None => r is None && final(self)@ == old(self)@,
                Some(i) => r matches Some(d) && d@ == old(self)@.queued[i]
                    && final(self)@.queued == old(self)@.queued.remove(i),
            },
    {
        let r = self.queue.remove_by_id(task_id);
        proof {
            if find_task(old(self)@.queued, task_id) is None {
                assert(final(self)@ =~= old(self)@);
            }
        }
        r
    }
}

} // verus!
