//! Several delivery workers around one store. Each worker claims a task
//! and retires it in steps of its own, so that the steps of different
//! workers can fall in any order.

use crate::guarantees::delivery::{claims, lemma_no_double_send, was_claimed, Pool, WorkerStep};
use crate::store::{DeliveryTask, DeliveryTaskView, DeliveryTransaction, Store};
use vstd::prelude::*;

verus! {

/// The workers and the store that they share. A worker is known by its
/// number; it holds at most one claimed task.
pub struct WorkerPool {
    store: Store,
    holding: Vec<Option<DeliveryTransaction>>,
}

/// The task that each busy worker holds.
spec fn held_tasks(holding: Seq<Option<DeliveryTransaction>>) -> Map<nat, DeliveryTaskView> {
    Map::new(
        |worker: nat| worker < holding.len() && holding[worker as int] is Some,
        |worker: nat| holding[worker as int]->0@,
    )
}

impl View for WorkerPool {
    type V = Pool;

    closed spec fn view(&self) -> Pool {
        Pool { store: self.store@, holding: held_tasks(self.holding@) }
    }
}

impl WorkerPool {
    /// The number of workers.
    pub closed spec fn workers(&self) -> nat {
        self.holding.len() as nat
    }

    /// The store is well formed.
    pub closed spec fn wf(&self) -> bool {
        self.store.wf()
    }

    /// Puts idle workers around a store.
    pub fn new(store: Store, workers: usize) -> (pool: WorkerPool)
        requires
            store.wf(),
        ensures
            pool.wf(),
            pool.workers() == workers,
            pool@ == Pool::idle(store@),
    {
        let mut holding: Vec<Option<DeliveryTransaction>> = Vec::new();
        let mut i: usize = 0;
        while i < workers
            invariant
                i <= workers,
                holding.len() == i,
                forall|j: int| 0 <= j < i ==> holding[j] is None,
            decreases workers - i,
        {
            holding.push(None);
            i += 1;
        }
        let pool = WorkerPool { store, holding };
        assert(pool@.holding =~= Map::empty());
        pool
    }

    /// The store that the workers share.
    pub fn store(&self) -> (store: &Store)
        ensures
            store@ == self@.store,
            self.wf() ==> store.wf(),
    {
        &self.store
    }

    /// Has one worker claim a waiting task. Nothing is claimed where the
    /// worker is unknown, holds a task already, or no task is waiting.
    pub fn claim(&mut self, worker: usize) -> (claimed: Option<DeliveryTask>)
        requires
            old(self).wf(),
        ensures
            final(self).wf(),
            final(self).workers() == old(self).workers(),
            match claimed {
                Some(task) => {
                    let step = WorkerStep::Claim { worker: worker as nat, task: task@ };
                    &&& worker < old(self).workers()
                    &&& old(self)@.admits(step)
                    &&& final(self)@ == old(self)@.after(step)
                },
                None => {
                    &&& final(self)@ == old(self)@
                    &&& worker >= old(self).workers() || old(self)@.holding.dom().contains(
                        worker as nat,
                    ) || !old(self)@.store.has_pending_task()
                },
            },
    {
        if worker >= self.holding.len() {
            return None;
        }
        if self.holding[worker].is_some() {
            return None;
        }
        match self.store.claim_task() {
            Some(transaction) => {
                let task = DeliveryTask {
                    newsletter_issue_id: transaction.newsletter_issue_id(),
                    subscriber_email: transaction.subscriber_email().clone(),
                };
                let ghost before = self.holding@;
                self.holding.set(worker, Some(transaction));
                assert(held_tasks(self.holding@) =~= held_tasks(before).insert(
                    worker as nat,
                    task@,
                ));
                Some(task)
            },
            None => None,
        }
    }

    /// Has one worker retire the task that it holds. Nothing is retired
    /// where the worker is unknown or holds no task.
    pub fn retire(&mut self, worker: usize) -> (retired: Option<DeliveryTask>)
        requires
            old(self).wf(),
        ensures
            final(self).wf(),
            final(self).workers() == old(self).workers(),
            match retired {
                Some(task) => {
                    let step = WorkerStep::Retire { worker: worker as nat };
                    &&& worker < old(self).workers()
                    &&& old(self)@.admits(step)
                    &&& old(self)@.holding[worker as nat] == task@
                    &&& final(self)@ == old(self)@.after(step)
                },
                None => {
                    &&& final(self)@ == old(self)@
                    &&& worker >= old(self).workers() || !old(self)@.holding.dom().contains(
                        worker as nat,
                    )
                },
            },
    {
        if worker >= self.holding.len() {
            return None;
        }
        let ghost before = self.holding@;
        let held = self.holding.remove(worker);
        self.holding.insert(worker, None);
        match held {
            Some(transaction) => {
                let task = DeliveryTask {
                    newsletter_issue_id: transaction.newsletter_issue_id(),
                    subscriber_email: transaction.subscriber_email().clone(),
                };
                self.store.delete_task(transaction);
                assert(self.holding@ =~= before.update(worker as int, None));
                assert(held_tasks(self.holding@) =~= held_tasks(before).remove(worker as nat));
                Some(task)
            },
            None => {
                assert(self.holding@ =~= before);
                None
            },
        }
    }
}

/// Whether a worker can take a step: it is one of the workers, and it holds
/// a task to retire or finds a task waiting to claim.
pub open spec fn can_step(pool: Pool, workers: nat, worker: nat) -> bool {
    worker < workers && (pool.holding.dom().contains(worker) || pool.store.has_pending_task())
}

/// Whether `step` is the step that a worker takes when its turn comes: a
/// worker that holds a task retires it; one that holds none claims a task
/// that waits.
pub open spec fn is_turn_of(pool: Pool, workers: nat, worker: nat, step: WorkerStep) -> bool {
    &&& worker < workers
    &&& match step {
        WorkerStep::Retire { worker: retiring } => retiring == worker
            && pool.holding.dom().contains(worker),
        WorkerStep::Claim { worker: claiming, task } => claiming == worker
            && !pool.holding.dom().contains(worker) && pool.store.is_pending(task),
    }
}

/// Whether `steps` are the steps that the workers take under a schedule:
/// turn by turn, the worker whose turn it is takes its step if it can take
/// one, and no step is taken otherwise.
pub open spec fn follows_schedule(
    start: Pool,
    workers: nat,
    schedule: Seq<usize>,
    steps: Seq<WorkerStep>,
) -> bool
    decreases schedule.len(),
{
    if schedule.len() == 0 {
        steps.len() == 0
    } else {
        let worker = schedule.last() as nat;
        ||| {
            &&& follows_schedule(start, workers, schedule.drop_last(), steps)
            &&& !can_step(start.after_all(steps), workers, worker)
        }
        ||| {
            &&& steps.len() > 0
            &&& follows_schedule(start, workers, schedule.drop_last(), steps.drop_last())
            &&& is_turn_of(start.after_all(steps.drop_last()), workers, worker, steps.last())
        }
    }
}

/// The claims of a log as mathematical values: who claimed, and which task.
pub open spec fn claims_of(log: Seq<(usize, DeliveryTask)>) -> Seq<(nat, DeliveryTaskView)> {
    Seq::new(log.len(), |i: int| (log[i].0 as nat, log[i].1@))
}

impl WorkerPool {
    /// Lets the workers take their steps in the order of a schedule: each
    /// entry names the worker whose turn it is. A worker that holds a task
    /// retires it; one that holds none claims a waiting task, if there is
    /// one. The claims are handed back in the order in which they were
    /// made. Whatever the schedule, the steps taken are steps that the
    /// pool admits; and where idle workers have emptied a queue of waiting
    /// tasks, every task of the queue was claimed exactly once.
    pub fn take_steps(&mut self, schedule: &Vec<usize>) -> (log: Vec<(usize, DeliveryTask)>)
        requires
            old(self).wf(),
        ensures
            final(self).wf(),
            final(self).workers() == old(self).workers(),
            exists|steps: Seq<WorkerStep>|
                {
                    &&& follows_schedule(old(self)@, old(self).workers(), schedule@, steps)
                    &&& old(self)@.admits_all(steps)
                    &&& final(self)@ == #[trigger] old(self)@.after_all(steps)
                    &&& claims_of(log@) == claims(steps)
                },
            ({
                let queue = old(self)@.store.issue_delivery_queue;
                old(self)@ == Pool::idle(old(self)@.store) && (forall|i: int|
                    0 <= i < queue.len() ==> !(#[trigger] queue[i]).locked)
                    && final(self)@.store.issue_delivery_queue.len() == 0 ==> {
                    &&& log.len() == queue.len()
                    &&& forall|i: int, j: int|
                        0 <= i < j < log.len() ==> (#[trigger] log[i]).1@ != (#[trigger] log[j]).1@
                    &&& forall|i: int|
                        0 <= i < log.len() ==> old(self)@.store.has_task((#[trigger] log[i]).1@)
                }
            }),
    {
        let ghost start = self@;
        let ghost mut steps: Seq<WorkerStep> = Seq::empty();
        let mut log: Vec<(usize, DeliveryTask)> = Vec::new();
        let mut turn: usize = 0;
        proof {
            assert(claims_of(log@) =~= claims(steps));
            assert(schedule@.subrange(0, 0) =~= Seq::empty());
        }
        while turn < schedule.len()
            invariant
                self.wf(),
                self.workers() == old(self).workers(),
                start == old(self)@,
                turn <= schedule.len(),
                follows_schedule(
                    start,
                    old(self).workers(),
                    schedule@.subrange(0, turn as int),
                    steps,
                ),
                start.admits_all(steps),
                self@ == start.after_all(steps),
                claims_of(log@) == claims(steps),
            decreases schedule.len() - turn,
        {
            let worker = schedule[turn];
            let ghost taken = steps;
            let ghost logged = log@;
            let ghost turns = schedule@.subrange(0, turn + 1);
            let ghost pool_before = self@;
            let ghost workers = self.workers();
            proof {
                assert(turns.drop_last() =~= schedule@.subrange(0, turn as int));
                assert(turns.last() == worker);
                assert(pool_before.holding.dom().contains(worker as nat) ==> (worker as nat)
                    < workers);
            }
            match self.retire(worker) {
                Some(_) => {
                    proof {
                        let step = WorkerStep::Retire { worker: worker as nat };
                        steps = taken.push(step);
                        assert(steps.drop_last() =~= taken);
                        assert(steps.last() == step);
                        assert(is_turn_of(pool_before, workers, worker as nat, step));
                        assert(follows_schedule(start, workers, turns, steps));
                    }
                },
                None => {
                    match self.claim(worker) {
                        Some(task) => {
                            proof {
                                let step = WorkerStep::Claim { worker: worker as nat, task: task@ };
                                steps = taken.push(step);
                                assert(steps.drop_last() =~= taken);
                                assert(steps.last() == step);
                                assert(is_turn_of(pool_before, workers, worker as nat, step));
                                assert(follows_schedule(start, workers, turns, steps));
                            }
                            log.push((worker, task));
                            proof {
                                assert(claims_of(log@) =~= claims_of(logged).push(
                                    (worker as nat, task@),
                                ));
                            }
                        },
                        None => {
                            proof {
                                assert(!can_step(pool_before, workers, worker as nat));
                                assert(follows_schedule(start, workers, turns, steps));
                            }
                        },
                    }
                },
            }
            turn += 1;
        }
        proof {
            assert(schedule@.subrange(0, schedule.len() as int) =~= schedule@);
            let queue = start.store.issue_delivery_queue;
            if start == Pool::idle(start.store) && (forall|i: int|
                0 <= i < queue.len() ==> !(#[trigger] queue[i]).locked)
                && self@.store.issue_delivery_queue.len() == 0 {
                lemma_no_double_send(start.store, steps);
                assert forall|i: int, j: int| 0 <= i < j < log.len() implies (
                #[trigger] log[i]).1@ != (#[trigger] log[j]).1@ by {
                    assert(claims_of(log@)[i].1 == log[i].1@);
                    assert(claims_of(log@)[j].1 == log[j].1@);
                    assert(claims(steps)[i].1 != claims(steps)[j].1);
                }
                assert forall|i: int| 0 <= i < log.len() implies start.store.has_task(
                    (#[trigger] log[i]).1@,
                ) by {
                    assert(claims_of(log@)[i].1 == log[i].1@);
                    assert(claims(steps)[i].1 == log[i].1@);
                    assert(was_claimed(steps, log[i].1@));
                }
            }
        }
        log
    }
}

} // verus!
