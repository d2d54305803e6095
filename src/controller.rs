use vstd::prelude::*;
use crate::object_ref::{ObjectKey, ObjectRef};
use crate::reconciler::{
    error_action_spec, on_error, reconcile, reconcile_spec, Action, ExampleError, ObservedPod,
    ERROR_BACKOFF_SECS, RECONCILE_INTERVAL_SECS,
};
use crate::work_queue::{
    add_spec, done_spec, is_pending, keys_distinct, QueueModel, WorkQueue,
};

verus! {

/// `secs` seconds after `now`, held at the largest time where that overflows.
pub open spec fn later(now: u64, secs: u64) -> u64 {
    if now + secs > u64::MAX {
        u64::MAX
    } else {
        (now + secs) as u64
    }
}

/// The queue after the loop is finished with `k` and has acted on `action`:
/// `k` is no longer processed, and is requeued where the action asks for it.
pub open spec fn schedule_spec(m: QueueModel, k: ObjectKey, action: Action, now: u64) -> QueueModel {
    match action {
        Action::RequeueAfter { secs } => add_spec(done_spec(m, k), k, later(now, secs)),
        Action::NoRequeue => done_spec(m, k),
    }
}

/// What the loop did with one dequeued object.
#[derive(Debug, Clone, Copy, PartialEq, Eq, Structural)]
pub enum StepReport {
    /// The object was gone when fetched; nothing was reconciled or requeued.
    Deleted,
    /// The reconciler succeeded with this directive.
    Reconciled(Action),
    /// The reconciler failed; the loop applied this backoff directive.
    Failed(Action),
}

/// The time `secs` seconds after `now`, saturating.
pub fn deadline(now: u64, secs: u64) -> (r: u64)
    ensures
        r == later(now, secs),
{
    if now > u64::MAX - secs {
        u64::MAX
    } else {
        now + secs
    }
}

/// Acts on the outcome of reconciling `obj`, dequeued at time `now`: marks
/// it done and requeues it as the directive says; a failure, whatever its
/// cause, becomes the fixed backoff. Returns the directive applied.
pub fn finish(
    queue: &mut WorkQueue,
    obj: &ObjectRef,
    outcome: &Result<Action, ExampleError>,
    now: u64,
) -> (r: Action)
    requires
        old(queue).wf(),
    ensures
        final(queue).wf(),
        r == match outcome {
            Ok(a) => *a,
            Err(_) => error_action_spec(),
        },
        final(queue)@ == schedule_spec(old(queue)@, obj@, r, now),
{
    let action = match outcome {
        Ok(a) => *a,
        Err(e) => on_error(obj, e),
    };
    queue.done(obj);
    match action {
        Action::RequeueAfter { secs } => {
            queue.add_after(obj.duplicate(), deadline(now, secs));
        },
        Action::NoRequeue => {},
    }
    action
}

/// One pass of the loop for `obj`, dequeued at time `now`, given what the
/// fetch at dequeue time found. An absent object is treated as deleted: it is
/// marked done and not requeued. A present one is reconciled and the outcome
/// acted upon.
pub fn process(queue: &mut WorkQueue, obj: &ObjectRef, fetched: &Option<ObservedPod>, now: u64) -> (r:
    StepReport)
    requires
        old(queue).wf(),
    ensures
        final(queue).wf(),
        match fetched {
            None => r == StepReport::Deleted && final(queue)@ == done_spec(old(queue)@, obj@),
            Some(pod) => {
                let a = reconcile_spec(obj@, pod@);
                &&& r == StepReport::Reconciled(a)
                &&& final(queue)@ == schedule_spec(old(queue)@, obj@, a, now)
            },
        },
{
    match fetched {
        None => {
            queue.done(obj);
            StepReport::Deleted
        },
        Some(pod) => {
            let outcome = reconcile(obj, pod);
            let applied = finish(queue, obj, &outcome, now);
            match outcome {
                Ok(_) => StepReport::Reconciled(applied),
                Err(_) => StepReport::Failed(applied),
            }
        },
    }
}

/// After a requeue of `k` by `secs` seconds, with no other request for `k`
/// waiting, exactly one request for `k` waits, it is due no earlier than
/// `secs` seconds after `now`, and `k` is no longer being processed.
pub proof fn lemma_requeue_once(m: QueueModel, k: ObjectKey, secs: u64, now: u64)
    requires
        keys_distinct(m.pending),
        !is_pending(m.pending, k),
        now + secs <= u64::MAX,
    ensures
        ({
            let m2 = schedule_spec(m, k, Action::RequeueAfter { secs }, now);
            &&& keys_distinct(m2.pending)
            &&& !m2.processing.contains(k)
            &&& exists|i: int|
                0 <= i < m2.pending.len() && m2.pending[i] == (k, (now + secs) as u64)
            &&& forall|i: int, j: int|
                0 <= i < m2.pending.len() && 0 <= j < m2.pending.len() && m2.pending[i].0 == k
                    && m2.pending[j].0 == k ==> i == j
            &&& forall|i: int|
                0 <= i < m2.pending.len() && #[trigger] m2.pending[i].0 == k ==> m2.pending[i].1
                    >= now + secs
        }),
{
    let m1 = done_spec(m, k);
    let m2 = schedule_spec(m, k, Action::RequeueAfter { secs }, now);
    assert(m2.pending == m.pending.push((k, (now + secs) as u64)));
    let n = m.pending.len();
    assert(m2.pending[n as int] == (k, (now + secs) as u64));
    assert forall|i: int| 0 <= i < m2.pending.len() && #[trigger] m2.pending[i].0 == k implies i
        == n by {
        if i < n {
            assert(m.pending[i].0 == k);
        }
    }
    assert forall|i: int, j: int|
        0 <= i < m2.pending.len() && 0 <= j < m2.pending.len() && #[trigger] m2.pending[i].0
            == #[trigger] m2.pending[j].0 implies i == j by {
        if i < n && j == n {
            assert(m.pending[i].0 == k);
        }
        if j < n && i == n {
            assert(m.pending[j].0 == k);
        }
    }
}

/// A successful reconciliation of an object with no other request waiting
/// schedules exactly one follow-up for it, due no earlier than the
/// reconcile interval after `now`.
pub proof fn lemma_success_requeues_once(
    m: QueueModel,
    k: ObjectKey,
    observed: (Seq<char>, Option<Seq<char>>),
    now: u64,
)
    requires
        keys_distinct(m.pending),
        !is_pending(m.pending, k),
        now + RECONCILE_INTERVAL_SECS <= u64::MAX,
    ensures
        reconcile_spec(k, observed) == (Action::RequeueAfter { secs: RECONCILE_INTERVAL_SECS }),
        ({
            let m2 = schedule_spec(m, k, reconcile_spec(k, observed), now);
            &&& !m2.processing.contains(k)
            &&& exists|i: int|
                0 <= i < m2.pending.len() && m2.pending[i] == (
                    k,
                    (now + RECONCILE_INTERVAL_SECS) as u64,
                )
            &&& forall|i: int, j: int|
                0 <= i < m2.pending.len() && 0 <= j < m2.pending.len() && m2.pending[i].0 == k
                    && m2.pending[j].0 == k ==> i == j
        }),
{
    lemma_requeue_once(m, k, RECONCILE_INTERVAL_SECS, now);
}

/// A failed reconciliation of an object with no other request waiting
/// schedules a follow-up for it no earlier than the backoff after `now`,
/// whatever the error.
pub proof fn lemma_failure_backs_off(m: QueueModel, k: ObjectKey, now: u64)
    requires
        keys_distinct(m.pending),
        !is_pending(m.pending, k),
        now + ERROR_BACKOFF_SECS <= u64::MAX,
    ensures
        ({
            let m2 = schedule_spec(m, k, error_action_spec(), now);
            &&& !m2.processing.contains(k)
            &&& exists|i: int| 0 <= i < m2.pending.len() && m2.pending[i].0 == k
            &&& forall|i: int|
                0 <= i < m2.pending.len() && #[trigger] m2.pending[i].0 == k ==> m2.pending[i].1
                    >= now + ERROR_BACKOFF_SECS
        }),
{
    lemma_requeue_once(m, k, ERROR_BACKOFF_SECS, now);
}

/// An object found deleted, with no other request waiting, leaves the loop
/// entirely: it is neither processed nor waiting afterwards.
pub proof fn lemma_deleted_not_requeued(m: QueueModel, k: ObjectKey)
    requires
        !is_pending(m.pending, k),
    ensures
        !is_pending(done_spec(m, k).pending, k),
        !done_spec(m, k).processing.contains(k),
{
}

} // verus!
