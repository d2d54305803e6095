use vstd::prelude::*;
use crate::object_ref::{ObjectKey, ObjectRef};

verus! {

/// A request waiting in the queue, and the earliest time it may be handed out.
#[derive(Debug)]
pub struct Pending {
    pub obj: ObjectRef,
    pub ready_at: u64,
}

/// The queue as mathematical values: the waiting requests in arrival order,
/// each with the time it becomes eligible, and the objects being processed.
pub struct QueueModel {
    pub pending: Seq<(ObjectKey, u64)>,
    pub processing: Set<ObjectKey>,
}

/// No object waits twice.
pub open spec fn keys_distinct(pending: Seq<(ObjectKey, u64)>) -> bool {
    forall|i: int, j: int|
        0 <= i < pending.len() && 0 <= j < pending.len() && #[trigger] pending[i].0
            == #[trigger] pending[j].0 ==> i == j
}

/// Whether `k` has a waiting request.
pub open spec fn is_pending(pending: Seq<(ObjectKey, u64)>, k: ObjectKey) -> bool {
    exists|i: int| 0 <= i < pending.len() && #[trigger] pending[i].0 == k
}

/// The position of the waiting request for `k`, where there is one.
pub open spec fn pending_index(pending: Seq<(ObjectKey, u64)>, k: ObjectKey) -> int {
    choose|i: int| 0 <= i < pending.len() && #[trigger] pending[i].0 == k
}

pub open spec fn min_u64(a: u64, b: u64) -> u64 {
    if a <= b {
        a
    } else {
        b
    }
}

/// Adding a request: a duplicate of a waiting one collapses into it and keeps
/// the earlier time; a new one goes to the back.
pub open spec fn add_spec(m: QueueModel, k: ObjectKey, ready_at: u64) -> QueueModel {
    if is_pending(m.pending, k) {
        let i = pending_index(m.pending, k);
        QueueModel {
            pending: m.pending.update(i, (k, min_u64(m.pending[i].1, ready_at))),
            processing: m.processing,
        }
    } else {
        QueueModel { pending: m.pending.push((k, ready_at)), processing: m.processing }
    }
}

/// The request at `i` may be handed out at time `now`: it is due, and its
/// object is not being processed.
pub open spec fn eligible(m: QueueModel, i: int, now: u64) -> bool {
    0 <= i < m.pending.len() && m.pending[i].1 <= now && !m.processing.contains(m.pending[i].0)
}

/// The request at `i` is the first one that may be handed out at `now`.
pub open spec fn first_eligible(m: QueueModel, i: int, now: u64) -> bool {
    eligible(m, i, now) && forall|j: int| 0 <= j < i ==> !#[trigger] eligible(m, j, now)
}

/// Handing out the request at `i`: it leaves the queue and its object is
/// marked as being processed.
pub open spec fn take_spec(m: QueueModel, i: int) -> QueueModel {
    QueueModel { pending: m.pending.remove(i), processing: m.processing.insert(m.pending[i].0) }
}

/// Finishing with `k`: it is no longer being processed. A request that
/// arrived meanwhile stays waiting.
pub open spec fn done_spec(m: QueueModel, k: ObjectKey) -> QueueModel {
    QueueModel { pending: m.pending, processing: m.processing.remove(k) }
}

/// Once the request at `i` is handed out, its object cannot be handed out
/// again, at any time, until it is marked done: no two reconciliations of
/// one object are in flight together.
pub proof fn lemma_exclusive(m: QueueModel, i: int, now: u64)
    requires
        eligible(m, i, now),
    ensures
        !m.processing.contains(m.pending[i].0),
        forall|j: int, t: u64|
            #[trigger] eligible(take_spec(m, i), j, t) ==> take_spec(m, i).pending[j].0
                != m.pending[i].0,
{
}

/// A deduplicating queue of reconciliation requests that never hands out an
/// object while it is being processed.
pub struct WorkQueue {
    pending: Vec<Pending>,
    processing: Vec<ObjectRef>,
}

impl View for WorkQueue {
    type V = QueueModel;

    closed spec fn view(&self) -> QueueModel {
        QueueModel {
            pending: self.pending@.map_values(|p: Pending| (p.obj@, p.ready_at)),
            processing: Set::new(
                |k: ObjectKey|
                    exists|i: int| 0 <= i < self.processing@.len() && #[trigger] self.processing@[i]@ == k,
            ),
        }
    }
}

impl WorkQueue {
    /// No object waits twice, and none is processed twice at once.
    pub closed spec fn wf(&self) -> bool {
        &&& keys_distinct(self@.pending)
        &&& forall|i: int, j: int|
            0 <= i < self.processing@.len() && 0 <= j < self.processing@.len()
                && #[trigger] self.processing@[i]@ == #[trigger] self.processing@[j]@ ==> i == j
    }

    pub fn new() -> (r: WorkQueue)
        ensures
            r.wf(),
            r@.pending == Seq::<(ObjectKey, u64)>::empty(),
            r@.processing == Set::<ObjectKey>::empty(),
    {
        let r = WorkQueue { pending: Vec::new(), processing: Vec::new() };
        assert(r@.processing =~= Set::<ObjectKey>::empty());
        assert(r@.pending =~= Seq::<(ObjectKey, u64)>::empty());
        r
    }

    /// The number of waiting requests.
    pub fn pending_len(&self) -> (r: usize)
        ensures
            r == self@.pending.len(),
    {
        self.pending.len()
    }

    /// When the waiting request for `obj` becomes eligible; `None` when no
    /// request for it waits.
    pub fn ready_time(&self, obj: &ObjectRef) -> (r: Option<u64>)
        ensures
            match r {
                Some(t) => exists|i: int|
                    0 <= i < self@.pending.len() && self@.pending[i] == (obj@, t),
                None => !is_pending(self@.pending, obj@),
            },
    {
        let n = self.pending.len();
        let mut i: usize = 0;
        while i < n
            invariant
                n == self.pending@.len(),
                0 <= i <= n,
                forall|j: int| 0 <= j < i ==> #[trigger] self@.pending[j].0 != obj@,
            decreases n - i,
        {
            if self.pending[i].obj.same_object(obj) {
                assert(self@.pending[i as int] == (obj@, self.pending@[i as int].ready_at));
                return Some(self.pending[i].ready_at);
            }
            i = i + 1;
        }
        None
    }

    /// Whether `obj` is being processed.
    pub fn is_processing(&self, obj: &ObjectRef) -> (r: bool)
        ensures
            r == self@.processing.contains(obj@),
    {
        let n = self.processing.len();
        let mut i: usize = 0;
        while i < n
            invariant
                n == self.processing@.len(),
                0 <= i <= n,
                forall|j: int| 0 <= j < i ==> #[trigger] self.processing@[j]@ != obj@,
            decreases n - i,
        {
            if self.processing[i].same_object(obj) {
                assert(self.processing@[i as int]@ == obj@);
                return true;
            }
            i = i + 1;
        }
        false
    }

    /// Enqueues `obj`, to become eligible at time `ready_at`. A request for
    /// an object that already waits collapses into it, keeping the earlier
    /// time.
    pub fn add_after(&mut self, obj: ObjectRef, ready_at: u64)
        requires
            old(self).wf(),
        ensures
            final(self).wf(),
            final(self)@ == add_spec(old(self)@, obj@, ready_at),
    {
        let ghost m0 = self@;
        let n = self.pending.len();
        let mut i: usize = 0;
        while i < n
            invariant
                n == self.pending@.len(),
                0 <= i <= n,
                self.wf(),
                self@ == m0,
                m0 == old(self)@,
                forall|j: int| 0 <= j < i ==> #[trigger] m0.pending[j].0 != obj@,
            decreases n - i,
        {
            if self.pending[i].obj.same_object(&obj) {
                let old_p = self.pending.remove(i);
                let t: u64 = if old_p.ready_at <= ready_at {
                    old_p.ready_at
                } else {
                    ready_at
                };
                self.pending.insert(i, Pending { obj: old_p.obj, ready_at: t });
                proof {
                    assert(m0.pending[i as int].0 == obj@);
                    assert(is_pending(m0.pending, obj@));
                    let k = pending_index(m0.pending, obj@);
                    assert(k == i);
                    assert(self@.pending =~= m0.pending.update(i as int, (obj@, t)));
                    assert(self@.processing =~= m0.processing);
                    assert(t == min_u64(m0.pending[k].1, ready_at));
                    assert(self@ == add_spec(m0, obj@, ready_at));
                }
                return ;
            }
            i = i + 1;
        }
        self.pending.push(Pending { obj, ready_at });
        proof {
            assert(self@.pending =~= m0.pending.push((obj@, ready_at)));
            assert(self@.processing =~= m0.processing);
        }
    }

    /// Enqueues `obj` as eligible at once (time `now`).
    pub fn add(&mut self, obj: ObjectRef, now: u64)
        requires
            old(self).wf(),
        ensures
            final(self).wf(),
            final(self)@ == add_spec(old(self)@, obj@, now),
    {
        self.add_after(obj, now)
    }

    /// Hands out the first request that is due at `now` and whose object is
    /// not being processed, and marks that object as being processed; `None`
    /// when no request qualifies.
    pub fn get(&mut self, now: u64) -> (r: Option<ObjectRef>)
        requires
            old(self).wf(),
        ensures
            final(self).wf(),
            match r {
                Some(o) => {
                    &&& !old(self)@.processing.contains(o@)
                    &&& exists|i: int|
                        first_eligible(old(self)@, i, now) && o@ == old(self)@.pending[i].0
                            && final(self)@ == take_spec(old(self)@, i)
                },
                None => {
                    &&& forall|i: int| !#[trigger] eligible(old(self)@, i, now)
                    &&& final(self)@ == old(self)@
                },
            },
    {
        let ghost m0 = self@;
        let n = self.pending.len();
        let mut i: usize = 0;
        while i < n
            invariant
                n == self.pending@.len(),
                0 <= i <= n,
                self.wf(),
                self@ == m0,
                m0 == old(self)@,
                forall|j: int| 0 <= j < i ==> !#[trigger] eligible(m0, j, now),
            decreases n - i,
        {
            if self.pending[i].ready_at <= now && !self.is_processing(&self.pending[i].obj) {
                let ghost old_proc = self.processing@;
                let p = self.pending.remove(i);
                let out = p.obj.duplicate();
                let ghost key = p.obj@;
                self.processing.push(p.obj);
                proof {
                    assert(eligible(m0, i as int, now));
                    assert(first_eligible(m0, i as int, now));
                    assert(self@.pending =~= m0.pending.remove(i as int));
                    assert forall|k: ObjectKey|
                        self@.processing.contains(k) == m0.processing.insert(key).contains(
                            k,
                        ) by {
                        if m0.processing.contains(k) {
                            let j = choose|j: int|
                                0 <= j < old_proc.len() && #[trigger] old_proc[j]@ == k;
                            assert(self.processing@[j]@ == k);
                        }
                        if k == key {
                            assert(self.processing@[old_proc.len() as int]@ == k);
                        }
                        if self@.processing.contains(k) {
                            let j = choose|j: int|
                                0 <= j < self.processing@.len() && #[trigger] self.processing@[j]@
                                    == k;
                            if j < old_proc.len() {
                                assert(old_proc[j]@ == k);
                            }
                        }
                    }
                    assert(self@.processing =~= m0.processing.insert(key));
                    assert(self@ == take_spec(m0, i as int));
                    assert forall|a: int, b: int|
                        0 <= a < self.processing@.len() && 0 <= b < self.processing@.len()
                            && #[trigger] self.processing@[a]@ == #[trigger] self.processing@[b]@
                        implies a == b by {
                        if a < old_proc.len() && b == old_proc.len() {
                            assert(old_proc[a]@ == key);
                        }
                        if b < old_proc.len() && a == old_proc.len() {
                            assert(old_proc[b]@ == key);
                        }
                    }
                }
                return Some(out);
            }
            i = i + 1;
        }
        None
    }

    /// Marks `obj` as no longer being processed. A request for it that
    /// arrived meanwhile stays waiting and becomes eligible again.
    pub fn done(&mut self, obj: &ObjectRef)
        requires
            old(self).wf(),
        ensures
            final(self).wf(),
            final(self)@ == done_spec(old(self)@, obj@),
    {
        let ghost m0 = self@;
        let n = self.processing.len();
        let mut i: usize = 0;
        while i < n
            invariant
                n == self.processing@.len(),
                0 <= i <= n,
                self.wf(),
                self@ == m0,
                m0 == old(self)@,
                forall|j: int| 0 <= j < i ==> #[trigger] self.processing@[j]@ != obj@,
            decreases n - i,
        {
            if self.processing[i].same_object(obj) {
                let ghost old_proc = self.processing@;
                self.processing.remove(i);
                proof {
                    assert(self.processing@ =~= old_proc.remove(i as int));
                    assert forall|k: ObjectKey|
                        self@.processing.contains(k) == m0.processing.remove(obj@).contains(k) by {
                        if self@.processing.contains(k) {
                            let j = choose|j: int|
                                0 <= j < self.processing@.len() && #[trigger] self.processing@[j]@
                                    == k;
                            if j < i {
                                assert(old_proc[j]@ == k);
                            } else {
                                assert(old_proc[j + 1]@ == k);
                            }
                        }
                        if m0.processing.contains(k) && k != obj@ {
                            let j = choose|j: int|
                                0 <= j < old_proc.len() && #[trigger] old_proc[j]@ == k;
                            if j < i {
                                assert(self.processing@[j]@ == k);
                            } else {
                                assert(j != i);
                                assert(self.processing@[j - 1]@ == k);
                            }
                        }
                    }
                    assert(self@.processing =~= m0.processing.remove(obj@));
                    assert(self@.pending =~= m0.pending);
                    assert(self@ == done_spec(m0, obj@));
                    assert forall|a: int, b: int|
                        0 <= a < self.processing@.len() && 0 <= b < self.processing@.len()
                            && #[trigger] self.processing@[a]@ == #[trigger] self.processing@[b]@
                        implies a == b by {
                        let a2 = if a < i { a } else { a + 1 };
                        let b2 = if b < i { b } else { b + 1 };
                        assert(old_proc[a2]@ == old_proc[b2]@);
                    }
                }
                return ;
            }
            i = i + 1;
        }
        proof {
            assert forall|k: ObjectKey| m0.processing.contains(k) implies k != obj@ by {
                let j = choose|j: int| 0 <= j < self.processing@.len() && #[trigger] self.processing@[j]@ == k;
            }
            assert(m0.processing.remove(obj@) =~= m0.processing);
        }
    }
}

} // verus!
