use crate::clock::{duration_nanos, elapsed_since, instant_now, nanos_of};
use crate::module::{Error, Result};
use crate::search::{first_index, lemma_first_index_at, lemma_first_index_props};
use std::time::{Duration, Instant};
use vstd::prelude::*;

verus! {

/// Minimum job representation.
#[derive(Debug, PartialEq, Eq)]
pub struct Job {
    pub id: u64,
    pub kind: String,
    pub payload: String,
    /// When the job was enqueued, in nanoseconds since its scheduler was created.
    pub created_at: u128,
    /// Number of times the job has been handed out by `dequeue`.
    pub attempts: u32,
}

impl Clone for Job {
    fn clone(&self) -> (r: Self)
        ensures
            r == *self,
    {
        Job {
            id: self.id,
            kind: self.kind.clone(),
            payload: self.payload.clone(),
            created_at: self.created_at,
            attempts: self.attempts,
        }
    }
}

/// A leased job with its expiration time (nanoseconds since the scheduler was
/// created).
#[derive(Debug)]
pub struct Lease {
    pub job: Job,
    pub expires_at: u128,
}

impl Clone for Lease {
    fn clone(&self) -> (r: Self)
        ensures
            r == *self,
    {
        Lease { job: self.job.clone(), expires_at: self.expires_at }
    }
}

/// `n + 1`, staying at `u32::MAX`.
pub open spec fn bumped(n: u32) -> u32 {
    if n < u32::MAX {
        (n + 1) as u32
    } else {
        n
    }
}

/// `now + lease_ns`, staying at `u128::MAX`.
pub open spec fn deadline(now: u128, lease_ns: u128) -> u128 {
    if now + lease_ns <= u128::MAX {
        (now + lease_ns) as u128
    } else {
        u128::MAX
    }
}

/// The job as handed out by a dequeue: one more attempt.
pub open spec fn bump_attempts(j: Job) -> Job {
    Job { attempts: bumped(j.attempts), ..j }
}

pub open spec fn of_kind(kind: Seq<char>) -> spec_fn(Job) -> bool {
    |j: Job| j.kind@ == kind
}

pub open spec fn holds_job(id: u64) -> spec_fn(Lease) -> bool {
    |l: Lease| l.job.id == id
}

/// The leases of `ls` still running at `now`, in order.
pub open spec fn live_leases(ls: Seq<Lease>, now: u128) -> Seq<Lease>
    decreases ls.len(),
{
    if ls.len() == 0 {
        Seq::empty()
    } else {
        let r = live_leases(ls.drop_last(), now);
        if ls.last().expires_at <= now {
            r
        } else {
            r.push(ls.last())
        }
    }
}

/// The jobs of the leases of `ls` that have expired at `now`, in order.
pub open spec fn expired_jobs(ls: Seq<Lease>, now: u128) -> Seq<Job>
    decreases ls.len(),
{
    if ls.len() == 0 {
        Seq::empty()
    } else {
        let r = expired_jobs(ls.drop_last(), now);
        if ls.last().expires_at <= now {
            r.push(ls.last().job)
        } else {
            r
        }
    }
}

/// No job id occurs twice among the queued jobs and the leases together.
pub open spec fn ids_distinct(pending: Seq<Job>, leases: Seq<Lease>) -> bool {
    &&& forall|i: int, j: int|
        0 <= i < pending.len() && 0 <= j < pending.len() && i != j ==> pending[i].id
            != pending[j].id
    &&& forall|i: int, j: int|
        0 <= i < leases.len() && 0 <= j < leases.len() && i != j ==> leases[i].job.id
            != leases[j].job.id
    &&& forall|i: int, j: int|
        0 <= i < pending.len() && 0 <= j < leases.len() ==> pending[i].id != leases[j].job.id
}

/// Every id among the queued jobs and the leases is below `next_id`.
pub open spec fn ids_below(pending: Seq<Job>, leases: Seq<Lease>, next_id: u64) -> bool {
    &&& forall|i: int| 0 <= i < pending.len() ==> pending[i].id < next_id
    &&& forall|i: int| 0 <= i < leases.len() ==> leases[i].job.id < next_id
}

/// The abstract state of a scheduler.
pub struct SchedulerView {
    pub next_id: u64,
    /// Queued jobs of every kind, oldest first; a kind's queue is its subsequence.
    pub pending: Seq<Job>,
    /// Active leases, oldest first.
    pub leases: Seq<Lease>,
    pub done: Seq<Job>,
    pub failed: Seq<Job>,
    pub default_kind: Seq<char>,
}

impl SchedulerView {
    pub open spec fn wf(self) -> bool {
        &&& ids_distinct(self.pending, self.leases)
        &&& ids_below(self.pending, self.leases, self.next_id)
    }

    /// Queued jobs across all kinds.
    pub open spec fn depth(self) -> nat {
        self.pending.len()
    }

    pub open spec fn leased_count(self) -> nat {
        self.leases.len()
    }

    /// Position in `pending` of the oldest queued job of `kind`, or -1.
    pub open spec fn head_of(self, kind: Seq<char>) -> int {
        first_index(self.pending, of_kind(kind))
    }

    /// Position in `leases` of the lease on job `id`, or -1.
    pub open spec fn lease_index(self, id: u64) -> int {
        first_index(self.leases, holds_job(id))
    }

    pub open spec fn is_leased(self, id: u64) -> bool {
        self.lease_index(id) >= 0
    }

    /// Dequeue of `kind` at time `now` with a lease of `lease_ns`: the new
    /// state and the job handed out.
    pub open spec fn dequeue_spec(self, kind: Seq<char>, lease_ns: u128, now: u128) -> (
        SchedulerView,
        Option<Job>,
    ) {
        let i = self.head_of(kind);
        if i < 0 {
            (self, None)
        } else {
            let job = bump_attempts(self.pending[i]);
            (
                SchedulerView {
                    pending: self.pending.remove(i),
                    leases: self.leases.push(Lease { job, expires_at: deadline(now, lease_ns) }),
                    ..self
                },
                Some(job),
            )
        }
    }

    /// State after `complete(id)`; unchanged when `id` holds no lease.
    pub open spec fn after_complete(self, id: u64) -> SchedulerView {
        let i = self.lease_index(id);
        if i < 0 {
            self
        } else {
            SchedulerView {
                leases: self.leases.remove(i),
                done: self.done.push(self.leases[i].job),
                ..self
            }
        }
    }

    /// State after `fail(id)`; unchanged when `id` holds no lease.
    pub open spec fn after_fail(self, id: u64) -> SchedulerView {
        let i = self.lease_index(id);
        if i < 0 {
            self
        } else {
            SchedulerView {
                pending: self.pending.push(self.leases[i].job),
                leases: self.leases.remove(i),
                failed: self.failed.push(self.leases[i].job),
                ..self
            }
        }
    }

    /// State after reclaiming, at `now`, every lease due at or before `now`.
    pub open spec fn after_reclaim(self, now: u128) -> SchedulerView {
        SchedulerView {
            pending: self.pending + expired_jobs(self.leases, now),
            leases: live_leases(self.leases, now),
            ..self
        }
    }
}

proof fn lemma_lease_to_pending(pending: Seq<Job>, leases: Seq<Lease>, k: int, next_id: u64)
    requires
        ids_distinct(pending, leases),
        ids_below(pending, leases, next_id),
        0 <= k < leases.len(),
    ensures
        ids_distinct(pending.push(leases[k].job), leases.remove(k)),
        ids_below(pending.push(leases[k].job), leases.remove(k), next_id),
{
    let grown = pending.push(leases[k].job);
    let l2 = leases.remove(k);
    assert forall|j: int| 0 <= j < l2.len() implies #[trigger] l2[j] == leases[
        if j < k { j } else { j + 1 }
    ] by {}
    assert forall|i: int| 0 <= i < grown.len() implies #[trigger] grown[i] == (if i < pending.len() {
        pending[i]
    } else {
        leases[k].job
    }) by {}
}

proof fn lemma_pending_to_lease(
    pending: Seq<Job>,
    leases: Seq<Lease>,
    k: int,
    l: Lease,
    next_id: u64,
)
    requires
        ids_distinct(pending, leases),
        ids_below(pending, leases, next_id),
        0 <= k < pending.len(),
        l.job.id == pending[k].id,
    ensures
        ids_distinct(pending.remove(k), leases.push(l)),
        ids_below(pending.remove(k), leases.push(l), next_id),
{
    let shrunk = pending.remove(k);
    let l2 = leases.push(l);
    assert forall|j: int| 0 <= j < shrunk.len() implies #[trigger] shrunk[j] == pending[
        if j < k { j } else { j + 1 }
    ] by {}
    assert forall|i: int| 0 <= i < l2.len() implies #[trigger] l2[i] == (if i < leases.len() {
        leases[i]
    } else {
        l
    }) by {}
}

proof fn lemma_drop_lease(pending: Seq<Job>, leases: Seq<Lease>, k: int, next_id: u64)
    requires
        ids_distinct(pending, leases),
        ids_below(pending, leases, next_id),
        0 <= k < leases.len(),
    ensures
        ids_distinct(pending, leases.remove(k)),
        ids_below(pending, leases.remove(k), next_id),
{
    let l2 = leases.remove(k);
    assert forall|j: int| 0 <= j < l2.len() implies #[trigger] l2[j] == leases[
        if j < k { j } else { j + 1 }
    ] by {}
}

/// In-memory scheduler with lease and retry support.
pub struct Scheduler {
    next_id: u64,
    queued: Vec<Job>,
    leased: Vec<Lease>,
    done: Vec<Job>,
    failed: Vec<Job>,
    default_kind: String,
    /// The monotonic clock reading that scheduler times count from.
    origin: Instant,
}

impl View for Scheduler {
    type V = SchedulerView;

    closed spec fn view(&self) -> SchedulerView {
        SchedulerView {
            next_id: self.next_id,
            pending: self.queued@,
            leases: self.leased@,
            done: self.done@,
            failed: self.failed@,
            default_kind: self.default_kind@,
        }
    }
}

impl Scheduler {
    /// Create a new scheduler with a default job kind.
    pub fn new() -> (r: Self)
        ensures
            r@.wf(),
            r@.next_id == 1,
            r@.pending.len() == 0,
            r@.leases.len() == 0,
            r@.done.len() == 0,
            r@.failed.len() == 0,
            r@.default_kind == "default"@,
    {
        Scheduler {
            next_id: 1,
            queued: Vec::new(),
            leased: Vec::new(),
            done: Vec::new(),
            failed: Vec::new(),
            default_kind: "default".to_owned(),
            origin: instant_now(),
        }
    }

    /// Nanoseconds since the scheduler was created, by the monotonic clock.
    fn now_nanos(&self) -> (r: u128) {
        duration_nanos(elapsed_since(&self.origin))
    }

    /// Whether another id can be allocated.
    pub open spec fn ids_left(&self) -> bool {
        self@.next_id < u64::MAX
    }

    /// Whether another id can be allocated, so that `enqueue` may be called.
    pub fn can_enqueue(&self) -> (r: bool)
        ensures
            r == self.ids_left(),
    {
        self.next_id < u64::MAX
    }

    /// Enqueue a job to a given kind; returns its id.
    pub fn enqueue(&mut self, kind: &str, payload: &str) -> (id: u64)
        requires
            old(self)@.wf(),
            old(self).ids_left(),
        ensures
            final(self)@.wf(),
            id == old(self)@.next_id,
            final(self)@.next_id == id + 1,
            final(self)@.pending.len() == old(self)@.pending.len() + 1,
            final(self)@.pending.drop_last() == old(self)@.pending,
            final(self)@.pending.last().id == id,
            final(self)@.pending.last().kind@ == kind@,
            final(self)@.pending.last().payload@ == payload@,
            final(self)@.pending.last().attempts == 0,
            final(self)@.leases == old(self)@.leases,
            final(self)@.done == old(self)@.done,
            final(self)@.failed == old(self)@.failed,
            final(self)@.default_kind == old(self)@.default_kind,
    {
        let id = self.next_id;
        self.next_id = self.next_id + 1;
        let job = Job {
            id,
            kind: kind.to_owned(),
            payload: payload.to_owned(),
            created_at: self.now_nanos(),
            attempts: 0,
        };
        self.queued.push(job);
        proof {
            let p = self.queued@;
            assert(p.drop_last() =~= old(self)@.pending);
            assert forall|i: int| 0 <= i < p.len() - 1 implies #[trigger] p[i] == old(
                self,
            )@.pending[i] by {}
        }
        id
    }

    /// Enqueue a job with the default kind.
    pub fn enqueue_default(&mut self, payload: &str) -> (id: u64)
        requires
            old(self)@.wf(),
            old(self).ids_left(),
        ensures
            final(self)@.wf(),
            id == old(self)@.next_id,
            final(self)@.next_id == id + 1,
            final(self)@.pending.len() == old(self)@.pending.len() + 1,
            final(self)@.pending.drop_last() == old(self)@.pending,
            final(self)@.pending.last().id == id,
            final(self)@.pending.last().kind@ == old(self)@.default_kind,
            final(self)@.pending.last().payload@ == payload@,
            final(self)@.pending.last().attempts == 0,
            final(self)@.leases == old(self)@.leases,
            final(self)@.done == old(self)@.done,
            final(self)@.failed == old(self)@.failed,
            final(self)@.default_kind == old(self)@.default_kind,
    {
        let kind = self.default_kind.clone();
        self.enqueue(kind.as_str(), payload)
    }

    /// Position of the oldest queued job of `kind`.
    fn head_position(&self, kind: &String) -> (r: Option<usize>)
        ensures
            match r {
                None => self@.head_of(kind@) < 0,
                Some(i) => i < self@.pending.len() && i as int == self@.head_of(kind@),
            },
    {
        let n = self.queued.len();
        let mut i: usize = 0;
        while i < n
            invariant
                n == self.queued@.len(),
                i <= n,
                forall|j: int| 0 <= j < i ==> (#[trigger] self.queued@[j]).kind@ != kind@,
            ensures
                i <= n,
                forall|j: int| 0 <= j < i ==> (#[trigger] self.queued@[j]).kind@ != kind@,
                i == n || self.queued@[i as int].kind@ == kind@,
            decreases n - i,
        {
            if self.queued[i].kind == *kind {
                break;
            }
            i = i + 1;
        }
        proof {
            lemma_first_index_at(self.queued@, of_kind(kind@), i as int);
        }
        if i == n {
            None
        } else {
            Some(i)
        }
    }

    /// Position of the lease on job `job_id`.
    fn lease_position(&self, job_id: u64) -> (r: Option<usize>)
        ensures
            match r {
                None => self@.lease_index(job_id) < 0,
                Some(i) => i < self@.leases.len() && i as int == self@.lease_index(job_id),
            },
    {
        let n = self.leased.len();
        let mut i: usize = 0;
        while i < n
            invariant
                n == self.leased@.len(),
                i <= n,
                forall|j: int| 0 <= j < i ==> (#[trigger] self.leased@[j]).job.id != job_id,
            ensures
                i <= n,
                forall|j: int| 0 <= j < i ==> (#[trigger] self.leased@[j]).job.id != job_id,
                i == n || self.leased@[i as int].job.id == job_id,
            decreases n - i,
        {
            if self.leased[i].job.id == job_id {
                break;
            }
            i = i + 1;
        }
        proof {
            lemma_first_index_at(self.leased@, holds_job(job_id), i as int);
        }
        if i == n {
            None
        } else {
            Some(i)
        }
    }

    /// Dequeue the oldest job of `kind` at time `now` (nanoseconds since the
    /// scheduler was created), leasing it until `now + lease_ns`. Returns None
    /// if no job of that kind is queued.
    pub fn dequeue_at(&mut self, kind: &str, lease_ns: u128, now: u128) -> (r: Option<Job>)
        requires
            old(self)@.wf(),
        ensures
            final(self)@.wf(),
            (final(self)@, r) == old(self)@.dequeue_spec(kind@, lease_ns, now),
    {
        let wanted = kind.to_owned();
        match self.head_position(&wanted) {
            None => None,
            Some(i) => {
                let ghost before = self@;
                let mut job = self.queued.remove(i);
                job.attempts = job.attempts.saturating_add(1);
                let lease = Lease { job: job.clone(), expires_at: now.saturating_add(lease_ns) };
                self.leased.push(lease);
                proof {
                    lemma_pending_to_lease(
                        before.pending,
                        before.leases,
                        i as int,
                        lease,
                        before.next_id,
                    );
                    assert(job == bump_attempts(before.pending[i as int]));
                    assert(self@ == before.dequeue_spec(kind@, lease_ns, now).0);
                }
                Some(job)
            },
        }
    }

    /// Dequeue a job with a lease. Returns None if no work available.
    pub fn dequeue(&mut self, kind: &str, lease_duration: Duration) -> (r: Option<Job>)
        requires
            old(self)@.wf(),
        ensures
            final(self)@.wf(),
            exists|now: u128|
                (final(self)@, r) == old(self)@.dequeue_spec(kind@, nanos_of(lease_duration), now),
            r is None <==> old(self)@.head_of(kind@) < 0,
            r is Some ==> r->0 == bump_attempts(old(self)@.pending[old(self)@.head_of(kind@)]),
    {
        let lease_ns = duration_nanos(lease_duration);
        let now = self.now_nanos();
        self.dequeue_at(kind, lease_ns, now)
    }

    /// Mark a job as done; removes its lease.
    pub fn complete(&mut self, job_id: u64) -> (r: Result<()>)
        requires
            old(self)@.wf(),
        ensures
            final(self)@.wf(),
            final(self)@ == old(self)@.after_complete(job_id),
            match r {
                Ok(()) => old(self)@.is_leased(job_id),
                Err(e) => !old(self)@.is_leased(job_id) && e == Error::NotLeased(job_id),
            },
    {
        match self.lease_position(job_id) {
            None => Err(Error::NotLeased(job_id)),
            Some(i) => {
                let ghost before = self@;
                let lease = self.leased.remove(i);
                self.done.push(lease.job);
                proof {
                    lemma_drop_lease(before.pending, before.leases, i as int, before.next_id);
                    assert(self@ == before.after_complete(job_id));
                }
                Ok(())
            },
        }
    }

    /// Mark a job as failed; removes its lease and re-enqueues it at the tail.
    pub fn fail(&mut self, job_id: u64) -> (r: Result<()>)
        requires
            old(self)@.wf(),
        ensures
            final(self)@.wf(),
            final(self)@ == old(self)@.after_fail(job_id),
            match r {
                Ok(()) => old(self)@.is_leased(job_id),
                Err(e) => !old(self)@.is_leased(job_id) && e == Error::NotLeased(job_id),
            },
    {
        match self.lease_position(job_id) {
            None => Err(Error::NotLeased(job_id)),
            Some(i) => {
                let ghost before = self@;
                let lease = self.leased.remove(i);
                self.queued.push(lease.job.clone());
                self.failed.push(lease.job);
                proof {
                    lemma_lease_to_pending(
                        before.pending,
                        before.leases,
                        i as int,
                        before.next_id,
                    );
                    assert(self@ == before.after_fail(job_id));
                }
                Ok(())
            },
        }
    }

    /// Move the leases due at or before `now` (nanoseconds since the scheduler
    /// was created) back to their queues (retry).
    pub fn reclaim_expired_at(&mut self, now: u128)
        requires
            old(self)@.wf(),
        ensures
            final(self)@.wf(),
            final(self)@ == old(self)@.after_reclaim(now),
    {
        let ghost before = self@;
        let ghost ls = self.leased@;
        let n = self.leased.len();
        let mut kept: Vec<Lease> = Vec::new();
        let mut i: usize = 0;
        while i < n
            invariant
                n == ls.len(),
                self.leased@ == ls,
                i <= n,
                self.next_id == before.next_id,
                self.done@ == before.done,
                self.failed@ == before.failed,
                self.default_kind@ == before.default_kind,
                kept@ == live_leases(ls.take(i as int), now),
                self.queued@ == before.pending + expired_jobs(ls.take(i as int), now),
                ids_distinct(self.queued@, kept@ + ls.skip(i as int)),
                ids_below(self.queued@, kept@ + ls.skip(i as int), before.next_id),
            decreases n - i,
        {
            let ghost rest = kept@ + ls.skip(i as int);
            proof {
                assert(ls.take(i as int + 1).drop_last() =~= ls.take(i as int));
                assert(ls.take(i as int + 1).last() == ls[i as int]);
            }
            let lease = self.leased[i].clone();
            if lease.expires_at <= now {
                proof {
                    lemma_lease_to_pending(self.queued@, rest, kept@.len() as int, before.next_id);
                    assert(rest.remove(kept@.len() as int) =~= kept@ + ls.skip(i as int + 1));
                    assert(rest[kept@.len() as int] == ls[i as int]);
                }
                self.queued.push(lease.job);
            } else {
                kept.push(lease);
                proof {
                    assert(rest =~= kept@ + ls.skip(i as int + 1));
                }
            }
            i = i + 1;
        }
        proof {
            assert(ls.take(n as int) =~= ls);
            assert(kept@ + ls.skip(n as int) =~= kept@);
        }
        self.leased = kept;
    }

    /// Move expired leases back to their queues (retry).
    pub fn reclaim_expired(&mut self)
        requires
            old(self)@.wf(),
        ensures
            final(self)@.wf(),
            exists|now: u128| final(self)@ == old(self)@.after_reclaim(now),
    {
        let now = self.now_nanos();
        self.reclaim_expired_at(now);
    }

    /// Queue depth across all kinds (visible work only).
    pub fn depth(&self) -> (r: usize)
        ensures
            r == self@.depth(),
    {
        self.queued.len()
    }

    /// Number of jobs recorded as done.
    pub fn done_count(&self) -> (r: usize)
        ensures
            r == self@.done.len(),
    {
        self.done.len()
    }

    /// Number of failures recorded (a job failed twice counts twice).
    pub fn failed_count(&self) -> (r: usize)
        ensures
            r == self@.failed.len(),
    {
        self.failed.len()
    }

    /// Number of leased (in-flight) jobs.
    pub fn leased_count(&self) -> (r: usize)
        ensures
            r == self@.leased_count(),
    {
        self.leased.len()
    }
}

/// A dequeue removes one queued job when it hands one out, and none otherwise;
/// with `enqueue` adding exactly one, `depth` is the number of jobs enqueued
/// minus the number dequeued.
pub proof fn law_dequeue_depth(s: SchedulerView, kind: Seq<char>, lease_ns: u128, now: u128)
    ensures
        ({
            let (t, r) = s.dequeue_spec(kind, lease_ns, now);
            &&& r is Some ==> t.depth() + 1 == s.depth() && t.leased_count() == s.leased_count() + 1
            &&& r is None ==> t.depth() == s.depth() && t.leased_count() == s.leased_count()
        }),
{
    lemma_first_index_props(s.pending, of_kind(kind));
}

/// A leased job can be completed once: afterwards neither `complete` nor
/// `fail` finds a lease on it, and both leave the state as it is.
pub proof fn law_complete_once(s: SchedulerView, id: u64)
    requires
        s.wf(),
        s.is_leased(id),
    ensures
        !s.after_complete(id).is_leased(id),
        s.after_complete(id).after_complete(id) == s.after_complete(id),
        s.after_complete(id).after_fail(id) == s.after_complete(id),
        s.after_complete(id).done == s.done.push(s.leases[s.lease_index(id)].job),
{
    let i = s.lease_index(id);
    lemma_first_index_props(s.leases, holds_job(id));
    let l2 = s.leases.remove(i);
    assert forall|j: int| 0 <= j < l2.len() implies !holds_job(id)(#[trigger] l2[j]) by {
        let k = if j < i { j } else { j + 1 };
        assert(l2[j] == s.leases[k]);
    }
    lemma_first_index_at(l2, holds_job(id), l2.len() as int);
}

/// After `fail`, a dequeue of the job's kind hands the same job out again,
/// with one more attempt, when no other job of that kind was queued.
pub proof fn law_fail_redelivers(s: SchedulerView, id: u64, lease_ns: u128, now: u128)
    requires
        s.wf(),
        s.is_leased(id),
        s.head_of(s.leases[s.lease_index(id)].job.kind@) < 0,
    ensures
        ({
            let job = s.leases[s.lease_index(id)].job;
            let (t, r) = s.after_fail(id).dequeue_spec(job.kind@, lease_ns, now);
            &&& r == Some(bump_attempts(job))
            &&& job.id == id
            &&& t.leased_count() == s.leased_count()
        }),
{
    let i = s.lease_index(id);
    let job = s.leases[i].job;
    lemma_first_index_props(s.leases, holds_job(id));
    lemma_first_index_props(s.pending, of_kind(job.kind@));
    let grown = s.pending.push(job);
    assert forall|j: int| 0 <= j < s.pending.len() implies !of_kind(job.kind@)(#[trigger] grown[j]) by {
        assert(grown[j] == s.pending[j]);
    }
    lemma_first_index_at(grown, of_kind(job.kind@), s.pending.len() as int);
}

/// A job leased for `lease_ns` from `t0` whose lease is reclaimed at or after
/// its deadline goes back to the queue: no lease is left, the queue grows by
/// one, and the next dequeue of its kind hands out the same job with exactly
/// one more attempt.
pub proof fn law_expired_lease_redelivered(
    s: SchedulerView,
    kind: Seq<char>,
    lease_ns: u128,
    t0: u128,
    t1: u128,
    lease2_ns: u128,
    t2: u128,
)
    requires
        s.leases.len() == 0,
        s.head_of(kind) >= 0,
        forall|j: int|
            0 <= j < s.pending.len() && j != s.head_of(kind) ==> (#[trigger] s.pending[j]).kind@
                != kind,
        deadline(t0, lease_ns) <= t1,
    ensures
        ({
            let (s1, r1) = s.dequeue_spec(kind, lease_ns, t0);
            let s2 = s1.after_reclaim(t1);
            let (s3, r3) = s2.dequeue_spec(kind, lease2_ns, t2);
            &&& s1.leased_count() == 1
            &&& s2.leased_count() == 0
            &&& s2.depth() == s1.depth() + 1
            &&& r1 is Some && r3 is Some
            &&& r3->0.id == r1->0.id
            &&& r3->0.attempts == bumped(r1->0.attempts)
        }),
{
    let h = s.head_of(kind);
    lemma_first_index_props(s.pending, of_kind(kind));
    let (s1, r1) = s.dequeue_spec(kind, lease_ns, t0);
    let job = r1->0;
    let ls = s1.leases;
    assert(ls.drop_last() =~= Seq::<Lease>::empty());
    assert(live_leases(ls.drop_last(), t1) == Seq::<Lease>::empty());
    assert(expired_jobs(ls.drop_last(), t1) == Seq::<Job>::empty());
    assert(live_leases(ls, t1) =~= Seq::<Lease>::empty());
    assert(expired_jobs(ls, t1) =~= seq![job]);
    let s2 = s1.after_reclaim(t1);
    let mid = s1.pending;
    assert(s2.pending =~= mid.push(job));
    assert forall|j: int| 0 <= j < mid.len() implies !of_kind(kind)(#[trigger] s2.pending[j]) by {
        let k = if j < h { j } else { j + 1 };
        assert(s2.pending[j] == s.pending[k]);
    }
    lemma_first_index_at(s2.pending, of_kind(kind), mid.len() as int);
}

/// A lease of positive length expires strictly after it was granted (unless
/// the deadline would pass the largest representable time).
pub proof fn law_lease_outlasts_grant(s: SchedulerView, kind: Seq<char>, lease_ns: u128, now: u128)
    requires
        s.head_of(kind) >= 0,
        lease_ns > 0,
        now + lease_ns <= u128::MAX,
    ensures
        ({
            let (t, r) = s.dequeue_spec(kind, lease_ns, now);
            &&& t.leases.last().job == r->0
            &&& t.leases.last().expires_at > now
        }),
{
}

/// One step of a run of enqueues and dequeues.
pub enum QueueStep {
    Enqueue,
    Dequeue { kind: Seq<char>, lease_ns: u128, now: u128 },
}

/// `b` follows from `a` by `step`, as `enqueue` and `dequeue_at` state it.
pub open spec fn queue_step(a: SchedulerView, b: SchedulerView, step: QueueStep) -> bool {
    match step {
        QueueStep::Enqueue => b.pending.len() == a.pending.len() + 1,
        QueueStep::Dequeue { kind, lease_ns, now } => b == a.dequeue_spec(kind, lease_ns, now).0,
    }
}

/// Whether `step`, taken from `a`, hands a job out.
pub open spec fn hands_out(a: SchedulerView, step: QueueStep) -> bool {
    match step {
        QueueStep::Enqueue => false,
        QueueStep::Dequeue { kind, lease_ns, now } => a.dequeue_spec(kind, lease_ns, now).1 is Some,
    }
}

/// Number of enqueues among `steps`.
pub open spec fn enqueue_count(steps: Seq<QueueStep>) -> nat
    decreases steps.len(),
{
    if steps.len() == 0 {
        0
    } else {
        enqueue_count(steps.drop_last()) + if steps.last() is Enqueue { 1nat } else { 0nat }
    }
}

/// Number of the dequeues among `steps` that handed a job out, the i-th step
/// being taken from `states[i]`.
pub open spec fn handed_out_count(states: Seq<SchedulerView>, steps: Seq<QueueStep>) -> nat
    decreases steps.len(),
{
    if steps.len() == 0 {
        0
    } else {
        handed_out_count(states, steps.drop_last()) + if hands_out(
            states[steps.len() - 1],
            steps.last(),
        ) {
            1nat
        } else {
            0nat
        }
    }
}

/// Over any run of enqueues and dequeues, the depth grows by the number of
/// jobs enqueued and shrinks by the number dequeued, across all kinds.
pub proof fn law_depth_over_run(states: Seq<SchedulerView>, steps: Seq<QueueStep>)
    requires
        states.len() == steps.len() + 1,
        forall|i: int| 0 <= i < steps.len() ==> queue_step(states[i], states[i + 1], #[trigger] steps[i]),
    ensures
        states.last().depth() + handed_out_count(states, steps) == states[0].depth()
            + enqueue_count(steps),
    decreases steps.len(),
{
    if steps.len() > 0 {
        let n = steps.len() - 1;
        let shorter = states.drop_last();
        let prefix = steps.drop_last();
        assert forall|i: int| 0 <= i < prefix.len() implies queue_step(
            shorter[i],
            shorter[i + 1],
            #[trigger] prefix[i],
        ) by {
            assert(steps[i] == prefix[i]);
        }
        law_depth_over_run(shorter, prefix);
        lemma_handed_out_prefix(states, prefix);
        let a = states[n];
        assert(queue_step(a, states[n + 1], steps[n]));
        match steps[n] {
            QueueStep::Enqueue => {},
            QueueStep::Dequeue { kind, lease_ns, now } => {
                law_dequeue_depth(a, kind, lease_ns, now);
            },
        }
    }
}

proof fn lemma_handed_out_prefix(states: Seq<SchedulerView>, steps: Seq<QueueStep>)
    requires
        steps.len() < states.len(),
    ensures
        handed_out_count(states.drop_last(), steps) == handed_out_count(states, steps),
    decreases steps.len(),
{
    if steps.len() > 0 {
        lemma_handed_out_prefix(states, steps.drop_last());
    }
}

} // verus!
