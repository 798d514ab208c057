//! The bounded transfer queue: jobs start in the order they were queued, at
//! most a fixed number run at once, and failed jobs are retried with capped
//! exponential backoff until their attempts run out.
use vstd::prelude::*;
use crate::common::{two_pow, uuid_text, ConnectionId, TransferId};
use crate::path::RemotePath;

verus! {

/// Whether a transfer brings a file down or sends it up.
#[derive(Debug, Clone, Copy, PartialEq, Eq, Structural)]
pub enum TransferDirection {
    Download,
    Upload,
}

/// Where a transfer stands.
#[derive(Debug, Clone, Copy, PartialEq, Eq, Structural)]
pub enum TransferStatus {
    Pending,
    Running,
    Paused,
    Completed,
    Failed,
    Cancelled,
}

/// A queued transfer. Times are nanoseconds since the Unix epoch.
pub struct TransferJob {
    pub id: TransferId,
    pub connection_id: ConnectionId,
    pub path: RemotePath,
    pub direction: TransferDirection,
    pub total_bytes: Option<u64>,
    pub transferred_bytes: u64,
    pub attempts: u32,
    pub status: TransferStatus,
    pub next_retry_at: Option<u128>,
}

/// Why a queue operation was refused.
#[derive(Debug, PartialEq, Eq)]
pub enum TransferError {
    NotFound(String),
    InvalidTransition(String, TransferStatus),
}

/// One nanosecond-based second.
pub const NANOS_PER_SECOND: u128 = 1_000_000_000;

/// The bounded queue of transfers. Jobs are kept in the order they were
/// queued.
pub struct TransferQueue {
    max_concurrent: usize,
    max_attempts: u32,
    active: usize,
    jobs: Vec<TransferJob>,
}

/// How many of `jobs` are running.
pub open spec fn running_count(jobs: Seq<TransferJob>) -> nat
    decreases jobs.len(),
{
    if jobs.len() == 0 {
        0
    } else {
        running_count(jobs.drop_last()) + if jobs.last().status == TransferStatus::Running {
            1nat
        } else {
            0nat
        }
    }
}

/// The index of the job with identifier `id`, if any.
pub open spec fn index_of_job(jobs: Seq<TransferJob>, id: TransferId) -> Option<int>
    decreases jobs.len(),
{
    if jobs.len() == 0 {
        None
    } else if jobs.last().id == id {
        Some(jobs.len() - 1)
    } else {
        index_of_job(jobs.drop_last(), id)
    }
}

/// No two jobs share an identifier.
pub open spec fn distinct_ids(jobs: Seq<TransferJob>) -> bool {
    forall|i: int, j: int| 0 <= i < j < jobs.len() ==> jobs[i].id != jobs[j].id
}

/// A job that may start now: pending, and not waiting for a later retry time.
pub open spec fn ready_to_start(job: TransferJob, now: u128) -> bool {
    job.status == TransferStatus::Pending && match job.next_retry_at {
        None => true,
        Some(at) => at <= now,
    }
}

/// How many of the first `n` jobs may start now.
pub open spec fn ready_count(jobs: Seq<TransferJob>, now: u128, n: int) -> nat
    decreases n,
{
    if n <= 0 {
        0
    } else {
        ready_count(jobs, now, n - 1) + if ready_to_start(jobs[n - 1], now) {
            1nat
        } else {
            0nat
        }
    }
}

/// Whether job `i` is among those started when `capacity` slots are free.
pub open spec fn chosen_to_start(jobs: Seq<TransferJob>, now: u128, capacity: nat, i: int) -> bool {
    ready_to_start(jobs[i], now) && ready_count(jobs, now, i) < capacity
}

/// The identifiers of the first `n` jobs chosen to start, in queueing order.
pub open spec fn chosen_ids(jobs: Seq<TransferJob>, now: u128, capacity: nat, n: int) -> Seq<TransferId>
    decreases n,
{
    if n <= 0 {
        Seq::empty()
    } else if chosen_to_start(jobs, now, capacity, n - 1) {
        chosen_ids(jobs, now, capacity, n - 1).push(jobs[n - 1].id)
    } else {
        chosen_ids(jobs, now, capacity, n - 1)
    }
}

/// `job` after it was started.
pub open spec fn started(job: TransferJob) -> TransferJob {
    TransferJob { status: TransferStatus::Running, attempts: (job.attempts + 1) as u32, next_retry_at: None, ..job }
}

/// The backoff before retry number `attempts + 1`, in seconds: two to the
/// power of the attempts so far, capped at 128.
pub open spec fn retry_delay_seconds(attempts: u32) -> nat {
    two_pow(if attempts < 7 { attempts as nat } else { 7 })
}

/// The smaller of two counts.
pub open spec fn min_nat(a: nat, b: nat) -> nat {
    if a < b { a } else { b }
}

impl TransferQueue {
    /// The jobs in queueing order.
    pub closed spec fn jobs(&self) -> Seq<TransferJob> {
        self.jobs@
    }

    /// The most transfers that may run at once.
    pub closed spec fn concurrency_limit(&self) -> nat {
        self.max_concurrent as nat
    }

    /// The most attempts a transfer gets.
    pub closed spec fn attempt_limit(&self) -> nat {
        self.max_attempts as nat
    }

    /// The number of transfers the queue counts as running.
    pub closed spec fn active_count(&self) -> nat {
        self.active as nat
    }

    /// The queue's internal consistency: identifiers are distinct, limits are
    /// at least one, and the running jobs never exceed the counted active
    /// ones, which never exceed the limit.
    pub closed spec fn wf(&self) -> bool {
        &&& distinct_ids(self.jobs@)
        &&& self.max_concurrent >= 1
        &&& self.max_attempts >= 1
        &&& running_count(self.jobs@) <= self.active
        &&& self.active <= self.max_concurrent
    }

    /// Whether the counted active transfers are exactly the running jobs.
    pub open spec fn counts_running(&self) -> bool {
        running_count(self.jobs()) == self.active_count()
    }

    /// Whether the job queued under `id` is running.
    pub open spec fn runs(&self, id: TransferId) -> bool {
        self.job(id) matches Some(j) && j.status == TransferStatus::Running
    }

    /// The job with identifier `id`, if queued.
    pub open spec fn job(&self, id: TransferId) -> Option<TransferJob> {
        match index_of_job(self.jobs(), id) {
            Some(i) => Some(self.jobs()[i]),
            None => None,
        }
    }

    /// An empty queue; both limits are raised to at least one.
    pub fn new(max_concurrent: usize, max_attempts: u32) -> (q: TransferQueue)
        ensures
            q.wf(),
            q.jobs() == Seq::<TransferJob>::empty(),
            q.concurrency_limit() == if max_concurrent < 1 { 1 } else { max_concurrent as nat },
            q.attempt_limit() == if max_attempts < 1 { 1 } else { max_attempts as nat },
            q.active_count() == 0,
            q.counts_running(),
    {
        TransferQueue {
            max_concurrent: if max_concurrent < 1 { 1 } else { max_concurrent },
            max_attempts: if max_attempts < 1 { 1 } else { max_attempts },
            active: 0,
            jobs: Vec::new(),
        }
    }
}

} // verus!

verus! {

/// Changing one job changes the running count only by that job's change.
proof fn lemma_running_update(jobs: Seq<TransferJob>, i: int, job: TransferJob)
    requires
        0 <= i < jobs.len(),
    ensures
        running_count(jobs.update(i, job)) + (if jobs[i].status == TransferStatus::Running { 1int } else { 0int })
            == running_count(jobs) + (if job.status == TransferStatus::Running { 1int } else { 0int }),
    decreases jobs.len(),
{
    let u = jobs.update(i, job);
    if i == jobs.len() - 1 {
        assert(u.drop_last() == jobs.drop_last());
    } else {
        lemma_running_update(jobs.drop_last(), i, job);
        assert(u.drop_last() == jobs.drop_last().update(i, job));
    }
}

/// Adding a job adds one to the running count if it runs.
proof fn lemma_running_push(jobs: Seq<TransferJob>, job: TransferJob)
    ensures
        running_count(jobs.push(job)) == running_count(jobs) + (if job.status == TransferStatus::Running { 1nat } else { 0nat }),
{
    assert(jobs.push(job).drop_last() == jobs);
}

/// Removing a job removes it from the running count.
proof fn lemma_running_remove(jobs: Seq<TransferJob>, i: int)
    requires
        0 <= i < jobs.len(),
    ensures
        running_count(jobs.remove(i)) + (if jobs[i].status == TransferStatus::Running { 1int } else { 0int }) == running_count(jobs),
    decreases jobs.len(),
{
    if i == jobs.len() - 1 {
        assert(jobs.remove(i) == jobs.drop_last());
    } else {
        lemma_running_remove(jobs.drop_last(), i);
        assert(jobs.remove(i).drop_last() == jobs.drop_last().remove(i));
    }
}

/// With distinct identifiers, the job found for `id` is the one at `k`.
proof fn lemma_index_of_job(jobs: Seq<TransferJob>, id: TransferId)
    requires
        distinct_ids(jobs),
    ensures
        forall|k: int| 0 <= k < jobs.len() && jobs[k].id == id ==> index_of_job(jobs, id) == Some(k),
        (forall|k: int| 0 <= k < jobs.len() ==> jobs[k].id != id) ==> index_of_job(jobs, id) is None,
        index_of_job(jobs, id) matches Some(k) ==> 0 <= k < jobs.len() && jobs[k].id == id,
    decreases jobs.len(),
{
    if jobs.len() > 0 {
        let d = jobs.drop_last();
        assert(distinct_ids(d));
        lemma_index_of_job(d, id);
        assert forall|k: int| 0 <= k < jobs.len() && jobs[k].id == id implies index_of_job(jobs, id) == Some(k) by {
            if k < jobs.len() - 1 {
                assert(d[k] == jobs[k]);
                assert(jobs.last().id != id);
            }
        }
    }
}

/// Counting ready jobs one further.
proof fn lemma_ready_count_step(jobs: Seq<TransferJob>, now: u128, n: int)
    requires
        0 <= n,
    ensures
        ready_count(jobs, now, n + 1) == ready_count(jobs, now, n) + if ready_to_start(jobs[n], now) { 1nat } else { 0nat },
{
}

/// The ready count depends only on the jobs it counts.
proof fn lemma_ready_count_prefix(a: Seq<TransferJob>, b: Seq<TransferJob>, now: u128, n: int)
    requires
        0 <= n <= a.len(),
        n <= b.len(),
        forall|k: int| 0 <= k < n ==> a[k] == b[k],
    ensures
        ready_count(a, now, n) == ready_count(b, now, n),
    decreases n,
{
    if n > 0 {
        lemma_ready_count_prefix(a, b, now, n - 1);
    }
}

} // verus!

verus! {

/// The jobs without the one identified by `id`.
pub open spec fn without_job(jobs: Seq<TransferJob>, id: TransferId) -> Seq<TransferJob> {
    match index_of_job(jobs, id) {
        Some(k) => jobs.remove(k),
        None => jobs,
    }
}

/// The error for a missing job.
pub open spec fn not_found(id: TransferId, e: TransferError) -> bool {
    e matches TransferError::NotFound(m) && m@ == uuid_text(id.0)
}

/// The error for a job whose status does not allow the change.
pub open spec fn invalid_transition(id: TransferId, status: TransferStatus, e: TransferError) -> bool {
    e matches TransferError::InvalidTransition(m, s) && m@ == uuid_text(id.0) && s == status
}

/// `job` with its progress set to `bytes`, capped at its size when known.
pub open spec fn with_progress(job: TransferJob, bytes: u64) -> TransferJob {
    TransferJob {
        transferred_bytes: match job.total_bytes {
            Some(total) => if bytes < total { bytes } else { total },
            None => bytes,
        },
        ..job
    }
}

/// `job` with another status.
pub open spec fn with_status(job: TransferJob, status: TransferStatus) -> TransferJob {
    TransferJob { status, ..job }
}

/// `job` after a failure at `now` when `retry` says whether it is retried.
pub open spec fn after_failure(job: TransferJob, retry: bool, now: u128) -> TransferJob {
    if retry {
        TransferJob {
            status: TransferStatus::Pending,
            next_retry_at: Some((now + retry_delay_seconds(job.attempts) * NANOS_PER_SECOND) as u128),
            ..job
        }
    } else {
        with_status(job, TransferStatus::Failed)
    }
}

impl TransferQueue {
    /// The position of the job with identifier `id`.
    fn position(&self, id: TransferId) -> (r: Option<usize>)
        requires
            self.wf(),
        ensures
            r matches Some(k) ==> index_of_job(self.jobs(), id) == Some(k as int),
            r is None ==> index_of_job(self.jobs(), id) is None,
            r matches Some(k) ==> k < self.jobs().len() && self.jobs()[k as int].id == id,
    {
        proof {
            lemma_index_of_job(self.jobs@, id);
        }
        let n = self.jobs.len();
        for k in 0..n
            invariant
                n == self.jobs@.len(),
                distinct_ids(self.jobs@),
                forall|j: int| 0 <= j < k ==> self.jobs@[j].id != id,
        {
            if self.jobs[k].id == id {
                proof {
                    lemma_index_of_job(self.jobs@, id);
                }
                return Some(k);
            }
        }
        proof {
            lemma_index_of_job(self.jobs@, id);
        }
        None
    }

    /// The error for a missing job.
    fn missing(id: TransferId) -> (e: TransferError)
        ensures
            not_found(id, e),
    {
        TransferError::NotFound(id.to_text())
    }

    /// The error for a refused change.
    fn refused(id: TransferId, status: TransferStatus) -> (e: TransferError)
        ensures
            invalid_transition(id, status, e),
    {
        TransferError::InvalidTransition(id.to_text(), status)
    }

    /// Queues a transfer under a fresh random identifier; see
    /// [`TransferQueue::enqueue_with_id`].
    pub fn enqueue(
        &mut self,
        connection_id: ConnectionId,
        path: RemotePath,
        direction: TransferDirection,
        total_bytes: Option<u64>,
    ) -> (id: TransferId)
        requires
            old(self).wf(),
        ensures
            final(self).wf(),
            old(self).counts_running() && !old(self).runs(id) ==> final(self).counts_running(),
            final(self).jobs() == without_job(old(self).jobs(), id).push(TransferJob {
                id,
                connection_id,
                path,
                direction,
                total_bytes,
                transferred_bytes: 0,
                attempts: 0,
                status: TransferStatus::Pending,
                next_retry_at: None,
            }),
            final(self).active_count() == old(self).active_count(),
            final(self).concurrency_limit() == old(self).concurrency_limit(),
            final(self).attempt_limit() == old(self).attempt_limit(),
    {
        let id = TransferId::new();
        self.enqueue_with_id(id, connection_id, path, direction, total_bytes);
        id
    }

    /// Queues a pending transfer under `id` at the end of the queue; a job
    /// already queued under `id` is replaced.
    pub fn enqueue_with_id(
        &mut self,
        id: TransferId,
        connection_id: ConnectionId,
        path: RemotePath,
        direction: TransferDirection,
        total_bytes: Option<u64>,
    )
        requires
            old(self).wf(),
        ensures
            final(self).wf(),
            old(self).counts_running() && !old(self).runs(id) ==> final(self).counts_running(),
            final(self).jobs() == without_job(old(self).jobs(), id).push(TransferJob {
                id,
                connection_id,
                path,
                direction,
                total_bytes,
                transferred_bytes: 0,
                attempts: 0,
                status: TransferStatus::Pending,
                next_retry_at: None,
            }),
            final(self).active_count() == old(self).active_count(),
            final(self).concurrency_limit() == old(self).concurrency_limit(),
            final(self).attempt_limit() == old(self).attempt_limit(),
    {
        let ghost before = self.jobs@;
        match self.position(id) {
            Some(k) => {
                proof {
                    lemma_running_remove(before, k as int);
                }
                self.jobs.remove(k);
                proof {
                    assert(distinct_ids(self.jobs@)) by {
                        assert forall|a: int, b: int| 0 <= a < b < self.jobs@.len() implies self.jobs@[a].id != self.jobs@[b].id by {
                            let a2 = if a < k { a } else { a + 1 };
                            let b2 = if b < k { b } else { b + 1 };
                            assert(self.jobs@[a] == before[a2]);
                            assert(self.jobs@[b] == before[b2]);
                        }
                    }
                    assert forall|j: int| 0 <= j < self.jobs@.len() implies self.jobs@[j].id != id by {
                        let j2 = if j < k { j } else { j + 1 };
                        assert(self.jobs@[j] == before[j2]);
                    }
                }
            },
            None => {
                proof {
                    lemma_index_of_job(before, id);
                }
            },
        }
        let job = TransferJob {
            id,
            connection_id,
            path,
            direction,
            total_bytes,
            transferred_bytes: 0,
            attempts: 0,
            status: TransferStatus::Pending,
            next_retry_at: None,
        };
        let ghost kept = self.jobs@;
        proof {
            lemma_running_push(kept, job);
            lemma_index_of_job(before, id);
        }
        self.jobs.push(job);
        proof {
            assert(distinct_ids(self.jobs@)) by {
                assert forall|a: int, b: int| 0 <= a < b < self.jobs@.len() implies self.jobs@[a].id != self.jobs@[b].id by {
                    if b == self.jobs@.len() - 1 {
                        assert(self.jobs@[a] == kept[a]);
                    } else {
                        assert(self.jobs@[a] == kept[a]);
                        assert(self.jobs@[b] == kept[b]);
                    }
                }
            }
        }
    }

    /// Starts the pending jobs that are due, in queueing order, while fewer
    /// than the limit run; returns their identifiers. A started job counts one
    /// more attempt and forgets its retry time.
    pub fn start_available(&mut self, now: u128) -> (ids: Vec<TransferId>)
        requires
            old(self).wf(),
            forall|k: int| 0 <= k < old(self).jobs().len() && ready_to_start(old(self).jobs()[k], now)
                ==> old(self).jobs()[k].attempts < u32::MAX,
        ensures
            final(self).wf(),
            old(self).counts_running() ==> final(self).counts_running(),
            ({
                let capacity = (old(self).concurrency_limit() - old(self).active_count()) as nat;
                let before = old(self).jobs();
                &&& ids@ == chosen_ids(before, now, capacity, before.len() as int)
                &&& ids@.len() == min_nat(ready_count(before, now, before.len() as int), capacity)
                &&& final(self).jobs().len() == before.len()
                &&& forall|k: int| 0 <= k < before.len() ==> #[trigger] final(self).jobs()[k] == if chosen_to_start(before, now, capacity, k) {
                    started(before[k])
                } else {
                    before[k]
                }
                &&& final(self).active_count() == old(self).active_count() + ids@.len()
            }),
            old(self).counts_running() ==> ids@.len() == min_nat(
                ready_count(old(self).jobs(), now, old(self).jobs().len() as int),
                (old(self).concurrency_limit() - running_count(old(self).jobs())) as nat,
            ),
            final(self).concurrency_limit() == old(self).concurrency_limit(),
            final(self).attempt_limit() == old(self).attempt_limit(),
    {
        let capacity = self.max_concurrent - self.active;
        let ghost cap = capacity as nat;
        let ghost before = self.jobs@;
        let n = self.jobs.len();
        let mut ids: Vec<TransferId> = Vec::new();
        let mut count: usize = 0;
        for i in 0..n
            invariant
                n == before.len(),
                self.jobs@.len() == n,
                capacity == self.max_concurrent - self.active,
                cap == capacity as nat,
                old(self).wf(),
                before == old(self).jobs@,
                self.max_concurrent == old(self).max_concurrent,
                self.max_attempts == old(self).max_attempts,
                self.active == old(self).active,
                forall|k: int| 0 <= k < n && ready_to_start(before[k], now) ==> before[k].attempts < u32::MAX,
                count == ids@.len(),
                count as nat == min_nat(ready_count(before, now, i as int), cap),
                ids@ == chosen_ids(before, now, cap, i as int),
                running_count(self.jobs@) == running_count(before) + count,
                distinct_ids(self.jobs@),
                forall|k: int| 0 <= k < n ==> self.jobs@[k].id == before[k].id,
                forall|k: int| 0 <= k < i ==> self.jobs@[k] == if chosen_to_start(before, now, cap, k) {
                    started(before[k])
                } else {
                    before[k]
                },
                forall|k: int| i <= k < n ==> self.jobs@[k] == before[k],
        {
            proof {
                lemma_ready_count_step(before, now, i as int);
            }
            let ready = self.jobs[i].status == TransferStatus::Pending && match self.jobs[i].next_retry_at {
                None => true,
                Some(at) => at <= now,
            };
            if ready && count < capacity {
                let ghost prior = self.jobs@;
                let job_id = self.jobs[i].id;
                self.jobs[i].status = TransferStatus::Running;
                self.jobs[i].attempts = self.jobs[i].attempts + 1;
                self.jobs[i].next_retry_at = None;
                proof {
                    assert(self.jobs@ == prior.update(i as int, started(before[i as int])));
                    lemma_running_update(prior, i as int, started(before[i as int]));
                    assert(distinct_ids(self.jobs@)) by {
                        assert forall|a: int, b: int| 0 <= a < b < n implies self.jobs@[a].id != self.jobs@[b].id by {
                            assert(self.jobs@[a].id == before[a].id);
                            assert(self.jobs@[b].id == before[b].id);
                            assert(old(self).jobs@[a].id != old(self).jobs@[b].id);
                        }
                    }
                }
                ids.push(job_id);
                count = count + 1;
            }
        }
        proof {
            assert(running_count(self.jobs@) <= self.active + count);
        }
        self.active = self.active + count;
        ids
    }

    /// Records progress of a running job, capped at its size when known.
    pub fn update_progress(&mut self, id: TransferId, transferred_bytes: u64) -> (r: Result<(), TransferError>)
        requires
            old(self).wf(),
        ensures
            final(self).wf(),
            old(self).counts_running() ==> final(self).counts_running(),
            final(self).concurrency_limit() == old(self).concurrency_limit(),
            final(self).attempt_limit() == old(self).attempt_limit(),
            final(self).active_count() == old(self).active_count(),
            match index_of_job(old(self).jobs(), id) {
                None => r matches Err(e) && not_found(id, e) && final(self).jobs() == old(self).jobs(),
                Some(k) => if old(self).jobs()[k].status != TransferStatus::Running {
                    r matches Err(e) && invalid_transition(id, old(self).jobs()[k].status, e) && final(self).jobs() == old(self).jobs()
                } else {
                    r is Ok && final(self).jobs() == old(self).jobs().update(k, with_progress(old(self).jobs()[k], transferred_bytes))
                },
            },
    {
        let k = match self.position(id) {
            Some(k) => k,
            None => return Err(Self::missing(id)),
        };
        let status = self.jobs[k].status;
        if status != TransferStatus::Running {
            return Err(Self::refused(id, status));
        }
        let ghost prior = self.jobs@;
        let value = match self.jobs[k].total_bytes {
            Some(total) => if transferred_bytes < total { transferred_bytes } else { total },
            None => transferred_bytes,
        };
        self.jobs[k].transferred_bytes = value;
        proof {
            assert(self.jobs@ == prior.update(k as int, with_progress(prior[k as int], transferred_bytes)));
            lemma_running_update(prior, k as int, with_progress(prior[k as int], transferred_bytes));
            assert(distinct_ids(self.jobs@)) by {
                assert forall|a: int, b: int| 0 <= a < b < self.jobs@.len() implies self.jobs@[a].id != self.jobs@[b].id by {
                    assert(self.jobs@[a].id == prior[a].id);
                    assert(self.jobs@[b].id == prior[b].id);
                }
            }
        }
        Ok(())
    }

    /// Changes the status of job `k`, adjusting the active count by `release`.
    fn set_status(&mut self, k: usize, status: TransferStatus, release: bool)
        requires
            old(self).wf(),
            k < old(self).jobs().len(),
            release <==> old(self).jobs()[k as int].status == TransferStatus::Running,
            status != TransferStatus::Running,
        ensures
            final(self).wf(),
            running_count(final(self).jobs()) + (if release { 1int } else { 0int }) == running_count(old(self).jobs()),
            final(self).jobs() == old(self).jobs().update(k as int, with_status(old(self).jobs()[k as int], status)),
            final(self).concurrency_limit() == old(self).concurrency_limit(),
            final(self).attempt_limit() == old(self).attempt_limit(),
            final(self).active_count() == if release { old(self).active_count() - 1 } else { old(self).active_count() as int },
    {
        let ghost prior = self.jobs@;
        self.jobs[k].status = status;
        proof {
            assert(self.jobs@ == prior.update(k as int, with_status(prior[k as int], status)));
            lemma_running_update(prior, k as int, with_status(prior[k as int], status));
            assert(distinct_ids(self.jobs@)) by {
                assert forall|a: int, b: int| 0 <= a < b < self.jobs@.len() implies self.jobs@[a].id != self.jobs@[b].id by {
                    assert(self.jobs@[a].id == prior[a].id);
                    assert(self.jobs@[b].id == prior[b].id);
                }
            }
        }
        if release {
            self.active = self.active - 1;
        }
    }

    /// Marks a running job completed.
    pub fn complete(&mut self, id: TransferId) -> (r: Result<(), TransferError>)
        requires
            old(self).wf(),
        ensures
            final(self).wf(),
            old(self).counts_running() ==> final(self).counts_running(),
            final(self).concurrency_limit() == old(self).concurrency_limit(),
            final(self).attempt_limit() == old(self).attempt_limit(),
            match index_of_job(old(self).jobs(), id) {
                None => r matches Err(e) && not_found(id, e) && final(self).jobs() == old(self).jobs()
                    && final(self).active_count() == old(self).active_count(),
                Some(k) => if old(self).jobs()[k].status != TransferStatus::Running {
                    r matches Err(e) && invalid_transition(id, old(self).jobs()[k].status, e)
                        && final(self).jobs() == old(self).jobs() && final(self).active_count() == old(self).active_count()
                } else {
                    r is Ok && final(self).jobs() == old(self).jobs().update(k, with_status(old(self).jobs()[k], TransferStatus::Completed))
                        && final(self).active_count() == old(self).active_count() - 1
                },
            },
    {
        let k = match self.position(id) {
            Some(k) => k,
            None => return Err(Self::missing(id)),
        };
        let status = self.jobs[k].status;
        if status != TransferStatus::Running {
            return Err(Self::refused(id, status));
        }
        self.set_status(k, TransferStatus::Completed, true);
        Ok(())
    }

    /// Records a failure of a running job: a retryable failure with attempts
    /// left makes it pending again until the backoff has passed, any other
    /// failure makes it failed.
    pub fn fail(&mut self, id: TransferId, retryable: bool, now: u128) -> (r: Result<(), TransferError>)
        requires
            old(self).wf(),
            now <= u128::MAX - 128 * NANOS_PER_SECOND,
        ensures
            final(self).wf(),
            old(self).counts_running() ==> final(self).counts_running(),
            final(self).concurrency_limit() == old(self).concurrency_limit(),
            final(self).attempt_limit() == old(self).attempt_limit(),
            match index_of_job(old(self).jobs(), id) {
                None => r matches Err(e) && not_found(id, e) && final(self).jobs() == old(self).jobs()
                    && final(self).active_count() == old(self).active_count(),
                Some(k) => if old(self).jobs()[k].status != TransferStatus::Running {
                    r matches Err(e) && invalid_transition(id, old(self).jobs()[k].status, e)
                        && final(self).jobs() == old(self).jobs() && final(self).active_count() == old(self).active_count()
                } else {
                    r is Ok && final(self).active_count() == old(self).active_count() - 1
                        && final(self).jobs() == old(self).jobs().update(k, after_failure(
                            old(self).jobs()[k],
                            retryable && old(self).jobs()[k].attempts < old(self).attempt_limit(),
                            now,
                        ))
                },
            },
    {
        let k = match self.position(id) {
            Some(k) => k,
            None => return Err(Self::missing(id)),
        };
        let status = self.jobs[k].status;
        if status != TransferStatus::Running {
            return Err(Self::refused(id, status));
        }
        let attempts = self.jobs[k].attempts;
        let retry = retryable && attempts < self.max_attempts;
        if retry {
            let exponent: u32 = if attempts < 7 { attempts } else { 7 };
            let delay = backoff_seconds(exponent);
            let ghost prior = self.jobs@;
            self.jobs[k].status = TransferStatus::Pending;
            self.jobs[k].next_retry_at = Some(now + delay * NANOS_PER_SECOND);
            proof {
                assert(retry_delay_seconds(attempts) == delay as nat);
                assert(self.jobs@ == prior.update(k as int, after_failure(prior[k as int], true, now)));
                lemma_running_update(prior, k as int, after_failure(prior[k as int], true, now));
                assert(distinct_ids(self.jobs@)) by {
                    assert forall|a: int, b: int| 0 <= a < b < self.jobs@.len() implies self.jobs@[a].id != self.jobs@[b].id by {
                        assert(self.jobs@[a].id == prior[a].id);
                        assert(self.jobs@[b].id == prior[b].id);
                    }
                }
            }
            self.active = self.active - 1;
        } else {
            self.set_status(k, TransferStatus::Failed, true);
        }
        Ok(())
    }

    /// Pauses a pending or running job.
    pub fn pause(&mut self, id: TransferId) -> (r: Result<(), TransferError>)
        requires
            old(self).wf(),
        ensures
            final(self).wf(),
            old(self).counts_running() ==> final(self).counts_running(),
            final(self).concurrency_limit() == old(self).concurrency_limit(),
            final(self).attempt_limit() == old(self).attempt_limit(),
            match index_of_job(old(self).jobs(), id) {
                None => r matches Err(e) && not_found(id, e) && final(self).jobs() == old(self).jobs()
                    && final(self).active_count() == old(self).active_count(),
                Some(k) => {
                    let s = old(self).jobs()[k].status;
                    if s == TransferStatus::Pending || s == TransferStatus::Running {
                        r is Ok && final(self).jobs() == old(self).jobs().update(k, with_status(old(self).jobs()[k], TransferStatus::Paused))
                            && final(self).active_count() == old(self).active_count() - if s == TransferStatus::Running { 1int } else { 0int }
                    } else {
                        r matches Err(e) && invalid_transition(id, s, e)
                            && final(self).jobs() == old(self).jobs() && final(self).active_count() == old(self).active_count()
                    }
                },
            },
    {
        let k = match self.position(id) {
            Some(k) => k,
            None => return Err(Self::missing(id)),
        };
        let status = self.jobs[k].status;
        match status {
            TransferStatus::Pending => self.set_status(k, TransferStatus::Paused, false),
            TransferStatus::Running => self.set_status(k, TransferStatus::Paused, true),
            _ => return Err(Self::refused(id, status)),
        }
        Ok(())
    }

    /// Makes a paused job pending again.
    pub fn resume(&mut self, id: TransferId) -> (r: Result<(), TransferError>)
        requires
            old(self).wf(),
        ensures
            final(self).wf(),
            old(self).counts_running() ==> final(self).counts_running(),
            final(self).concurrency_limit() == old(self).concurrency_limit(),
            final(self).attempt_limit() == old(self).attempt_limit(),
            final(self).active_count() == old(self).active_count(),
            match index_of_job(old(self).jobs(), id) {
                None => r matches Err(e) && not_found(id, e) && final(self).jobs() == old(self).jobs(),
                Some(k) => if old(self).jobs()[k].status != TransferStatus::Paused {
                    r matches Err(e) && invalid_transition(id, old(self).jobs()[k].status, e) && final(self).jobs() == old(self).jobs()
                } else {
                    r is Ok && final(self).jobs() == old(self).jobs().update(k, with_status(old(self).jobs()[k], TransferStatus::Pending))
                },
            },
    {
        let k = match self.position(id) {
            Some(k) => k,
            None => return Err(Self::missing(id)),
        };
        let status = self.jobs[k].status;
        if status != TransferStatus::Paused {
            return Err(Self::refused(id, status));
        }
        self.set_status(k, TransferStatus::Pending, false);
        Ok(())
    }

    /// Cancels a pending, paused or running job.
    pub fn cancel(&mut self, id: TransferId) -> (r: Result<(), TransferError>)
        requires
            old(self).wf(),
        ensures
            final(self).wf(),
            old(self).counts_running() ==> final(self).counts_running(),
            final(self).concurrency_limit() == old(self).concurrency_limit(),
            final(self).attempt_limit() == old(self).attempt_limit(),
            match index_of_job(old(self).jobs(), id) {
                None => r matches Err(e) && not_found(id, e) && final(self).jobs() == old(self).jobs()
                    && final(self).active_count() == old(self).active_count(),
                Some(k) => {
                    let s = old(self).jobs()[k].status;
                    if s == TransferStatus::Pending || s == TransferStatus::Paused || s == TransferStatus::Running {
                        r is Ok && final(self).jobs() == old(self).jobs().update(k, with_status(old(self).jobs()[k], TransferStatus::Cancelled))
                            && final(self).active_count() == old(self).active_count() - if s == TransferStatus::Running { 1int } else { 0int }
                    } else {
                        r matches Err(e) && invalid_transition(id, s, e)
                            && final(self).jobs() == old(self).jobs() && final(self).active_count() == old(self).active_count()
                    }
                },
            },
    {
        let k = match self.position(id) {
            Some(k) => k,
            None => return Err(Self::missing(id)),
        };
        let status = self.jobs[k].status;
        match status {
            TransferStatus::Pending | TransferStatus::Paused => self.set_status(k, TransferStatus::Cancelled, false),
            TransferStatus::Running => self.set_status(k, TransferStatus::Cancelled, true),
            _ => return Err(Self::refused(id, status)),
        }
        Ok(())
    }

    /// The job with identifier `id`.
    pub fn get(&self, id: TransferId) -> (r: Result<&TransferJob, TransferError>)
        requires
            self.wf(),
        ensures
            match self.job(id) {
                Some(j) => r matches Ok(found) && *found == j,
                None => r matches Err(e) && not_found(id, e),
            },
    {
        match self.position(id) {
            Some(k) => Ok(&self.jobs[k]),
            None => Err(Self::missing(id)),
        }
    }
}

/// Two to the power `exponent`, for exponents up to 7.
fn backoff_seconds(exponent: u32) -> (r: u128)
    requires
        exponent <= 7,
    ensures
        r as nat == two_pow(exponent as nat),
        r <= 128,
{
    proof {
        reveal_with_fuel(two_pow, 8);
    }
    match exponent {
        0 => 1,
        1 => 2,
        2 => 4,
        3 => 8,
        4 => 16,
        5 => 32,
        6 => 64,
        _ => 128,
    }
}

} // verus!

verus! {

/// At most the configured number of transfers run at once, and the queue
/// never counts more active transfers than that.
pub proof fn lemma_running_within_limit(q: &TransferQueue)
    requires
        q.wf(),
    ensures
        running_count(q.jobs()) <= q.active_count() <= q.concurrency_limit(),
        q.concurrency_limit() >= 1,
        q.attempt_limit() >= 1,
{
}

/// The ready count never shrinks as more jobs are counted.
proof fn lemma_ready_count_monotone(jobs: Seq<TransferJob>, now: u128, a: int, b: int)
    requires
        0 <= a <= b,
    ensures
        ready_count(jobs, now, a) <= ready_count(jobs, now, b),
    decreases b - a,
{
    if a < b {
        lemma_ready_count_monotone(jobs, now, a, b - 1);
    }
}

/// Transfers start in queueing order: when a job is started, every earlier
/// job that was ready is started too.
pub proof fn lemma_start_in_queue_order(jobs: Seq<TransferJob>, now: u128, capacity: nat, earlier: int, later: int)
    requires
        0 <= earlier < later < jobs.len(),
        chosen_to_start(jobs, now, capacity, later),
        ready_to_start(jobs[earlier], now),
    ensures
        chosen_to_start(jobs, now, capacity, earlier),
{
    lemma_ready_count_monotone(jobs, now, earlier, later);
}

/// The retry backoff doubles with each attempt and is capped at 128 seconds.
pub proof fn lemma_retry_backoff_capped(attempts: u32)
    ensures
        1 <= retry_delay_seconds(attempts) <= 128,
        attempts < 7 ==> retry_delay_seconds((attempts + 1) as u32) == 2 * retry_delay_seconds(attempts),
        attempts >= 7 ==> retry_delay_seconds(attempts) == 128,
{
    reveal_with_fuel(two_pow, 8);
    assert(attempts < 7 ==> retry_delay_seconds(attempts) <= 64) by {
        if attempts < 7 {
            assert(attempts == 0 || attempts == 1 || attempts == 2 || attempts == 3 || attempts == 4 || attempts == 5 || attempts == 6);
        }
    }
}

/// Recorded progress never exceeds a known size.
pub proof fn lemma_progress_bounded(job: TransferJob, bytes: u64)
    ensures
        with_progress(job, bytes).total_bytes == job.total_bytes,
        with_progress(job, bytes).total_bytes matches Some(t) ==> with_progress(job, bytes).transferred_bytes <= t,
        with_progress(job, bytes).total_bytes is None ==> with_progress(job, bytes).transferred_bytes == bytes,
{
}

/// Only due jobs start: a job chosen to start is pending and, when it waits
/// for a retry, its retry time has come.
pub proof fn lemma_started_jobs_are_due(jobs: Seq<TransferJob>, now: u128, capacity: nat, k: int)
    requires
        chosen_to_start(jobs, now, capacity, k),
    ensures
        jobs[k].status == TransferStatus::Pending,
        jobs[k].next_retry_at matches Some(at) ==> at <= now,
{
}

/// A failed job that is retried waits before it starts again: it may start
/// only once at least its backoff (one second or more) has passed since the
/// failure, and a job failed for good never starts again.
pub proof fn lemma_retry_waits_for_its_backoff(job: TransferJob, failed_at: u128, now: u128)
    requires
        failed_at <= u128::MAX - 128 * NANOS_PER_SECOND,
    ensures
        ready_to_start(after_failure(job, true, failed_at), now) ==> now >= failed_at + retry_delay_seconds(job.attempts)
            * NANOS_PER_SECOND && now >= failed_at + NANOS_PER_SECOND,
        !ready_to_start(after_failure(job, false, failed_at), now),
{
    lemma_retry_backoff_capped(job.attempts);
    let d = retry_delay_seconds(job.attempts);
    assert(NANOS_PER_SECOND <= d * NANOS_PER_SECOND <= 128 * NANOS_PER_SECOND) by (nonlinear_arith)
        requires
            1 <= d <= 128,
    ;
}

} // verus!
