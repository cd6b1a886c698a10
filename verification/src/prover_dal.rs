//! Prover job queue: idempotent fan-out of proof-circuit jobs, atomic
//! leasing to workers, completion, and stuck-lease recovery.
use vstd::prelude::*;

use crate::types::{JobOutcome, QueueError, Status};

verus! {

/// A persisted prover job row. Jobs are keyed by the tuple
/// `(batch_number, circuit_type, aggregation_round)`, which is unique over
/// the whole table; rows persist through `Completed` for reporting.
#[derive(Clone, Copy, Debug, PartialEq, Eq)]
pub struct ProverJob {
    /// Opaque row identifier, stable once created.
    pub id: u64,
    /// The batch this proof job belongs to.
    pub batch_number: u64,
    /// Identifier of the proof circuit kind.
    pub circuit_type: u64,
    /// Aggregation round of the job within its batch.
    pub aggregation_round: u32,
    /// Protocol version the job was planned under.
    pub protocol_version: u32,
    /// Lifecycle state; jobs cycle `Queued` and `Leased` until `Completed`.
    pub status: Status,
    /// Insertion timestamp.
    pub created_at: u64,
    /// When the current lease was granted; `Some` exactly while `Leased`.
    pub leased_at: Option<u64>,
    /// When the job completed, once `Completed`.
    pub completed_at: Option<u64>,
    /// How many times the job has been leased.
    pub attempt_count: u64,
}

/// Entry `i` of `s` carries the job key `(batch, circuit, round)`.
pub open spec fn job_tuple_at(s: Seq<ProverJob>, i: int, batch: u64, circuit: u64, round: u32) -> bool {
    &&& 0 <= i < s.len()
    &&& s[i].batch_number == batch
    &&& s[i].circuit_type == circuit
    &&& s[i].aggregation_round == round
}

/// Some row of `s` carries the job key `(batch, circuit, round)`.
pub open spec fn has_job_tuple(s: Seq<ProverJob>, batch: u64, circuit: u64, round: u32) -> bool {
    exists|i: int| job_tuple_at(s, i, batch, circuit, round)
}

/// Per-row invariant: `leased_at` is set exactly while `Leased`, stored rows
/// are never `Discarded`, and a row that left `Queued` at least once has
/// been leased at least once.
pub open spec fn job_row_ok(j: ProverJob) -> bool {
    &&& (j.status == Status::Leased <==> j.leased_at is Some)
    &&& j.status != Status::Discarded
    &&& (j.status == Status::Leased || j.status == Status::Completed) ==> j.attempt_count >= 1
}

/// Every row id is below the next fresh id.
pub open spec fn job_ids_fresh(s: Seq<ProverJob>, next_id: u64) -> bool {
    forall|i: int| 0 <= i < s.len() ==> (#[trigger] s[i]).id < next_id
}

/// Row ids are pairwise distinct.
pub open spec fn job_ids_distinct(s: Seq<ProverJob>) -> bool {
    forall|i: int, j: int| 0 <= i < j < s.len() ==> (#[trigger] s[i]).id != (#[trigger] s[j]).id
}

/// Job keys are pairwise distinct: idempotent insertion never duplicates.
pub open spec fn job_tuples_distinct(s: Seq<ProverJob>) -> bool {
    forall|i: int, j: int|
        0 <= i < j < s.len() ==> !((#[trigger] s[i]).batch_number == (#[trigger] s[j]).batch_number
            && s[i].circuit_type == s[j].circuit_type && s[i].aggregation_round
            == s[j].aggregation_round)
}

/// Well-formedness of a prover job table.
pub open spec fn jobs_wf(s: Seq<ProverJob>, next_id: u64) -> bool {
    &&& job_ids_fresh(s, next_id)
    &&& job_ids_distinct(s)
    &&& job_tuples_distinct(s)
    &&& forall|i: int| 0 <= i < s.len() ==> job_row_ok(#[trigger] s[i])
}

/// The fresh `Queued` row created for one circuit of a batch fan-out.
pub open spec fn fresh_job(
    batch: u64,
    circuit: u64,
    round: u32,
    protocol_version: u32,
    id: u64,
    now: u64,
) -> ProverJob {
    ProverJob {
        id,
        batch_number: batch,
        circuit_type: circuit,
        aggregation_round: round,
        protocol_version,
        status: Status::Queued,
        created_at: now,
        leased_at: None,
        completed_at: None,
        attempt_count: 0,
    }
}

/// State transition of `enqueue_jobs`, processing `circuits[i..]` in order:
/// a circuit whose key already has a row is skipped (idempotence), any other
/// circuit gets a fresh `Queued` row under the next id.
pub open spec fn enqueue_model(
    s: Seq<ProverJob>,
    batch: u64,
    circuits: Seq<u64>,
    round: u32,
    protocol_version: u32,
    now: u64,
    next_id: int,
    i: int,
) -> (Seq<ProverJob>, int)
    decreases circuits.len() - i,
{
    if i < 0 || i >= circuits.len() {
        (s, next_id)
    } else if has_job_tuple(s, batch, circuits[i], round) {
        enqueue_model(s, batch, circuits, round, protocol_version, now, next_id, i + 1)
    } else {
        enqueue_model(
            s.push(fresh_job(batch, circuits[i], round, protocol_version, next_id as u64, now)),
            batch,
            circuits,
            round,
            protocol_version,
            now,
            next_id + 1,
            i + 1,
        )
    }
}

/// A job a worker may lease: still `Queued`, under an allowed protocol
/// version.
pub open spec fn job_eligible(j: ProverJob, allowed: Seq<u32>) -> bool {
    j.status == Status::Queued && allowed.contains(j.protocol_version)
}

/// Row `i` is the first eligible row of `s`.
pub open spec fn first_eligible_at(s: Seq<ProverJob>, allowed: Seq<u32>, i: int) -> bool {
    &&& 0 <= i < s.len()
    &&& job_eligible(s[i], allowed)
    &&& forall|k: int| 0 <= k < i ==> !job_eligible(#[trigger] s[k], allowed)
}

/// Some row of `s` is eligible under `allowed`.
pub open spec fn has_eligible(s: Seq<ProverJob>, allowed: Seq<u32>) -> bool {
    exists|i: int| 0 <= i < s.len() && job_eligible(#[trigger] s[i], allowed)
}

/// The index of the first eligible row; well defined when one exists.
pub open spec fn first_eligible(s: Seq<ProverJob>, allowed: Seq<u32>) -> int {
    choose|i: int| first_eligible_at(s, allowed, i)
}

/// Attempt counter after one more lease; the counter saturates rather than
/// wrap at its machine limit.
pub open spec fn bumped(a: u64) -> u64 {
    if a < u64::MAX {
        (a + 1) as u64
    } else {
        a
    }
}

/// The row produced by leasing job `j` at `now`.
pub open spec fn leased_job(j: ProverJob, now: u64) -> ProverJob {
    ProverJob {
        status: Status::Leased,
        leased_at: Some(now),
        attempt_count: bumped(j.attempt_count),
        ..j
    }
}

/// State transition of `lease_next`: the first eligible row, if any, is
/// claimed.
pub open spec fn lease_model(s: Seq<ProverJob>, allowed: Seq<u32>, now: u64) -> Seq<ProverJob> {
    if has_eligible(s, allowed) {
        let i = first_eligible(s, allowed);
        s.update(i, leased_job(s[i], now))
    } else {
        s
    }
}

/// The entry `lease_next` hands to the worker, if any.
pub open spec fn lease_result(s: Seq<ProverJob>, allowed: Seq<u32>, now: u64) -> Option<ProverJob> {
    if has_eligible(s, allowed) {
        Some(leased_job(s[first_eligible(s, allowed)], now))
    } else {
        None
    }
}

/// Row `i` of `s` is the leased row with id `id`.
pub open spec fn leased_id_at(s: Seq<ProverJob>, i: int, id: u64) -> bool {
    &&& 0 <= i < s.len()
    &&& s[i].id == id
    &&& s[i].status == Status::Leased
}

/// Some row of `s` is leased under id `id`.
pub open spec fn has_leased_id(s: Seq<ProverJob>, id: u64) -> bool {
    exists|i: int| leased_id_at(s, i, id)
}

/// The index of the leased row with id `id`; well defined under `jobs_wf`.
pub open spec fn leased_id_index(s: Seq<ProverJob>, id: u64) -> int {
    choose|i: int| leased_id_at(s, i, id)
}

/// The row produced by completing job `j` successfully at `now`.
pub open spec fn completed_job(j: ProverJob, now: u64) -> ProverJob {
    ProverJob { status: Status::Completed, leased_at: None, completed_at: Some(now), ..j }
}

/// The row produced by returning job `j` to the queue.
pub open spec fn requeued_job(j: ProverJob) -> ProverJob {
    ProverJob { status: Status::Queued, leased_at: None, ..j }
}

/// State transition of `complete`: a leased row moves to `Completed` on
/// success or back to `Queued` on failure; anything else is left unchanged.
pub open spec fn complete_model(s: Seq<ProverJob>, id: u64, outcome: JobOutcome, now: u64) -> Seq<
    ProverJob,
> {
    if has_leased_id(s, id) {
        let i = leased_id_index(s, id);
        if outcome == JobOutcome::Successful {
            s.update(i, completed_job(s[i], now))
        } else {
            s.update(i, requeued_job(s[i]))
        }
    } else {
        s
    }
}

/// The time a leased row was claimed at; meaningful under `job_row_ok`.
pub open spec fn lease_time(j: ProverJob) -> u64 {
    match j.leased_at {
        Some(t) => t,
        None => 0,
    }
}

/// A lease is stuck once its grant time precedes `now - timeout`.
pub open spec fn job_stuck(j: ProverJob, timeout: u64, now: u64) -> bool {
    j.status == Status::Leased && lease_time(j) + timeout < now
}

/// State transition of `reclaim_stuck`, scanning `s[i..]` with `budget`
/// requeues left: each stuck lease found is returned to `Queued` and its id
/// reported, in table order.
pub open spec fn reclaim_model(
    s: Seq<ProverJob>,
    timeout: u64,
    budget: int,
    now: u64,
    i: int,
) -> (Seq<ProverJob>, Seq<u64>)
    decreases s.len() - i,
{
    if i < 0 || i >= s.len() || budget <= 0 {
        (s, Seq::empty())
    } else if job_stuck(s[i], timeout, now) {
        let s2 = s.update(i, requeued_job(s[i]));
        let r = reclaim_model(s2, timeout, budget - 1, now, i + 1);
        (r.0, seq![s[i].id] + r.1)
    } else {
        reclaim_model(s, timeout, budget, now, i + 1)
    }
}

/// The number of stuck leases in `s[i..]`.
pub open spec fn count_stuck_from(s: Seq<ProverJob>, timeout: u64, now: u64, i: int) -> int
    decreases s.len() - i,
{
    if i < 0 || i >= s.len() {
        0
    } else {
        (if job_stuck(s[i], timeout, now) {
            1int
        } else {
            0int
        }) + count_stuck_from(s, timeout, now, i + 1)
    }
}

/// The prover job queue component: job fan-out per batch, atomic leasing to
/// workers, completion, and stuck-lease recovery.
#[derive(Debug)]
pub struct ProverJobsDal {
    /// Rows in insertion order; rows persist through `Completed`.
    pub jobs: Vec<ProverJob>,
    /// Next fresh row id; every stored id is below it.
    pub next_id: u64,
}

impl View for ProverJobsDal {
    type V = Seq<ProverJob>;

    open spec fn view(&self) -> Seq<ProverJob> {
        self.jobs@
    }
}

impl ProverJobsDal {
    /// Well-formedness of the component: see `jobs_wf`.
    pub open spec fn wf(self) -> bool {
        jobs_wf(self@, self.next_id)
    }

    /// An empty prover job queue.
    pub fn new() -> (r: ProverJobsDal)
        ensures
            r@ == Seq::<ProverJob>::empty(),
            r.next_id == 0,
            r.wf(),
    {
        ProverJobsDal { jobs: Vec::new(), next_id: 0 }
    }

    /// Copies the table state into a fresh component, for a transactional
    /// scope.
    pub fn snapshot(&self) -> (r: ProverJobsDal)
        ensures
            r@ == self@,
            r.next_id == self.next_id,
    {
        ProverJobsDal { jobs: copy_jobs(&self.jobs), next_id: self.next_id }
    }

    /// Fans out one `Queued` job per circuit of `circuits` for the given
    /// batch and round. A circuit whose `(batch, circuit, round)` key
    /// already has a row — in any state — is skipped: re-enqueueing is an
    /// error-free no-op per existing key, tolerating at-least-once
    /// producers.
    #[verifier::loop_isolation(false)]
    pub fn enqueue_jobs(
        &mut self,
        batch_number: u64,
        circuits: &Vec<u64>,
        aggregation_round: u32,
        protocol_version: u32,
        now: u64,
    )
        requires
            old(self).wf(),
            old(self).next_id + circuits@.len() <= u64::MAX,
        ensures
            final(self).wf(),
            (final(self)@, final(self).next_id as int) == enqueue_model(
                old(self)@,
                batch_number,
                circuits@,
                aggregation_round,
                protocol_version,
                now,
                old(self).next_id as int,
                0,
            ),
    {
        let ghost target = enqueue_model(
            old(self)@,
            batch_number,
            circuits@,
            aggregation_round,
            protocol_version,
            now,
            old(self).next_id as int,
            0,
        );
        let m = circuits.len();
        let mut i: usize = 0;
        while i < m
            invariant
                0 <= i <= m,
                self.next_id as int + (m - i) <= u64::MAX,
                jobs_wf(self@, self.next_id),
                target == enqueue_model(
                    self@,
                    batch_number,
                    circuits@,
                    aggregation_round,
                    protocol_version,
                    now,
                    self.next_id as int,
                    i as int,
                ),
            decreases m - i,
        {
            let c = circuits[i];
            if !has_tuple(&self.jobs, batch_number, c, aggregation_round) {
                let job = ProverJob {
                    id: self.next_id,
                    batch_number,
                    circuit_type: c,
                    aggregation_round,
                    protocol_version,
                    status: Status::Queued,
                    created_at: now,
                    leased_at: None,
                    completed_at: None,
                    attempt_count: 0,
                };
                let ghost pre = self@;
                self.jobs.push(job);
                self.next_id = self.next_id + 1;
                proof {
                    lemma_jobs_wf_push(
                        pre,
                        batch_number,
                        c,
                        aggregation_round,
                        protocol_version,
                        (self.next_id - 1) as u64,
                        now,
                    );
                }
            }
            i += 1;
        }
    }

    /// Atomically claims the first `Queued` job whose protocol version is in
    /// `allowed`: the row moves to `Leased`, is stamped `leased_at = now`,
    /// its attempt counter rises, and the claimed row is returned. Returns
    /// `None` exactly when no eligible job exists.
    #[verifier::loop_isolation(false)]
    pub fn lease_next(&mut self, allowed: &Vec<u32>, now: u64) -> (r: Option<ProverJob>)
        requires
            old(self).wf(),
        ensures
            final(self).wf(),
            final(self).next_id == old(self).next_id,
            final(self)@ == lease_model(old(self)@, allowed@, now),
            r == lease_result(old(self)@, allowed@, now),
    {
        let ghost s0 = self@;
        let n = self.jobs.len();
        let mut i: usize = 0;
        while i < n
            invariant
                0 <= i <= n,
                self@ == s0,
                self.next_id == old(self).next_id,
                forall|k: int| 0 <= k < i ==> !job_eligible(#[trigger] s0[k], allowed@),
            decreases n - i,
        {
            let j = self.jobs[i];
            if j.status == Status::Queued && contains_version(allowed, j.protocol_version) {
                proof {
                    assert(first_eligible_at(s0, allowed@, i as int));
                    let fe = first_eligible(s0, allowed@);
                    assert(first_eligible_at(s0, allowed@, fe));
                    if fe < i as int {
                        assert(!job_eligible(s0[fe], allowed@));
                    } else if fe > i as int {
                        assert(!job_eligible(s0[i as int], allowed@));
                    }
                }
                let attempts = if j.attempt_count < u64::MAX {
                    j.attempt_count + 1
                } else {
                    j.attempt_count
                };
                let updated = ProverJob {
                    status: Status::Leased,
                    leased_at: Some(now),
                    attempt_count: attempts,
                    ..j
                };
                self.jobs[i] = updated;
                proof {
                    lemma_jobs_wf_update(s0, i as int, updated, self.next_id);
                }
                return Some(updated);
            }
            i += 1;
        }
        proof {
            if has_eligible(s0, allowed@) {
                let w = choose|k: int| 0 <= k < s0.len() && job_eligible(#[trigger] s0[k], allowed@);
                assert(!job_eligible(s0[w], allowed@));
            }
        }
        None
    }

    /// Resolves a leased job as directed by its worker: `Successful` retires
    /// the row to `Completed`, `Failed` returns it to `Queued` for another
    /// lease. Fails with `NotFound` — and changes nothing — exactly when no
    /// leased row carries `entry_id`.
    #[verifier::loop_isolation(false)]
    pub fn complete(&mut self, entry_id: u64, outcome: JobOutcome, now: u64) -> (r: Result<
        (),
        QueueError,
    >)
        requires
            old(self).wf(),
        ensures
            final(self).wf(),
            final(self).next_id == old(self).next_id,
            final(self)@ == complete_model(old(self)@, entry_id, outcome, now),
            r == Ok::<(), QueueError>(()) <==> has_leased_id(old(self)@, entry_id),
            r != Ok::<(), QueueError>(()) ==> r == Err::<(), QueueError>(QueueError::NotFound),
    {
        let ghost s0 = self@;
        let n = self.jobs.len();
        let mut i: usize = 0;
        while i < n
            invariant
                0 <= i <= n,
                self@ == s0,
                self.next_id == old(self).next_id,
                forall|k: int| 0 <= k < i ==> !leased_id_at(s0, k, entry_id),
            decreases n - i,
        {
            let j = self.jobs[i];
            if j.id == entry_id && j.status == Status::Leased {
                proof {
                    assert(leased_id_at(s0, i as int, entry_id));
                    let gi = leased_id_index(s0, entry_id);
                    assert(leased_id_at(s0, gi, entry_id));
                    if gi != i as int {
                        assert(s0[gi].id == s0[i as int].id);
                        assert(false);
                    }
                }
                let updated = if matches!(outcome, JobOutcome::Successful) {
                    ProverJob {
                        status: Status::Completed,
                        leased_at: None,
                        completed_at: Some(now),
                        ..j
                    }
                } else {
                    ProverJob { status: Status::Queued, leased_at: None, ..j }
                };
                self.jobs[i] = updated;
                proof {
                    lemma_jobs_wf_update(s0, i as int, updated, self.next_id);
                }
                return Ok(());
            }
            i += 1;
        }
        proof {
            if has_leased_id(s0, entry_id) {
                let w = choose|k: int| leased_id_at(s0, k, entry_id);
                assert(!leased_id_at(s0, w, entry_id));
            }
        }
        Err(QueueError::NotFound)
    }

    /// Read-only reporting query over the job table: must not mutate state.
    pub fn query(&self, f: &crate::query::QueryFilter) -> (r: Vec<ProverJob>)
        ensures
            r@ == crate::query::jobs_query_model(self@, *f),
    {
        crate::query::filter_jobs(&self.jobs, f)
    }

    /// Requeues up to `max_count` stuck leases — rows `Leased` since before
    /// `now - lease_timeout` — in table order, and returns their ids. This
    /// is the sole recovery path for workers that leased a job and then
    /// crashed or hung; a conditional per-row check keeps the operation from
    /// ever reverting a row that is no longer leased.
    #[verifier::loop_isolation(false)]
    pub fn reclaim_stuck(&mut self, lease_timeout: u64, max_count: usize, now: u64) -> (r: Vec<u64>)
        requires
            old(self).wf(),
        ensures
            final(self).wf(),
            final(self).next_id == old(self).next_id,
            (final(self)@, r@) == reclaim_model(
                old(self)@,
                lease_timeout,
                max_count as int,
                now,
                0,
            ),
    {
        let ghost target = reclaim_model(old(self)@, lease_timeout, max_count as int, now, 0);
        let mut ids: Vec<u64> = Vec::new();
        let mut rem: usize = max_count;
        let n = self.jobs.len();
        let mut i: usize = 0;
        while i < n && rem != 0
            invariant
                0 <= i <= n,
                n == self.jobs.len(),
                self.next_id == old(self).next_id,
                jobs_wf(self@, self.next_id),
                ({
                    let fut = reclaim_model(self@, lease_timeout, rem as int, now, i as int);
                    target == (fut.0, ids@ + fut.1)
                }),
            decreases n - i,
        {
            let j = self.jobs[i];
            let stuck = match j.leased_at {
                Some(t) => j.status == Status::Leased && lease_timeout <= now && t < now
                    - lease_timeout,
                None => false,
            };
            proof {
                assert(job_row_ok(self@[i as int]));
                assert(stuck == job_stuck(self@[i as int], lease_timeout, now));
            }
            if stuck {
                let ghost pre = self@;
                let ghost ids_pre = ids@;
                let updated = ProverJob { status: Status::Queued, leased_at: None, ..j };
                self.jobs[i] = updated;
                ids.push(j.id);
                rem = rem - 1;
                proof {
                    lemma_jobs_wf_update(pre, i as int, updated, self.next_id);
                    assert(self@ == pre.update(i as int, requeued_job(pre[i as int])));
                    let fut = reclaim_model(self@, lease_timeout, rem as int, now, i as int + 1);
                    assert(reclaim_model(pre, lease_timeout, rem as int + 1, now, i as int) == (
                        fut.0,
                        seq![pre[i as int].id] + fut.1,
                    ));
                    assert(ids@ =~= ids_pre + seq![pre[i as int].id]);
                    assert(ids_pre + (seq![pre[i as int].id] + fut.1) =~= ids@ + fut.1);
                }
            }
            i += 1;
        }
        proof {
            let fut = reclaim_model(self@, lease_timeout, rem as int, now, i as int);
            assert(fut == (self@, Seq::<u64>::empty()));
            assert(ids@ + Seq::<u64>::empty() =~= ids@);
        }
        ids
    }
}

/// Copies the job rows into a fresh working vector.
#[verifier::loop_isolation(false)]
fn copy_jobs(v: &Vec<ProverJob>) -> (r: Vec<ProverJob>)
    ensures
        r@ == v@,
{
    let mut r: Vec<ProverJob> = Vec::new();
    let n = v.len();
    let mut i: usize = 0;
    while i < n
        invariant
            0 <= i <= n,
            r@ == v@.subrange(0, i as int),
        decreases n - i,
    {
        let e = v[i];
        r.push(e);
        proof {
            assert(r@ =~= v@.subrange(0, i as int + 1));
        }
        i += 1;
    }
    proof {
        assert(v@.subrange(0, n as int) =~= v@);
    }
    r
}

/// Scans the table for a row keyed `(batch, circuit, round)`.
#[verifier::loop_isolation(false)]
fn has_tuple(v: &Vec<ProverJob>, batch: u64, circuit: u64, round: u32) -> (r: bool)
    ensures
        r == has_job_tuple(v@, batch, circuit, round),
{
    let n = v.len();
    let mut i: usize = 0;
    while i < n
        invariant
            0 <= i <= n,
            forall|k: int| 0 <= k < i ==> !job_tuple_at(v@, k, batch, circuit, round),
        decreases n - i,
    {
        let j = v[i];
        if j.batch_number == batch && j.circuit_type == circuit && j.aggregation_round == round {
            proof {
                assert(job_tuple_at(v@, i as int, batch, circuit, round));
            }
            return true;
        }
        i += 1;
    }
    proof {
        if has_job_tuple(v@, batch, circuit, round) {
            let w = choose|k: int| job_tuple_at(v@, k, batch, circuit, round);
            assert(!job_tuple_at(v@, w, batch, circuit, round));
        }
    }
    false
}

/// Scans the allowed protocol versions for `x`.
#[verifier::loop_isolation(false)]
fn contains_version(v: &Vec<u32>, x: u32) -> (r: bool)
    ensures
        r == v@.contains(x),
{
    let n = v.len();
    let mut i: usize = 0;
    while i < n
        invariant
            0 <= i <= n,
            forall|k: int| 0 <= k < i ==> v@[k] != x,
        decreases n - i,
    {
        if v[i] == x {
            assert(v@.contains(x));
            return true;
        }
        i += 1;
    }
    proof {
        if v@.contains(x) {
            let w = choose|k: int| 0 <= k < v@.len() && v@[k] == x;
            assert(v@[w] != x);
        }
    }
    false
}

/// Appending a fresh job under a new key and the next id keeps the table
/// well formed.
proof fn lemma_jobs_wf_push(
    s: Seq<ProverJob>,
    batch: u64,
    circuit: u64,
    round: u32,
    protocol_version: u32,
    id: u64,
    now: u64,
)
    requires
        jobs_wf(s, id),
        id < u64::MAX,
        !has_job_tuple(s, batch, circuit, round),
    ensures
        jobs_wf(s.push(fresh_job(batch, circuit, round, protocol_version, id, now)), (id + 1) as u64),
{
    let e = fresh_job(batch, circuit, round, protocol_version, id, now);
    let t = s.push(e);
    let m = s.len() as int;
    assert forall|i: int, j: int| 0 <= i < j < t.len() implies !((#[trigger] t[i]).batch_number == (
    #[trigger] t[j]).batch_number && t[i].circuit_type == t[j].circuit_type && t[i].aggregation_round
        == t[j].aggregation_round) by {
        if j == m {
            if t[i].batch_number == batch && t[i].circuit_type == circuit && t[i].aggregation_round
                == round {
                assert(job_tuple_at(s, i, batch, circuit, round));
                assert(has_job_tuple(s, batch, circuit, round));
            }
        }
    }
}

/// Replacing a row in place — same id and key, per-row invariant intact —
/// keeps the table well formed.
proof fn lemma_jobs_wf_update(s: Seq<ProverJob>, k: int, e: ProverJob, next_id: u64)
    requires
        jobs_wf(s, next_id),
        0 <= k < s.len(),
        e.id == s[k].id,
        e.batch_number == s[k].batch_number,
        e.circuit_type == s[k].circuit_type,
        e.aggregation_round == s[k].aggregation_round,
        job_row_ok(e),
    ensures
        jobs_wf(s.update(k, e), next_id),
{
    let t = s.update(k, e);
    assert forall|i: int| 0 <= i < t.len() implies (#[trigger] t[i]).id < next_id by {
        if i != k {
            assert(t[i] == s[i]);
        }
    }
    assert forall|i: int, j: int| 0 <= i < j < t.len() implies (#[trigger] t[i]).id != (
    #[trigger] t[j]).id by {
        assert(t[i].id == s[i].id && t[j].id == s[j].id);
    }
    assert forall|i: int, j: int| 0 <= i < j < t.len() implies !((#[trigger] t[i]).batch_number == (
    #[trigger] t[j]).batch_number && t[i].circuit_type == t[j].circuit_type && t[i].aggregation_round
        == t[j].aggregation_round) by {
        assert(t[i].batch_number == s[i].batch_number && t[i].circuit_type == s[i].circuit_type
            && t[i].aggregation_round == s[i].aggregation_round);
        assert(t[j].batch_number == s[j].batch_number && t[j].circuit_type == s[j].circuit_type
            && t[j].aggregation_round == s[j].aggregation_round);
    }
    assert forall|i: int| 0 <= i < t.len() implies job_row_ok(#[trigger] t[i]) by {
        if i != k {
            assert(t[i] == s[i]);
        }
    }
}

/// A key present in the table is still present after any enqueue fan-out.
proof fn lemma_enqueue_preserves_tuple(
    s: Seq<ProverJob>,
    batch: u64,
    circuits: Seq<u64>,
    round: u32,
    protocol_version: u32,
    now: u64,
    next_id: int,
    i: int,
    b2: u64,
    c2: u64,
    r2: u32,
)
    requires
        has_job_tuple(s, b2, c2, r2),
    ensures
        has_job_tuple(
            enqueue_model(s, batch, circuits, round, protocol_version, now, next_id, i).0,
            b2,
            c2,
            r2,
        ),
    decreases circuits.len() - i,
{
    if i < 0 || i >= circuits.len() {
    } else if has_job_tuple(s, batch, circuits[i], round) {
        lemma_enqueue_preserves_tuple(
            s,
            batch,
            circuits,
            round,
            protocol_version,
            now,
            next_id,
            i + 1,
            b2,
            c2,
            r2,
        );
    } else {
        let s2 = s.push(fresh_job(batch, circuits[i], round, protocol_version, next_id as u64, now));
        let w = choose|k: int| job_tuple_at(s, k, b2, c2, r2);
        assert(s2[w] == s[w]);
        assert(job_tuple_at(s2, w, b2, c2, r2));
        lemma_enqueue_preserves_tuple(
            s2,
            batch,
            circuits,
            round,
            protocol_version,
            now,
            next_id + 1,
            i + 1,
            b2,
            c2,
            r2,
        );
    }
}

/// After an enqueue fan-out, every circuit of the set has a row.
proof fn lemma_enqueue_adds_tuples(
    s: Seq<ProverJob>,
    batch: u64,
    circuits: Seq<u64>,
    round: u32,
    protocol_version: u32,
    now: u64,
    next_id: int,
    i: int,
)
    requires
        0 <= i,
    ensures
        forall|j: int|
            i <= j < circuits.len() ==> has_job_tuple(
                enqueue_model(s, batch, circuits, round, protocol_version, now, next_id, i).0,
                batch,
                circuits[j],
                round,
            ),
    decreases circuits.len() - i,
{
    if i < 0 || i >= circuits.len() {
    } else if has_job_tuple(s, batch, circuits[i], round) {
        let res = enqueue_model(s, batch, circuits, round, protocol_version, now, next_id, i).0;
        assert(res == enqueue_model(s, batch, circuits, round, protocol_version, now, next_id, i
            + 1).0);
        lemma_enqueue_adds_tuples(s, batch, circuits, round, protocol_version, now, next_id, i + 1);
        lemma_enqueue_preserves_tuple(
            s,
            batch,
            circuits,
            round,
            protocol_version,
            now,
            next_id,
            i + 1,
            batch,
            circuits[i],
            round,
        );
        assert forall|j: int| i <= j < circuits.len() implies has_job_tuple(
            enqueue_model(s, batch, circuits, round, protocol_version, now, next_id, i).0,
            batch,
            circuits[j],
            round,
        ) by {
            assert(has_job_tuple(
                enqueue_model(s, batch, circuits, round, protocol_version, now, next_id, i + 1).0,
                batch,
                circuits[j],
                round,
            ));
        }
    } else {
        let e = fresh_job(batch, circuits[i], round, protocol_version, next_id as u64, now);
        let s2 = s.push(e);
        let res = enqueue_model(s, batch, circuits, round, protocol_version, now, next_id, i).0;
        assert(res == enqueue_model(s2, batch, circuits, round, protocol_version, now, next_id + 1, i
            + 1).0);
        assert(job_tuple_at(s2, s.len() as int, batch, circuits[i], round));
        lemma_enqueue_adds_tuples(
            s2,
            batch,
            circuits,
            round,
            protocol_version,
            now,
            next_id + 1,
            i + 1,
        );
        lemma_enqueue_preserves_tuple(
            s2,
            batch,
            circuits,
            round,
            protocol_version,
            now,
            next_id + 1,
            i + 1,
            batch,
            circuits[i],
            round,
        );
        assert forall|j: int| i <= j < circuits.len() implies has_job_tuple(
            enqueue_model(s, batch, circuits, round, protocol_version, now, next_id, i).0,
            batch,
            circuits[j],
            round,
        ) by {
            assert(has_job_tuple(
                enqueue_model(s2, batch, circuits, round, protocol_version, now, next_id + 1, i
                    + 1).0,
                batch,
                circuits[j],
                round,
            ));
        }
    }
}

/// Enqueueing circuits whose keys are all present changes nothing.
proof fn lemma_enqueue_noop(
    s: Seq<ProverJob>,
    batch: u64,
    circuits: Seq<u64>,
    round: u32,
    protocol_version: u32,
    now: u64,
    next_id: int,
    i: int,
)
    requires
        forall|j: int| i <= j < circuits.len() ==> has_job_tuple(s, batch, circuits[j], round),
    ensures
        enqueue_model(s, batch, circuits, round, protocol_version, now, next_id, i) == (s, next_id),
    decreases circuits.len() - i,
{
    if i < 0 || i >= circuits.len() {
    } else {
        lemma_enqueue_noop(s, batch, circuits, round, protocol_version, now, next_id, i + 1);
    }
}

/// Law: enqueueing an identical circuit set twice for one batch and round
/// leaves exactly the state of the first enqueue — the second pass inserts
/// no row and raises no error, whatever timestamp it runs at.
pub proof fn lemma_enqueue_idempotent(
    s: Seq<ProverJob>,
    batch: u64,
    circuits: Seq<u64>,
    round: u32,
    protocol_version: u32,
    now1: u64,
    now2: u64,
    next_id: int,
)
    ensures
        ({
            let first = enqueue_model(s, batch, circuits, round, protocol_version, now1, next_id, 0);
            enqueue_model(first.0, batch, circuits, round, protocol_version, now2, first.1, 0)
                == first
        }),
{
    let first = enqueue_model(s, batch, circuits, round, protocol_version, now1, next_id, 0);
    lemma_enqueue_adds_tuples(s, batch, circuits, round, protocol_version, now1, next_id, 0);
    lemma_enqueue_noop(first.0, batch, circuits, round, protocol_version, now2, first.1, 0);
}

/// The number of eligible rows in `s[i..]`.
pub open spec fn count_eligible_from(s: Seq<ProverJob>, allowed: Seq<u32>, i: int) -> int
    decreases s.len() - i,
{
    if i < 0 || i >= s.len() {
        0
    } else {
        (if job_eligible(s[i], allowed) {
            1int
        } else {
            0int
        }) + count_eligible_from(s, allowed, i + 1)
    }
}

/// The eligible count of a suffix depends only on that suffix.
proof fn lemma_count_eligible_congruent(s: Seq<ProverJob>, t: Seq<ProverJob>, allowed: Seq<u32>, i: int)
    requires
        s.len() == t.len(),
        forall|j: int| i <= j < s.len() ==> (#[trigger] t[j]) == s[j],
    ensures
        count_eligible_from(t, allowed, i) == count_eligible_from(s, allowed, i),
    decreases s.len() - i,
{
    if i < 0 || i >= s.len() {
    } else {
        lemma_count_eligible_congruent(s, t, allowed, i + 1);
    }
}

/// Making one eligible row ineligible lowers the eligible count by one.
proof fn lemma_count_eligible_update(
    s: Seq<ProverJob>,
    allowed: Seq<u32>,
    k: int,
    e: ProverJob,
    i: int,
)
    requires
        0 <= i <= s.len(),
        i <= k < s.len(),
        job_eligible(s[k], allowed),
        !job_eligible(e, allowed),
    ensures
        count_eligible_from(s.update(k, e), allowed, i) == count_eligible_from(s, allowed, i) - 1,
    decreases s.len() - i,
{
    let t = s.update(k, e);
    if i == k {
        lemma_count_eligible_congruent(s, t, allowed, i + 1);
    } else {
        assert(t[i] == s[i]);
        lemma_count_eligible_update(s, allowed, k, e, i + 1);
    }
}

/// The eligible count of a suffix is nonnegative, and positive exactly when
/// the suffix holds an eligible row.
proof fn lemma_count_eligible_pos(s: Seq<ProverJob>, allowed: Seq<u32>, i: int)
    requires
        0 <= i <= s.len(),
    ensures
        count_eligible_from(s, allowed, i) >= 0,
        count_eligible_from(s, allowed, i) > 0 <==> exists|j: int|
            i <= j < s.len() && job_eligible(#[trigger] s[j], allowed),
    decreases s.len() - i,
{
    if i >= s.len() {
    } else {
        lemma_count_eligible_pos(s, allowed, i + 1);
        if job_eligible(s[i], allowed) {
        } else {
            if exists|j: int| i <= j < s.len() && job_eligible(#[trigger] s[j], allowed) {
                let w = choose|j: int| i <= j < s.len() && job_eligible(#[trigger] s[j], allowed);
                assert(w != i);
                assert(i + 1 <= w < s.len() && job_eligible(s[w], allowed));
            }
        }
    }
}

/// A table holds an eligible row exactly when its eligible count is
/// positive.
pub proof fn lemma_has_eligible_count(s: Seq<ProverJob>, allowed: Seq<u32>)
    ensures
        count_eligible_from(s, allowed, 0) >= 0,
        has_eligible(s, allowed) <==> count_eligible_from(s, allowed, 0) > 0,
{
    lemma_count_eligible_pos(s, allowed, 0);
}

/// Below any eligible row there is a first eligible row.
proof fn lemma_first_eligible_from(s: Seq<ProverJob>, allowed: Seq<u32>, w: int)
    requires
        0 <= w < s.len(),
        job_eligible(s[w], allowed),
    ensures
        exists|i: int| first_eligible_at(s, allowed, i),
    decreases w,
{
    if forall|k: int| 0 <= k < w ==> !job_eligible(#[trigger] s[k], allowed) {
        assert(first_eligible_at(s, allowed, w));
    } else {
        let w2 = choose|k: int| 0 <= k < w && job_eligible(#[trigger] s[k], allowed);
        lemma_first_eligible_from(s, allowed, w2);
    }
}

/// When an eligible row exists, `first_eligible` names the first one.
proof fn lemma_first_eligible_exists(s: Seq<ProverJob>, allowed: Seq<u32>)
    requires
        has_eligible(s, allowed),
    ensures
        first_eligible_at(s, allowed, first_eligible(s, allowed)),
{
    let w = choose|i: int| 0 <= i < s.len() && job_eligible(#[trigger] s[i], allowed);
    lemma_first_eligible_from(s, allowed, w);
    let i0 = choose|i: int| first_eligible_at(s, allowed, i);
    assert(first_eligible_at(s, allowed, i0));
}

/// The table state and the handed-out entries after `n` consecutive
/// `lease_next` calls against one table.
pub open spec fn lease_run(s: Seq<ProverJob>, allowed: Seq<u32>, now: u64, n: nat) -> (
    Seq<ProverJob>,
    Seq<ProverJob>,
)
    decreases n,
{
    if n == 0 || !has_eligible(s, allowed) {
        (s, Seq::empty())
    } else {
        let j = leased_job(s[first_eligible(s, allowed)], now);
        let r = lease_run(lease_model(s, allowed, now), allowed, now, (n - 1) as nat);
        (r.0, seq![j] + r.1)
    }
}

/// A lease run never hands out the id of a row that is already leased.
proof fn lemma_lease_run_avoids_leased(
    s: Seq<ProverJob>,
    allowed: Seq<u32>,
    now: u64,
    n: nat,
    k: int,
)
    requires
        job_ids_distinct(s),
        0 <= k < s.len(),
        s[k].status == Status::Leased,
    ensures
        forall|m: int|
            0 <= m < lease_run(s, allowed, now, n).1.len() ==> (#[trigger] lease_run(
                s,
                allowed,
                now,
                n,
            ).1[m]).id != s[k].id,
    decreases n,
{
    if n == 0 || !has_eligible(s, allowed) {
    } else {
        lemma_first_eligible_exists(s, allowed);
        let fe = first_eligible(s, allowed);
        assert(fe != k);
        let s2 = lease_model(s, allowed, now);
        assert(s2.len() == s.len());
        assert forall|a: int| 0 <= a < s2.len() implies (#[trigger] s2[a]).id == s[a].id by {
            if a != fe {
                assert(s2[a] == s[a]);
            }
        }
        assert(job_ids_distinct(s2));
        assert(s2[k] == s[k]);
        lemma_lease_run_avoids_leased(s2, allowed, now, (n - 1) as nat, k);
        let j = leased_job(s[fe], now);
        assert(j.id == s[fe].id);
        assert(s[fe].id != s[k].id) by {
            if fe < k {
                assert(s[fe].id != s[k].id);
            } else {
                assert(s[k].id != s[fe].id);
            }
        }
        let run = lease_run(s, allowed, now, n);
        let rest = lease_run(s2, allowed, now, (n - 1) as nat).1;
        assert forall|m: int| 0 <= m < run.1.len() implies (#[trigger] run.1[m]).id != s[k].id by {
            if m == 0 {
                assert(run.1[m] == j);
            } else {
                assert(run.1[m] == rest[m - 1]);
                assert(rest[m - 1].id != s2[k].id);
            }
        }
    }
}

/// Law: consecutive `lease_next` calls hand out pairwise distinct entries —
/// two callers never observe a lease on the same row.
pub proof fn lemma_lease_run_distinct(s: Seq<ProverJob>, allowed: Seq<u32>, now: u64, n: nat)
    requires
        job_ids_distinct(s),
    ensures
        ({
            let handed = lease_run(s, allowed, now, n).1;
            forall|a: int, b: int|
                0 <= a < b < handed.len() ==> (#[trigger] handed[a]).id != (#[trigger] handed[b]).id
        }),
    decreases n,
{
    if n == 0 || !has_eligible(s, allowed) {
    } else {
        lemma_first_eligible_exists(s, allowed);
        let fe = first_eligible(s, allowed);
        let s2 = lease_model(s, allowed, now);
        let j = leased_job(s[fe], now);
        assert(s2.len() == s.len());
        assert forall|a: int| 0 <= a < s2.len() implies (#[trigger] s2[a]).id == s[a].id by {
            if a != fe {
                assert(s2[a] == s[a]);
            }
        }
        assert(job_ids_distinct(s2));
        assert(s2[fe] == leased_job(s[fe], now));
        assert(s2[fe].status == Status::Leased);
        lemma_lease_run_avoids_leased(s2, allowed, now, (n - 1) as nat, fe);
        lemma_lease_run_distinct(s2, allowed, now, (n - 1) as nat);
        let handed = lease_run(s, allowed, now, n).1;
        let rest = lease_run(s2, allowed, now, (n - 1) as nat).1;
        assert forall|a: int, b: int| 0 <= a < b < handed.len() implies (#[trigger] handed[a]).id
            != (#[trigger] handed[b]).id by {
            if a == 0 {
                assert(handed[b] == rest[b - 1]);
                assert(rest[b - 1].id != s2[fe].id);
                assert(handed[a] == j && j.id == s2[fe].id);
            } else {
                assert(handed[a] == rest[a - 1] && handed[b] == rest[b - 1]);
            }
        }
    }
}

/// Law: against a table with `c` eligible rows, `n` consecutive
/// `lease_next` calls succeed exactly `min(n, c)` times: each call claims a
/// distinct row until the eligible rows run out, and every further call
/// returns nothing.
pub proof fn lemma_lease_run_count(s: Seq<ProverJob>, allowed: Seq<u32>, now: u64, n: nat)
    ensures
        ({
            let c = count_eligible_from(s, allowed, 0);
            lease_run(s, allowed, now, n).1.len() == if (n as int) <= c {
                n as int
            } else {
                c
            }
        }),
    decreases n,
{
    lemma_has_eligible_count(s, allowed);
    if n == 0 || !has_eligible(s, allowed) {
    } else {
        lemma_first_eligible_exists(s, allowed);
        let fe = first_eligible(s, allowed);
        let s2 = lease_model(s, allowed, now);
        assert(!job_eligible(leased_job(s[fe], now), allowed));
        lemma_count_eligible_update(s, allowed, fe, leased_job(s[fe], now), 0);
        lemma_lease_run_count(s2, allowed, now, (n - 1) as nat);
    }
}

/// The stuck count of a suffix depends only on that suffix.
proof fn lemma_count_stuck_congruent(
    s: Seq<ProverJob>,
    t: Seq<ProverJob>,
    timeout: u64,
    now: u64,
    i: int,
)
    requires
        s.len() == t.len(),
        forall|j: int| i <= j < s.len() ==> (#[trigger] t[j]) == s[j],
    ensures
        count_stuck_from(t, timeout, now, i) == count_stuck_from(s, timeout, now, i),
    decreases s.len() - i,
{
    if i < 0 || i >= s.len() {
    } else {
        lemma_count_stuck_congruent(s, t, timeout, now, i + 1);
    }
}

/// The stuck count of a suffix is nonnegative, and zero exactly when the
/// suffix holds no stuck lease.
proof fn lemma_count_stuck_zero(s: Seq<ProverJob>, timeout: u64, now: u64, i: int)
    requires
        0 <= i <= s.len(),
    ensures
        count_stuck_from(s, timeout, now, i) >= 0,
        count_stuck_from(s, timeout, now, i) == 0 ==> forall|k: int|
            i <= k < s.len() ==> !job_stuck(#[trigger] s[k], timeout, now),
    decreases s.len() - i,
{
    if i >= s.len() {
    } else {
        lemma_count_stuck_zero(s, timeout, now, i + 1);
    }
}

/// Law: with a budget covering every stuck lease, `reclaim_stuck` requeues
/// exactly the stuck leases — every stuck row returns to `Queued`, every
/// other row is untouched — and reports exactly as many ids as there were
/// stuck leases. A row completed in the meantime is never reverted.
pub proof fn lemma_reclaim_requeues_all(
    s: Seq<ProverJob>,
    timeout: u64,
    budget: int,
    now: u64,
    i: int,
)
    requires
        0 <= i <= s.len(),
        budget >= count_stuck_from(s, timeout, now, i),
    ensures
        ({
            let r = reclaim_model(s, timeout, budget, now, i);
            &&& r.0.len() == s.len()
            &&& forall|k: int| 0 <= k < i ==> r.0[k] == s[k]
            &&& forall|k: int|
                i <= k < s.len() ==> r.0[k] == if job_stuck(#[trigger] s[k], timeout, now) {
                    requeued_job(s[k])
                } else {
                    s[k]
                }
            &&& r.1.len() == count_stuck_from(s, timeout, now, i)
        }),
    decreases s.len() - i,
{
    lemma_count_stuck_zero(s, timeout, now, i);
    let r = reclaim_model(s, timeout, budget, now, i);
    if i >= s.len() {
    } else if budget <= 0 {
        assert(count_stuck_from(s, timeout, now, i) == 0);
        assert forall|k: int|
            i <= k < s.len() implies r.0[k] == if job_stuck(#[trigger] s[k], timeout, now) {
            requeued_job(s[k])
        } else {
            s[k]
        } by {
            assert(!job_stuck(s[k], timeout, now));
        }
    } else if job_stuck(s[i], timeout, now) {
        let s2 = s.update(i, requeued_job(s[i]));
        assert forall|j: int| i + 1 <= j < s.len() implies (#[trigger] s2[j]) == s[j] by {}
        lemma_count_stuck_congruent(s, s2, timeout, now, i + 1);
        lemma_count_stuck_zero(s2, timeout, now, i + 1);
        lemma_reclaim_requeues_all(s2, timeout, budget - 1, now, i + 1);
        let r2 = reclaim_model(s2, timeout, budget - 1, now, i + 1);
        assert(r == (r2.0, seq![s[i].id] + r2.1));
        assert forall|k: int| 0 <= k < i implies r.0[k] == s[k] by {
            assert(r2.0[k] == s2[k]);
            assert(s2[k] == s[k]);
        }
        assert forall|k: int|
            i <= k < s.len() implies r.0[k] == if job_stuck(#[trigger] s[k], timeout, now) {
            requeued_job(s[k])
        } else {
            s[k]
        } by {
            if k == i {
                assert(r2.0[k] == s2[k]);
                assert(s2[k] == requeued_job(s[k]));
            } else {
                assert(s2[k] == s[k]);
                assert(r2.0[k] == if job_stuck(s2[k], timeout, now) {
                    requeued_job(s2[k])
                } else {
                    s2[k]
                });
            }
        }
        assert(r.1.len() == 1 + r2.1.len());
    } else {
        lemma_reclaim_requeues_all(s, timeout, budget, now, i + 1);
        let r2 = reclaim_model(s, timeout, budget, now, i + 1);
        assert(r == r2);
        assert forall|k: int| 0 <= k < i implies r.0[k] == s[k] by {
            assert(r2.0[k] == s[k]);
        }
        assert forall|k: int|
            i <= k < s.len() implies r.0[k] == if job_stuck(#[trigger] s[k], timeout, now) {
            requeued_job(s[k])
        } else {
            s[k]
        } by {
            if k == i {
                assert(r2.0[k] == s[k]);
            } else {
                assert(r2.0[k] == if job_stuck(s[k], timeout, now) {
                    requeued_job(s[k])
                } else {
                    s[k]
                });
            }
        }
    }
}

/// Requeueing exactly the stuck rows raises the eligible count by the
/// number of stuck rows, when every job runs under an allowed protocol
/// version.
proof fn lemma_count_eligible_pointwise(
    s: Seq<ProverJob>,
    t: Seq<ProverJob>,
    allowed: Seq<u32>,
    timeout: u64,
    now: u64,
    i: int,
)
    requires
        s.len() == t.len(),
        0 <= i <= s.len(),
        forall|k: int|
            i <= k < s.len() ==> (#[trigger] t[k]) == if job_stuck(s[k], timeout, now) {
                requeued_job(s[k])
            } else {
                s[k]
            },
        forall|k: int| 0 <= k < s.len() ==> allowed.contains((#[trigger] s[k]).protocol_version),
    ensures
        count_eligible_from(t, allowed, i) == count_eligible_from(s, allowed, i)
            + count_stuck_from(s, timeout, now, i),
    decreases s.len() - i,
{
    if i >= s.len() {
    } else {
        lemma_count_eligible_pointwise(s, t, allowed, timeout, now, i + 1);
        if job_stuck(s[i], timeout, now) {
            assert(t[i] == requeued_job(s[i]));
            assert(job_eligible(t[i], allowed));
            assert(!job_eligible(s[i], allowed));
        } else {
            assert(t[i] == s[i]);
        }
    }
}

/// Law: after `reclaim_stuck` with a budget covering every stuck lease,
/// every reclaimed job is leasable again — the eligible count rises by
/// exactly the number of stuck leases — so a worker pool that lost `N`
/// leases gets `N` further successful `lease_next` calls.
pub proof fn lemma_reclaim_restores_eligibility(
    s: Seq<ProverJob>,
    timeout: u64,
    budget: int,
    now: u64,
    allowed: Seq<u32>,
)
    requires
        budget >= count_stuck_from(s, timeout, now, 0),
        forall|k: int| 0 <= k < s.len() ==> allowed.contains((#[trigger] s[k]).protocol_version),
    ensures
        count_eligible_from(reclaim_model(s, timeout, budget, now, 0).0, allowed, 0)
            == count_eligible_from(s, allowed, 0) + count_stuck_from(s, timeout, now, 0),
{
    lemma_reclaim_requeues_all(s, timeout, budget, now, 0);
    let t = reclaim_model(s, timeout, budget, now, 0).0;
    lemma_count_eligible_pointwise(s, t, allowed, timeout, now, 0);
}

} // verus!
