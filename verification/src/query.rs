//! Queue query façade: the shared, read-only filtering contract both queues
//! expose to monitoring and orchestration collaborators. A query accepts a
//! status subset (empty = all), a numeric range on the batch/block
//! dimension, an optional result cap and a sort direction, and returns a
//! finite ordered snapshot without mutating anything.
use vstd::prelude::*;

use crate::prover_dal::ProverJob;
use crate::transactions_dal::MempoolEntry;
use crate::types::Status;
use crate::StorageProcessor;

verus! {

/// Filter shape accepted by every query of the façade.
#[derive(Clone, Debug)]
pub struct QueryFilter {
    /// Keep only these statuses; an empty set keeps every status.
    pub statuses: Vec<Status>,
    /// Lower bound on the batch/block dimension, inclusive.
    pub min_key: Option<u64>,
    /// Upper bound on the batch/block dimension, inclusive.
    pub max_key: Option<u64>,
    /// Keep only jobs of this aggregation round; ignored for transactions.
    pub round: Option<u32>,
    /// Cap on the number of rows returned.
    pub limit: Option<usize>,
    /// Return rows in reverse insertion order.
    pub descending: bool,
}

impl QueryFilter {
    /// The filter that keeps everything, in insertion order.
    pub fn all() -> (r: QueryFilter)
        ensures
            r.statuses@ == Seq::<Status>::empty(),
            r.min_key is None,
            r.max_key is None,
            r.round is None,
            r.limit is None,
            !r.descending,
    {
        QueryFilter {
            statuses: Vec::new(),
            min_key: None,
            max_key: None,
            round: None,
            limit: None,
            descending: false,
        }
    }
}

/// A status passes when the requested subset is empty or names it.
pub open spec fn status_matches(statuses: Seq<Status>, st: Status) -> bool {
    statuses.len() == 0 || statuses.contains(st)
}

/// A value lies in the optional inclusive range.
pub open spec fn in_range(v: u64, min: Option<u64>, max: Option<u64>) -> bool {
    &&& match min {
        Some(lo) => lo <= v,
        None => true,
    }
    &&& match max {
        Some(hi) => v <= hi,
        None => true,
    }
}

/// Whether a prover job row passes the filter.
pub open spec fn job_matches(j: ProverJob, f: QueryFilter) -> bool {
    &&& status_matches(f.statuses@, j.status)
    &&& in_range(j.batch_number, f.min_key, f.max_key)
    &&& match f.round {
        Some(r) => j.aggregation_round == r,
        None => true,
    }
}

/// Whether a mempool row passes the filter. The numeric range applies to
/// the block a transaction was attached to, so a range query reports only
/// attached rows.
pub open spec fn tx_matches(e: MempoolEntry, f: QueryFilter) -> bool {
    &&& status_matches(f.statuses@, e.status)
    &&& match (f.min_key, f.max_key) {
        (None, None) => true,
        _ => match e.block_id {
            Some(b) => in_range(b, f.min_key, f.max_key),
            None => false,
        },
    }
}

/// A snapshot in the requested direction.
pub open spec fn ordered<A>(s: Seq<A>, descending: bool) -> Seq<A> {
    if descending {
        s.reverse()
    } else {
        s
    }
}

/// A snapshot capped to the requested number of rows.
pub open spec fn capped<A>(s: Seq<A>, limit: Option<usize>) -> Seq<A> {
    match limit {
        Some(l) => if (l as int) <= s.len() {
            s.take(l as int)
        } else {
            s
        },
        None => s,
    }
}

/// What a job query returns: the matching rows, directed, then capped.
pub open spec fn jobs_query_model(s: Seq<ProverJob>, f: QueryFilter) -> Seq<ProverJob> {
    capped(ordered(s.filter(|j: ProverJob| job_matches(j, f)), f.descending), f.limit)
}

/// What a transaction query returns: the matching rows, directed, then
/// capped.
pub open spec fn txs_query_model(s: Seq<MempoolEntry>, f: QueryFilter) -> Seq<MempoolEntry> {
    capped(ordered(s.filter(|e: MempoolEntry| tx_matches(e, f)), f.descending), f.limit)
}

/// `filter` over a sequence extended by one element.
proof fn lemma_filter_push_gen<A>(s: Seq<A>, x: A, p: spec_fn(A) -> bool)
    ensures
        s.push(x).filter(p) == if p(x) {
            s.filter(p).push(x)
        } else {
            s.filter(p)
        },
{
    reveal(Seq::filter);
    assert(s.push(x).drop_last() =~= s);
    assert(s.push(x).last() == x);
}

/// Scans the requested status subset for `st`.
#[verifier::loop_isolation(false)]
fn status_in(v: &Vec<Status>, st: Status) -> (r: bool)
    ensures
        r == v@.contains(st),
{
    let n = v.len();
    let mut i: usize = 0;
    while i < n
        invariant
            0 <= i <= n,
            forall|k: int| 0 <= k < i ==> v@[k] != st,
        decreases n - i,
    {
        if v[i] == st {
            assert(v@.contains(st));
            return true;
        }
        i += 1;
    }
    proof {
        if v@.contains(st) {
            let w = choose|k: int| 0 <= k < v@.len() && v@[k] == st;
            assert(v@[w] != st);
        }
    }
    false
}

/// Reverses a snapshot.
#[verifier::loop_isolation(false)]
fn reverse_vec<T: Copy>(v: &Vec<T>) -> (r: Vec<T>)
    ensures
        r@ == v@.reverse(),
{
    let mut r: Vec<T> = Vec::new();
    let n = v.len();
    let mut i: usize = 0;
    while i < n
        invariant
            0 <= i <= n,
            r@.len() == i,
            forall|m: int| 0 <= m < i ==> r@[m] == v@[n - 1 - m],
        decreases n - i,
    {
        let x = v[n - 1 - i];
        r.push(x);
        i += 1;
    }
    proof {
        assert(r@ =~= v@.reverse());
    }
    r
}

/// Whether a job row passes the filter; the executable mirror of
/// `job_matches`.
fn job_passes(j: &ProverJob, f: &QueryFilter) -> (r: bool)
    ensures
        r == job_matches(*j, *f),
{
    let st_ok = f.statuses.len() == 0 || status_in(&f.statuses, j.status);
    let lo_ok = match f.min_key {
        Some(lo) => lo <= j.batch_number,
        None => true,
    };
    let hi_ok = match f.max_key {
        Some(hi) => j.batch_number <= hi,
        None => true,
    };
    let round_ok = match f.round {
        Some(r) => j.aggregation_round == r,
        None => true,
    };
    st_ok && lo_ok && hi_ok && round_ok
}

/// Whether a mempool row passes the filter; the executable mirror of
/// `tx_matches`.
fn tx_passes(e: &MempoolEntry, f: &QueryFilter) -> (r: bool)
    ensures
        r == tx_matches(*e, *f),
{
    let st_ok = f.statuses.len() == 0 || status_in(&f.statuses, e.status);
    let range_ok = if f.min_key.is_none() && f.max_key.is_none() {
        true
    } else {
        match e.block_id {
            Some(b) => {
                let lo_ok = match f.min_key {
                    Some(lo) => lo <= b,
                    None => true,
                };
                let hi_ok = match f.max_key {
                    Some(hi) => b <= hi,
                    None => true,
                };
                lo_ok && hi_ok
            },
            None => false,
        }
    };
    st_ok && range_ok
}

/// Runs a filter over the job table and shapes the snapshot.
#[verifier::loop_isolation(false)]
pub fn filter_jobs(v: &Vec<ProverJob>, f: &QueryFilter) -> (r: Vec<ProverJob>)
    ensures
        r@ == jobs_query_model(v@, *f),
{
    let mut sel: Vec<ProverJob> = Vec::new();
    let n = v.len();
    let mut i: usize = 0;
    while i < n
        invariant
            0 <= i <= n,
            sel@ == v@.subrange(0, i as int).filter(|j: ProverJob| job_matches(j, *f)),
        decreases n - i,
    {
        let j = v[i];
        proof {
            lemma_filter_push_gen(
                v@.subrange(0, i as int),
                v@[i as int],
                |j: ProverJob| job_matches(j, *f),
            );
            assert(v@.subrange(0, i as int + 1) =~= v@.subrange(0, i as int).push(v@[i as int]));
        }
        if job_passes(&j, f) {
            sel.push(j);
        }
        i += 1;
    }
    proof {
        assert(v@.subrange(0, n as int) =~= v@);
    }
    let mut shaped = if f.descending {
        reverse_vec(&sel)
    } else {
        sel
    };
    if let Some(l) = f.limit {
        shaped.truncate(l);
    }
    shaped
}

/// Runs a filter over the mempool table and shapes the snapshot.
#[verifier::loop_isolation(false)]
pub fn filter_txs(v: &Vec<MempoolEntry>, f: &QueryFilter) -> (r: Vec<MempoolEntry>)
    ensures
        r@ == txs_query_model(v@, *f),
{
    let mut sel: Vec<MempoolEntry> = Vec::new();
    let n = v.len();
    let mut i: usize = 0;
    while i < n
        invariant
            0 <= i <= n,
            sel@ == v@.subrange(0, i as int).filter(|e: MempoolEntry| tx_matches(e, *f)),
        decreases n - i,
    {
        let e = v[i];
        proof {
            lemma_filter_push_gen(
                v@.subrange(0, i as int),
                v@[i as int],
                |e: MempoolEntry| tx_matches(e, *f),
            );
            assert(v@.subrange(0, i as int + 1) =~= v@.subrange(0, i as int).push(v@[i as int]));
        }
        if tx_passes(&e, f) {
            sel.push(e);
        }
        i += 1;
    }
    proof {
        assert(v@.subrange(0, n as int) =~= v@);
    }
    let mut shaped = if f.descending {
        reverse_vec(&sel)
    } else {
        sel
    };
    if let Some(l) = f.limit {
        shaped.truncate(l);
    }
    shaped
}

/// The read-only reporting surface handed out for every per-domain
/// accessor of the storage façade: a consistent snapshot of the queue
/// tables, filtered but never mutated.
#[derive(Debug)]
pub struct QueryFacade<'a> {
    /// The storage façade being reported on.
    pub storage: &'a StorageProcessor,
}

impl<'a> QueryFacade<'a> {
    /// Queries the mempool table.
    pub fn transactions(&self, f: &QueryFilter) -> (r: Vec<MempoolEntry>)
        ensures
            r@ == txs_query_model(self.storage.transactions@, *f),
    {
        filter_txs(&self.storage.transactions.entries, f)
    }

    /// Queries the prover job table.
    pub fn prover_jobs(&self, f: &QueryFilter) -> (r: Vec<ProverJob>)
        ensures
            r@ == jobs_query_model(self.storage.prover_jobs@, *f),
    {
        filter_jobs(&self.storage.prover_jobs.jobs, f)
    }

    /// Queries the circuit-level prover job table.
    pub fn fri_prover_jobs(&self, f: &QueryFilter) -> (r: Vec<ProverJob>)
        ensures
            r@ == jobs_query_model(self.storage.fri_prover_jobs@, *f),
    {
        filter_jobs(&self.storage.fri_prover_jobs.jobs, f)
    }
}

} // verus!
