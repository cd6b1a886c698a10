use queue_dal::query::QueryFilter;
use queue_dal::types::{JobOutcome, QueueError, Status};
use queue_dal::StorageProcessor;

#[test]
fn test_duplicate_insert_prover_jobs() {
    let mut conn = StorageProcessor::new();
    let circuits = vec![1u64, 2, 3, 4];
    conn.prover_dal().enqueue_jobs(5, &circuits, 0, 1, 100);
    let once = conn.prover_dal().query(&QueryFilter::all()).len();
    // enqueueing the identical set again raises no error and adds no row
    conn.prover_dal().enqueue_jobs(5, &circuits, 0, 1, 200);
    let twice = conn.prover_dal().query(&QueryFilter::all()).len();
    assert_eq!(once, 4);
    assert_eq!(twice, 4);
}

#[test]
fn enqueue_overlapping_sets_inserts_only_new_tuples() {
    let mut conn = StorageProcessor::new();
    conn.prover_dal().enqueue_jobs(5, &vec![1, 2], 0, 1, 100);
    conn.prover_dal().enqueue_jobs(5, &vec![2, 3], 0, 1, 110);
    assert_eq!(conn.prover_dal().query(&QueryFilter::all()).len(), 3);
    // a different round is a different key
    conn.prover_dal().enqueue_jobs(5, &vec![1], 1, 1, 120);
    assert_eq!(conn.prover_dal().query(&QueryFilter::all()).len(), 4);
}

#[test]
fn test_requeue_prover_jobs() {
    let mut conn = StorageProcessor::new();
    conn.prover_dal().enqueue_jobs(1, &vec![8], 0, 1, 0);
    let leased = conn.prover_dal().lease_next(&vec![1], 100).unwrap();
    assert_eq!(leased.status, Status::Leased);
    assert_eq!(leased.attempt_count, 1);
    // nothing left to lease while the job is out
    assert!(conn.prover_dal().lease_next(&vec![1], 101).is_none());
    // the lease is stuck once its grant time precedes now - timeout
    let reclaimed = conn.prover_dal().reclaim_stuck(10, 10, 200);
    assert_eq!(reclaimed, vec![leased.id]);
    let again = conn.prover_dal().lease_next(&vec![1], 210).unwrap();
    assert_eq!(again.id, leased.id);
    assert_eq!(again.attempt_count, 2);
}

#[test]
fn lease_and_reclaim_full_cycle() {
    let mut conn = StorageProcessor::new();
    conn.fri_prover_jobs_dal().enqueue_jobs(9, &vec![1, 2, 3, 4], 0, 1, 0);
    let allowed = vec![1u32];
    let mut ids = Vec::new();
    for _ in 0..4 {
        let j = conn.fri_prover_jobs_dal().lease_next(&allowed, 10).unwrap();
        ids.push(j.id);
    }
    // four distinct entries were handed out
    for a in 0..4 {
        for b in (a + 1)..4 {
            assert_ne!(ids[a], ids[b]);
        }
    }
    // a fifth call finds nothing
    assert!(conn.fri_prover_jobs_dal().lease_next(&allowed, 11).is_none());
    // a zero-length timeout reclaims all four leases
    let mut reclaimed = conn.fri_prover_jobs_dal().reclaim_stuck(0, 10, 11);
    reclaimed.sort();
    let mut expected = ids.clone();
    expected.sort();
    assert_eq!(reclaimed, expected);
    // all four are leasable again
    for _ in 0..4 {
        assert!(conn.fri_prover_jobs_dal().lease_next(&allowed, 20).is_some());
    }
    assert!(conn.fri_prover_jobs_dal().lease_next(&allowed, 21).is_none());
}

#[test]
fn reclaim_respects_budget_and_freshness() {
    let mut conn = StorageProcessor::new();
    conn.prover_dal().enqueue_jobs(2, &vec![1, 2, 3], 0, 1, 0);
    conn.prover_dal().lease_next(&vec![1], 10);
    conn.prover_dal().lease_next(&vec![1], 10);
    conn.prover_dal().lease_next(&vec![1], 95);
    // at t=100 with timeout 20, only the two leases from t=10 are stuck;
    // a budget of 1 reclaims only the first in table order
    let r = conn.prover_dal().reclaim_stuck(20, 1, 100);
    assert_eq!(r.len(), 1);
    let r2 = conn.prover_dal().reclaim_stuck(20, 10, 100);
    assert_eq!(r2.len(), 1);
    // the fresh lease stays out
    assert_eq!(conn.prover_dal().reclaim_stuck(20, 10, 100).len(), 0);
}

#[test]
fn complete_success_retires_job() {
    let mut conn = StorageProcessor::new();
    conn.prover_dal().enqueue_jobs(3, &vec![5], 0, 1, 0);
    let j = conn.prover_dal().lease_next(&vec![1], 10).unwrap();
    assert_eq!(
        conn.prover_dal().complete(j.id, JobOutcome::Successful, 20),
        Ok(())
    );
    // completed rows persist for reporting but are no longer leasable
    assert!(conn.prover_dal().lease_next(&vec![1], 30).is_none());
    let all = conn.prover_dal().query(&QueryFilter::all());
    assert_eq!(all.len(), 1);
    assert_eq!(all[0].status, Status::Completed);
    assert_eq!(all[0].completed_at, Some(20));
    // a completed row cannot be completed again
    assert_eq!(
        conn.prover_dal().complete(j.id, JobOutcome::Successful, 40),
        Err(QueueError::NotFound)
    );
}

#[test]
fn complete_failure_requeues_job() {
    let mut conn = StorageProcessor::new();
    conn.prover_dal().enqueue_jobs(3, &vec![6], 0, 1, 0);
    let j = conn.prover_dal().lease_next(&vec![1], 10).unwrap();
    assert_eq!(conn.prover_dal().complete(j.id, JobOutcome::Failed, 20), Ok(()));
    let again = conn.prover_dal().lease_next(&vec![1], 30).unwrap();
    assert_eq!(again.id, j.id);
    assert_eq!(again.attempt_count, 2);
}

#[test]
fn complete_unknown_id_is_not_found() {
    let mut conn = StorageProcessor::new();
    conn.prover_dal().enqueue_jobs(3, &vec![7], 0, 1, 0);
    // the job exists but is not leased
    let all = conn.prover_dal().query(&QueryFilter::all());
    assert_eq!(
        conn.prover_dal().complete(all[0].id, JobOutcome::Successful, 10),
        Err(QueueError::NotFound)
    );
    assert_eq!(
        conn.prover_dal().complete(12345, JobOutcome::Failed, 10),
        Err(QueueError::NotFound)
    );
}

#[test]
fn lease_respects_protocol_versions() {
    let mut conn = StorageProcessor::new();
    conn.prover_dal().enqueue_jobs(4, &vec![1], 0, 7, 0);
    assert!(conn.prover_dal().lease_next(&vec![1, 2], 10).is_none());
    let j = conn.prover_dal().lease_next(&vec![1, 7], 10).unwrap();
    assert_eq!(j.protocol_version, 7);
    assert_eq!(j.leased_at, Some(10));
}

#[test]
fn lease_picks_insertion_order() {
    let mut conn = StorageProcessor::new();
    conn.prover_dal().enqueue_jobs(1, &vec![3], 0, 1, 0);
    conn.prover_dal().enqueue_jobs(2, &vec![3], 0, 1, 1);
    let first = conn.prover_dal().lease_next(&vec![1], 10).unwrap();
    let second = conn.prover_dal().lease_next(&vec![1], 10).unwrap();
    assert_eq!(first.batch_number, 1);
    assert_eq!(second.batch_number, 2);
}
