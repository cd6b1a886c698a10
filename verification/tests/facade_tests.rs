use queue_dal::query::QueryFilter;
use queue_dal::transactions_dal::TxRequest;
use queue_dal::types::{JobOutcome, Status};
use queue_dal::StorageProcessor;

#[test]
fn query_filters_by_status_and_range() {
    let mut conn = StorageProcessor::new();
    for batch in 1..=6u64 {
        conn.prover_dal().enqueue_jobs(batch, &vec![1], 0, 1, batch);
    }
    // lease the jobs of batches 1 and 2
    conn.prover_dal().lease_next(&vec![1], 10);
    conn.prover_dal().lease_next(&vec![1], 10);

    let mut f = QueryFilter::all();
    f.statuses = vec![Status::Queued];
    f.min_key = Some(2);
    f.max_key = Some(5);
    let r = conn.prover_dal().query(&f);
    assert_eq!(r.len(), 3);
    assert_eq!(r[0].batch_number, 3);
    assert_eq!(r[1].batch_number, 4);
    assert_eq!(r[2].batch_number, 5);
}

#[test]
fn query_orders_and_caps() {
    let mut conn = StorageProcessor::new();
    for batch in 1..=5u64 {
        conn.prover_dal().enqueue_jobs(batch, &vec![1], 0, 1, batch);
    }
    let mut f = QueryFilter::all();
    f.descending = true;
    f.limit = Some(2);
    let r = conn.prover_dal().query(&f);
    assert_eq!(r.len(), 2);
    assert_eq!(r[0].batch_number, 5);
    assert_eq!(r[1].batch_number, 4);
}

#[test]
fn query_by_round() {
    let mut conn = StorageProcessor::new();
    conn.prover_dal().enqueue_jobs(1, &vec![1, 2], 0, 1, 0);
    conn.prover_dal().enqueue_jobs(1, &vec![1, 2, 3], 1, 1, 0);
    let mut f = QueryFilter::all();
    f.round = Some(1);
    assert_eq!(conn.prover_dal().query(&f).len(), 3);
}

#[test]
fn query_must_not_mutate() {
    let mut conn = StorageProcessor::new();
    conn.prover_dal().enqueue_jobs(1, &vec![1, 2], 0, 1, 0);
    let before = conn.prover_dal().query(&QueryFilter::all());
    let mut f = QueryFilter::all();
    f.statuses = vec![Status::Leased];
    let none = conn.prover_dal().query(&f);
    assert!(none.is_empty());
    let after = conn.prover_dal().query(&QueryFilter::all());
    assert_eq!(before, after);
}

#[test]
fn reporting_accessors_share_the_facade() {
    let mut conn = StorageProcessor::new();
    conn.transactions_dal()
        .submit(TxRequest { initiator: 1, nonce: 0, hash: 70, is_l1: false }, 0);
    conn.transactions_dal()
        .submit(TxRequest { initiator: 1, nonce: 1, hash: 71, is_l1: false }, 0);
    conn.transactions_dal()
        .attach_to_block(4, &vec![70], &vec![9])
        .unwrap();
    conn.fri_prover_jobs_dal().enqueue_jobs(4, &vec![1], 0, 1, 0);

    // the same filtering contract serves every reporting accessor
    let mut completed = QueryFilter::all();
    completed.statuses = vec![Status::Completed];
    let attached = conn.blocks_web3_dal().transactions(&completed);
    assert_eq!(attached.len(), 1);
    assert_eq!(attached[0].block_id, Some(4));
    assert_eq!(attached[0].metric, Some(9));

    // the block range dimension reports only attached rows
    let mut by_block = QueryFilter::all();
    by_block.min_key = Some(4);
    by_block.max_key = Some(4);
    assert_eq!(conn.tokens_dal().transactions(&by_block).len(), 1);

    assert_eq!(conn.sync_dal().fri_prover_jobs(&QueryFilter::all()).len(), 1);
    assert_eq!(conn.system_dal().prover_jobs(&QueryFilter::all()).len(), 0);
}

#[test]
fn completed_jobs_survive_for_reporting() {
    let mut conn = StorageProcessor::new();
    conn.prover_dal().enqueue_jobs(1, &vec![1, 2], 0, 1, 0);
    let j = conn.prover_dal().lease_next(&vec![1], 5).unwrap();
    conn.prover_dal().complete(j.id, JobOutcome::Successful, 6).unwrap();
    let mut f = QueryFilter::all();
    f.statuses = vec![Status::Completed];
    let done = conn.snapshots_dal().prover_jobs(&f);
    assert_eq!(done.len(), 1);
    assert_eq!(done[0].id, j.id);
}
