use queue_dal::transactions_dal::TxRequest;
use queue_dal::types::{QueueError, SubmitOutcome};
use queue_dal::StorageProcessor;

fn l2_tx(initiator: u64, nonce: u64, hash: u64) -> TxRequest {
    TxRequest { initiator, nonce, hash, is_l1: false }
}

fn l1_tx(initiator: u64, nonce: u64, hash: u64) -> TxRequest {
    TxRequest { initiator, nonce, hash, is_l1: true }
}

#[test]
fn workflow_with_submit_tx_equal_hashes() {
    let mut conn = StorageProcessor::new();
    let t = l2_tx(1, 0, 100);
    let r1 = conn.transactions_dal().submit(t, 10);
    assert_eq!(r1, SubmitOutcome::Added);
    let r2 = conn.transactions_dal().submit(t, 20);
    assert_eq!(r2, SubmitOutcome::Replaced);
}

#[test]
fn workflow_with_submit_tx_diff_hashes() {
    let mut conn = StorageProcessor::new();
    let r1 = conn.transactions_dal().submit(l2_tx(1, 0, 100), 10);
    assert_eq!(r1, SubmitOutcome::Added);
    let r2 = conn.transactions_dal().submit(l2_tx(1, 0, 101), 20);
    assert_eq!(r2, SubmitOutcome::Replaced);
    // replacement overwrites in place: still exactly one live row
    let live = conn.transactions_dal().view_queued();
    assert_eq!(live.len(), 1);
    assert_eq!(live[0].hash, 101);
    assert_eq!(live[0].created_at, 20);
}

#[test]
fn remove_stuck_txs() {
    let mut conn = StorageProcessor::new();
    // an L2 transaction aged beyond the stuck threshold
    assert_eq!(
        conn.transactions_dal().submit(l2_tx(1, 0, 11), 0),
        SubmitOutcome::Added
    );
    // a fresh L2 transaction
    assert_eq!(
        conn.transactions_dal().submit(l2_tx(2, 0, 12), 900),
        SubmitOutcome::Added
    );
    // an L1 transaction aged beyond the stuck threshold
    assert_eq!(
        conn.transactions_dal().submit(l1_tx(3, 0, 13), 0),
        SubmitOutcome::Added
    );
    // an aged L2 transaction that gets attached to a block before pruning
    assert_eq!(
        conn.transactions_dal().submit(l2_tx(4, 0, 14), 0),
        SubmitOutcome::Added
    );

    assert_eq!(conn.transactions_dal().view_queued().len(), 4);
    let attached = conn
        .transactions_dal()
        .attach_to_block(7, &vec![14], &vec![42]);
    assert_eq!(attached, Ok(()));
    assert_eq!(conn.transactions_dal().view_queued().len(), 3);

    // prune at t = 1000 with a 500-tick threshold: only the aged, still
    // queued L2 transaction goes
    let removed = conn.transactions_dal().prune_stuck(500, 1000);
    assert_eq!(removed, 1);
    let live = conn.transactions_dal().view_queued();
    assert_eq!(live.len(), 2);
    assert!(live.iter().all(|e| e.hash != 11));
    assert!(live.iter().any(|e| e.hash == 13 && e.is_l1));

    // pruning again at once removes nothing further
    assert_eq!(conn.transactions_dal().prune_stuck(500, 1000), 0);
}

#[test]
fn prune_never_removes_l1_at_any_age() {
    let mut conn = StorageProcessor::new();
    conn.transactions_dal().submit(l1_tx(1, 0, 21), 0);
    conn.transactions_dal().submit(l1_tx(2, 0, 22), 0);
    // even a zero threshold far in the future removes no L1 row
    assert_eq!(conn.transactions_dal().prune_stuck(0, u64::MAX), 0);
    assert_eq!(conn.transactions_dal().view_queued().len(), 2);
}

#[test]
fn prune_with_threshold_beyond_now_removes_nothing() {
    let mut conn = StorageProcessor::new();
    conn.transactions_dal().submit(l2_tx(1, 0, 31), 5);
    assert_eq!(conn.transactions_dal().prune_stuck(1000, 10), 0);
    assert_eq!(conn.transactions_dal().view_queued().len(), 1);
}

#[test]
fn attach_unknown_hash_is_all_or_nothing() {
    let mut conn = StorageProcessor::new();
    conn.transactions_dal().submit(l2_tx(1, 0, 41), 0);
    conn.transactions_dal().submit(l2_tx(2, 0, 42), 0);
    // one known hash, one unknown: nothing may change
    let r = conn
        .transactions_dal()
        .attach_to_block(9, &vec![41, 99], &vec![1, 2]);
    assert_eq!(r, Err(QueueError::NotFound));
    assert_eq!(conn.transactions_dal().view_queued().len(), 2);
}

#[test]
fn view_excludes_attached_transactions() {
    let mut conn = StorageProcessor::new();
    conn.transactions_dal().submit(l2_tx(1, 0, 51), 0);
    conn.transactions_dal().submit(l2_tx(1, 1, 52), 0);
    conn.transactions_dal().submit(l2_tx(1, 2, 53), 0);
    assert_eq!(conn.transactions_dal().view_queued().len(), 3);
    assert_eq!(
        conn.transactions_dal()
            .attach_to_block(3, &vec![51, 53], &vec![10, 30]),
        Ok(())
    );
    let live = conn.transactions_dal().view_queued();
    assert_eq!(live.len(), 1);
    assert_eq!(live[0].hash, 52);
}

#[test]
fn transaction_scope_commits_or_rolls_back() {
    let mut conn = StorageProcessor::new();
    conn.transactions_dal().submit(l2_tx(1, 0, 61), 0);
    assert!(!conn.in_transaction());

    // a dropped scope leaves the base state untouched
    {
        let mut scope = conn.start_transaction();
        assert!(scope.in_transaction());
        scope.transactions_dal().submit(l2_tx(2, 0, 62), 0);
        assert_eq!(scope.transactions_dal().view_queued().len(), 2);
    }
    assert_eq!(conn.transactions_dal().view_queued().len(), 1);

    // a committed scope publishes every effect at once
    let mut scope = conn.start_transaction();
    scope.transactions_dal().submit(l2_tx(2, 0, 62), 0);
    scope.transactions_dal().submit(l2_tx(3, 0, 63), 0);
    scope.commit(&mut conn);
    assert!(!conn.in_transaction());
    assert_eq!(conn.transactions_dal().view_queued().len(), 3);
}
