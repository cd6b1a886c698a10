//! Mempool queue: the set of not-yet-included transactions, their
//! replacement semantics, block attachment and stuck-entry pruning.
use vstd::prelude::*;

use crate::types::{QueueError, Status, SubmitOutcome};

verus! {

/// A persisted mempool row.
///
/// `initiator` and `nonce` key replaceable L2 submissions; `hash` is the
/// transaction content hash, unique among live rows; L1-originated rows
/// (`is_l1`) are keyed by their hash alone and are never replaced or pruned.
#[derive(Clone, Copy, Debug, PartialEq, Eq)]
pub struct MempoolEntry {
    /// Opaque row identifier, stable once created.
    pub id: u64,
    /// Address that submitted the transaction.
    pub initiator: u64,
    /// Account nonce of the transaction.
    pub nonce: u64,
    /// Content hash of the transaction payload.
    pub hash: u64,
    /// Whether the transaction originated on L1 (permanence guarantee).
    pub is_l1: bool,
    /// Lifecycle state; mempool rows are only ever `Queued` or `Completed`.
    pub status: Status,
    /// Submission (or last replacement) timestamp.
    pub created_at: u64,
    /// Block this transaction was attached to, once `Completed`.
    pub block_id: Option<u64>,
    /// Execution metric recorded when the transaction was attached.
    pub metric: Option<u64>,
}

/// A transaction handed to `submit`: the payload fields of a future row.
#[derive(Clone, Copy, Debug, PartialEq, Eq)]
pub struct TxRequest {
    pub initiator: u64,
    pub nonce: u64,
    pub hash: u64,
    pub is_l1: bool,
}

/// A mempool entry is live while it still awaits block inclusion.
pub open spec fn tx_live(e: MempoolEntry) -> bool {
    e.status == Status::Queued
}

/// Entry `i` of `s` is live and carries the replaceable L2 key `(init, nonce)`.
pub open spec fn live_key_at(s: Seq<MempoolEntry>, i: int, init: u64, nonce: u64) -> bool {
    &&& 0 <= i < s.len()
    &&& tx_live(s[i])
    &&& !s[i].is_l1
    &&& s[i].initiator == init
    &&& s[i].nonce == nonce
}

/// Some live L2 entry of `s` carries the key `(init, nonce)`.
pub open spec fn has_live_key(s: Seq<MempoolEntry>, init: u64, nonce: u64) -> bool {
    exists|i: int| live_key_at(s, i, init, nonce)
}

/// The index of the live L2 entry keyed `(init, nonce)`; well defined under
/// `wf`, which admits at most one such entry.
pub open spec fn live_key_index(s: Seq<MempoolEntry>, init: u64, nonce: u64) -> int {
    choose|i: int| live_key_at(s, i, init, nonce)
}

/// Submitting `tx` replaces an existing row exactly when `tx` is an L2
/// transaction whose `(initiator, nonce)` key has a live entry.
pub open spec fn replaces(s: Seq<MempoolEntry>, tx: TxRequest) -> bool {
    !tx.is_l1 && has_live_key(s, tx.initiator, tx.nonce)
}

/// Outcome reported by `submit`.
pub open spec fn submit_outcome(s: Seq<MempoolEntry>, tx: TxRequest) -> SubmitOutcome {
    if replaces(s, tx) {
        SubmitOutcome::Replaced
    } else {
        SubmitOutcome::Added
    }
}

/// The row produced by overwriting entry `e` in place with submission `tx`:
/// payload and timestamp change, row identity and origin stay.
pub open spec fn replaced_entry(e: MempoolEntry, tx: TxRequest, now: u64) -> MempoolEntry {
    MempoolEntry { hash: tx.hash, created_at: now, ..e }
}

/// The fresh row created for submission `tx` under row id `id`.
pub open spec fn fresh_entry(tx: TxRequest, id: u64, now: u64) -> MempoolEntry {
    MempoolEntry {
        id,
        initiator: tx.initiator,
        nonce: tx.nonce,
        hash: tx.hash,
        is_l1: tx.is_l1,
        status: Status::Queued,
        created_at: now,
        block_id: None,
        metric: None,
    }
}

/// State transition of `submit`: replace in place, or append a fresh row.
pub open spec fn submit_model(s: Seq<MempoolEntry>, tx: TxRequest, id: u64, now: u64) -> Seq<
    MempoolEntry,
> {
    if replaces(s, tx) {
        let i = live_key_index(s, tx.initiator, tx.nonce);
        s.update(i, replaced_entry(s[i], tx, now))
    } else {
        s.push(fresh_entry(tx, id, now))
    }
}

/// A submission may share its content hash with a live row only if that row
/// is the very entry the submission replaces. This mirrors the store's unique
/// hash constraint over live rows.
pub open spec fn hash_admissible(s: Seq<MempoolEntry>, tx: TxRequest) -> bool {
    forall|i: int|
        0 <= i < s.len() && tx_live(#[trigger] s[i]) && s[i].hash == tx.hash ==> {
            &&& !tx.is_l1
            &&& !s[i].is_l1
            &&& s[i].initiator == tx.initiator
            &&& s[i].nonce == tx.nonce
        }
}

/// The mempool queue component: insertion with dedup/replacement, visibility
/// for block assembly, and retirement (attached to a block, or pruned).
#[derive(Debug)]
pub struct TransactionsDal {
    /// Rows in insertion order; pruning removes rows, attachment retires them.
    pub entries: Vec<MempoolEntry>,
    /// Next fresh row id; every stored id is below it.
    pub next_id: u64,
}

impl View for TransactionsDal {
    type V = Seq<MempoolEntry>;

    open spec fn view(&self) -> Seq<MempoolEntry> {
        self.entries@
    }
}

/// Every row id is below the next fresh id.
pub open spec fn ids_fresh(s: Seq<MempoolEntry>, next_id: u64) -> bool {
    forall|i: int| 0 <= i < s.len() ==> (#[trigger] s[i]).id < next_id
}

/// Row ids are pairwise distinct.
pub open spec fn ids_distinct(s: Seq<MempoolEntry>) -> bool {
    forall|i: int, j: int| 0 <= i < j < s.len() ==> (#[trigger] s[i]).id != (#[trigger] s[j]).id
}

/// Live rows carry pairwise distinct content hashes.
pub open spec fn live_hashes_distinct(s: Seq<MempoolEntry>) -> bool {
    forall|i: int, j: int|
        0 <= i < j < s.len() && tx_live(#[trigger] s[i]) && tx_live(#[trigger] s[j]) ==> s[i].hash
            != s[j].hash
}

/// At most one live L2 row exists per `(initiator, nonce)` key.
pub open spec fn live_keys_distinct(s: Seq<MempoolEntry>) -> bool {
    forall|i: int, j: int|
        0 <= i < j < s.len() && tx_live(#[trigger] s[i]) && tx_live(#[trigger] s[j]) && !s[i].is_l1
            && !s[j].is_l1 ==> !(s[i].initiator == s[j].initiator && s[i].nonce == s[j].nonce)
}

/// Well-formedness of a mempool table: row ids are fresh and distinct, at
/// most one live row per replaceable L2 key, and live rows carry distinct
/// content hashes.
pub open spec fn entries_wf(s: Seq<MempoolEntry>, next_id: u64) -> bool {
    &&& ids_fresh(s, next_id)
    &&& ids_distinct(s)
    &&& live_hashes_distinct(s)
    &&& live_keys_distinct(s)
}

impl TransactionsDal {
    /// Well-formedness of the component: see `entries_wf`.
    pub open spec fn wf(self) -> bool {
        entries_wf(self@, self.next_id)
    }

    /// An empty mempool queue.
    pub fn new() -> (r: TransactionsDal)
        ensures
            r@ == Seq::<MempoolEntry>::empty(),
            r.next_id == 0,
            r.wf(),
    {
        TransactionsDal { entries: Vec::new(), next_id: 0 }
    }

    /// Copies the table state into a fresh component, for a transactional
    /// scope.
    pub fn snapshot(&self) -> (r: TransactionsDal)
        ensures
            r@ == self@,
            r.next_id == self.next_id,
    {
        TransactionsDal { entries: copy_entries(&self.entries), next_id: self.next_id }
    }

    /// Submits a transaction. An L2 submission whose `(initiator, nonce)` key
    /// already has a live entry overwrites that entry's payload and timestamp
    /// in place — regardless of whether the content hash changed — and
    /// reports `Replaced`; anything else (a fresh L2 key, or any L1
    /// transaction) is inserted as a new `Queued` row and reports `Added`.
    /// Callers uphold the store's unique-hash constraint over live rows
    /// (`hash_admissible`): a submission may share its content hash only
    /// with the very row it replaces.
    #[verifier::loop_isolation(false)]
    pub fn submit(&mut self, tx: TxRequest, now: u64) -> (r: SubmitOutcome)
        requires
            old(self).wf(),
            old(self).next_id < u64::MAX,
            hash_admissible(old(self)@, tx),
        ensures
            final(self).wf(),
            r == submit_outcome(old(self)@, tx),
            final(self)@ == submit_model(old(self)@, tx, old(self).next_id, now),
            if r == SubmitOutcome::Replaced {
                final(self).next_id == old(self).next_id
            } else {
                final(self).next_id == old(self).next_id + 1
            },
    {
        let ghost s0 = self@;
        if !tx.is_l1 {
            let n = self.entries.len();
            let mut i: usize = 0;
            while i < n
                invariant
                    0 <= i <= n,
                    self@ == s0,
                    self.next_id == old(self).next_id,
                    forall|k: int| 0 <= k < i ==> !live_key_at(s0, k, tx.initiator, tx.nonce),
                decreases n - i,
            {
                let e = self.entries[i];
                if e.status == Status::Queued && !e.is_l1 && e.initiator == tx.initiator
                    && e.nonce == tx.nonce {
                    proof {
                        assert(live_key_at(s0, i as int, tx.initiator, tx.nonce));
                        let gi = live_key_index(s0, tx.initiator, tx.nonce);
                        assert(live_key_at(s0, gi, tx.initiator, tx.nonce));
                        assert(gi == i as int) by {
                            if gi < i as int {
                                assert(!live_key_at(s0, gi, tx.initiator, tx.nonce));
                            } else if gi > i as int {
                                assert(!(s0[i as int].initiator == s0[gi].initiator
                                    && s0[i as int].nonce == s0[gi].nonce));
                            }
                        }
                    }
                    let updated = MempoolEntry { hash: tx.hash, created_at: now, ..e };
                    self.entries[i] = updated;
                    proof {
                        lemma_submit_replace_wf(s0, *self, tx, i as int, now);
                    }
                    return SubmitOutcome::Replaced;
                }
                i += 1;
            }
            proof {
                assert(!has_live_key(s0, tx.initiator, tx.nonce)) by {
                    if has_live_key(s0, tx.initiator, tx.nonce) {
                        let w = choose|k: int| live_key_at(s0, k, tx.initiator, tx.nonce);
                        assert(!live_key_at(s0, w, tx.initiator, tx.nonce));
                    }
                }
            }
        }
        let entry = MempoolEntry {
            id: self.next_id,
            initiator: tx.initiator,
            nonce: tx.nonce,
            hash: tx.hash,
            is_l1: tx.is_l1,
            status: Status::Queued,
            created_at: now,
            block_id: None,
            metric: None,
        };
        self.entries.push(entry);
        self.next_id = self.next_id + 1;
        proof {
            lemma_submit_add_wf(s0, *self, tx, now);
        }
        SubmitOutcome::Added
    }

    /// Read-side snapshot for block assembly: the live `Queued` transactions
    /// in insertion order, excluding everything already attached to a block.
    #[verifier::loop_isolation(false)]
    pub fn view_queued(&self) -> (r: Vec<MempoolEntry>)
        ensures
            r@ == queued_view(self@),
    {
        let mut r: Vec<MempoolEntry> = Vec::new();
        let n = self.entries.len();
        let mut i: usize = 0;
        while i < n
            invariant
                0 <= i <= n,
                r@ == self@.subrange(0, i as int).filter(live_pred()),
            decreases n - i,
        {
            let e = self.entries[i];
            proof {
                lemma_filter_push(self@.subrange(0, i as int), self@[i as int], live_pred());
                assert(self@.subrange(0, i as int + 1) =~= self@.subrange(0, i as int).push(
                    self@[i as int],
                ));
            }
            if e.status == Status::Queued {
                r.push(e);
            }
            i += 1;
        }
        proof {
            assert(self@.subrange(0, n as int) =~= self@);
        }
        r
    }

    /// Atomically attaches the named transactions to block `block_id`,
    /// marking each `Completed` and recording its execution metric. If some
    /// named hash has no live `Queued` entry at its turn, the whole batch is
    /// rejected with `NotFound` and the table is left unchanged.
    #[verifier::loop_isolation(false)]
    pub fn attach_to_block(
        &mut self,
        block_id: u64,
        hashes: &Vec<u64>,
        metrics: &Vec<u64>,
    ) -> (r: Result<(), QueueError>)
        requires
            old(self).wf(),
            hashes@.len() == metrics@.len(),
        ensures
            final(self).wf(),
            final(self).next_id == old(self).next_id,
            match attach_model(old(self)@, hashes@, metrics@, block_id, 0) {
                Some(s1) => r == Ok::<(), QueueError>(()) && final(self)@ == s1,
                None => r == Err::<(), QueueError>(QueueError::NotFound) && final(self)@ == old(
                    self,
                )@,
            },
    {
        let ghost s0 = self@;
        let mut work = copy_entries(&self.entries);
        let m = hashes.len();
        let mut i: usize = 0;
        while i < m
            invariant
                0 <= i <= m,
                self@ == s0,
                self.next_id == old(self).next_id,
                entries_wf(work@, self.next_id),
                attach_model(s0, hashes@, metrics@, block_id, 0) == attach_model(
                    work@,
                    hashes@,
                    metrics@,
                    block_id,
                    i as int,
                ),
            decreases m - i,
        {
            let h = hashes[i];
            match find_live_hash(&work, h) {
                None => {
                    return Err(QueueError::NotFound);
                },
                Some(k) => {
                    proof {
                        let gk = live_hash_index(work@, h);
                        assert(live_hash_at(work@, gk, h));
                        if gk != k as int {
                            assert(tx_live(work@[gk]) && tx_live(work@[k as int]));
                            assert(work@[gk].hash == work@[k as int].hash);
                            assert(false);
                        }
                    }
                    let e = work[k];
                    let updated = MempoolEntry {
                        status: Status::Completed,
                        block_id: Some(block_id),
                        metric: Some(metrics[i]),
                        ..e
                    };
                    let ghost wpre = work@;
                    work[k] = updated;
                    proof {
                        lemma_entries_wf_retire(wpre, k as int, updated, self.next_id);
                        assert(work@ == wpre.update(
                            k as int,
                            attached_entry(wpre[k as int], block_id, metrics@[i as int]),
                        ));
                    }
                },
            }
            i += 1;
        }
        self.entries = work;
        Ok(())
    }

    /// Deletes the stuck transactions: `Queued` L2 rows whose `created_at`
    /// precedes `now - max_age`. L1-originated rows are exempt at any age.
    /// Returns the number of rows removed.
    #[verifier::loop_isolation(false)]
    pub fn prune_stuck(&mut self, max_age: u64, now: u64) -> (r: usize)
        requires
            old(self).wf(),
        ensures
            final(self).wf(),
            final(self).next_id == old(self).next_id,
            final(self)@ == prune_model(old(self)@, max_age, now),
            r == old(self)@.len() - final(self)@.len(),
    {
        let ghost s0 = self@;
        let mut kept: Vec<MempoolEntry> = Vec::new();
        let n = self.entries.len();
        let mut i: usize = 0;
        while i < n
            invariant
                0 <= i <= n,
                self@ == s0,
                self.next_id == old(self).next_id,
                kept@ == s0.subrange(0, i as int).filter(prune_keep(max_age, now)),
                kept@.len() <= i,
            decreases n - i,
        {
            let e = self.entries[i];
            proof {
                lemma_filter_push(s0.subrange(0, i as int), s0[i as int], prune_keep(max_age, now));
                assert(s0.subrange(0, i as int + 1) =~= s0.subrange(0, i as int).push(
                    s0[i as int],
                ));
            }
            let expired = e.status == Status::Queued && !e.is_l1 && max_age <= now && e.created_at
                < now - max_age;
            proof {
                assert((prune_keep(max_age, now))(s0[i as int]) <==> !expired);
            }
            if !expired {
                kept.push(e);
            }
            i += 1;
        }
        proof {
            assert(s0.subrange(0, n as int) =~= s0);
            lemma_entries_wf_filter(s0, self.next_id, prune_keep(max_age, now));
        }
        let removed = self.entries.len() - kept.len();
        self.entries = kept;
        removed
    }
}

/// Copies the mempool rows into a fresh working vector.
#[verifier::loop_isolation(false)]
fn copy_entries(v: &Vec<MempoolEntry>) -> (r: Vec<MempoolEntry>)
    ensures
        r@ == v@,
{
    let mut r: Vec<MempoolEntry> = Vec::new();
    let n = v.len();
    let mut i: usize = 0;
    while i < n
        invariant
            0 <= i <= n,
            r@ == v@.subrange(0, i as int),
        decreases n - i,
    {
        let e = v[i];
        r.push(e);
        proof {
            assert(r@ =~= v@.subrange(0, i as int + 1));
        }
        i += 1;
    }
    proof {
        assert(v@.subrange(0, n as int) =~= v@);
    }
    r
}

/// Finds the index of the live entry carrying content hash `h`, if any.
#[verifier::loop_isolation(false)]
fn find_live_hash(v: &Vec<MempoolEntry>, h: u64) -> (r: Option<usize>)
    ensures
        match r {
            Some(k) => live_hash_at(v@, k as int, h),
            None => !has_live_hash(v@, h),
        },
{
    let n = v.len();
    let mut k: usize = 0;
    while k < n
        invariant
            0 <= k <= n,
            forall|j: int| 0 <= j < k ==> !live_hash_at(v@, j, h),
        decreases n - k,
    {
        let e = v[k];
        if e.status == Status::Queued && e.hash == h {
            return Some(k);
        }
        k += 1;
    }
    proof {
        if has_live_hash(v@, h) {
            let w = choose|j: int| live_hash_at(v@, j, h);
            assert(!live_hash_at(v@, w, h));
        }
    }
    None
}

/// The filtering predicate selecting live (Queued) mempool rows.
pub open spec fn live_pred() -> spec_fn(MempoolEntry) -> bool {
    |e: MempoolEntry| tx_live(e)
}

/// The read-side snapshot of the mempool: its live rows, in insertion order.
pub open spec fn queued_view(s: Seq<MempoolEntry>) -> Seq<MempoolEntry> {
    s.filter(live_pred())
}

/// Entry `i` of `s` is live and carries content hash `h`.
pub open spec fn live_hash_at(s: Seq<MempoolEntry>, i: int, h: u64) -> bool {
    &&& 0 <= i < s.len()
    &&& tx_live(s[i])
    &&& s[i].hash == h
}

/// Some live entry of `s` carries content hash `h`.
pub open spec fn has_live_hash(s: Seq<MempoolEntry>, h: u64) -> bool {
    exists|i: int| live_hash_at(s, i, h)
}

/// The index of the live entry carrying hash `h`; well defined under `wf`,
/// which keeps live hashes distinct.
pub open spec fn live_hash_index(s: Seq<MempoolEntry>, h: u64) -> int {
    choose|i: int| live_hash_at(s, i, h)
}

/// The row produced by attaching entry `e` to block `block_id`.
pub open spec fn attached_entry(e: MempoolEntry, block_id: u64, metric: u64) -> MempoolEntry {
    MempoolEntry { status: Status::Completed, block_id: Some(block_id), metric: Some(metric), ..e }
}

/// State transition of `attach_to_block`, processing `hashes[i..]` in order.
/// `None` means some named hash had no live entry at its turn; the operation
/// is then all-or-nothing and the table is left unchanged.
pub open spec fn attach_model(
    s: Seq<MempoolEntry>,
    hashes: Seq<u64>,
    metrics: Seq<u64>,
    block_id: u64,
    i: int,
) -> Option<Seq<MempoolEntry>>
    decreases hashes.len() - i,
{
    if i < 0 || i >= hashes.len() {
        Some(s)
    } else if has_live_hash(s, hashes[i]) {
        let k = live_hash_index(s, hashes[i]);
        attach_model(s.update(k, attached_entry(s[k], block_id, metrics[i])), hashes, metrics, block_id, i + 1)
    } else {
        None
    }
}

/// The filtering predicate of `prune_stuck`: a row stays unless it is a
/// still-queued L2 transaction created more than `max_age` before `now`.
pub open spec fn prune_keep(max_age: u64, now: u64) -> spec_fn(MempoolEntry) -> bool {
    |e: MempoolEntry| !(tx_live(e) && !e.is_l1 && e.created_at + max_age < now)
}

/// State transition of `prune_stuck`.
pub open spec fn prune_model(s: Seq<MempoolEntry>, max_age: u64, now: u64) -> Seq<MempoolEntry> {
    s.filter(prune_keep(max_age, now))
}

/// Replacing the live row for `tx`'s key in place preserves well-formedness.
proof fn lemma_submit_replace_wf(
    s0: Seq<MempoolEntry>,
    post: TransactionsDal,
    tx: TxRequest,
    i: int,
    now: u64,
)
    requires
        live_key_at(s0, i, tx.initiator, tx.nonce),
        hash_admissible(s0, tx),
        !tx.is_l1,
        entries_wf(s0, post.next_id),
        post@ == s0.update(i, replaced_entry(s0[i], tx, now)),
    ensures
        post.wf(),
{
    let s1 = post@;
    assert forall|k: int, j: int|
        0 <= k < j < s1.len() && tx_live(#[trigger] s1[k]) && tx_live(#[trigger] s1[j]) implies s1[k].hash
        != s1[j].hash by {
        if k == i {
            if s1[j].hash == tx.hash {
                assert(s0[j].initiator == tx.initiator && s0[j].nonce == tx.nonce && !s0[j].is_l1);
            }
        } else if j == i {
            if s1[k].hash == tx.hash {
                assert(s0[k].initiator == tx.initiator && s0[k].nonce == tx.nonce && !s0[k].is_l1);
            }
        }
    }
}

/// Appending a fresh row for `tx` preserves well-formedness.
proof fn lemma_submit_add_wf(s0: Seq<MempoolEntry>, post: TransactionsDal, tx: TxRequest, now: u64)
    requires
        hash_admissible(s0, tx),
        !replaces(s0, tx),
        post.next_id >= 1,
        entries_wf(s0, (post.next_id - 1) as u64),
        post@ == s0.push(fresh_entry(tx, (post.next_id - 1) as u64, now)),
    ensures
        post.wf(),
{
    let s1 = post@;
    let m = s0.len() as int;
    assert forall|k: int, j: int|
        0 <= k < j < s1.len() && tx_live(#[trigger] s1[k]) && tx_live(#[trigger] s1[j]) implies s1[k].hash
        != s1[j].hash by {
        if j == m {
            if s0[k].hash == tx.hash {
                if tx.is_l1 {
                    assert(!s0[k].is_l1 && !tx.is_l1);
                } else {
                    assert(live_key_at(s0, k, tx.initiator, tx.nonce));
                    assert(has_live_key(s0, tx.initiator, tx.nonce));
                }
            }
        }
    }
    assert forall|k: int, j: int|
        0 <= k < j < s1.len() && tx_live(#[trigger] s1[k]) && tx_live(#[trigger] s1[j]) && !s1[k].is_l1
        && !s1[j].is_l1 implies !(s1[k].initiator == s1[j].initiator && s1[k].nonce
        == s1[j].nonce) by {
        if j == m && !tx.is_l1 {
            if s0[k].initiator == tx.initiator && s0[k].nonce == tx.nonce {
                assert(live_key_at(s0, k, tx.initiator, tx.nonce));
                assert(has_live_key(s0, tx.initiator, tx.nonce));
            }
        }
    }
}

/// `filter` over a sequence extended by one element.
proof fn lemma_filter_push(s: Seq<MempoolEntry>, x: MempoolEntry, p: spec_fn(MempoolEntry) -> bool)
    ensures
        s.push(x).filter(p) == if p(x) {
            s.filter(p).push(x)
        } else {
            s.filter(p)
        },
{
    reveal(Seq::filter);
    assert(s.push(x).drop_last() =~= s);
    assert(s.push(x).last() == x);
}

/// A sequence whose elements all satisfy `p` is unchanged by `filter`.
proof fn lemma_filter_all(s: Seq<MempoolEntry>, p: spec_fn(MempoolEntry) -> bool)
    requires
        forall|i: int| 0 <= i < s.len() ==> p(#[trigger] s[i]),
    ensures
        s.filter(p) == s,
    decreases s.len(),
{
    reveal(Seq::filter);
    if s.len() == 0 {
        assert(s.filter(p) =~= s);
    } else {
        let d = s.drop_last();
        assert forall|i: int| 0 <= i < d.len() implies p(#[trigger] d[i]) by {
            assert(d[i] == s[i]);
        }
        lemma_filter_all(d, p);
        assert(p(s.last()));
        assert(s.filter(p) =~= s);
    }
}

/// Every element of `s.filter(p)` occurs in `s`.
proof fn lemma_filter_elems(s: Seq<MempoolEntry>, p: spec_fn(MempoolEntry) -> bool)
    ensures
        forall|i: int| 0 <= i < s.filter(p).len() ==> s.contains(#[trigger] s.filter(p)[i]),
    decreases s.len(),
{
    reveal(Seq::filter);
    if s.len() > 0 {
        let d = s.drop_last();
        lemma_filter_elems(d, p);
        assert forall|i: int| 0 <= i < s.filter(p).len() implies s.contains(
            #[trigger] s.filter(p)[i],
        ) by {
            if p(s.last()) && i == s.filter(p).len() - 1 {
                assert(s.filter(p)[i] == s.last());
                assert(s[s.len() - 1] == s.last());
            } else {
                assert(s.filter(p)[i] == d.filter(p)[i]);
                assert(d.contains(d.filter(p)[i]));
                let w = choose|k: int| 0 <= k < d.len() && d[k] == d.filter(p)[i];
                assert(s[w] == d[w]);
            }
        }
    }
}

/// Filtering a well-formed table leaves a well-formed table: the kept rows
/// keep their ids, hashes and keys, and pairwise constraints restrict.
proof fn lemma_entries_wf_filter(s: Seq<MempoolEntry>, next_id: u64, p: spec_fn(MempoolEntry) -> bool)
    requires
        entries_wf(s, next_id),
    ensures
        entries_wf(s.filter(p), next_id),
    decreases s.len(),
{
    reveal(Seq::filter);
    if s.len() == 0 {
    } else {
        let d = s.drop_last();
        assert forall|i: int| 0 <= i < d.len() implies (#[trigger] d[i]) == s[i] by {}
        assert(entries_wf(d, next_id));
        lemma_entries_wf_filter(d, next_id, p);
        lemma_filter_elems(d, p);
        let f = s.filter(p);
        let fd = d.filter(p);
        if p(s.last()) {
            assert(f == fd.push(s.last()));
            let z = s[s.len() - 1];
            assert forall|i: int, j: int|
                0 <= i < j < f.len() implies (#[trigger] f[i]).id != (#[trigger] f[j]).id && (
            tx_live(f[i]) && tx_live(f[j]) ==> f[i].hash != f[j].hash) && (tx_live(f[i]) && tx_live(
                f[j],
            ) && !f[i].is_l1 && !f[j].is_l1 ==> !(f[i].initiator == f[j].initiator && f[i].nonce
                == f[j].nonce)) by {
                if j == f.len() - 1 {
                    assert(f[i] == fd[i]);
                    assert(f[j] == z);
                    assert(d.contains(fd[i]));
                    let k = choose|k: int| 0 <= k < d.len() && d[k] == fd[i];
                    assert(s[k] == d[k]);
                    assert(s[k].id != z.id);
                    assert(tx_live(s[k]) && tx_live(z) ==> s[k].hash != z.hash);
                } else {
                    assert(f[i] == fd[i] && f[j] == fd[j]);
                }
            }
            assert forall|i: int| 0 <= i < f.len() implies (#[trigger] f[i]).id < next_id by {
                if i == f.len() - 1 {
                    assert(f[i] == z);
                } else {
                    assert(f[i] == fd[i]);
                }
            }
        } else {
            assert(f == fd);
        }
    }
}

/// Retiring one row in place (same id, no longer live) keeps the table
/// well formed.
proof fn lemma_entries_wf_retire(s: Seq<MempoolEntry>, k: int, e: MempoolEntry, next_id: u64)
    requires
        entries_wf(s, next_id),
        0 <= k < s.len(),
        e.id == s[k].id,
        !tx_live(e),
    ensures
        entries_wf(s.update(k, e), next_id),
{
    let t = s.update(k, e);
    assert forall|i: int| 0 <= i < t.len() implies (#[trigger] t[i]).id < next_id by {
        if i != k {
            assert(t[i] == s[i]);
        }
    }
    assert forall|i: int, j: int| 0 <= i < j < t.len() implies (#[trigger] t[i]).id != (
    #[trigger] t[j]).id by {
        assert(t[i].id == s[i].id && t[j].id == s[j].id);
    }
    assert forall|i: int, j: int|
        0 <= i < j < t.len() && tx_live(#[trigger] t[i]) && tx_live(#[trigger] t[j]) implies t[i].hash
        != t[j].hash by {
        assert(i != k && j != k);
        assert(t[i] == s[i] && t[j] == s[j]);
    }
    assert forall|i: int, j: int|
        0 <= i < j < t.len() && tx_live(#[trigger] t[i]) && tx_live(#[trigger] t[j]) && !t[i].is_l1
        && !t[j].is_l1 implies !(t[i].initiator == t[j].initiator && t[i].nonce
        == t[j].nonce) by {
        assert(i != k && j != k);
        assert(t[i] == s[i] && t[j] == s[j]);
    }
}

/// Retiring one live row shrinks the visible snapshot by exactly one.
proof fn lemma_filter_retire(s: Seq<MempoolEntry>, k: int, e: MempoolEntry)
    requires
        0 <= k < s.len(),
        tx_live(s[k]),
        !tx_live(e),
    ensures
        queued_view(s.update(k, e)).len() == queued_view(s).len() - 1,
    decreases s.len(),
{
    reveal(Seq::filter);
    let t = s.update(k, e);
    let p = live_pred();
    if k == s.len() - 1 {
        assert(t.drop_last() =~= s.drop_last());
        assert(t.last() == e);
        assert(s.last() == s[k]);
    } else {
        assert(t.drop_last() =~= s.drop_last().update(k, e));
        lemma_filter_retire(s.drop_last(), k, e);
        assert(t.last() == s.last());
    }
}

/// Later attachment steps never revive a row: whatever is live afterwards
/// was live, and unchanged, before.
proof fn lemma_attach_only_retires(
    s: Seq<MempoolEntry>,
    hashes: Seq<u64>,
    metrics: Seq<u64>,
    block_id: u64,
    i: int,
    s1: Seq<MempoolEntry>,
)
    requires
        attach_model(s, hashes, metrics, block_id, i) == Some(s1),
    ensures
        s1.len() == s.len(),
        forall|k: int| 0 <= k < s1.len() && tx_live(#[trigger] s1[k]) ==> s1[k] == s[k],
    decreases hashes.len() - i,
{
    if i < 0 || i >= hashes.len() {
    } else {
        let k = live_hash_index(s, hashes[i]);
        let s2 = s.update(k, attached_entry(s[k], block_id, metrics[i]));
        lemma_attach_only_retires(s2, hashes, metrics, block_id, i + 1, s1);
        assert forall|j: int| 0 <= j < s1.len() && tx_live(#[trigger] s1[j]) implies s1[j] == s[j] by {
            assert(s1[j] == s2[j]);
            assert(j != k);
        }
    }
}

/// Law: a successful attachment retires exactly the named transactions.
/// None of the named hashes remains visible afterwards, and the visible
/// count drops by exactly the number of names.
pub proof fn lemma_attach_retires_named(
    s: Seq<MempoolEntry>,
    hashes: Seq<u64>,
    metrics: Seq<u64>,
    block_id: u64,
    i: int,
    s1: Seq<MempoolEntry>,
)
    requires
        live_hashes_distinct(s),
        0 <= i <= hashes.len(),
        attach_model(s, hashes, metrics, block_id, i) == Some(s1),
    ensures
        queued_view(s1).len() == queued_view(s).len() - (hashes.len() - i),
        forall|j: int| i <= j < hashes.len() ==> !has_live_hash(s1, hashes[j]),
    decreases hashes.len() - i,
{
    if i == hashes.len() {
    } else {
        let k = live_hash_index(s, hashes[i]);
        assert(live_hash_at(s, k, hashes[i]));
        let z = attached_entry(s[k], block_id, metrics[i]);
        let s2 = s.update(k, z);
        lemma_filter_retire(s, k, z);
        assert forall|a: int, b: int|
            0 <= a < b < s2.len() && tx_live(#[trigger] s2[a]) && tx_live(#[trigger] s2[b]) implies s2[a].hash
            != s2[b].hash by {
            assert(a != k && b != k);
            assert(s2[a] == s[a] && s2[b] == s[b]);
        }
        lemma_attach_retires_named(s2, hashes, metrics, block_id, i + 1, s1);
        assert(!has_live_hash(s2, hashes[i])) by {
            if has_live_hash(s2, hashes[i]) {
                let w = live_hash_index(s2, hashes[i]);
                assert(live_hash_at(s2, w, hashes[i]));
                assert(w != k);
                assert(s2[w] == s[w]);
                assert(tx_live(s[w]) && tx_live(s[k]) && s[w].hash == s[k].hash);
                assert(false);
            }
        }
        assert(!has_live_hash(s1, hashes[i])) by {
            lemma_attach_only_retires(s2, hashes, metrics, block_id, i + 1, s1);
            if has_live_hash(s1, hashes[i]) {
                let w = live_hash_index(s1, hashes[i]);
                assert(live_hash_at(s1, w, hashes[i]));
                assert(s1[w] == s2[w]);
                assert(live_hash_at(s2, w, hashes[i]));
            }
        }
    }
}

/// Law: submitting `t1` and then `t2` under one replaceable `(initiator,
/// nonce)` key reports `Added` then `Replaced`, whether or not the two
/// submissions carry equal content hashes.
pub proof fn lemma_resubmit_same_key_replaces(
    s: Seq<MempoolEntry>,
    t1: TxRequest,
    t2: TxRequest,
    id1: u64,
    now1: u64,
)
    requires
        !t1.is_l1,
        !t2.is_l1,
        t2.initiator == t1.initiator,
        t2.nonce == t1.nonce,
        !has_live_key(s, t1.initiator, t1.nonce),
    ensures
        submit_outcome(s, t1) == SubmitOutcome::Added,
        submit_outcome(submit_model(s, t1, id1, now1), t2) == SubmitOutcome::Replaced,
{
    let s1 = submit_model(s, t1, id1, now1);
    assert(s1 == s.push(fresh_entry(t1, id1, now1)));
    assert(live_key_at(s1, s.len() as int, t1.initiator, t1.nonce));
    assert(has_live_key(s1, t2.initiator, t2.nonce));
}

/// Law: an L1-originated entry is never removed by `prune_stuck`, for any
/// age threshold.
pub proof fn lemma_prune_preserves_l1(s: Seq<MempoolEntry>, max_age: u64, now: u64)
    ensures
        forall|i: int|
            0 <= i < s.len() && (#[trigger] s[i]).is_l1 ==> prune_model(s, max_age, now).contains(
                s[i],
            ),
{
    assert forall|i: int|
        0 <= i < s.len() && (#[trigger] s[i]).is_l1 implies prune_model(s, max_age, now).contains(
        s[i],
    ) by {
        assert((prune_keep(max_age, now))(s[i]));
        s.lemma_filter_contains(prune_keep(max_age, now), i);
    }
}

/// Law: `prune_stuck` removes exactly the stuck rows, so pruning again at
/// once with the same threshold removes nothing further.
pub proof fn lemma_prune_idempotent(s: Seq<MempoolEntry>, max_age: u64, now: u64)
    ensures
        prune_model(prune_model(s, max_age, now), max_age, now) == prune_model(s, max_age, now),
{
    let p = prune_keep(max_age, now);
    let t = s.filter(p);
    assert forall|i: int| 0 <= i < t.len() implies p(#[trigger] t[i]) by {
        s.lemma_filter_pred(p, i);
    }
    lemma_filter_all(t, p);
}

} // verus!
