//! A transactional lease-based work queue over a relational store.
//!
//! The verified core models the two queue tables — a transaction mempool and
//! a prover job queue — and proves the rules governing insertion with
//! deduplication/replacement, atomic dequeue-and-lease, stuck-entry
//! detection, and requeue. The storage collaborator (connection handling and
//! raw query execution) stays outside the core, in unverified glue.
use vstd::prelude::*;

pub mod prover_dal;
pub mod query;
pub mod transactions_dal;
pub mod types;

use crate::prover_dal::{ProverJob, ProverJobsDal};
use crate::query::QueryFacade;
use crate::transactions_dal::{MempoolEntry, TransactionsDal};

verus! {

/// Storage processor: the main storage interaction point. It owns the queue
/// tables and hands out narrow, purpose-specific accessors — the mutating
/// queue components for the mempool and the prover job tables, and a shared
/// read-only query façade for every reporting domain.
#[derive(Debug)]
pub struct StorageProcessor {
    /// The mempool queue table.
    pub transactions: TransactionsDal,
    /// The prover job queue table.
    pub prover_jobs: ProverJobsDal,
    /// The circuit-level prover job queue table.
    pub fri_prover_jobs: ProverJobsDal,
    /// Whether this processor is a transactional scope.
    pub in_transaction: bool,
}

/// Two processors hold the same table states.
pub open spec fn same_state(a: StorageProcessor, b: StorageProcessor) -> bool {
    &&& a.transactions@ == b.transactions@
    &&& a.transactions.next_id == b.transactions.next_id
    &&& a.prover_jobs@ == b.prover_jobs@
    &&& a.prover_jobs.next_id == b.prover_jobs.next_id
    &&& a.fri_prover_jobs@ == b.fri_prover_jobs@
    &&& a.fri_prover_jobs.next_id == b.fri_prover_jobs.next_id
}

impl StorageProcessor {
    /// Well-formedness: every owned queue table is well formed.
    pub open spec fn wf(self) -> bool {
        &&& self.transactions.wf()
        &&& self.prover_jobs.wf()
        &&& self.fri_prover_jobs.wf()
    }

    /// A fresh processor over empty queue tables.
    pub fn new() -> (r: StorageProcessor)
        ensures
            r.wf(),
            r.transactions@ == Seq::<MempoolEntry>::empty(),
            r.prover_jobs@ == Seq::<ProverJob>::empty(),
            r.fri_prover_jobs@ == Seq::<ProverJob>::empty(),
            !r.in_transaction,
    {
        StorageProcessor {
            transactions: TransactionsDal::new(),
            prover_jobs: ProverJobsDal::new(),
            fri_prover_jobs: ProverJobsDal::new(),
            in_transaction: false,
        }
    }

    /// Opens a transactional scope: a snapshot of the current state whose
    /// mutations stay invisible to this processor until `commit` writes
    /// them back. Dropping the scope without committing rolls everything
    /// back.
    pub fn start_transaction(&self) -> (tx: StorageProcessor)
        ensures
            same_state(tx, *self),
            tx.in_transaction,
    {
        StorageProcessor {
            transactions: self.transactions.snapshot(),
            prover_jobs: self.prover_jobs.snapshot(),
            fri_prover_jobs: self.fri_prover_jobs.snapshot(),
            in_transaction: true,
        }
    }

    /// Checks if the processor is currently within a transactional scope.
    pub fn in_transaction(&self) -> (r: bool)
        ensures
            r == self.in_transaction,
    {
        self.in_transaction
    }

    /// Commits a transactional scope: every effect of the scope becomes
    /// visible on `onto` at once. Committing a processor that is not a
    /// scope is a caller error, which the precondition excludes.
    pub fn commit(self, onto: &mut StorageProcessor)
        requires
            self.in_transaction,
        ensures
            same_state(*final(onto), self),
            final(onto).in_transaction == old(onto).in_transaction,
    {
        let flag = onto.in_transaction;
        *onto = self;
        onto.in_transaction = flag;
    }

    /// The mempool queue.
    pub fn transactions_dal(&mut self) -> (r: &mut TransactionsDal)
        ensures
            *r == old(self).transactions,
            final(self).transactions == *final(r),
            final(self).prover_jobs == old(self).prover_jobs,
            final(self).fri_prover_jobs == old(self).fri_prover_jobs,
            final(self).in_transaction == old(self).in_transaction,
    {
        &mut self.transactions
    }

    /// The prover job queue.
    pub fn prover_dal(&mut self) -> (r: &mut ProverJobsDal)
        ensures
            *r == old(self).prover_jobs,
            final(self).prover_jobs == *final(r),
            final(self).transactions == old(self).transactions,
            final(self).fri_prover_jobs == old(self).fri_prover_jobs,
            final(self).in_transaction == old(self).in_transaction,
    {
        &mut self.prover_jobs
    }

    /// The circuit-level prover job queue.
    pub fn fri_prover_jobs_dal(&mut self) -> (r: &mut ProverJobsDal)
        ensures
            *r == old(self).fri_prover_jobs,
            final(self).fri_prover_jobs == *final(r),
            final(self).transactions == old(self).transactions,
            final(self).prover_jobs == old(self).prover_jobs,
            final(self).in_transaction == old(self).in_transaction,
    {
        &mut self.fri_prover_jobs
    }

    /// Read-only reporting accessor over the queue tables.
    pub fn transactions_web3_dal(&self) -> (r: QueryFacade<'_>)
        ensures
            r.storage == self,
    {
        QueryFacade { storage: self }
    }

    /// Read-only reporting accessor over the queue tables.
    pub fn accounts_dal(&self) -> (r: QueryFacade<'_>)
        ensures
            r.storage == self,
    {
        QueryFacade { storage: self }
    }

    /// Read-only reporting accessor over the queue tables.
    pub fn basic_witness_input_producer_dal(&self) -> (r: QueryFacade<'_>)
        ensures
            r.storage == self,
    {
        QueryFacade { storage: self }
    }

    /// Read-only reporting accessor over the queue tables.
    pub fn blocks_dal(&self) -> (r: QueryFacade<'_>)
        ensures
            r.storage == self,
    {
        QueryFacade { storage: self }
    }

    /// Read-only reporting accessor over the queue tables.
    pub fn blocks_web3_dal(&self) -> (r: QueryFacade<'_>)
        ensures
            r.storage == self,
    {
        QueryFacade { storage: self }
    }

    /// Read-only reporting accessor over the queue tables.
    pub fn eth_sender_dal(&self) -> (r: QueryFacade<'_>)
        ensures
            r.storage == self,
    {
        QueryFacade { storage: self }
    }

    /// Read-only reporting accessor over the queue tables.
    pub fn events_dal(&self) -> (r: QueryFacade<'_>)
        ensures
            r.storage == self,
    {
        QueryFacade { storage: self }
    }

    /// Read-only reporting accessor over the queue tables.
    pub fn events_web3_dal(&self) -> (r: QueryFacade<'_>)
        ensures
            r.storage == self,
    {
        QueryFacade { storage: self }
    }

    /// Read-only reporting accessor over the queue tables.
    pub fn storage_dal(&self) -> (r: QueryFacade<'_>)
        ensures
            r.storage == self,
    {
        QueryFacade { storage: self }
    }

    /// Read-only reporting accessor over the queue tables.
    pub fn storage_web3_dal(&self) -> (r: QueryFacade<'_>)
        ensures
            r.storage == self,
    {
        QueryFacade { storage: self }
    }

    /// Read-only reporting accessor over the queue tables.
    pub fn storage_logs_dal(&self) -> (r: QueryFacade<'_>)
        ensures
            r.storage == self,
    {
        QueryFacade { storage: self }
    }

    /// Read-only reporting accessor over the queue tables.
    pub fn storage_logs_dedup_dal(&self) -> (r: QueryFacade<'_>)
        ensures
            r.storage == self,
    {
        QueryFacade { storage: self }
    }

    /// Read-only reporting accessor over the queue tables.
    pub fn tokens_dal(&self) -> (r: QueryFacade<'_>)
        ensures
            r.storage == self,
    {
        QueryFacade { storage: self }
    }

    /// Read-only reporting accessor over the queue tables.
    pub fn tokens_web3_dal(&self) -> (r: QueryFacade<'_>)
        ensures
            r.storage == self,
    {
        QueryFacade { storage: self }
    }

    /// Read-only reporting accessor over the queue tables.
    pub fn contract_verification_dal(&self) -> (r: QueryFacade<'_>)
        ensures
            r.storage == self,
    {
        QueryFacade { storage: self }
    }

    /// Read-only reporting accessor over the queue tables.
    pub fn gpu_prover_queue_dal(&self) -> (r: QueryFacade<'_>)
        ensures
            r.storage == self,
    {
        QueryFacade { storage: self }
    }

    /// Read-only reporting accessor over the queue tables.
    pub fn protocol_versions_dal(&self) -> (r: QueryFacade<'_>)
        ensures
            r.storage == self,
    {
        QueryFacade { storage: self }
    }

    /// Read-only reporting accessor over the queue tables.
    pub fn protocol_versions_web3_dal(&self) -> (r: QueryFacade<'_>)
        ensures
            r.storage == self,
    {
        QueryFacade { storage: self }
    }

    /// Read-only reporting accessor over the queue tables.
    pub fn fri_witness_generator_dal(&self) -> (r: QueryFacade<'_>)
        ensures
            r.storage == self,
    {
        QueryFacade { storage: self }
    }

    /// Read-only reporting accessor over the queue tables.
    pub fn sync_dal(&self) -> (r: QueryFacade<'_>)
        ensures
            r.storage == self,
    {
        QueryFacade { storage: self }
    }

    /// Read-only reporting accessor over the queue tables.
    pub fn fri_scheduler_dependency_tracker_dal(&self) -> (r: QueryFacade<'_>)
        ensures
            r.storage == self,
    {
        QueryFacade { storage: self }
    }

    /// Read-only reporting accessor over the queue tables.
    pub fn proof_generation_dal(&self) -> (r: QueryFacade<'_>)
        ensures
            r.storage == self,
    {
        QueryFacade { storage: self }
    }

    /// Read-only reporting accessor over the queue tables.
    pub fn fri_gpu_prover_queue_dal(&self) -> (r: QueryFacade<'_>)
        ensures
            r.storage == self,
    {
        QueryFacade { storage: self }
    }

    /// Read-only reporting accessor over the queue tables.
    pub fn fri_protocol_versions_dal(&self) -> (r: QueryFacade<'_>)
        ensures
            r.storage == self,
    {
        QueryFacade { storage: self }
    }

    /// Read-only reporting accessor over the queue tables.
    pub fn fri_proof_compressor_dal(&self) -> (r: QueryFacade<'_>)
        ensures
            r.storage == self,
    {
        QueryFacade { storage: self }
    }

    /// Read-only reporting accessor over the queue tables.
    pub fn system_dal(&self) -> (r: QueryFacade<'_>)
        ensures
            r.storage == self,
    {
        QueryFacade { storage: self }
    }

    /// Read-only reporting accessor over the queue tables.
    pub fn snapshots_dal(&self) -> (r: QueryFacade<'_>)
        ensures
            r.storage == self,
    {
        QueryFacade { storage: self }
    }

    /// Read-only reporting accessor over the queue tables.
    pub fn snapshots_creator_dal(&self) -> (r: QueryFacade<'_>)
        ensures
            r.storage == self,
    {
        QueryFacade { storage: self }
    }
}

} // verus!
