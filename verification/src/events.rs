//! Decoded on-chain observations handed to the processors.
//!
//! The chain RPC transport decodes logs, fetches receipts, block
//! timestamps and historical balances; the processors receive the result
//! as the plain values below, in chain order.

use vstd::prelude::*;

verus! {

/// One decoded batch-proposal event.
pub struct BatchProposedEvent {
    pub batch_id: u64,
    pub proposer: String,
    pub coinbase: String,
    pub proposed_at: u64,
    pub last_block_id: u64,
    pub block_count: u64,
}

pub ghost struct BatchProposedEventV {
    pub batch_id: int,
    pub proposer: Seq<char>,
    pub coinbase: Seq<char>,
    pub proposed_at: int,
    pub last_block_id: int,
    pub block_count: int,
}

impl View for BatchProposedEvent {
    type V = BatchProposedEventV;

    open spec fn view(&self) -> BatchProposedEventV {
        BatchProposedEventV {
            batch_id: self.batch_id as int,
            proposer: self.proposer@,
            coinbase: self.coinbase@,
            proposed_at: self.proposed_at as int,
            last_block_id: self.last_block_id as int,
            block_count: self.block_count as int,
        }
    }
}

/// The receipt of the transaction that emitted an event.
pub struct TxReceiptData {
    /// Hash of the emitting transaction.
    pub tx_hash: String,
    /// Sender of the emitting transaction.
    pub sender: String,
    pub gas_used: u64,
    pub effective_gas_price: u128,
    pub blob_gas_used: Option<u64>,
    pub blob_gas_price: Option<u128>,
    /// Base-chain block that included the transaction.
    pub block_number: u64,
}

pub ghost struct TxReceiptDataV {
    pub tx_hash: Seq<char>,
    pub sender: Seq<char>,
    pub gas_used: int,
    pub effective_gas_price: int,
    pub blob_gas_used: Option<int>,
    pub blob_gas_price: Option<int>,
    pub block_number: int,
}

impl View for TxReceiptData {
    type V = TxReceiptDataV;

    open spec fn view(&self) -> TxReceiptDataV {
        TxReceiptDataV {
            tx_hash: self.tx_hash@,
            sender: self.sender@,
            gas_used: self.gas_used as int,
            effective_gas_price: self.effective_gas_price as int,
            blob_gas_used: match self.blob_gas_used {
                Some(v) => Some(v as int),
                None => None,
            },
            blob_gas_price: match self.blob_gas_price {
                Some(v) => Some(v as int),
                None => None,
            },
            block_number: self.block_number as int,
        }
    }
}

/// One proposal event together with its receipt.
pub struct ProposalObservation {
    pub event: BatchProposedEvent,
    pub receipt: TxReceiptData,
}

pub ghost struct ProposalObservationV {
    pub event: BatchProposedEventV,
    pub receipt: TxReceiptDataV,
}

impl View for ProposalObservation {
    type V = ProposalObservationV;

    open spec fn view(&self) -> ProposalObservationV {
        ProposalObservationV { event: self.event@, receipt: self.receipt@ }
    }
}

/// One decoded batches-proved event: the batch ids covered by one
/// proving transaction.
pub struct BatchesProvedEvent {
    pub batch_ids: Vec<u64>,
}

impl View for BatchesProvedEvent {
    type V = Seq<int>;

    open spec fn view(&self) -> Seq<int> {
        Seq::new(self.batch_ids@.len(), |i: int| self.batch_ids@[i] as int)
    }
}

/// The coinbase balance of one batch at the two ends of its block span.
#[derive(Clone, Copy)]
pub struct BalancePair {
    pub batch_id: u64,
    /// Balance at `last_block_id - block_count`.
    pub balance_before: u128,
    /// Balance at `last_block_id`.
    pub balance_after: u128,
}

pub ghost struct BalancePairV {
    pub batch_id: int,
    pub balance_before: int,
    pub balance_after: int,
}

impl View for BalancePair {
    type V = BalancePairV;

    open spec fn view(&self) -> BalancePairV {
        BalancePairV {
            batch_id: self.batch_id as int,
            balance_before: self.balance_before as int,
            balance_after: self.balance_after as int,
        }
    }
}

pub open spec fn bal_views(s: Seq<BalancePair>) -> Seq<BalancePairV> {
    Seq::new(s.len(), |i: int| s[i]@)
}

/// One proof event with its receipt, the timestamp of the block holding
/// the proving transaction, and the historical balances of the covered
/// batches' coinbases.
pub struct ProofObservation {
    pub event: BatchesProvedEvent,
    pub receipt: TxReceiptData,
    /// Timestamp of the base-chain block `receipt.block_number`.
    pub block_timestamp: u64,
    pub balances: Vec<BalancePair>,
}

pub ghost struct ProofObservationV {
    pub batch_ids: Seq<int>,
    pub receipt: TxReceiptDataV,
    pub block_timestamp: int,
    pub balances: Seq<BalancePairV>,
}

impl View for ProofObservation {
    type V = ProofObservationV;

    open spec fn view(&self) -> ProofObservationV {
        ProofObservationV {
            batch_ids: self.event@,
            receipt: self.receipt@,
            block_timestamp: self.block_timestamp as int,
            balances: bal_views(self.balances@),
        }
    }
}

} // verus!
