//! The batch record and the progress checkpoint.

use vstd::prelude::*;

use crate::decimal::{all_digits, dec_of, val_of};

verus! {

/// One row of the `batch` table: a proposed batch, with its proof-derived
/// fields still null until a proof event covers it.
#[derive(Debug, PartialEq)]
pub struct Batch {
    pub batch_id: i64,
    /// Batch sender to L1.
    pub sender: String,
    /// Declared batch proposer.
    pub proposer: String,
    /// Coinbase address on L2.
    pub coinbase: String,
    /// Proposal transaction hash on L1.
    pub propose_tx: String,
    /// Timestamp of the block with the proposal transaction.
    pub proposed_at: i64,
    /// Last L2 block included in the batch.
    pub last_block_id: i64,
    /// Number of L2 blocks in the batch.
    pub block_count: i64,
    /// Base-chain fee paid for the proposal, as a decimal string.
    pub propose_fee: String,
    /// Fee earned on L2 over the batch's block span.
    pub l2_fee_earned: Option<String>,
    /// Address attributed with proving the batch.
    pub prover: Option<String>,
    /// Proof transaction hash on L1.
    pub prove_tx: Option<String>,
    /// Even share of the proof transaction's fee, as a decimal string.
    pub prove_fee: Option<String>,
    /// Whether the proposal transaction's sender equals the coinbase.
    pub is_sent_by_proposer: bool,
    /// Whether the earned fee exceeds the fees paid.
    pub is_profitable: Option<bool>,
    /// Whether the attributed prover equals the proposer.
    pub is_proved_by_proposer: Option<bool>,
}

/// The mathematical value of a batch row.
pub ghost struct BatchV {
    pub batch_id: int,
    pub sender: Seq<char>,
    pub proposer: Seq<char>,
    pub coinbase: Seq<char>,
    pub propose_tx: Seq<char>,
    pub proposed_at: int,
    pub last_block_id: int,
    pub block_count: int,
    pub propose_fee: Seq<char>,
    pub l2_fee_earned: Option<Seq<char>>,
    pub prover: Option<Seq<char>>,
    pub prove_tx: Option<Seq<char>>,
    pub prove_fee: Option<Seq<char>>,
    pub is_sent_by_proposer: bool,
    pub is_profitable: Option<bool>,
    pub is_proved_by_proposer: Option<bool>,
}

pub open spec fn opt_string_view(o: Option<String>) -> Option<Seq<char>> {
    match o {
        Some(s) => Some(s@),
        None => None,
    }
}

impl View for Batch {
    type V = BatchV;

    open spec fn view(&self) -> BatchV {
        BatchV {
            batch_id: self.batch_id as int,
            sender: self.sender@,
            proposer: self.proposer@,
            coinbase: self.coinbase@,
            propose_tx: self.propose_tx@,
            proposed_at: self.proposed_at as int,
            last_block_id: self.last_block_id as int,
            block_count: self.block_count as int,
            propose_fee: self.propose_fee@,
            l2_fee_earned: opt_string_view(self.l2_fee_earned),
            prover: opt_string_view(self.prover),
            prove_tx: opt_string_view(self.prove_tx),
            prove_fee: opt_string_view(self.prove_fee),
            is_sent_by_proposer: self.is_sent_by_proposer,
            is_profitable: self.is_profitable,
            is_proved_by_proposer: self.is_proved_by_proposer,
        }
    }
}

impl Clone for Batch {
    fn clone(&self) -> (r: Self)
        ensures
            r@ == self@,
    {
        Batch {
            batch_id: self.batch_id,
            sender: self.sender.clone(),
            proposer: self.proposer.clone(),
            coinbase: self.coinbase.clone(),
            propose_tx: self.propose_tx.clone(),
            proposed_at: self.proposed_at,
            last_block_id: self.last_block_id,
            block_count: self.block_count,
            propose_fee: self.propose_fee.clone(),
            l2_fee_earned: match &self.l2_fee_earned {
                Some(s) => Some(s.clone()),
                None => None,
            },
            prover: match &self.prover {
                Some(s) => Some(s.clone()),
                None => None,
            },
            prove_tx: match &self.prove_tx {
                Some(s) => Some(s.clone()),
                None => None,
            },
            prove_fee: match &self.prove_fee {
                Some(s) => Some(s.clone()),
                None => None,
            },
            is_sent_by_proposer: self.is_sent_by_proposer,
            is_profitable: self.is_profitable,
            is_proved_by_proposer: self.is_proved_by_proposer,
        }
    }
}

/// A canonical stored fee: a non-empty digit string without a leading
/// zero whose value fits the unsigned wide accumulator.
pub open spec fn canon_fee(s: Seq<char>) -> bool {
    &&& s.len() > 0
    &&& all_digits(s)
    &&& (s.len() > 1 ==> s[0] != '0')
    &&& val_of(s) <= u128::MAX
}

/// All six proof-derived fields are set.
pub open spec fn proved_fields_set(b: BatchV) -> bool {
    &&& b.l2_fee_earned.is_some()
    &&& b.prover.is_some()
    &&& b.prove_tx.is_some()
    &&& b.prove_fee.is_some()
    &&& b.is_profitable.is_some()
    &&& b.is_proved_by_proposer.is_some()
}

/// All six proof-derived fields are still null.
pub open spec fn proved_fields_null(b: BatchV) -> bool {
    &&& b.l2_fee_earned.is_none()
    &&& b.prover.is_none()
    &&& b.prove_tx.is_none()
    &&& b.prove_fee.is_none()
    &&& b.is_profitable.is_none()
    &&& b.is_proved_by_proposer.is_none()
}

/// Profitability, recomputed from the stored fee fields.
pub open spec fn recomputed_profitable(b: BatchV) -> bool {
    val_of(b.l2_fee_earned.unwrap()) > val_of(b.prove_fee.unwrap()) + val_of(b.propose_fee)
}

/// Well-formedness of one batch row: non-negative chain values, canonical
/// fee strings, and proof-derived fields that are either all null or all
/// set and internally consistent.
pub open spec fn batch_wf(b: BatchV) -> bool {
    &&& b.batch_id >= 0
    &&& b.proposed_at >= 0
    &&& b.last_block_id >= 0
    &&& b.block_count >= 0
    &&& canon_fee(b.propose_fee)
    &&& proved_fields_set(b) || proved_fields_null(b)
    &&& proved_fields_set(b) ==> {
        &&& canon_fee(b.l2_fee_earned.unwrap())
        &&& canon_fee(b.prove_fee.unwrap())
        &&& b.is_profitable == Some(recomputed_profitable(b))
        &&& b.is_proved_by_proposer == Some(b.prover.unwrap() == b.proposer)
    }
}

/// The canonical decimal form of a `u128` is a canonical stored fee.
pub proof fn lemma_dec_of_canon(n: u128)
    ensures
        canon_fee(dec_of(n as nat)),
        val_of(dec_of(n as nat)) == n as nat,
{
    crate::decimal::lemma_dec_of_props(n as nat);
}

/// The singleton checkpoint row: indexing progress, monotonically
/// advanced by partial merges.
#[derive(Clone, Copy, Debug, PartialEq, Eq, Structural)]
pub struct Status {
    pub id: i64,
    /// Last fully indexed L1 block.
    pub indexed_l1_block: i64,
    /// Greatest proposed batch id observed.
    pub proposed_batch_id: i64,
    /// Greatest proposed L2 block id observed.
    pub proposed_block_id: i64,
    /// Greatest proved batch id observed.
    pub proved_batch_id: i64,
    /// Greatest proved L2 block id observed.
    pub proved_block_id: i64,
}

/// Well-formedness of the checkpoint: the fixed singleton key and
/// non-negative progress values.
pub open spec fn status_wf(s: Status) -> bool {
    &&& s.id == 0
    &&& s.indexed_l1_block >= 0
    &&& s.proposed_batch_id >= 0
    &&& s.proposed_block_id >= 0
    &&& s.proved_batch_id >= 0
    &&& s.proved_block_id >= 0
}

} // verus!
