//! The durable layer: the batch table and the checkpoint singleton.
//!
//! `DataBase` is the verified model of the store the process owns:
//! one row per batch, insert-once / update-append semantics, and the
//! five-field progress checkpoint with its partial-merge update.  The
//! storage backend mirrors exactly this state.

use vstd::prelude::*;
use vstd::pervasive::VecAdditionalExecFns;

use crate::batch::{
    Batch, BatchV, Status, batch_wf, canon_fee, proved_fields_set, status_wf,
};
use crate::decimal::{dec_of, u128_to_string, val_of};
use crate::errors::IndexerError;
use crate::events::{BatchProposedEvent, BatchProposedEventV};

verus! {

pub const I64_MAX_U64: u64 = 0x7fff_ffff_ffff_ffff;

/// The whole stored state: the batch rows in insertion order and the
/// checkpoint row.
pub ghost struct DbV {
    pub rows: Seq<BatchV>,
    pub status: Status,
}

/// No two rows carry the same batch id.
pub open spec fn unique_ids(rows: Seq<BatchV>) -> bool {
    forall|i: int, j: int|
        0 <= i < j < rows.len() ==> (#[trigger] rows[i]).batch_id != (#[trigger] rows[j]).batch_id
}

/// Some row carries this batch id.
pub open spec fn has_id(rows: Seq<BatchV>, id: int) -> bool {
    exists|i: int| 0 <= i < rows.len() && (#[trigger] rows[i]).batch_id == id
}

/// The index of the row with this batch id.
pub open spec fn idx_of(rows: Seq<BatchV>, id: int) -> int {
    choose|i: int| 0 <= i < rows.len() && (#[trigger] rows[i]).batch_id == id
}

/// The row a proposal event inserts: proposal fields set, proof fields
/// null, the sender flag fixed at creation.
pub open spec fn proposed_row(
    ev: BatchProposedEventV,
    tx_hash: Seq<char>,
    sender: Seq<char>,
    propose_fee: u128,
) -> BatchV {
    BatchV {
        batch_id: ev.batch_id,
        sender: sender,
        proposer: ev.proposer,
        coinbase: ev.coinbase,
        propose_tx: tx_hash,
        proposed_at: ev.proposed_at,
        last_block_id: ev.last_block_id,
        block_count: ev.block_count,
        propose_fee: dec_of(propose_fee as nat),
        l2_fee_earned: None,
        prover: None,
        prove_tx: None,
        prove_fee: None,
        is_sent_by_proposer: sender == ev.coinbase,
        is_profitable: None,
        is_proved_by_proposer: None,
    }
}

/// The chain-native values of a proposal event fit the stored width.
pub open spec fn proposal_fits(ev: BatchProposedEventV) -> bool {
    &&& ev.batch_id <= i64::MAX
    &&& ev.proposed_at <= i64::MAX
    &&& ev.last_block_id <= i64::MAX
    &&& ev.block_count <= i64::MAX
}

/// A row with the six proof-derived fields taken from `b` and everything
/// else kept from `row`.
pub open spec fn with_proof_fields(row: BatchV, b: BatchV) -> BatchV {
    BatchV {
        l2_fee_earned: b.l2_fee_earned,
        prover: b.prover,
        prove_tx: b.prove_tx,
        prove_fee: b.prove_fee,
        is_profitable: b.is_profitable,
        is_proved_by_proposer: b.is_proved_by_proposer,
        ..row
    }
}

/// The proof-derived bundle of `b` is consistent with the row it will be
/// merged into: profitability recomputed from the stored proposal fee,
/// and the proposer flag recomputed from the stored proposer.
pub open spec fn proof_bundle_consistent(rows: Seq<BatchV>, b: BatchV) -> bool {
    has_id(rows, b.batch_id) ==> {
        let row = rows[idx_of(rows, b.batch_id)];
        &&& b.is_profitable == Some(
            val_of(b.l2_fee_earned.unwrap()) > val_of(b.prove_fee.unwrap()) + val_of(
                row.propose_fee,
            ),
        )
        &&& b.is_proved_by_proposer == Some(b.prover.unwrap() == row.proposer)
    }
}

/// One partial-merge step of the checkpoint: a zero argument is the
/// "none observed" sentinel and leaves the stored value untouched.
pub open spec fn merged_status(s: Status, a: int, b: int, c: int, d: int, e: int) -> Status {
    Status {
        id: s.id,
        indexed_l1_block: if a == 0 { s.indexed_l1_block } else { a as i64 },
        proposed_batch_id: if b == 0 { s.proposed_batch_id } else { b as i64 },
        proposed_block_id: if c == 0 { s.proposed_block_id } else { c as i64 },
        proved_batch_id: if d == 0 { s.proved_batch_id } else { d as i64 },
        proved_block_id: if e == 0 { s.proved_block_id } else { e as i64 },
    }
}

/// Every non-sentinel checkpoint argument fits the stored width.
pub open spec fn status_args_fit(a: int, b: int, c: int, d: int, e: int) -> bool {
    &&& a <= i64::MAX
    &&& b <= i64::MAX
    &&& c <= i64::MAX
    &&& d <= i64::MAX
    &&& e <= i64::MAX
}

/// The store: one batch table and the checkpoint singleton.
pub struct DataBase {
    batches: Vec<Batch>,
    status: Status,
}

impl View for DataBase {
    type V = DbV;

    closed spec fn view(&self) -> DbV {
        DbV {
            rows: Seq::new(self.batches@.len(), |i: int| self.batches@[i]@),
            status: self.status,
        }
    }
}

impl DataBase {
    /// Batch ids are unique, every row is well formed, and the
    /// checkpoint row is well formed.
    pub open spec fn wf(self) -> bool {
        &&& unique_ids(self@.rows)
        &&& forall|i: int| 0 <= i < self@.rows.len() ==> batch_wf(#[trigger] self@.rows[i])
        &&& status_wf(self@.status)
    }

    /// Creates the empty store: no batches, all-zero progress.  The
    /// schema-creating initializer of the backend seeds exactly this.
    pub fn new() -> (r: DataBase)
        ensures
            r.wf(),
            r@.rows.len() == 0,
            r@.status == (Status {
                id: 0,
                indexed_l1_block: 0,
                proposed_batch_id: 0,
                proposed_block_id: 0,
                proved_batch_id: 0,
                proved_block_id: 0,
            }),
    {
        let r = DataBase {
            batches: Vec::new(),
            status: Status {
                id: 0,
                indexed_l1_block: 0,
                proposed_batch_id: 0,
                proposed_block_id: 0,
                proved_batch_id: 0,
                proved_block_id: 0,
            },
        };
        proof {
            assert(r@.rows =~= Seq::<BatchV>::empty());
        }
        r
    }

    /// The last fully indexed base-chain block.
    pub fn get_indexed_l1_block(&self) -> (r: u64)
        requires
            self.wf(),
        ensures
            r == self@.status.indexed_l1_block,
    {
        self.status.indexed_l1_block as u64
    }

    /// The checkpoint row.
    pub fn get_status(&self) -> (r: Status)
        ensures
            r == self@.status,
    {
        self.status
    }

    /// Applies a partial merge to the checkpoint: each argument is taken
    /// only if it is not the zero sentinel.  Fails, leaving the store
    /// untouched, exactly when a non-sentinel value does not fit the
    /// stored width.
    pub fn update_status(
        &mut self,
        indexed_l1_block: u64,
        proposed_batch_id: u64,
        proposed_block_id: u64,
        proved_batch_id: u64,
        proved_block_id: u64,
    ) -> (r: Result<(), IndexerError>)
        requires
            old(self).wf(),
        ensures
            final(self).wf(),
            final(self)@.rows == old(self)@.rows,
            ({
                let fit = status_args_fit(
                    indexed_l1_block as int,
                    proposed_batch_id as int,
                    proposed_block_id as int,
                    proved_batch_id as int,
                    proved_block_id as int,
                );
                if fit {
                    r is Ok && final(self)@.status == merged_status(
                        old(self)@.status,
                        indexed_l1_block as int,
                        proposed_batch_id as int,
                        proposed_block_id as int,
                        proved_batch_id as int,
                        proved_block_id as int,
                    )
                } else {
                    r == Err::<(), IndexerError>(IndexerError::Overflow) && final(self)@.status
                        == old(self)@.status
                }
            }),
    {
        if indexed_l1_block > I64_MAX_U64 || proposed_batch_id > I64_MAX_U64 || proposed_block_id
            > I64_MAX_U64 || proved_batch_id > I64_MAX_U64 || proved_block_id > I64_MAX_U64 {
            return Err(IndexerError::Overflow);
        }
        if indexed_l1_block != 0 {
            self.status.indexed_l1_block = indexed_l1_block as i64;
        }
        if proposed_batch_id != 0 {
            self.status.proposed_batch_id = proposed_batch_id as i64;
        }
        if proposed_block_id != 0 {
            self.status.proposed_block_id = proposed_block_id as i64;
        }
        if proved_batch_id != 0 {
            self.status.proved_batch_id = proved_batch_id as i64;
        }
        if proved_block_id != 0 {
            self.status.proved_block_id = proved_block_id as i64;
        }
        Ok(())
    }

    /// Inserts the row a proposal event describes.  A duplicate batch id
    /// leaves the table untouched and still succeeds, which makes
    /// re-running a proposal scan over an already-indexed range safe.
    /// Fails exactly when a chain-native value does not fit the stored
    /// width.
    pub fn insert_batch(
        &mut self,
        ev: &BatchProposedEvent,
        tx_hash: String,
        sender: String,
        propose_fee: u128,
    ) -> (r: Result<(), IndexerError>)
        requires
            old(self).wf(),
        ensures
            final(self).wf(),
            final(self)@.status == old(self)@.status,
            if proposal_fits(ev@) {
                r is Ok && final(self)@.rows == (if has_id(old(self)@.rows, ev@.batch_id) {
                    old(self)@.rows
                } else {
                    old(self)@.rows.push(proposed_row(ev@, tx_hash@, sender@, propose_fee))
                })
            } else {
                r == Err::<(), IndexerError>(IndexerError::Overflow) && final(self)@.rows == old(
                    self,
                )@.rows
            },
    {
        if ev.batch_id > I64_MAX_U64 || ev.proposed_at > I64_MAX_U64 || ev.last_block_id
            > I64_MAX_U64 || ev.block_count > I64_MAX_U64 {
            return Err(IndexerError::Overflow);
        }
        let batch_id = ev.batch_id as i64;
        if self.contains_id(batch_id) {
            return Ok(());
        }
        let is_sent_by_proposer = sender == ev.coinbase;
        let row = Batch {
            batch_id,
            sender,
            proposer: ev.proposer.clone(),
            coinbase: ev.coinbase.clone(),
            propose_tx: tx_hash,
            proposed_at: ev.proposed_at as i64,
            last_block_id: ev.last_block_id as i64,
            block_count: ev.block_count as i64,
            propose_fee: u128_to_string(propose_fee),
            l2_fee_earned: None,
            prover: None,
            prove_tx: None,
            prove_fee: None,
            is_sent_by_proposer,
            is_profitable: None,
            is_proved_by_proposer: None,
        };
        proof {
            assert(row@ == proposed_row(ev@, tx_hash@, sender@, propose_fee));
            crate::batch::lemma_dec_of_canon(propose_fee);
            assert(batch_wf(row@));
        }
        self.batches.push(row);
        proof {
            assert(self@.rows =~= old(self)@.rows.push(
                proposed_row(ev@, tx_hash@, sender@, propose_fee),
            ));
        }
        Ok(())
    }

    /// How many rows the batch table holds.
    pub fn row_count(&self) -> (r: usize)
        ensures
            r == self@.rows.len(),
    {
        self.batches.len()
    }

    /// The row at one table position.
    pub fn row_at(&self, i: usize) -> (r: &Batch)
        requires
            i < self@.rows.len(),
        ensures
            r@ == self@.rows[i as int],
    {
        &self.batches[i]
    }

    /// Whether some row carries this batch id.
    fn contains_id(&self, batch_id: i64) -> (r: bool)
        ensures
            r == has_id(self@.rows, batch_id as int),
    {
        let n = self.batches.len();
        let mut i: usize = 0;
        while i < n
            invariant
                0 <= i <= n == self@.rows.len(),
                forall|k: int| 0 <= k < i ==> (#[trigger] self@.rows[k]).batch_id != batch_id,
            decreases n - i,
        {
            if self.batches[i].batch_id == batch_id {
                assert(self@.rows[i as int].batch_id == batch_id);
                return true;
            }
            i = i + 1;
        }
        false
    }

    /// Returns a copy of the row with this batch id, or nothing.
    pub fn get_batch_by_id(&self, batch_id: i64) -> (r: Option<Batch>)
        requires
            self.wf(),
        ensures
            match r {
                Some(b) => has_id(self@.rows, batch_id as int) && b@ == self@.rows[idx_of(
                    self@.rows,
                    batch_id as int,
                )],
                None => !has_id(self@.rows, batch_id as int),
            },
    {
        let n = self.batches.len();
        let mut i: usize = 0;
        while i < n
            invariant
                self.wf(),
                0 <= i <= n == self@.rows.len(),
                forall|k: int| 0 <= k < i ==> (#[trigger] self@.rows[k]).batch_id != batch_id,
            decreases n - i,
        {
            if self.batches[i].batch_id == batch_id {
                assert(self@.rows[i as int].batch_id == batch_id);
                assert(idx_of(self@.rows, batch_id as int) == i) by {
                    let j = idx_of(self@.rows, batch_id as int);
                    assert(0 <= j < self@.rows.len() && self@.rows[j].batch_id == batch_id);
                }
                return Some(self.batches[i].clone());
            }
            i = i + 1;
        }
        None
    }

    /// Overwrites the six proof-derived fields of the row keyed by
    /// `batch.batch_id`; a missing id leaves the table untouched.  Proof
    /// fields only ever go from null to set: a set row never loses them.
    pub fn update_batch(&mut self, batch: Batch)
        requires
            old(self).wf(),
            proved_fields_set(batch@),
            canon_fee(batch@.l2_fee_earned.unwrap()),
            canon_fee(batch@.prove_fee.unwrap()),
            proof_bundle_consistent(old(self)@.rows, batch@),
        ensures
            final(self).wf(),
            final(self)@.status == old(self)@.status,
            final(self)@.rows == (if has_id(old(self)@.rows, batch@.batch_id) {
                old(self)@.rows.update(
                    idx_of(old(self)@.rows, batch@.batch_id),
                    with_proof_fields(old(self)@.rows[idx_of(old(self)@.rows, batch@.batch_id)], batch@),
                )
            } else {
                old(self)@.rows
            }),
            forall|i: int|
                0 <= i < old(self)@.rows.len() && proved_fields_set(#[trigger] old(self)@.rows[i])
                    ==> proved_fields_set(final(self)@.rows[i]),
    {
        let ghost bv = batch@;
        let n = self.batches.len();
        let mut i: usize = 0;
        while i < n
            invariant
                old(self).wf(),
                *self == *old(self),
                bv == batch@,
                proved_fields_set(bv),
                canon_fee(bv.l2_fee_earned.unwrap()),
                canon_fee(bv.prove_fee.unwrap()),
                proof_bundle_consistent(old(self)@.rows, bv),
                0 <= i <= n == self@.rows.len(),
                forall|k: int| 0 <= k < i ==> (#[trigger] self@.rows[k]).batch_id != bv.batch_id,
            decreases n - i,
        {
            if self.batches[i].batch_id == batch.batch_id {
                assert(self@.rows[i as int].batch_id == bv.batch_id);
                assert(idx_of(self@.rows, bv.batch_id as int) == i) by {
                    let j = idx_of(self@.rows, bv.batch_id as int);
                    assert(0 <= j < self@.rows.len() && self@.rows[j].batch_id == bv.batch_id);
                }
                let mut row = self.batches[i].clone();
                row.l2_fee_earned = batch.l2_fee_earned;
                row.prover = batch.prover;
                row.prove_tx = batch.prove_tx;
                row.prove_fee = batch.prove_fee;
                row.is_profitable = batch.is_profitable;
                row.is_proved_by_proposer = batch.is_proved_by_proposer;
                proof {
                    assert(has_id(old(self)@.rows, bv.batch_id));
                    assert(row@ == with_proof_fields(old(self)@.rows[i as int], bv));
                    assert(batch_wf(old(self)@.rows[i as int]));
                    assert(proved_fields_set(bv));
                    assert(row@.l2_fee_earned == bv.l2_fee_earned);
                    assert(proved_fields_set(row@));
                    assert(row@.propose_fee == old(self)@.rows[i as int].propose_fee);
                    assert(batch_wf(row@));
                }
                self.batches.set(i, row);
                proof {
                    let updated = old(self)@.rows.update(
                        i as int,
                        with_proof_fields(old(self)@.rows[i as int], bv),
                    );
                    assert(self@.rows =~= updated);
                    assert forall|k: int|
                        0 <= k < old(self)@.rows.len() && proved_fields_set(
                            #[trigger] old(self)@.rows[k],
                        ) implies proved_fields_set(self@.rows[k]) by {
                        if k != i as int {
                            assert(self@.rows[k] == old(self)@.rows[k]);
                        }
                    }
                }
                return ;
            }
            i = i + 1;
        }
        proof {
            assert(self@.rows =~= old(self)@.rows);
        }
    }
}

/// All five checkpoint fields are non-decreasing across a successful
/// partial update whose non-sentinel arguments do not fall behind the
/// stored progress.
pub proof fn lemma_update_status_monotonic(s: Status, a: int, b: int, c: int, d: int, e: int)
    requires
        status_wf(s),
        status_args_fit(a, b, c, d, e),
        a == 0 || a >= s.indexed_l1_block,
        b == 0 || b >= s.proposed_batch_id,
        c == 0 || c >= s.proposed_block_id,
        d == 0 || d >= s.proved_batch_id,
        e == 0 || e >= s.proved_block_id,
    ensures
        merged_status(s, a, b, c, d, e).indexed_l1_block >= s.indexed_l1_block,
        merged_status(s, a, b, c, d, e).proposed_batch_id >= s.proposed_batch_id,
        merged_status(s, a, b, c, d, e).proposed_block_id >= s.proposed_block_id,
        merged_status(s, a, b, c, d, e).proved_batch_id >= s.proved_batch_id,
        merged_status(s, a, b, c, d, e).proved_block_id >= s.proved_block_id,
{
}

/// Every row of a well-formed store has its proof-derived fields either
/// all null or all set.
pub proof fn lemma_proof_fields_all_or_none(db: DataBase)
    requires
        db.wf(),
    ensures
        forall|i: int|
            0 <= i < db@.rows.len() ==> proved_fields_set(#[trigger] db@.rows[i])
                || crate::batch::proved_fields_null(db@.rows[i]),
{
}

/// Every proved row of a well-formed store carries exactly the
/// profitability recomputed from its stored fee fields, and the proposer
/// flag recomputed from its stored prover and proposer.
pub proof fn lemma_profitability_recomputed(db: DataBase)
    requires
        db.wf(),
    ensures
        forall|i: int|
            0 <= i < db@.rows.len() && proved_fields_set(#[trigger] db@.rows[i])
                ==> db@.rows[i].is_profitable == Some(
                crate::batch::recomputed_profitable(db@.rows[i]),
            ) && db@.rows[i].is_proved_by_proposer == Some(
                db@.rows[i].prover.unwrap() == db@.rows[i].proposer,
            ),
{
}

} // verus!
