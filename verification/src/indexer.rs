//! The indexing engine: proposal and proof processors and the
//! orchestrator's decisions.
//!
//! Both processors are folds over decoded observations.  The fold is
//! written once as a spec function and the executable processor is pinned
//! to it; a fatal failure sticks, so a processor's contract speaks of the
//! fold over the whole observation list.

use vstd::prelude::*;

use crate::batch::{BatchV, batch_wf, canon_fee, proved_fields_set};
use crate::config::Config;
use crate::db::{
    DataBase, I64_MAX_U64, has_id, idx_of, merged_status, proposal_fits, proposed_row, unique_ids,
    status_args_fit, with_proof_fields,
};
use crate::decimal::{dec_of, parse_u128, u128_to_string, val_of};
use crate::errors::IndexerError;
use crate::events::{
    BalancePair, BalancePairV, ProofObservation, ProofObservationV, ProposalObservation,
    ProposalObservationV, TxReceiptData, TxReceiptDataV,
};

verus! {

/// The state a processor folds: the table rows, the two maxima it
/// reports, and the failure that aborted it, if any.
pub ghost struct ScanOutcome {
    pub rows: Seq<BatchV>,
    pub max_batch_id: int,
    pub max_block_id: int,
    pub failure: Option<IndexerError>,
}

pub open spec fn init_scan(rows: Seq<BatchV>) -> ScanOutcome {
    ScanOutcome { rows, max_batch_id: 0, max_block_id: 0, failure: None }
}

pub open spec fn imax(a: int, b: int) -> int {
    if a > b {
        a
    } else {
        b
    }
}

/// The base-chain fee a receipt paid: execution gas plus blob gas.
pub open spec fn fee_total(r: TxReceiptDataV) -> int {
    r.gas_used * r.effective_gas_price + (match r.blob_gas_used {
        Some(v) => v,
        None => 0,
    }) * (match r.blob_gas_price {
        Some(v) => v,
        None => 0,
    })
}

/// One proposal observation folded into the state: compute the fee, track
/// the maxima, insert the row unless the id is already present.  A fee or
/// width overflow is fatal and sticks.
pub open spec fn apply_proposal(st: ScanOutcome, ob: ProposalObservationV) -> ScanOutcome {
    if st.failure is Some {
        st
    } else if fee_total(ob.receipt) > u128::MAX {
        ScanOutcome { failure: Some(IndexerError::Overflow), ..st }
    } else {
        let mb = imax(st.max_batch_id, ob.event.batch_id);
        let mk = imax(st.max_block_id, ob.event.last_block_id);
        if !proposal_fits(ob.event) {
            ScanOutcome {
                max_batch_id: mb,
                max_block_id: mk,
                failure: Some(IndexerError::Overflow),
                ..st
            }
        } else {
            ScanOutcome {
                rows: if has_id(st.rows, ob.event.batch_id) {
                    st.rows
                } else {
                    st.rows.push(
                        proposed_row(
                            ob.event,
                            ob.receipt.tx_hash,
                            ob.receipt.sender,
                            fee_total(ob.receipt) as u128,
                        ),
                    )
                },
                max_batch_id: mb,
                max_block_id: mk,
                failure: None,
            }
        }
    }
}

pub open spec fn scan_proposals(st: ScanOutcome, obs: Seq<ProposalObservationV>) -> ScanOutcome
    decreases obs.len(),
{
    if obs.len() == 0 {
        st
    } else {
        apply_proposal(scan_proposals(st, obs.drop_last()), obs.last())
    }
}

pub open spec fn prop_views(obs: Seq<ProposalObservation>) -> Seq<ProposalObservationV> {
    Seq::new(obs.len(), |i: int| obs[i]@)
}

pub proof fn lemma_scan_proposals_step(st: ScanOutcome, vs: Seq<ProposalObservationV>, k: int)
    requires
        0 <= k < vs.len(),
    ensures
        scan_proposals(st, vs.take(k + 1)) == apply_proposal(scan_proposals(st, vs.take(k)), vs[k]),
{
    assert(vs.take(k + 1).drop_last() =~= vs.take(k));
    assert(vs.take(k + 1).last() == vs[k]);
}

/// Once a proposal scan has failed, the remaining observations change
/// nothing.
pub proof fn lemma_scan_proposals_stuck(st: ScanOutcome, vs: Seq<ProposalObservationV>, j: int)
    requires
        0 <= j <= vs.len(),
        scan_proposals(st, vs.take(j)).failure is Some,
    ensures
        scan_proposals(st, vs) == scan_proposals(st, vs.take(j)),
    decreases vs.len() - j,
{
    if j == vs.len() {
        assert(vs.take(j) =~= vs);
    } else {
        lemma_scan_proposals_step(st, vs, j);
        lemma_scan_proposals_stuck(st, vs, j + 1);
    }
}

/// The prover attributed to a batch: the proof sender if the proof block
/// timestamp lies strictly beyond the proving window, the original
/// proposer otherwise.
pub open spec fn spec_prover(
    prove_sender: Seq<char>,
    proposer: Seq<char>,
    block_timestamp: int,
    proposed_at: int,
    proving_window: int,
) -> Seq<char> {
    if block_timestamp > proposed_at + proving_window {
        prove_sender
    } else {
        proposer
    }
}

/// The per-event context a proof scan carries into its id list.
pub ghost struct ProofCtx {
    pub share: int,
    pub tx_hash: Seq<char>,
    pub sender: Seq<char>,
    pub block_timestamp: int,
    pub balances: Seq<BalancePairV>,
}

/// The first balance pair recorded for this batch id.
pub open spec fn find_balance(bals: Seq<BalancePairV>, id: int) -> Option<BalancePairV>
    decreases bals.len(),
{
    if bals.len() == 0 {
        None
    } else if bals[0].batch_id == id {
        Some(bals[0])
    } else {
        find_balance(bals.drop_first(), id)
    }
}

pub proof fn lemma_find_balance_hit(bals: Seq<BalancePairV>, id: int, i: int)
    requires
        0 <= i < bals.len(),
        bals[i].batch_id == id,
        forall|k: int| 0 <= k < i ==> (#[trigger] bals[k]).batch_id != id,
    ensures
        find_balance(bals, id) == Some(bals[i]),
    decreases i,
{
    if i > 0 {
        lemma_find_balance_hit(bals.drop_first(), id, i - 1);
        assert(bals.drop_first()[i - 1] == bals[i]);
    }
}

pub proof fn lemma_find_balance_miss(bals: Seq<BalancePairV>, id: int)
    requires
        forall|k: int| 0 <= k < bals.len() ==> (#[trigger] bals[k]).batch_id != id,
    ensures
        find_balance(bals, id) is None,
    decreases bals.len(),
{
    if bals.len() > 0 {
        lemma_find_balance_miss(bals.drop_first(), id);
    }
}

/// The row a proof writes for a covered batch: the six proof-derived
/// fields, computed from the stored proposal fields, the even fee share,
/// and the observed balances.
pub open spec fn proved_row(row: BatchV, ctx: ProofCtx, bal: BalancePairV, window: int) -> BatchV {
    let l2 = bal.balance_after - bal.balance_before;
    let prover = spec_prover(ctx.sender, row.proposer, ctx.block_timestamp, row.proposed_at, window);
    BatchV {
        l2_fee_earned: Some(dec_of(l2 as nat)),
        prover: Some(prover),
        prove_tx: Some(ctx.tx_hash),
        prove_fee: Some(dec_of(ctx.share as nat)),
        is_profitable: Some(l2 > ctx.share + val_of(row.propose_fee)),
        is_proved_by_proposer: Some(prover == row.proposer),
        ..row
    }
}

/// One proved batch id folded into the state: a missing row is an
/// upstream gap and is skipped; a found row gets its proof fields and the
/// maxima advance.  A width overflow, a missing balance pair or a
/// decreasing balance is fatal.
pub open spec fn apply_proof_id(st: ScanOutcome, id: int, ctx: ProofCtx, window: int) -> ScanOutcome {
    if st.failure is Some {
        st
    } else if id > i64::MAX {
        ScanOutcome { failure: Some(IndexerError::Overflow), ..st }
    } else if !has_id(st.rows, id) {
        st
    } else {
        let j = idx_of(st.rows, id);
        let row = st.rows[j];
        let mb = imax(st.max_batch_id, id);
        let mk = imax(st.max_block_id, row.last_block_id);
        match find_balance(ctx.balances, id) {
            None => ScanOutcome { failure: Some(IndexerError::MissingBalanceData), ..st },
            Some(bal) => {
                if bal.balance_after < bal.balance_before {
                    ScanOutcome { failure: Some(IndexerError::BalanceDecreased), ..st }
                } else {
                    ScanOutcome {
                        rows: st.rows.update(j, proved_row(row, ctx, bal, window)),
                        max_batch_id: mb,
                        max_block_id: mk,
                        failure: None,
                    }
                }
            },
        }
    }
}

pub open spec fn apply_proof_ids(
    st: ScanOutcome,
    ids: Seq<int>,
    ctx: ProofCtx,
    window: int,
) -> ScanOutcome
    decreases ids.len(),
{
    if ids.len() == 0 {
        st
    } else {
        apply_proof_id(apply_proof_ids(st, ids.drop_last(), ctx, window), ids.last(), ctx, window)
    }
}

pub proof fn lemma_apply_proof_ids_step(st: ScanOutcome, ids: Seq<int>, ctx: ProofCtx, window: int, k: int)
    requires
        0 <= k < ids.len(),
    ensures
        apply_proof_ids(st, ids.take(k + 1), ctx, window) == apply_proof_id(
            apply_proof_ids(st, ids.take(k), ctx, window),
            ids[k],
            ctx,
            window,
        ),
{
    assert(ids.take(k + 1).drop_last() =~= ids.take(k));
    assert(ids.take(k + 1).last() == ids[k]);
}

pub proof fn lemma_apply_proof_ids_stuck(st: ScanOutcome, ids: Seq<int>, ctx: ProofCtx, window: int, j: int)
    requires
        0 <= j <= ids.len(),
        apply_proof_ids(st, ids.take(j), ctx, window).failure is Some,
    ensures
        apply_proof_ids(st, ids, ctx, window) == apply_proof_ids(st, ids.take(j), ctx, window),
    decreases ids.len() - j,
{
    if j == ids.len() {
        assert(ids.take(j) =~= ids);
    } else {
        lemma_apply_proof_ids_step(st, ids, ctx, window, j);
        lemma_apply_proof_ids_stuck(st, ids, ctx, window, j + 1);
    }
}

/// One proof event folded into the state: the total fee is split evenly
/// across the covered ids, the remainder dropped, and each id is applied
/// in order.  An event covering no id at all is fatal.
pub open spec fn apply_proof_event(st: ScanOutcome, ob: ProofObservationV, window: int) -> ScanOutcome {
    if st.failure is Some {
        st
    } else if fee_total(ob.receipt) > u128::MAX {
        ScanOutcome { failure: Some(IndexerError::Overflow), ..st }
    } else if ob.batch_ids.len() == 0 {
        ScanOutcome { failure: Some(IndexerError::EmptyProofEvent), ..st }
    } else {
        let ctx = ProofCtx {
            share: fee_total(ob.receipt) / ob.batch_ids.len() as int,
            tx_hash: ob.receipt.tx_hash,
            sender: ob.receipt.sender,
            block_timestamp: ob.block_timestamp,
            balances: ob.balances,
        };
        apply_proof_ids(st, ob.batch_ids, ctx, window)
    }
}

pub open spec fn scan_proofs(st: ScanOutcome, obs: Seq<ProofObservationV>, window: int) -> ScanOutcome
    decreases obs.len(),
{
    if obs.len() == 0 {
        st
    } else {
        apply_proof_event(scan_proofs(st, obs.drop_last(), window), obs.last(), window)
    }
}

pub open spec fn proof_views(obs: Seq<ProofObservation>) -> Seq<ProofObservationV> {
    Seq::new(obs.len(), |i: int| obs[i]@)
}

pub proof fn lemma_scan_proofs_step(st: ScanOutcome, vs: Seq<ProofObservationV>, window: int, k: int)
    requires
        0 <= k < vs.len(),
    ensures
        scan_proofs(st, vs.take(k + 1), window) == apply_proof_event(
            scan_proofs(st, vs.take(k), window),
            vs[k],
            window,
        ),
{
    assert(vs.take(k + 1).drop_last() =~= vs.take(k));
    assert(vs.take(k + 1).last() == vs[k]);
}

pub proof fn lemma_scan_proofs_stuck(st: ScanOutcome, vs: Seq<ProofObservationV>, window: int, j: int)
    requires
        0 <= j <= vs.len(),
        scan_proofs(st, vs.take(j), window).failure is Some,
    ensures
        scan_proofs(st, vs, window) == scan_proofs(st, vs.take(j), window),
    decreases vs.len() - j,
{
    if j == vs.len() {
        assert(vs.take(j) =~= vs);
    } else {
        lemma_scan_proofs_step(st, vs, window, j);
        lemma_scan_proofs_stuck(st, vs, window, j + 1);
    }
}

pub open spec fn sum_int(s: Seq<int>) -> int
    decreases s.len(),
{
    if s.len() == 0 {
        0
    } else {
        sum_int(s.drop_last()) + s.last()
    }
}

pub proof fn lemma_sum_const(c: int, n: nat)
    ensures
        sum_int(Seq::new(n, |i: int| c)) == n * c,
    decreases n,
{
    if n == 0 {
        assert(Seq::new(n, |i: int| c).len() == 0);
    } else {
        lemma_sum_const(c, (n - 1) as nat);
        let s = Seq::new(n, |i: int| c);
        assert(s.drop_last() =~= Seq::new((n - 1) as nat, |i: int| c));
        assert(s.last() == c);
        assert(n * c == (n - 1) * c + c) by {
            vstd::arithmetic::mul::lemma_mul_is_distributive_sub_other_way(c, n as int, 1);
        }
    }
}

/// The even fee split of a proof transaction: each of the `n` covered
/// batches is charged exactly `f / n`, and the `n` shares together never
/// exceed the total fee — the remainder is dropped, a documented
/// precision loss.
pub proof fn lemma_proof_fee_split(f: u128, n: nat)
    requires
        1 <= n,
    ensures
        sum_int(Seq::new(n, |i: int| f as int / n as int)) == n * (f as int / n as int),
        n * (f as int / n as int) <= f,
{
    let share = f as int / n as int;
    lemma_sum_const(share, n);
    vstd::arithmetic::div_mod::lemma_fundamental_div_mod(f as int, n as int);
    vstd::arithmetic::div_mod::lemma_mod_division_less_than_divisor(f as int, n as int);
    assert(f as int == n * share + (f as int % n as int));
}

/// The attribution boundary: a proof landing exactly at the window edge
/// still belongs to the proposer; one second past it belongs to the
/// proof sender.
pub proof fn lemma_prover_attribution_boundary(
    prove_sender: Seq<char>,
    proposer: Seq<char>,
    proposed_at: int,
    proving_window: int,
)
    ensures
        spec_prover(
            prove_sender,
            proposer,
            proposed_at + proving_window,
            proposed_at,
            proving_window,
        ) == proposer,
        spec_prover(
            prove_sender,
            proposer,
            proposed_at + proving_window + 1,
            proposed_at,
            proving_window,
        ) == prove_sender,
{
}

/// The indexing engine: the store it owns, its progress, and its pacing
/// settings.
pub struct BatchIndexer {
    pub indexed_l1_block: u64,
    pub db: DataBase,
    pub proving_window: u64,
    pub indexing_step: u64,
    pub sleep_duration_sec: u64,
}

impl BatchIndexer {
    pub open spec fn wf(self) -> bool {
        self.db.wf()
    }

    /// Builds the engine over an existing store: progress resumes from
    /// the persisted checkpoint, but never before the configured start.
    pub fn new(config: &Config, db: DataBase, proving_window: u64) -> (r: BatchIndexer)
        requires
            db.wf(),
        ensures
            r.wf(),
            r.db == db,
            r.indexed_l1_block == imax(
                db@.status.indexed_l1_block as int,
                config.l1_start_block as int,
            ),
            r.proving_window == proving_window,
            r.indexing_step == config.indexing_step,
            r.sleep_duration_sec == config.sleep_duration_sec,
    {
        let stored = db.get_indexed_l1_block();
        let indexed_l1_block = if stored > config.l1_start_block {
            stored
        } else {
            config.l1_start_block
        };
        BatchIndexer {
            indexed_l1_block,
            db,
            proving_window,
            indexing_step: config.indexing_step,
            sleep_duration_sec: config.sleep_duration_sec,
        }
    }

    /// The base-chain fee a receipt paid, in the unsigned wide width;
    /// never floating point.  Fails exactly when the fee does not fit.
    pub fn get_tx_eth_price(receipt: &TxReceiptData) -> (r: Result<u128, IndexerError>)
        ensures
            match r {
                Ok(v) => fee_total(receipt@) <= u128::MAX && v == fee_total(receipt@),
                Err(e) => e == IndexerError::Overflow && fee_total(receipt@) > u128::MAX,
            },
    {
        let gas_used = receipt.gas_used as u128;
        let gas_price = receipt.effective_gas_price;
        let blob_gas_used = (match receipt.blob_gas_used {
            Some(v) => v,
            None => 0,
        }) as u128;
        let blob_gas_price = match receipt.blob_gas_price {
            Some(v) => v,
            None => 0,
        };
        proof {
            vstd::arithmetic::mul::lemma_mul_nonnegative(
                gas_used as int,
                gas_price as int,
            );
            vstd::arithmetic::mul::lemma_mul_nonnegative(
                blob_gas_used as int,
                blob_gas_price as int,
            );
        }
        let execution_fee = match gas_used.checked_mul(gas_price) {
            Some(v) => v,
            None => {
                return Err(IndexerError::Overflow);
            },
        };
        let blob_fee = match blob_gas_used.checked_mul(blob_gas_price) {
            Some(v) => v,
            None => {
                return Err(IndexerError::Overflow);
            },
        };
        match execution_fee.checked_add(blob_fee) {
            Some(v) => Ok(v),
            None => Err(IndexerError::Overflow),
        }
    }

    /// The fee a batch earned on L2: its coinbase's balance at the end of
    /// the batch's block span minus the balance at its start.  A
    /// decreasing balance is a fatal inconsistency.
    pub fn calculate_l2_fee_earned(balance_before: u128, balance_after: u128) -> (r: Result<
        u128,
        IndexerError,
    >)
        ensures
            match r {
                Ok(v) => balance_after >= balance_before && v == balance_after - balance_before,
                Err(e) => e == IndexerError::BalanceDecreased && balance_after < balance_before,
            },
    {
        if balance_after < balance_before {
            Err(IndexerError::BalanceDecreased)
        } else {
            Ok(balance_after - balance_before)
        }
    }

    /// Attributes the prover: the proof sender only strictly beyond the
    /// proving window, the original proposer at the window edge or inside
    /// it.
    pub fn get_prover(
        &self,
        prove_sender: &str,
        proposer: &str,
        block_timestamp: u64,
        proposed_at: u64,
    ) -> (r: String)
        ensures
            r@ == spec_prover(
                prove_sender@,
                proposer@,
                block_timestamp as int,
                proposed_at as int,
                self.proving_window as int,
            ),
    {
        if block_timestamp as u128 > proposed_at as u128 + self.proving_window as u128 {
            prove_sender.to_owned()
        } else {
            proposer.to_owned()
        }
    }

    /// Runs the proposal processor over one window's decoded events, in
    /// chain order.  On success returns the greatest batch id and last
    /// L2 block id observed, or the zero sentinel if the window held no
    /// event; the table ends exactly as the proposal fold says.
    pub fn index_batch_proposed(&mut self, obs: &Vec<ProposalObservation>) -> (r: Result<
        (u64, u64),
        IndexerError,
    >)
        requires
            old(self).wf(),
        ensures
            final(self).wf(),
            final(self).indexed_l1_block == old(self).indexed_l1_block,
            final(self).proving_window == old(self).proving_window,
            final(self).indexing_step == old(self).indexing_step,
            final(self).sleep_duration_sec == old(self).sleep_duration_sec,
            final(self).db@.status == old(self).db@.status,
            ({
                let st = scan_proposals(init_scan(old(self).db@.rows), prop_views(obs@));
                &&& final(self).db@.rows == st.rows
                &&& match r {
                    Ok((mb, mk)) => st.failure is None && mb == st.max_batch_id && mk
                        == st.max_block_id,
                    Err(e) => st.failure == Some(e),
                }
            }),
    {
        let ghost rows0 = old(self).db@.rows;
        let ghost vs = prop_views(obs@);
        let mut max_batch_id: u64 = 0;
        let mut max_block_id: u64 = 0;
        let n = obs.len();
        let mut i: usize = 0;
        while i < n
            invariant
                self.wf(),
                self.indexed_l1_block == old(self).indexed_l1_block,
                self.proving_window == old(self).proving_window,
                self.indexing_step == old(self).indexing_step,
                self.sleep_duration_sec == old(self).sleep_duration_sec,
                self.db@.status == old(self).db@.status,
                rows0 == old(self).db@.rows,
                vs == prop_views(obs@),
                n == obs@.len() == vs.len(),
                0 <= i <= n,
                ({
                    let st = scan_proposals(init_scan(rows0), vs.take(i as int));
                    &&& st.failure is None
                    &&& st.rows == self.db@.rows
                    &&& st.max_batch_id == max_batch_id
                    &&& st.max_block_id == max_block_id
                }),
            decreases n - i,
        {
            let ghost st_pre = scan_proposals(init_scan(rows0), vs.take(i as int));
            proof {
                lemma_scan_proposals_step(init_scan(rows0), vs, i as int);
                assert(vs[i as int] == obs@[i as int]@);
            }
            let ob = &obs[i];
            let fee = match Self::get_tx_eth_price(&ob.receipt) {
                Ok(v) => v,
                Err(e) => {
                    proof {
                        lemma_scan_proposals_stuck(init_scan(rows0), vs, i + 1);
                        assert(scan_proposals(init_scan(rows0), vs).failure == Some(e));
                    }
                    return Err(e);
                },
            };
            if ob.event.batch_id > max_batch_id {
                max_batch_id = ob.event.batch_id;
            }
            if ob.event.last_block_id > max_block_id {
                max_block_id = ob.event.last_block_id;
            }
            let insert_result = self.db.insert_batch(
                &ob.event,
                ob.receipt.tx_hash.clone(),
                ob.receipt.sender.clone(),
                fee,
            );
            match insert_result {
                Ok(_) => {
                    proof {
                        assert(scan_proposals(init_scan(rows0), vs.take(i + 1)) == apply_proposal(
                            st_pre,
                            vs[i as int],
                        ));
                    }
                },
                Err(e) => {
                    proof {
                        lemma_scan_proposals_stuck(init_scan(rows0), vs, i + 1);
                    }
                    return Err(e);
                },
            }
            i = i + 1;
        }
        proof {
            assert(vs.take(n as int) =~= vs);
        }
        Ok((max_batch_id, max_block_id))
    }

    /// Runs the proof processor over the same window's decoded events, in
    /// chain order, after every proposal of the window has been folded
    /// in.  On success returns the greatest proved batch id and last L2
    /// block id among the batches found in the table, or the zero
    /// sentinel; the table ends exactly as the proof fold says.
    pub fn index_batch_proved(&mut self, obs: &Vec<ProofObservation>) -> (r: Result<
        (u64, u64),
        IndexerError,
    >)
        requires
            old(self).wf(),
        ensures
            final(self).wf(),
            final(self).indexed_l1_block == old(self).indexed_l1_block,
            final(self).proving_window == old(self).proving_window,
            final(self).indexing_step == old(self).indexing_step,
            final(self).sleep_duration_sec == old(self).sleep_duration_sec,
            final(self).db@.status == old(self).db@.status,
            ({
                let st = scan_proofs(
                    init_scan(old(self).db@.rows),
                    proof_views(obs@),
                    old(self).proving_window as int,
                );
                &&& final(self).db@.rows == st.rows
                &&& match r {
                    Ok((mb, mk)) => st.failure is None && mb == st.max_batch_id && mk
                        == st.max_block_id,
                    Err(e) => st.failure == Some(e),
                }
            }),
    {
        let ghost rows0 = old(self).db@.rows;
        let ghost vs = proof_views(obs@);
        let ghost window = old(self).proving_window as int;
        let mut max_batch_id: u64 = 0;
        let mut max_block_id: u64 = 0;
        let n = obs.len();
        let mut i: usize = 0;
        while i < n
            invariant
                self.wf(),
                self.indexed_l1_block == old(self).indexed_l1_block,
                self.proving_window == old(self).proving_window,
                self.indexing_step == old(self).indexing_step,
                self.sleep_duration_sec == old(self).sleep_duration_sec,
                self.db@.status == old(self).db@.status,
                rows0 == old(self).db@.rows,
                vs == proof_views(obs@),
                window == self.proving_window as int,
                n == obs@.len() == vs.len(),
                0 <= i <= n,
                ({
                    let st = scan_proofs(init_scan(rows0), vs.take(i as int), window);
                    &&& st.failure is None
                    &&& st.rows == self.db@.rows
                    &&& st.max_batch_id == max_batch_id
                    &&& st.max_block_id == max_block_id
                }),
            decreases n - i,
        {
            let ghost st_pre = scan_proofs(init_scan(rows0), vs.take(i as int), window);
            proof {
                lemma_scan_proofs_step(init_scan(rows0), vs, window, i as int);
                assert(vs[i as int] == obs@[i as int]@);
            }
            let ob = &obs[i];
            let total = match Self::get_tx_eth_price(&ob.receipt) {
                Ok(v) => v,
                Err(e) => {
                    proof {
                        lemma_scan_proofs_stuck(init_scan(rows0), vs, window, i + 1);
                    }
                    return Err(e);
                },
            };
            let n_ids = ob.event.batch_ids.len();
            if n_ids == 0 {
                proof {
                    lemma_scan_proofs_stuck(init_scan(rows0), vs, window, i + 1);
                }
                return Err(IndexerError::EmptyProofEvent);
            }
            let share = total / (n_ids as u128);
            let ghost ctx = ProofCtx {
                share: share as int,
                tx_hash: ob.receipt.tx_hash@,
                sender: ob.receipt.sender@,
                block_timestamp: ob.block_timestamp as int,
                balances: vs[i as int].balances,
            };
            let ghost idsv = vs[i as int].batch_ids;
            proof {
                assert(ctx.share == fee_total(vs[i as int].receipt) / idsv.len() as int);
                assert(apply_proof_event(st_pre, vs[i as int], window) == apply_proof_ids(
                    st_pre,
                    idsv,
                    ctx,
                    window,
                ));
            }
            let mut k: usize = 0;
            while k < n_ids
                invariant
                    self.wf(),
                    self.indexed_l1_block == old(self).indexed_l1_block,
                    self.proving_window == old(self).proving_window,
                    self.indexing_step == old(self).indexing_step,
                    self.sleep_duration_sec == old(self).sleep_duration_sec,
                    self.db@.status == old(self).db@.status,
                    rows0 == old(self).db@.rows,
                    vs == proof_views(obs@),
                    window == self.proving_window as int,
                    n == obs@.len() == vs.len(),
                    0 <= i < n,
                    obs[i as int] == *ob,
                    vs[i as int] == ob@,
                    st_pre == scan_proofs(init_scan(rows0), vs.take(i as int), window),
                    st_pre.failure is None,
                    idsv == vs[i as int].batch_ids,
                    n_ids == ob.event.batch_ids@.len() == idsv.len(),
                    ctx == (ProofCtx {
                        share: share as int,
                        tx_hash: ob.receipt.tx_hash@,
                        sender: ob.receipt.sender@,
                        block_timestamp: ob.block_timestamp as int,
                        balances: vs[i as int].balances,
                    }),
                    apply_proof_event(st_pre, vs[i as int], window) == apply_proof_ids(
                        st_pre,
                        idsv,
                        ctx,
                        window,
                    ),
                    0 <= k <= n_ids,
                    ({
                        let stk = apply_proof_ids(st_pre, idsv.take(k as int), ctx, window);
                        &&& stk.failure is None
                        &&& stk.rows == self.db@.rows
                        &&& stk.max_batch_id == max_batch_id
                        &&& stk.max_block_id == max_block_id
                    }),
                decreases n_ids - k,
            {
                let ghost stk = apply_proof_ids(st_pre, idsv.take(k as int), ctx, window);
                proof {
                    lemma_apply_proof_ids_step(st_pre, idsv, ctx, window, k as int);
                    assert(idsv[k as int] == ob.event.batch_ids@[k as int] as int);
                }
                let id = ob.event.batch_ids[k];
                if id > I64_MAX_U64 {
                    proof {
                        lemma_apply_proof_ids_stuck(st_pre, idsv, ctx, window, k + 1);
                        lemma_scan_proofs_step(init_scan(rows0), vs, window, i as int);
                        lemma_scan_proofs_stuck(init_scan(rows0), vs, window, i + 1);
                    }
                    return Err(IndexerError::Overflow);
                }
                match self.db.get_batch_by_id(id as i64) {
                    None => {
                        proof {
                            assert(apply_proof_id(stk, idsv[k as int], ctx, window) == stk);
                        }
                    },
                    Some(batch) => {
                        let ghost rowv = batch@;
                        let ghost j = idx_of(self.db@.rows, id as int);
                        proof {
                            assert(has_id(stk.rows, idsv[k as int]));
                            assert(batch_wf(self.db@.rows[j]));
                        }
                        if id > max_batch_id {
                            max_batch_id = id;
                        }
                        let lb = batch.last_block_id as u64;
                        if lb > max_block_id {
                            max_block_id = lb;
                        }
                        let found = Self::find_balance_pair(&ob.balances, id);
                        let bal = match found {
                            Some(b) => b,
                            None => {
                                proof {
                                    lemma_apply_proof_ids_stuck(st_pre, idsv, ctx, window, k + 1);
                                    lemma_scan_proofs_step(init_scan(rows0), vs, window, i as int);
                                    lemma_scan_proofs_stuck(init_scan(rows0), vs, window, i + 1);
                                }
                                return Err(IndexerError::MissingBalanceData);
                            },
                        };
                        let l2_fee_earned = match Self::calculate_l2_fee_earned(
                            bal.balance_before,
                            bal.balance_after,
                        ) {
                            Ok(v) => v,
                            Err(e) => {
                                proof {
                                    lemma_apply_proof_ids_stuck(st_pre, idsv, ctx, window, k + 1);
                                    lemma_scan_proofs_step(init_scan(rows0), vs, window, i as int);
                                    lemma_scan_proofs_stuck(init_scan(rows0), vs, window, i + 1);
                                }
                                return Err(e);
                            },
                        };
                        let prover = self.get_prover(
                            ob.receipt.sender.as_str(),
                            batch.proposer.as_str(),
                            ob.block_timestamp,
                            batch.proposed_at as u64,
                        );
                        let propose_fee_val = match parse_u128(batch.propose_fee.as_str()) {
                            Ok(v) => v,
                            Err(_) => {
                                proof {
                                    assert(canon_fee(rowv.propose_fee));
                                    assert(false);
                                }
                                return Err(IndexerError::Overflow);
                            },
                        };
                        let is_profitable = match share.checked_add(propose_fee_val) {
                            Some(cost) => l2_fee_earned > cost,
                            None => false,
                        };
                        let is_proved_by_proposer = prover == batch.proposer;
                        let mut updated = batch;
                        updated.l2_fee_earned = Some(u128_to_string(l2_fee_earned));
                        updated.prove_tx = Some(ob.receipt.tx_hash.clone());
                        updated.prove_fee = Some(u128_to_string(share));
                        updated.prover = Some(prover);
                        updated.is_profitable = Some(is_profitable);
                        updated.is_proved_by_proposer = Some(is_proved_by_proposer);
                        let ghost balv = bal@;
                        proof {
                            crate::batch::lemma_dec_of_canon(l2_fee_earned);
                            crate::batch::lemma_dec_of_canon(share);
                            assert(proved_fields_set(updated@));
                            assert(self.db@.rows[j] == rowv);
                            assert(val_of(rowv.propose_fee) == propose_fee_val as nat);
                            assert(is_profitable == (l2_fee_earned as int > share as int + val_of(
                                rowv.propose_fee,
                            )));
                            assert(crate::db::proof_bundle_consistent(self.db@.rows, updated@));
                        }
                        self.db.update_batch(updated);
                        proof {
                            assert(find_balance(ctx.balances, idsv[k as int]) == Some(balv));
                            assert(with_proof_fields(rowv, updated@) == proved_row(
                                rowv,
                                ctx,
                                balv,
                                window,
                            ));
                            assert(apply_proof_id(stk, idsv[k as int], ctx, window)
                                == (ScanOutcome {
                                rows: stk.rows.update(j, proved_row(rowv, ctx, balv, window)),
                                max_batch_id: imax(stk.max_batch_id, idsv[k as int]),
                                max_block_id: imax(stk.max_block_id, rowv.last_block_id),
                                failure: None,
                            }));
                        }
                    },
                }
                k = k + 1;
            }
            proof {
                assert(idsv.take(n_ids as int) =~= idsv);
            }
            i = i + 1;
        }
        proof {
            assert(vs.take(n as int) =~= vs);
        }
        Ok((max_batch_id, max_block_id))
    }

    /// The next indexing window `[last_indexed + 1, last_indexed + step]`,
    /// inclusive on both ends: it starts right after the last indexed
    /// block and is `step` blocks wide.
    pub fn plan_window(&self) -> (r: Result<(u64, u64), IndexerError>)
        ensures
            match r {
                Ok((f, t)) => {
                    &&& self.indexed_l1_block + 1 <= u64::MAX
                    &&& self.indexed_l1_block + self.indexing_step <= u64::MAX
                    &&& f == self.indexed_l1_block + 1
                    &&& t == self.indexed_l1_block + self.indexing_step
                },
                Err(e) => e == IndexerError::Overflow && (self.indexed_l1_block + 1 > u64::MAX
                    || self.indexed_l1_block + self.indexing_step > u64::MAX),
            },
    {
        let from_block = match self.indexed_l1_block.checked_add(1) {
            Some(v) => v,
            None => {
                return Err(IndexerError::Overflow);
            },
        };
        match self.indexed_l1_block.checked_add(self.indexing_step) {
            Some(to_block) => Ok((from_block, to_block)),
            None => Err(IndexerError::Overflow),
        }
    }

    /// How long to pause before the next iteration: a full step's worth
    /// of intervals while the head is still far ahead of progress, one
    /// base interval at steady state.
    pub fn sleep_seconds(&self, current_block: u64) -> (r: Result<u64, IndexerError>)
        ensures
            match r {
                Ok(v) => {
                    if current_block >= self.indexed_l1_block + self.indexing_step {
                        self.indexing_step * self.sleep_duration_sec <= u64::MAX && v
                            == self.indexing_step * self.sleep_duration_sec
                    } else {
                        v == self.sleep_duration_sec
                    }
                },
                Err(e) => {
                    &&& e == IndexerError::Overflow
                    &&& current_block >= self.indexed_l1_block + self.indexing_step
                    &&& self.indexing_step * self.sleep_duration_sec > u64::MAX
                },
            },
    {
        if current_block as u128 >= self.indexed_l1_block as u128 + self.indexing_step as u128 {
            match self.indexing_step.checked_mul(self.sleep_duration_sec) {
                Some(v) => Ok(v),
                None => Err(IndexerError::Overflow),
            }
        } else {
            Ok(self.sleep_duration_sec)
        }
    }

    /// One iteration of the indexing loop over already-decoded
    /// observations: if the chain head is strictly beyond the planned
    /// window, the proposal processor runs first, the proof processor
    /// second, progress advances to the window end and the checkpoint is
    /// merged (best effort: a checkpoint width overflow is swallowed).
    /// Returns whether the window was processed.
    pub fn run_indexing_iteration(
        &mut self,
        current_block: u64,
        proposals: &Vec<ProposalObservation>,
        proofs: &Vec<ProofObservation>,
    ) -> (r: Result<bool, IndexerError>)
        requires
            old(self).wf(),
        ensures
            final(self).wf(),
            final(self).proving_window == old(self).proving_window,
            final(self).indexing_step == old(self).indexing_step,
            final(self).sleep_duration_sec == old(self).sleep_duration_sec,
            ({
                let t = old(self).indexed_l1_block + old(self).indexing_step;
                let stp = scan_proposals(init_scan(old(self).db@.rows), prop_views(proposals@));
                let stv = scan_proofs(
                    init_scan(stp.rows),
                    proof_views(proofs@),
                    old(self).proving_window as int,
                );
                if old(self).indexed_l1_block + 1 > u64::MAX || t > u64::MAX {
                    r == Err::<bool, IndexerError>(IndexerError::Overflow) && *final(self) == *old(
                        self,
                    )
                } else if current_block <= t {
                    r == Ok::<bool, IndexerError>(false) && *final(self) == *old(self)
                } else if stp.failure is Some {
                    &&& r == Err::<bool, IndexerError>(stp.failure.unwrap())
                    &&& final(self).db@.rows == stp.rows
                    &&& final(self).db@.status == old(self).db@.status
                    &&& final(self).indexed_l1_block == old(self).indexed_l1_block
                } else if stv.failure is Some {
                    &&& r == Err::<bool, IndexerError>(stv.failure.unwrap())
                    &&& final(self).db@.rows == stv.rows
                    &&& final(self).db@.status == old(self).db@.status
                    &&& final(self).indexed_l1_block == old(self).indexed_l1_block
                } else {
                    &&& r == Ok::<bool, IndexerError>(true)
                    &&& final(self).db@.rows == stv.rows
                    &&& final(self).indexed_l1_block == t
                    &&& final(self).db@.status == (if status_args_fit(
                        t as int,
                        stp.max_batch_id,
                        stp.max_block_id,
                        stv.max_batch_id,
                        stv.max_block_id,
                    ) {
                        merged_status(
                            old(self).db@.status,
                            t as int,
                            stp.max_batch_id,
                            stp.max_block_id,
                            stv.max_batch_id,
                            stv.max_block_id,
                        )
                    } else {
                        old(self).db@.status
                    })
                }
            }),
    {
        let (_from_block, to_block) = match self.plan_window() {
            Ok(w) => w,
            Err(e) => {
                return Err(e);
            },
        };
        if current_block <= to_block {
            return Ok(false);
        }
        let (proposed_batch_id, proposed_block_id) = match self.index_batch_proposed(proposals) {
            Ok(m) => m,
            Err(e) => {
                return Err(e);
            },
        };
        let (proved_batch_id, proved_block_id) = match self.index_batch_proved(proofs) {
            Ok(m) => m,
            Err(e) => {
                return Err(e);
            },
        };
        self.indexed_l1_block = to_block;
        let status_result = self.db.update_status(
            to_block,
            proposed_batch_id,
            proposed_block_id,
            proved_batch_id,
            proved_block_id,
        );
        match status_result {
            Ok(_) => {},
            Err(_) => {
                // Checkpoint persistence failure is logged and non-fatal:
                // the processed window stands and the next iteration
                // proceeds with stale progress.
            },
        }
        Ok(true)
    }

    /// The first supplied balance pair for this batch id, if any.
    pub fn find_balance_pair(bals: &Vec<BalancePair>, id: u64) -> (r: Option<BalancePair>)
        ensures
            match r {
                Some(b) => find_balance(crate::events::bal_views(bals@), id as int) == Some(b@),
                None => find_balance(crate::events::bal_views(bals@), id as int) is None,
            },
    {
        let n = bals.len();
        let mut i: usize = 0;
        while i < n
            invariant
                0 <= i <= n == bals@.len(),
                forall|k: int|
                    0 <= k < i ==> (#[trigger] crate::events::bal_views(bals@)[k]).batch_id != id,
            decreases n - i,
        {
            if bals[i].batch_id == id {
                proof {
                    lemma_find_balance_hit(crate::events::bal_views(bals@), id as int, i as int);
                }
                return Some(bals[i]);
            }
            i = i + 1;
        }
        proof {
            lemma_find_balance_miss(crate::events::bal_views(bals@), id as int);
        }
        None
    }
}


/// The ten proposal-time fields of a row: everything a proof never
/// rewrites.
pub open spec fn core_of(b: BatchV) -> BatchV {
    BatchV {
        l2_fee_earned: None,
        prover: None,
        prove_tx: None,
        prove_fee: None,
        is_profitable: None,
        is_proved_by_proposer: None,
        ..b
    }
}

/// One proof step rewrites only proof-derived fields: row count, batch
/// ids and all other proposal-time fields stay.
pub proof fn lemma_apply_proof_id_cores(st: ScanOutcome, id: int, ctx: ProofCtx, window: int)
    ensures
        apply_proof_id(st, id, ctx, window).rows.len() == st.rows.len(),
        forall|p: int|
            0 <= p < st.rows.len() ==> core_of(#[trigger] apply_proof_id(st, id, ctx, window).rows[p])
                == core_of(st.rows[p]),
{
}

pub proof fn lemma_apply_proof_ids_cores(st: ScanOutcome, ids: Seq<int>, ctx: ProofCtx, window: int)
    ensures
        apply_proof_ids(st, ids, ctx, window).rows.len() == st.rows.len(),
        forall|p: int|
            0 <= p < st.rows.len() ==> core_of(
                #[trigger] apply_proof_ids(st, ids, ctx, window).rows[p],
            ) == core_of(st.rows[p]),
    decreases ids.len(),
{
    if ids.len() > 0 {
        lemma_apply_proof_ids_cores(st, ids.drop_last(), ctx, window);
        lemma_apply_proof_id_cores(
            apply_proof_ids(st, ids.drop_last(), ctx, window),
            ids.last(),
            ctx,
            window,
        );
    }
}

pub proof fn lemma_apply_proof_event_cores(st: ScanOutcome, ob: ProofObservationV, window: int)
    ensures
        apply_proof_event(st, ob, window).rows.len() == st.rows.len(),
        forall|p: int|
            0 <= p < st.rows.len() ==> core_of(
                #[trigger] apply_proof_event(st, ob, window).rows[p],
            ) == core_of(st.rows[p]),
{
    if !(st.failure is Some) && fee_total(ob.receipt) <= u128::MAX && ob.batch_ids.len() > 0 {
        let ctx = ProofCtx {
            share: fee_total(ob.receipt) / ob.batch_ids.len() as int,
            tx_hash: ob.receipt.tx_hash,
            sender: ob.receipt.sender,
            block_timestamp: ob.block_timestamp,
            balances: ob.balances,
        };
        lemma_apply_proof_ids_cores(st, ob.batch_ids, ctx, window);
    }
}

/// A proof-derived field, once set, is never cleared: a proof pass only
/// moves rows from null proof fields to set ones.
pub proof fn lemma_scan_proofs_keeps_proved(st: ScanOutcome, obs: Seq<ProofObservationV>, window: int)
    ensures
        forall|p: int|
            0 <= p < st.rows.len() && proved_fields_set(#[trigger] st.rows[p])
                ==> proved_fields_set(scan_proofs(st, obs, window).rows[p]),
    decreases obs.len(),
{
    lemma_scan_proofs_cores(st, obs, window);
    if obs.len() > 0 {
        lemma_scan_proofs_keeps_proved(st, obs.drop_last(), window);
        let pre = scan_proofs(st, obs.drop_last(), window);
        let post = apply_proof_event(pre, obs.last(), window);
        lemma_apply_proof_event_cores(pre, obs.last(), window);
        assert forall|p: int|
            0 <= p < pre.rows.len() && proved_fields_set(#[trigger] pre.rows[p]) implies
            proved_fields_set(post.rows[p]) by {
            lemma_apply_proof_event_keeps_proved(pre, obs.last(), window, p);
        }
    }
}

proof fn lemma_apply_proof_event_keeps_proved(
    st: ScanOutcome,
    ob: ProofObservationV,
    window: int,
    p: int,
)
    requires
        0 <= p < st.rows.len(),
        proved_fields_set(st.rows[p]),
    ensures
        proved_fields_set(apply_proof_event(st, ob, window).rows[p]),
{
    if !(st.failure is Some) && fee_total(ob.receipt) <= u128::MAX && ob.batch_ids.len() > 0 {
        let ctx = ProofCtx {
            share: fee_total(ob.receipt) / ob.batch_ids.len() as int,
            tx_hash: ob.receipt.tx_hash,
            sender: ob.receipt.sender,
            block_timestamp: ob.block_timestamp,
            balances: ob.balances,
        };
        lemma_apply_proof_ids_keeps_proved(st, ob.batch_ids, ctx, window, p);
    }
}

proof fn lemma_apply_proof_ids_keeps_proved(
    st: ScanOutcome,
    ids: Seq<int>,
    ctx: ProofCtx,
    window: int,
    p: int,
)
    requires
        0 <= p < st.rows.len(),
        proved_fields_set(st.rows[p]),
    ensures
        proved_fields_set(apply_proof_ids(st, ids, ctx, window).rows[p]),
    decreases ids.len(),
{
    if ids.len() > 0 {
        lemma_apply_proof_ids_keeps_proved(st, ids.drop_last(), ctx, window, p);
        lemma_apply_proof_ids_cores(st, ids.drop_last(), ctx, window);
    }
}

/// For a referenced id found in the table, one failure-free proof step
/// rewrites that row in a single update: all six proof-derived fields
/// become set at once, to exactly the values `proved_row` computes, and
/// no other row changes.
pub proof fn lemma_apply_proof_id_transition(st: ScanOutcome, id: int, ctx: ProofCtx, window: int)
    requires
        st.failure is None,
        has_id(st.rows, id),
        apply_proof_id(st, id, ctx, window).failure is None,
    ensures
        ({
            let j = idx_of(st.rows, id);
            let result = apply_proof_id(st, id, ctx, window);
            &&& find_balance(ctx.balances, id) is Some
            &&& result.rows == st.rows.update(
                j,
                proved_row(st.rows[j], ctx, find_balance(ctx.balances, id).unwrap(), window),
            )
            &&& proved_fields_set(result.rows[j])
            &&& forall|p: int| 0 <= p < st.rows.len() && p != j ==> result.rows[p] == st.rows[p]
        }),
{
    let j = idx_of(st.rows, id);
    assert(0 <= j < st.rows.len() && st.rows[j].batch_id == id);
    assert(id <= i64::MAX);
    match find_balance(ctx.balances, id) {
        None => {
            assert(false);
        },
        Some(bal) => {
            assert(bal.balance_after >= bal.balance_before);
        },
    }
}

/// Within one proof scan over an id list, a referenced id found in the
/// table ends with its fee share stored as exactly the decimal form of
/// the context's share.
pub proof fn lemma_apply_proof_ids_share(
    st: ScanOutcome,
    ids: Seq<int>,
    ctx: ProofCtx,
    window: int,
    k: int,
)
    requires
        unique_ids(st.rows),
        st.failure is None,
        apply_proof_ids(st, ids, ctx, window).failure is None,
        0 <= k < ids.len(),
        has_id(st.rows, ids[k]),
    ensures
        apply_proof_ids(st, ids, ctx, window).rows[idx_of(st.rows, ids[k])].prove_fee == Some(
            dec_of(ctx.share as nat),
        ),
    decreases ids.len(),
{
    let result = apply_proof_ids(st, ids, ctx, window);
    let mid = apply_proof_ids(st, ids.drop_last(), ctx, window);
    let last_id = ids.last();
    assert(result == apply_proof_id(mid, last_id, ctx, window));
    assert(mid.failure is None) by {
        if mid.failure is Some {
            assert(apply_proof_id(mid, last_id, ctx, window) == mid);
        }
    }
    let j = idx_of(st.rows, ids[k]);
    assert(0 <= j < st.rows.len() && st.rows[j].batch_id == ids[k]);
    lemma_apply_proof_ids_cores(st, ids.drop_last(), ctx, window);
    assert(core_of(mid.rows[j]).batch_id == core_of(st.rows[j]).batch_id);
    assert(mid.rows[j].batch_id == ids[k]);
    if k == ids.len() - 1 {
        assert(has_id(mid.rows, last_id));
        let j2 = idx_of(mid.rows, last_id);
        assert(0 <= j2 < mid.rows.len() && mid.rows[j2].batch_id == last_id);
        assert(core_of(mid.rows[j2]).batch_id == core_of(st.rows[j2]).batch_id);
        assert(st.rows[j2].batch_id == last_id);
        assert(j2 == j);
        assert(last_id <= i64::MAX);
        match find_balance(ctx.balances, last_id) {
            None => {
                assert(false);
            },
            Some(bal) => {
                assert(bal.balance_after >= bal.balance_before);
                assert(result.rows == mid.rows.update(
                    j,
                    proved_row(mid.rows[j], ctx, bal, window),
                ));
                assert(result.rows[j].prove_fee == Some(dec_of(ctx.share as nat)));
            },
        }
    } else {
        assert(ids.drop_last()[k] == ids[k]);
        lemma_apply_proof_ids_share(st, ids.drop_last(), ctx, window, k);
        assert(mid.rows[j].prove_fee == Some(dec_of(ctx.share as nat)));
        assert(last_id <= i64::MAX);
        if !has_id(mid.rows, last_id) {
            assert(result == mid);
        } else {
            let j2 = idx_of(mid.rows, last_id);
            match find_balance(ctx.balances, last_id) {
                None => {
                    assert(false);
                },
                Some(bal) => {
                    assert(bal.balance_after >= bal.balance_before);
                    assert(result.rows == mid.rows.update(
                        j2,
                        proved_row(mid.rows[j2], ctx, bal, window),
                    ));
                    if j2 == j {
                        assert(result.rows[j].prove_fee == Some(dec_of(ctx.share as nat)));
                    } else {
                        assert(result.rows[j] == mid.rows[j]);
                    }
                },
            }
        }
    }
}

/// The per-row binding of the even fee split: within one failure-free
/// proof event whose receipt paid `F` over `n` referenced ids, every id
/// found in the table ends with `prove_fee` stored as the decimal form
/// of `F / n`.
pub proof fn lemma_proof_event_share(st: ScanOutcome, ob: ProofObservationV, window: int, k: int)
    requires
        unique_ids(st.rows),
        st.failure is None,
        apply_proof_event(st, ob, window).failure is None,
        0 <= k < ob.batch_ids.len(),
        has_id(st.rows, ob.batch_ids[k]),
    ensures
        apply_proof_event(st, ob, window).rows[idx_of(st.rows, ob.batch_ids[k])].prove_fee == Some(
            dec_of((fee_total(ob.receipt) / ob.batch_ids.len() as int) as nat),
        ),
{
    assert(fee_total(ob.receipt) <= u128::MAX) by {
        if fee_total(ob.receipt) > u128::MAX {
            assert(apply_proof_event(st, ob, window).failure is Some);
        }
    }
    let ctx = ProofCtx {
        share: fee_total(ob.receipt) / ob.batch_ids.len() as int,
        tx_hash: ob.receipt.tx_hash,
        sender: ob.receipt.sender,
        block_timestamp: ob.block_timestamp,
        balances: ob.balances,
    };
    lemma_apply_proof_ids_share(st, ob.batch_ids, ctx, window, k);
}

/// A whole proof pass rewrites only proof-derived fields.
pub proof fn lemma_scan_proofs_cores(st: ScanOutcome, obs: Seq<ProofObservationV>, window: int)
    ensures
        scan_proofs(st, obs, window).rows.len() == st.rows.len(),
        forall|p: int|
            0 <= p < st.rows.len() ==> core_of(#[trigger] scan_proofs(st, obs, window).rows[p])
                == core_of(st.rows[p]),
    decreases obs.len(),
{
    if obs.len() > 0 {
        lemma_scan_proofs_cores(st, obs.drop_last(), window);
        lemma_apply_proof_event_cores(scan_proofs(st, obs.drop_last(), window), obs.last(), window);
    }
}

/// A proposal scan only ever adds rows: every id present before is
/// present after, and every scanned event's id is present after a scan
/// that did not fail.
pub proof fn lemma_scan_proposals_ids(st: ScanOutcome, obs: Seq<ProposalObservationV>)
    ensures
        forall|id: int| has_id(st.rows, id) ==> has_id(#[trigger] scan_proposals(st, obs).rows, id),
        scan_proposals(st, obs).failure is None ==> forall|k: int|
            0 <= k < obs.len() ==> has_id(
                scan_proposals(st, obs).rows,
                (#[trigger] obs[k]).event.batch_id,
            ),
    decreases obs.len(),
{
    if obs.len() > 0 {
        lemma_scan_proposals_ids(st, obs.drop_last());
        let pre = scan_proposals(st, obs.drop_last());
        let post = apply_proposal(pre, obs.last());
        assert forall|id: int| has_id(pre.rows, id) implies has_id(post.rows, id) by {
            let w = choose|i: int| 0 <= i < pre.rows.len() && (#[trigger] pre.rows[i]).batch_id
                == id;
            if post.rows != pre.rows {
                assert(post.rows[w] == pre.rows[w]);
            }
        }
        if post.failure is None {
            assert(pre.failure is None);
            assert(has_id(post.rows, obs.last().event.batch_id)) by {
                if !has_id(pre.rows, obs.last().event.batch_id) {
                    let n = post.rows.len() - 1;
                    assert(post.rows[n].batch_id == obs.last().event.batch_id);
                }
            }
            assert forall|k: int| 0 <= k < obs.len() implies has_id(
                post.rows,
                (#[trigger] obs[k]).event.batch_id,
            ) by {
                if k < obs.len() - 1 {
                    assert(obs.drop_last()[k] == obs[k]);
                    assert(has_id(pre.rows, obs[k].event.batch_id));
                } else {
                    assert(obs[k] == obs.last());
                }
            }
        }
    }
}

/// Re-running a proposal scan whose failure-free result is known, over a
/// table that already holds every scanned id, changes nothing and
/// reports the same maxima.
pub proof fn lemma_scan_proposals_rescan(
    rows0: Seq<BatchV>,
    obs: Seq<ProposalObservationV>,
    rows_b: Seq<BatchV>,
)
    requires
        scan_proposals(init_scan(rows0), obs).failure is None,
        forall|k: int|
            0 <= k < obs.len() ==> has_id(rows_b, (#[trigger] obs[k]).event.batch_id),
    ensures
        scan_proposals(init_scan(rows_b), obs) == (ScanOutcome {
            rows: rows_b,
            max_batch_id: scan_proposals(init_scan(rows0), obs).max_batch_id,
            max_block_id: scan_proposals(init_scan(rows0), obs).max_block_id,
            failure: None,
        }),
    decreases obs.len(),
{
    if obs.len() == 0 {
        assert(scan_proposals(init_scan(rows_b), obs) == init_scan(rows_b));
    } else {
        let pre1 = scan_proposals(init_scan(rows0), obs.drop_last());
        let post1 = apply_proposal(pre1, obs.last());
        assert(pre1.failure is None);
        assert forall|k: int| 0 <= k < obs.drop_last().len() implies has_id(
            rows_b,
            (#[trigger] obs.drop_last()[k]).event.batch_id,
        ) by {
            assert(obs.drop_last()[k] == obs[k]);
        }
        lemma_scan_proposals_rescan(rows0, obs.drop_last(), rows_b);
        let pre2 = scan_proposals(init_scan(rows_b), obs.drop_last());
        assert(has_id(rows_b, obs.last().event.batch_id));
        assert(scan_proposals(init_scan(rows_b), obs) == apply_proposal(pre2, obs.last()));
    }
}

/// The two passes of a proof re-run, in lockstep: the first pass from
/// the freshly proposed table, the second from the finished table; the
/// second never falls behind, never fails, and ends on the same rows.
pub open spec fn lockstep(
    sa: ScanOutcome,
    sb: ScanOutcome,
    rows_p: Seq<BatchV>,
    rows1: Seq<BatchV>,
) -> bool {
    &&& sa.failure is None
    &&& sb.failure is None
    &&& sa.rows.len() == rows_p.len()
    &&& sb.rows.len() == rows_p.len()
    &&& rows1.len() == rows_p.len()
    &&& sa.max_batch_id == sb.max_batch_id
    &&& sa.max_block_id == sb.max_block_id
    &&& forall|p: int|
        0 <= p < rows_p.len() ==> core_of(#[trigger] sa.rows[p]) == core_of(rows_p[p])
    &&& forall|p: int|
        0 <= p < rows_p.len() ==> core_of(#[trigger] sb.rows[p]) == core_of(rows_p[p])
    &&& forall|p: int|
        0 <= p < rows_p.len() ==> (#[trigger] sb.rows[p]) == sa.rows[p] || sb.rows[p] == rows1[p]
}

pub proof fn lemma_lockstep_id(
    sa: ScanOutcome,
    sb: ScanOutcome,
    rows_p: Seq<BatchV>,
    rows1: Seq<BatchV>,
    id: int,
    ctx: ProofCtx,
    window: int,
)
    requires
        unique_ids(rows_p),
        lockstep(sa, sb, rows_p, rows1),
        apply_proof_id(sa, id, ctx, window).failure is None,
    ensures
        lockstep(
            apply_proof_id(sa, id, ctx, window),
            apply_proof_id(sb, id, ctx, window),
            rows_p,
            rows1,
        ),
{
    let sa2 = apply_proof_id(sa, id, ctx, window);
    let sb2 = apply_proof_id(sb, id, ctx, window);
    assert(id <= i64::MAX);
    assert forall|p: int| 0 <= p < rows_p.len() implies (#[trigger] sa.rows[p]).batch_id
        == rows_p[p].batch_id && sb.rows[p].batch_id == rows_p[p].batch_id by {
        assert(core_of(sa.rows[p]).batch_id == sa.rows[p].batch_id);
        assert(core_of(sb.rows[p]).batch_id == sb.rows[p].batch_id);
        assert(core_of(rows_p[p]).batch_id == rows_p[p].batch_id);
    }
    if has_id(sa.rows, id) {
        let ja = idx_of(sa.rows, id);
        assert(0 <= ja < sa.rows.len() && sa.rows[ja].batch_id == id);
        assert(sb.rows[ja].batch_id == id);
        assert(has_id(sb.rows, id));
        let jb = idx_of(sb.rows, id);
        assert(0 <= jb < sb.rows.len() && sb.rows[jb].batch_id == id);
        assert(ja == jb) by {
            assert(rows_p[ja].batch_id == id);
            assert(rows_p[jb].batch_id == id);
        }
        let row_a = sa.rows[ja];
        let row_b = sb.rows[ja];
        assert(core_of(row_a) == core_of(row_b));
        assert(row_a.proposer == row_b.proposer && row_a.proposed_at == row_b.proposed_at
            && row_a.propose_fee == row_b.propose_fee && row_a.last_block_id
            == row_b.last_block_id);
        match find_balance(ctx.balances, id) {
            None => {
                assert(false);
            },
            Some(bal) => {
                assert(bal.balance_after >= bal.balance_before);
                let v_a = proved_row(row_a, ctx, bal, window);
                let v_b = proved_row(row_b, ctx, bal, window);
                assert(v_a == v_b);
                assert(sa2.rows == sa.rows.update(ja, v_a));
                assert(sb2.rows == sb.rows.update(ja, v_a));
                assert forall|p: int| 0 <= p < rows_p.len() implies core_of(
                    #[trigger] sa2.rows[p],
                ) == core_of(rows_p[p]) && core_of(sb2.rows[p]) == core_of(rows_p[p]) && (
                sb2.rows[p] == sa2.rows[p] || sb2.rows[p] == rows1[p]) by {
                    if p != ja {
                        assert(sa2.rows[p] == sa.rows[p]);
                        assert(sb2.rows[p] == sb.rows[p]);
                    } else {
                        assert(core_of(v_a) == core_of(row_a));
                    }
                }
            },
        }
    } else {
        assert(!has_id(sb.rows, id)) by {
            if has_id(sb.rows, id) {
                let w = idx_of(sb.rows, id);
                assert(0 <= w < sb.rows.len() && sb.rows[w].batch_id == id);
                assert(sa.rows[w].batch_id == id);
            }
        }
        assert(sa2 == sa);
        assert(sb2 == sb);
    }
}

pub proof fn lemma_lockstep_ids(
    sa: ScanOutcome,
    sb: ScanOutcome,
    rows_p: Seq<BatchV>,
    rows1: Seq<BatchV>,
    ids: Seq<int>,
    ctx: ProofCtx,
    window: int,
)
    requires
        unique_ids(rows_p),
        lockstep(sa, sb, rows_p, rows1),
        apply_proof_ids(sa, ids, ctx, window).failure is None,
    ensures
        lockstep(
            apply_proof_ids(sa, ids, ctx, window),
            apply_proof_ids(sb, ids, ctx, window),
            rows_p,
            rows1,
        ),
    decreases ids.len(),
{
    if ids.len() > 0 {
        let pre_a = apply_proof_ids(sa, ids.drop_last(), ctx, window);
        assert(pre_a.failure is None) by {
            if pre_a.failure is Some {
                assert(apply_proof_id(pre_a, ids.last(), ctx, window) == pre_a);
            }
        }
        lemma_lockstep_ids(sa, sb, rows_p, rows1, ids.drop_last(), ctx, window);
        lemma_lockstep_id(
            pre_a,
            apply_proof_ids(sb, ids.drop_last(), ctx, window),
            rows_p,
            rows1,
            ids.last(),
            ctx,
            window,
        );
    }
}

pub proof fn lemma_lockstep_event(
    sa: ScanOutcome,
    sb: ScanOutcome,
    rows_p: Seq<BatchV>,
    rows1: Seq<BatchV>,
    ob: ProofObservationV,
    window: int,
)
    requires
        unique_ids(rows_p),
        lockstep(sa, sb, rows_p, rows1),
        apply_proof_event(sa, ob, window).failure is None,
    ensures
        lockstep(
            apply_proof_event(sa, ob, window),
            apply_proof_event(sb, ob, window),
            rows_p,
            rows1,
        ),
{
    assert(fee_total(ob.receipt) <= u128::MAX);
    assert(ob.batch_ids.len() > 0);
    let ctx = ProofCtx {
        share: fee_total(ob.receipt) / ob.batch_ids.len() as int,
        tx_hash: ob.receipt.tx_hash,
        sender: ob.receipt.sender,
        block_timestamp: ob.block_timestamp,
        balances: ob.balances,
    };
    lemma_lockstep_ids(sa, sb, rows_p, rows1, ob.batch_ids, ctx, window);
}

pub proof fn lemma_lockstep_scan(
    sa: ScanOutcome,
    sb: ScanOutcome,
    rows_p: Seq<BatchV>,
    rows1: Seq<BatchV>,
    obs: Seq<ProofObservationV>,
    window: int,
)
    requires
        unique_ids(rows_p),
        lockstep(sa, sb, rows_p, rows1),
        scan_proofs(sa, obs, window).failure is None,
    ensures
        lockstep(
            scan_proofs(sa, obs, window),
            scan_proofs(sb, obs, window),
            rows_p,
            rows1,
        ),
    decreases obs.len(),
{
    if obs.len() > 0 {
        let pre_a = scan_proofs(sa, obs.drop_last(), window);
        assert(pre_a.failure is None) by {
            if pre_a.failure is Some {
                assert(apply_proof_event(pre_a, obs.last(), window) == pre_a);
            }
        }
        lemma_lockstep_scan(sa, sb, rows_p, rows1, obs.drop_last(), window);
        lemma_lockstep_event(
            pre_a,
            scan_proofs(sb, obs.drop_last(), window),
            rows_p,
            rows1,
            obs.last(),
            window,
        );
    }
}

/// Reprocessing an already-indexed window is idempotent: running the
/// proposal pass and then the proof pass a second time, over the very
/// observations that built the table, leaves every row byte-identical
/// and reports the same maxima, so the checkpoint merge also repeats
/// itself.  Holds for any failure-free first pass over a table with
/// unique batch ids.
pub proof fn lemma_reprocessing_idempotent(
    rows0: Seq<BatchV>,
    props: Seq<ProposalObservationV>,
    proofs: Seq<ProofObservationV>,
    window: int,
)
    requires
        unique_ids(rows0),
        scan_proposals(init_scan(rows0), props).failure is None,
        scan_proofs(
            init_scan(scan_proposals(init_scan(rows0), props).rows),
            proofs,
            window,
        ).failure is None,
    ensures
        ({
            let st1 = scan_proposals(init_scan(rows0), props);
            let st2 = scan_proofs(init_scan(st1.rows), proofs, window);
            let r1 = scan_proposals(init_scan(st2.rows), props);
            let r2 = scan_proofs(init_scan(st2.rows), proofs, window);
            &&& r1 == (ScanOutcome {
                rows: st2.rows,
                max_batch_id: st1.max_batch_id,
                max_block_id: st1.max_block_id,
                failure: None,
            })
            &&& r2 == (ScanOutcome {
                rows: st2.rows,
                max_batch_id: st2.max_batch_id,
                max_block_id: st2.max_block_id,
                failure: None,
            })
        }),
{
    let st1 = scan_proposals(init_scan(rows0), props);
    let rows_p = st1.rows;
    let st2 = scan_proofs(init_scan(rows_p), proofs, window);
    let rows1 = st2.rows;

    lemma_scan_proofs_cores(init_scan(rows_p), proofs, window);

    // Second proposal pass: every scanned id is already in the table.
    lemma_scan_proposals_ids(init_scan(rows0), props);
    assert forall|k: int| 0 <= k < props.len() implies has_id(
        rows1,
        (#[trigger] props[k]).event.batch_id,
    ) by {
        assert(has_id(rows_p, props[k].event.batch_id));
        let w = choose|i: int| 0 <= i < rows_p.len() && (#[trigger] rows_p[i]).batch_id
            == props[k].event.batch_id;
        assert(core_of(rows1[w]) == core_of(rows_p[w]));
        assert(rows1[w].batch_id == rows_p[w].batch_id);
    }
    lemma_scan_proposals_rescan(rows0, props, rows1);

    // The proposed table keeps unique ids: a proposal pass only appends
    // ids that are absent.
    lemma_scan_proposals_unique(init_scan(rows0), props);

    // Second proof pass, in lockstep with the first.
    assert(lockstep(init_scan(rows_p), init_scan(rows1), rows_p, rows1));
    lemma_lockstep_scan(init_scan(rows_p), init_scan(rows1), rows_p, rows1, proofs, window);
    let sb2 = scan_proofs(init_scan(rows1), proofs, window);
    assert(sb2.rows =~= rows1);
}

/// A proposal scan keeps batch ids unique.
pub proof fn lemma_scan_proposals_unique(st: ScanOutcome, obs: Seq<ProposalObservationV>)
    requires
        unique_ids(st.rows),
    ensures
        unique_ids(scan_proposals(st, obs).rows),
    decreases obs.len(),
{
    if obs.len() > 0 {
        lemma_scan_proposals_unique(st, obs.drop_last());
        let pre = scan_proposals(st, obs.drop_last());
        let post = apply_proposal(pre, obs.last());
        if post.rows != pre.rows {
            let id = obs.last().event.batch_id;
            assert(!has_id(pre.rows, id));
            assert forall|i: int, j: int| 0 <= i < j < post.rows.len() implies (
            #[trigger] post.rows[i]).batch_id != (#[trigger] post.rows[j]).batch_id by {
                if j == post.rows.len() - 1 {
                    assert(post.rows[i] == pre.rows[i]);
                    if post.rows[i].batch_id == id {
                        assert(has_id(pre.rows, id));
                    }
                } else {
                    assert(post.rows[i] == pre.rows[i]);
                    assert(post.rows[j] == pre.rows[j]);
                }
            }
        }
    }
}

} // verus!
