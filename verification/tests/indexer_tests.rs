use batch_indexer::batch::Batch;
use batch_indexer::config::Config;
use batch_indexer::db::DataBase;
use batch_indexer::errors::IndexerError;
use batch_indexer::events::{
    BalancePair, BatchProposedEvent, BatchesProvedEvent, ProofObservation, ProposalObservation,
    TxReceiptData,
};
use batch_indexer::indexer::BatchIndexer;

fn config(start: u64, step: u64, sleep: u64) -> Config {
    Config::new(
        String::from("batches.db"),
        String::from("http://l1"),
        String::from("http://l2"),
        String::from("0xinbox"),
        start,
        step,
        sleep,
        10,
    )
    .unwrap()
}

fn indexer(proving_window: u64) -> BatchIndexer {
    BatchIndexer::new(&config(1, 10, 12), DataBase::new(), proving_window)
}

fn receipt(sender: &str, gas_used: u64, gas_price: u128) -> TxReceiptData {
    TxReceiptData {
        tx_hash: String::from("0xtx"),
        sender: String::from(sender),
        gas_used,
        effective_gas_price: gas_price,
        blob_gas_used: None,
        blob_gas_price: None,
        block_number: 500,
    }
}

fn proposal(
    batch_id: u64,
    proposer: &str,
    coinbase: &str,
    sender: &str,
    last_block_id: u64,
    fee: u128,
) -> ProposalObservation {
    ProposalObservation {
        event: BatchProposedEvent {
            batch_id,
            proposer: String::from(proposer),
            coinbase: String::from(coinbase),
            proposed_at: 1000,
            last_block_id,
            block_count: 10,
        },
        receipt: receipt(sender, 1, fee),
    }
}

fn proof_obs(
    ids: Vec<u64>,
    sender: &str,
    total_fee: u128,
    block_timestamp: u64,
    balances: Vec<BalancePair>,
) -> ProofObservation {
    ProofObservation {
        event: BatchesProvedEvent { batch_ids: ids },
        receipt: receipt(sender, 1, total_fee),
        block_timestamp,
        balances,
    }
}

fn pair(batch_id: u64, before: u128, after: u128) -> BalancePair {
    BalancePair { batch_id, balance_before: before, balance_after: after }
}

fn snapshot(ix: &BatchIndexer) -> Vec<Batch> {
    let mut rows = Vec::new();
    for i in 0..ix.db.row_count() {
        rows.push(ix.db.row_at(i).clone());
    }
    rows
}

#[test]
fn tx_eth_price_adds_execution_and_blob_fees() {
    let mut r = receipt("0xs", 100, 7);
    r.blob_gas_used = Some(10);
    r.blob_gas_price = Some(3);
    assert_eq!(BatchIndexer::get_tx_eth_price(&r), Ok(730));
}

#[test]
fn tx_eth_price_missing_blob_data_counts_as_zero() {
    assert_eq!(BatchIndexer::get_tx_eth_price(&receipt("0xs", 100, 7)), Ok(700));
}

#[test]
fn tx_eth_price_overflow_is_fatal() {
    let r = receipt("0xs", u64::MAX, u128::MAX);
    assert_eq!(BatchIndexer::get_tx_eth_price(&r), Err(IndexerError::Overflow));
}

#[test]
fn l2_fee_earned_is_the_balance_delta() {
    let before = 40_000_000_000_000_000_000u128;
    let after = before + 5_000_000_000_000_000_000;
    let earned = BatchIndexer::calculate_l2_fee_earned(before, after).unwrap();
    assert_eq!(batch_indexer::decimal::u128_to_string(earned), "5000000000000000000");
}

#[test]
fn l2_fee_earned_rejects_decreasing_balance() {
    assert_eq!(
        BatchIndexer::calculate_l2_fee_earned(10, 9),
        Err(IndexerError::BalanceDecreased)
    );
}

#[test]
fn prover_attribution_at_window_edge_is_the_proposer() {
    let ix = indexer(100);
    assert_eq!(ix.get_prover("0xsender", "0xproposer", 1100, 1000), "0xproposer");
}

#[test]
fn prover_attribution_past_window_edge_is_the_sender() {
    let ix = indexer(100);
    assert_eq!(ix.get_prover("0xsender", "0xproposer", 1101, 1000), "0xsender");
}

#[test]
fn proposal_sent_by_coinbase_sets_flag() {
    let mut ix = indexer(100);
    let obs = vec![proposal(42, "0xp", "0xc", "0xc", 50, 7)];
    let (max_batch, max_block) = ix.index_batch_proposed(&obs).unwrap();
    assert_eq!((max_batch, max_block), (42, 50));
    assert!(ix.db.get_batch_by_id(42).unwrap().is_sent_by_proposer);
}

#[test]
fn proposal_sent_by_other_clears_flag() {
    let mut ix = indexer(100);
    let obs = vec![proposal(42, "0xp", "0xc", "0xd", 50, 7)];
    ix.index_batch_proposed(&obs).unwrap();
    assert!(!ix.db.get_batch_by_id(42).unwrap().is_sent_by_proposer);
}

#[test]
fn empty_window_returns_zero_sentinels() {
    let mut ix = indexer(100);
    assert_eq!(ix.index_batch_proposed(&Vec::new()), Ok((0, 0)));
    assert_eq!(ix.index_batch_proved(&Vec::new()), Ok((0, 0)));
}

#[test]
fn proof_fee_is_split_evenly_and_never_exceeds_the_total() {
    let mut ix = indexer(100);
    let props = vec![
        proposal(1, "0xp", "0xc", "0xp", 10, 4),
        proposal(2, "0xp", "0xc", "0xp", 20, 4),
        proposal(3, "0xp", "0xc", "0xp", 30, 4),
    ];
    ix.index_batch_proposed(&props).unwrap();
    let proofs = vec![proof_obs(
        vec![1, 2, 3],
        "0xp",
        10,
        1050,
        vec![pair(1, 0, 100), pair(2, 0, 100), pair(3, 0, 100)],
    )];
    let (max_batch, max_block) = ix.index_batch_proved(&proofs).unwrap();
    assert_eq!((max_batch, max_block), (3, 30));
    let mut share_sum = 0u128;
    for id in [1, 2, 3] {
        let b = ix.db.get_batch_by_id(id).unwrap();
        let share: u128 = b.prove_fee.unwrap().parse().unwrap();
        assert_eq!(share, 10 / 3);
        share_sum += share;
    }
    assert!(share_sum <= 10);
}

#[test]
fn proof_marks_profitability_from_stored_fees() {
    let mut ix = indexer(100);
    ix.index_batch_proposed(&vec![proposal(1, "0xp", "0xc", "0xp", 10, 40)]).unwrap();
    // earned 100 > 60 (share) + 40 (propose fee) is false; equality is not profit.
    let proofs = vec![proof_obs(vec![1], "0xp", 60, 1050, vec![pair(1, 0, 100)])];
    ix.index_batch_proved(&proofs).unwrap();
    let b = ix.db.get_batch_by_id(1).unwrap();
    assert_eq!(b.is_profitable, Some(false));
    assert_eq!(b.l2_fee_earned.as_deref(), Some("100"));
    assert_eq!(b.prove_fee.as_deref(), Some("60"));

    let mut ix2 = indexer(100);
    ix2.index_batch_proposed(&vec![proposal(1, "0xp", "0xc", "0xp", 10, 40)]).unwrap();
    let proofs2 = vec![proof_obs(vec![1], "0xp", 59, 1050, vec![pair(1, 0, 100)])];
    ix2.index_batch_proved(&proofs2).unwrap();
    assert_eq!(ix2.db.get_batch_by_id(1).unwrap().is_profitable, Some(true));
}

#[test]
fn in_window_proof_attributes_the_proposer() {
    let mut ix = indexer(100);
    ix.index_batch_proposed(&vec![proposal(1, "0xp", "0xc", "0xsender", 10, 1)]).unwrap();
    let proofs = vec![proof_obs(vec![1], "0xother", 5, 1100, vec![pair(1, 0, 10)])];
    ix.index_batch_proved(&proofs).unwrap();
    let b = ix.db.get_batch_by_id(1).unwrap();
    assert_eq!(b.prover.as_deref(), Some("0xp"));
    assert_eq!(b.is_proved_by_proposer, Some(true));
}

#[test]
fn late_proof_attributes_the_sender() {
    let mut ix = indexer(100);
    ix.index_batch_proposed(&vec![proposal(1, "0xp", "0xc", "0xsender", 10, 1)]).unwrap();
    let proofs = vec![proof_obs(vec![1], "0xother", 5, 1101, vec![pair(1, 0, 10)])];
    ix.index_batch_proved(&proofs).unwrap();
    let b = ix.db.get_batch_by_id(1).unwrap();
    assert_eq!(b.prover.as_deref(), Some("0xother"));
    assert_eq!(b.is_proved_by_proposer, Some(false));
}

#[test]
fn proof_for_unknown_batch_is_skipped() {
    let mut ix = indexer(100);
    ix.index_batch_proposed(&vec![proposal(1, "0xp", "0xc", "0xp", 10, 1)]).unwrap();
    let proofs = vec![proof_obs(vec![77], "0xp", 5, 1050, vec![pair(77, 0, 10)])];
    assert_eq!(ix.index_batch_proved(&proofs), Ok((0, 0)));
    assert_eq!(ix.db.get_batch_by_id(1).unwrap().prove_fee, None);
}

#[test]
fn proof_event_without_batches_is_fatal() {
    let mut ix = indexer(100);
    let proofs = vec![proof_obs(vec![], "0xp", 5, 1050, vec![])];
    assert_eq!(ix.index_batch_proved(&proofs), Err(IndexerError::EmptyProofEvent));
}

#[test]
fn proof_without_balance_data_is_fatal() {
    let mut ix = indexer(100);
    ix.index_batch_proposed(&vec![proposal(1, "0xp", "0xc", "0xp", 10, 1)]).unwrap();
    let proofs = vec![proof_obs(vec![1], "0xp", 5, 1050, vec![])];
    assert_eq!(ix.index_batch_proved(&proofs), Err(IndexerError::MissingBalanceData));
}

#[test]
fn proof_with_decreasing_balance_is_fatal() {
    let mut ix = indexer(100);
    ix.index_batch_proposed(&vec![proposal(1, "0xp", "0xc", "0xp", 10, 1)]).unwrap();
    let proofs = vec![proof_obs(vec![1], "0xp", 5, 1050, vec![pair(1, 10, 9)])];
    assert_eq!(ix.index_batch_proved(&proofs), Err(IndexerError::BalanceDecreased));
}

#[test]
fn reprocessing_a_window_twice_leaves_the_table_identical() {
    let mut ix = indexer(100);
    let props = vec![
        proposal(1, "0xp", "0xc", "0xp", 10, 4),
        proposal(2, "0xq", "0xc", "0xd", 20, 9),
        proposal(3, "0xp", "0xe", "0xp", 30, 4),
    ];
    let proofs = vec![
        proof_obs(vec![1, 2], "0xw", 10, 1050, vec![pair(1, 0, 100), pair(2, 5, 10)]),
        proof_obs(vec![2, 77], "0xw", 8, 1200, vec![pair(2, 5, 11)]),
    ];
    let m1 = ix.index_batch_proposed(&props).unwrap();
    let m2 = ix.index_batch_proved(&proofs).unwrap();
    let once = snapshot(&ix);

    let m1_again = ix.index_batch_proposed(&props).unwrap();
    let m2_again = ix.index_batch_proved(&proofs).unwrap();
    let twice = snapshot(&ix);

    assert_eq!(m1, m1_again);
    assert_eq!(m2, m2_again);
    assert_eq!(once, twice);
}

#[test]
fn iteration_processes_only_when_head_is_beyond_the_window() {
    let mut ix = indexer(100);
    // window is [2, 11]; head 11 is not beyond it
    assert_eq!(ix.run_indexing_iteration(11, &Vec::new(), &Vec::new()), Ok(false));
    assert_eq!(ix.indexed_l1_block, 1);

    let props = vec![proposal(5, "0xp", "0xc", "0xp", 40, 7)];
    let r = ix.run_indexing_iteration(12, &props, &Vec::new());
    assert_eq!(r, Ok(true));
    assert_eq!(ix.indexed_l1_block, 11);
    let s = ix.db.get_status();
    assert_eq!(s.indexed_l1_block, 11);
    assert_eq!(s.proposed_batch_id, 5);
    assert_eq!(s.proposed_block_id, 40);
    assert_eq!(s.proved_batch_id, 0);
    assert_eq!(s.proved_block_id, 0);
}

#[test]
fn pacing_scales_with_catch_up_distance() {
    let ix = BatchIndexer::new(&config(100, 10, 12), DataBase::new(), 7);
    // head still far ahead of progress: a full step's worth of intervals
    assert_eq!(ix.sleep_seconds(200), Ok(120));
    // steady state, close to the head: one base interval
    assert_eq!(ix.sleep_seconds(105), Ok(12));
}

#[test]
fn window_planning_resumes_after_the_last_indexed_block() {
    let ix = BatchIndexer::new(&config(100, 10, 12), DataBase::new(), 7);
    assert_eq!(ix.plan_window(), Ok((101, 110)));
}

#[test]
fn progress_resumes_from_the_later_of_checkpoint_and_configured_start() {
    let mut db = DataBase::new();
    db.update_status(500, 0, 0, 0, 0).unwrap();
    let ix = BatchIndexer::new(&config(100, 10, 12), db, 7);
    assert_eq!(ix.indexed_l1_block, 500);

    let mut db2 = DataBase::new();
    db2.update_status(50, 0, 0, 0, 0).unwrap();
    let ix2 = BatchIndexer::new(&config(100, 10, 12), db2, 7);
    assert_eq!(ix2.indexed_l1_block, 100);
}

#[test]
fn zero_config_values_are_rejected() {
    let r = Config::new(
        String::from("f"),
        String::from("u"),
        String::from("u"),
        String::from("a"),
        0,
        10,
        12,
        10,
    );
    assert!(matches!(r, Err(IndexerError::InvalidConfig)));
}

#[test]
fn window_planning_overflow_is_fatal() {
    let ix = BatchIndexer {
        indexed_l1_block: u64::MAX,
        db: DataBase::new(),
        proving_window: 1,
        indexing_step: 1,
        sleep_duration_sec: 1,
    };
    assert_eq!(ix.plan_window(), Err(IndexerError::Overflow));
}

#[test]
fn pacing_overflow_is_fatal() {
    let ix = BatchIndexer {
        indexed_l1_block: 0,
        db: DataBase::new(),
        proving_window: 1,
        indexing_step: u64::MAX,
        sleep_duration_sec: 2,
    };
    assert_eq!(ix.sleep_seconds(u64::MAX), Err(IndexerError::Overflow));
}
