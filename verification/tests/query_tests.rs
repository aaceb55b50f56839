use batch_indexer::batch::Batch;
use batch_indexer::db::DataBase;
use batch_indexer::errors::QueryError;
use batch_indexer::events::BatchProposedEvent;
use batch_indexer::query::QueryRoot;

fn insert(
    db: &mut DataBase,
    batch_id: u64,
    proposer: &str,
    coinbase: &str,
    sender: &str,
    proposed_at: u64,
    fee: u128,
) {
    let ev = BatchProposedEvent {
        batch_id,
        proposer: String::from(proposer),
        coinbase: String::from(coinbase),
        proposed_at,
        last_block_id: 10 * batch_id,
        block_count: 10,
    };
    db.insert_batch(&ev, String::from("0xtx"), String::from(sender), fee).unwrap();
}

fn prove(db: &mut DataBase, batch_id: i64, l2: u128, share: u128, prover: &str) {
    let b = db.get_batch_by_id(batch_id).unwrap();
    let propose: u128 = b.propose_fee.parse().unwrap();
    let mut r = b.clone();
    r.l2_fee_earned = Some(l2.to_string());
    r.prover = Some(String::from(prover));
    r.prove_tx = Some(String::from("0xprove"));
    r.prove_fee = Some(share.to_string());
    r.is_profitable = Some(l2 > share + propose);
    r.is_proved_by_proposer = Some(prover == b.proposer);
    db.update_batch(r);
}

fn sample_db() -> DataBase {
    let mut db = DataBase::new();
    insert(&mut db, 1, "0xp", "0xc", "0xc", 1000, 10);
    insert(&mut db, 2, "0xp", "0xc", "0xd", 2000, 20);
    insert(&mut db, 3, "0xq", "0xp", "0xp", 3000, 30);
    insert(&mut db, 4, "0xq", "0xq", "0xq", 4000, 40);
    // batch 1: unprofitable, proved by the proposer
    prove(&mut db, 1, 5, 2, "0xp");
    // batch 3: profitable, proved by someone else
    prove(&mut db, 3, 1000, 10, "0xw");
    db
}

#[test]
fn status_reports_the_checkpoint() {
    let mut db = sample_db();
    db.update_status(12, 4, 40, 3, 30).unwrap();
    let s = QueryRoot.status(&db);
    assert_eq!(s.indexed_l1_block, 12);
    assert_eq!(s.proposed_batch_id, 4);
    assert_eq!(s.proved_block_id, 30);
}

#[test]
fn batch_by_id_finds_rows() {
    let db = sample_db();
    assert_eq!(QueryRoot.batch_by_id(&db, 3).unwrap().proposer, "0xq");
    assert!(QueryRoot.batch_by_id(&db, 9).is_none());
}

#[test]
fn latest_batch_before_timestamp_takes_the_greatest_id() {
    let db = sample_db();
    assert_eq!(QueryRoot.latest_batch_before_timestamp(&db, 3500), Some(3));
    assert_eq!(QueryRoot.latest_batch_before_timestamp(&db, 4000), Some(4));
    assert_eq!(QueryRoot.latest_batch_before_timestamp(&db, 999), None);
}

#[test]
fn sent_by_others_returns_rows_with_a_clear_flag() {
    let db = sample_db();
    let rows = QueryRoot.sent_by_others(&db, None, None, None, None);
    let ids: Vec<i64> = rows.iter().map(|b| b.batch_id).collect();
    assert_eq!(ids, vec![2]);
}

#[test]
fn sent_by_others_narrows_by_proposer_sender_and_time() {
    let db = sample_db();
    let rows = QueryRoot.sent_by_others(
        &db,
        Some(String::from("0xp")),
        Some(String::from("0xd")),
        Some(1500),
        Some(2500),
    );
    assert_eq!(rows.len(), 1);
    assert_eq!(rows[0].batch_id, 2);
    let none = QueryRoot.sent_by_others(&db, Some(String::from("0xq")), None, None, None);
    assert!(none.is_empty());
}

#[test]
fn proved_by_others_ignores_unproved_rows() {
    let db = sample_db();
    let rows = QueryRoot.proved_by_others(&db, None, None, None);
    let ids: Vec<i64> = rows.iter().map(|b| b.batch_id).collect();
    assert_eq!(ids, vec![3]);
}

#[test]
fn unprofitable_ignores_unproved_rows() {
    let db = sample_db();
    let rows = QueryRoot.unprofitable(&db, None, None, None);
    let ids: Vec<i64> = rows.iter().map(|b| b.batch_id).collect();
    assert_eq!(ids, vec![1]);
}

#[test]
fn accounting_rejects_inverted_bounds() {
    let db = sample_db();
    let r = QueryRoot.accounting(&db, String::from("0xp"), 4, 4, None);
    assert!(matches!(r, Err(QueryError::InvalidRange)));
    let r = QueryRoot.accounting(&db, String::from("0xp"), 5, 4, None);
    assert!(matches!(r, Err(QueryError::InvalidRange)));
}

#[test]
fn accounting_integrity_rejects_an_empty_range() {
    let db = sample_db();
    let r = QueryRoot.accounting(&db, String::from("0xp"), 100, 200, Some(true));
    assert!(matches!(r, Err(QueryError::NoBatchesInRange)));
}

#[test]
fn accounting_integrity_rejects_a_gappy_range() {
    let mut db = DataBase::new();
    insert(&mut db, 1, "0xp", "0xc", "0xp", 1000, 10);
    insert(&mut db, 3, "0xq", "0xp", "0xq", 3000, 30);
    let r = QueryRoot.accounting(&db, String::from("0xp"), 1, 3, Some(true));
    assert!(matches!(r, Err(QueryError::IncompleteRange)));
}

#[test]
fn accounting_skipped_integrity_tolerates_gaps() {
    let mut db = DataBase::new();
    insert(&mut db, 1, "0xp", "0xc", "0xp", 1000, 10);
    insert(&mut db, 3, "0xq", "0xp", "0xq", 3000, 30);
    assert!(QueryRoot.accounting(&db, String::from("0xp"), 1, 3, Some(false)).is_ok());
    assert!(QueryRoot.accounting(&db, String::from("0xp"), 1, 3, None).is_ok());
}

#[test]
fn accounting_splits_debit_and_credit() {
    let mut db = DataBase::new();
    // 0xp proposes for someone else: a debit of 0xc.
    insert(&mut db, 1, "0xp", "0xc", "0xp", 1000, 1_000_000_000_000_000_000);
    // someone else proposes for 0xp: a credit of 0xq.
    insert(&mut db, 2, "0xq", "0xp", "0xq", 2000, 2_000_000_000_000_000_000);
    // 0xp proposes for itself: neither direction books it.
    insert(&mut db, 3, "0xp", "0xp", "0xp", 3000, 4_000_000_000_000_000_000);
    let r = QueryRoot.accounting(&db, String::from("0xp"), 1, 3, Some(true)).unwrap();
    assert_eq!(r.debit.total_fee, "1.000000000000000000 ETH");
    assert_eq!(r.debit.addresses.len(), 1);
    assert_eq!(r.debit.addresses[0].address, "0xc");
    assert_eq!(r.credit.total_fee, "2.000000000000000000 ETH");
    assert_eq!(r.credit.addresses.len(), 1);
    assert_eq!(r.credit.addresses[0].address, "0xq");
}

#[test]
fn accounting_respects_the_id_range() {
    let mut db = DataBase::new();
    insert(&mut db, 1, "0xp", "0xc", "0xp", 1000, 7);
    insert(&mut db, 2, "0xp", "0xc", "0xp", 2000, 11);
    insert(&mut db, 3, "0xp", "0xc", "0xp", 3000, 13);
    let r = QueryRoot.accounting(&db, String::from("0xp"), 1, 2, None).unwrap();
    assert_eq!(r.debit.total_fee, "0.000000000000000018 ETH");
    let all: Vec<&Batch> = r.debit.addresses[0].batches.iter().collect();
    assert_eq!(all.len(), 2);
}

#[test]
fn ledger_rejects_a_fee_the_ingester_never_writes() {
    let mut list = batch_indexer::accounting::AccountingList::new();
    let broken = Batch {
        batch_id: 9,
        sender: String::from("0xs"),
        proposer: String::from("0xp"),
        coinbase: String::from("0xc"),
        propose_tx: String::from("0xtx"),
        proposed_at: 1,
        last_block_id: 1,
        block_count: 1,
        propose_fee: String::from("not-a-number"),
        l2_fee_earned: None,
        prover: None,
        prove_tx: None,
        prove_fee: None,
        is_sent_by_proposer: true,
        is_profitable: None,
        is_proved_by_proposer: None,
    };
    let r = list.add_batch(&batch_indexer::accounting::AccountingOperation::Credit, broken);
    assert_eq!(r, Err(QueryError::FeeParse));
    assert_eq!(list.total_fee, 0);
}
