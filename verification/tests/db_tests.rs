use batch_indexer::batch::Batch;
use batch_indexer::db::DataBase;
use batch_indexer::errors::IndexerError;
use batch_indexer::events::BatchProposedEvent;

fn event(batch_id: u64, proposer: &str, coinbase: &str) -> BatchProposedEvent {
    BatchProposedEvent {
        batch_id,
        proposer: String::from(proposer),
        coinbase: String::from(coinbase),
        proposed_at: 1000,
        last_block_id: 40,
        block_count: 4,
    }
}

fn insert(db: &mut DataBase, ev: &BatchProposedEvent, sender: &str, fee: u128) {
    db.insert_batch(ev, String::from("0xtx"), String::from(sender), fee).unwrap();
}

#[test]
fn fresh_store_is_empty() {
    let db = DataBase::new();
    assert_eq!(db.get_indexed_l1_block(), 0);
    assert_eq!(db.row_count(), 0);
    let s = db.get_status();
    assert_eq!(s.id, 0);
    assert_eq!(s.proposed_batch_id, 0);
}

#[test]
fn insert_and_get() {
    let mut db = DataBase::new();
    insert(&mut db, &event(7, "0xp", "0xc"), "0xs", 123);
    let b = db.get_batch_by_id(7).unwrap();
    assert_eq!(b.batch_id, 7);
    assert_eq!(b.proposer, "0xp");
    assert_eq!(b.coinbase, "0xc");
    assert_eq!(b.sender, "0xs");
    assert_eq!(b.propose_fee, "123");
    assert_eq!(b.proposed_at, 1000);
    assert_eq!(b.last_block_id, 40);
    assert_eq!(b.block_count, 4);
    assert!(!b.is_sent_by_proposer);
    assert_eq!(b.l2_fee_earned, None);
    assert_eq!(b.prover, None);
    assert_eq!(b.prove_tx, None);
    assert_eq!(b.prove_fee, None);
    assert_eq!(b.is_profitable, None);
    assert_eq!(b.is_proved_by_proposer, None);
    assert!(db.get_batch_by_id(8).is_none());
}

#[test]
fn duplicate_insert_keeps_first_row() {
    let mut db = DataBase::new();
    insert(&mut db, &event(7, "0xp", "0xc"), "0xs", 123);
    insert(&mut db, &event(7, "0xother", "0xother"), "0xother", 999);
    assert_eq!(db.row_count(), 1);
    let b = db.get_batch_by_id(7).unwrap();
    assert_eq!(b.proposer, "0xp");
    assert_eq!(b.propose_fee, "123");
}

#[test]
fn insert_rejects_ids_beyond_stored_width() {
    let mut db = DataBase::new();
    let r = db.insert_batch(
        &event(u64::MAX, "0xp", "0xc"),
        String::from("0xtx"),
        String::from("0xs"),
        1,
    );
    assert_eq!(r, Err(IndexerError::Overflow));
    assert_eq!(db.row_count(), 0);
}

#[test]
fn sender_equal_coinbase_sets_flag() {
    let mut db = DataBase::new();
    insert(&mut db, &event(1, "0xp", "0xc"), "0xc", 1);
    assert!(db.get_batch_by_id(1).unwrap().is_sent_by_proposer);
}

#[test]
fn update_status_merges_partially() {
    let mut db = DataBase::new();
    db.update_status(5, 0, 2, 0, 3).unwrap();
    let s = db.get_status();
    assert_eq!(s.indexed_l1_block, 5);
    assert_eq!(s.proposed_batch_id, 0);
    assert_eq!(s.proposed_block_id, 2);
    assert_eq!(s.proved_batch_id, 0);
    assert_eq!(s.proved_block_id, 3);

    db.update_status(0, 9, 0, 4, 0).unwrap();
    let s = db.get_status();
    assert_eq!(s.indexed_l1_block, 5);
    assert_eq!(s.proposed_batch_id, 9);
    assert_eq!(s.proposed_block_id, 2);
    assert_eq!(s.proved_batch_id, 4);
    assert_eq!(s.proved_block_id, 3);
}

#[test]
fn update_status_is_monotone_over_growing_updates() {
    let mut db = DataBase::new();
    let updates = [(1, 1, 1, 0, 0), (2, 3, 2, 1, 1), (0, 4, 0, 2, 5), (7, 0, 6, 0, 0)];
    let mut prev = db.get_status();
    for (a, b, c, d, e) in updates {
        db.update_status(a, b, c, d, e).unwrap();
        let s = db.get_status();
        assert!(s.indexed_l1_block >= prev.indexed_l1_block);
        assert!(s.proposed_batch_id >= prev.proposed_batch_id);
        assert!(s.proposed_block_id >= prev.proposed_block_id);
        assert!(s.proved_batch_id >= prev.proved_batch_id);
        assert!(s.proved_block_id >= prev.proved_block_id);
        prev = s;
    }
}

#[test]
fn update_status_rejects_values_beyond_stored_width() {
    let mut db = DataBase::new();
    db.update_status(5, 0, 0, 0, 0).unwrap();
    let r = db.update_status(u64::MAX, 1, 0, 0, 0);
    assert_eq!(r, Err(IndexerError::Overflow));
    let s = db.get_status();
    assert_eq!(s.indexed_l1_block, 5);
    assert_eq!(s.proposed_batch_id, 0);
}

fn proved(b: &Batch, l2: &str, prove_fee: &str, prover: &str, profitable: bool) -> Batch {
    let mut r = b.clone();
    r.l2_fee_earned = Some(String::from(l2));
    r.prover = Some(String::from(prover));
    r.prove_tx = Some(String::from("0xprove"));
    r.prove_fee = Some(String::from(prove_fee));
    r.is_profitable = Some(profitable);
    r.is_proved_by_proposer = Some(prover == b.proposer);
    r
}

#[test]
fn update_batch_overwrites_proof_fields_only() {
    let mut db = DataBase::new();
    insert(&mut db, &event(1, "0xp", "0xc"), "0xs", 100);
    let b = db.get_batch_by_id(1).unwrap();
    db.update_batch(proved(&b, "500", "30", "0xp", true));
    let got = db.get_batch_by_id(1).unwrap();
    assert_eq!(got.l2_fee_earned.as_deref(), Some("500"));
    assert_eq!(got.prove_fee.as_deref(), Some("30"));
    assert_eq!(got.prover.as_deref(), Some("0xp"));
    assert_eq!(got.prove_tx.as_deref(), Some("0xprove"));
    assert_eq!(got.is_profitable, Some(true));
    assert_eq!(got.is_proved_by_proposer, Some(true));
    assert_eq!(got.proposer, "0xp");
    assert_eq!(got.propose_fee, "100");
}

#[test]
fn update_batch_for_unknown_id_is_a_no_op() {
    let mut db = DataBase::new();
    insert(&mut db, &event(1, "0xp", "0xc"), "0xs", 100);
    let mut missing_row = db.get_batch_by_id(1).unwrap();
    missing_row.batch_id = 99;
    db.update_batch(proved(&missing_row, "500", "30", "0xp", true));
    assert_eq!(db.row_count(), 1);
    let got = db.get_batch_by_id(1).unwrap();
    assert_eq!(got.l2_fee_earned, None);
}
