use batch_indexer::accounting::{
    AccountingList, AccountingListGql, AccountingOperation, wei_to_eth_string,
};
use batch_indexer::batch::Batch;
use batch_indexer::errors::QueryError;

fn proposed_batch(batch_id: i64, proposer: &str, coinbase: &str, propose_fee: &str) -> Batch {
    Batch {
        batch_id,
        sender: String::from(proposer),
        proposer: String::from(proposer),
        coinbase: String::from(coinbase),
        propose_tx: String::from("0xtx"),
        proposed_at: 1000,
        last_block_id: 50,
        block_count: 5,
        propose_fee: String::from(propose_fee),
        l2_fee_earned: None,
        prover: None,
        prove_tx: None,
        prove_fee: None,
        is_sent_by_proposer: true,
        is_profitable: None,
        is_proved_by_proposer: None,
    }
}

#[test]
fn eth_string_of_zero() {
    assert_eq!(wei_to_eth_string(&0), "0.000000000000000000 ETH");
}

#[test]
fn eth_string_of_one_wei() {
    assert_eq!(wei_to_eth_string(&1), "0.000000000000000001 ETH");
}

#[test]
fn eth_string_of_18_digits() {
    assert_eq!(wei_to_eth_string(&999_999_999_999_999_999), "0.999999999999999999 ETH");
}

#[test]
fn eth_string_of_19_digits() {
    assert_eq!(wei_to_eth_string(&1_000_000_000_000_000_001), "1.000000000000000001 ETH");
}

#[test]
fn eth_string_of_22_digits() {
    assert_eq!(
        wei_to_eth_string(&1_234_567_890_123_456_789_012),
        "1234.567890123456789012 ETH"
    );
}

#[test]
fn credit_fees_aggregate_per_address() {
    let mut list = AccountingList::new();
    list.add_batch(
        &AccountingOperation::Credit,
        proposed_batch(1, "0xp", "0xc", "1000000000000000000"),
    )
    .unwrap();
    list.add_batch(
        &AccountingOperation::Credit,
        proposed_batch(2, "0xp", "0xc", "2000000000000000000"),
    )
    .unwrap();
    assert_eq!(list.total_fee, 3_000_000_000_000_000_000);
    assert_eq!(list.addresses.len(), 1);
    assert_eq!(list.addresses[0].address, "0xp");
    assert_eq!(list.addresses[0].info.total_fee, 3_000_000_000_000_000_000);
    assert_eq!(list.addresses[0].info.batches.len(), 2);

    let gql = AccountingListGql::from(list);
    assert_eq!(gql.total_fee, "3.000000000000000000 ETH");
    assert_eq!(gql.addresses.len(), 1);
    assert_eq!(gql.addresses[0].total_fee, "3.000000000000000000 ETH");
}

#[test]
fn debit_keys_by_coinbase() {
    let mut list = AccountingList::new();
    list.add_batch(&AccountingOperation::Debit, proposed_batch(1, "0xp", "0xc1", "10"))
        .unwrap();
    list.add_batch(&AccountingOperation::Debit, proposed_batch(2, "0xp", "0xc2", "20"))
        .unwrap();
    list.add_batch(&AccountingOperation::Debit, proposed_batch(3, "0xp", "0xc1", "5"))
        .unwrap();
    assert_eq!(list.total_fee, 35);
    assert_eq!(list.addresses.len(), 2);
    assert_eq!(list.addresses[0].address, "0xc1");
    assert_eq!(list.addresses[0].info.total_fee, 15);
    assert_eq!(list.addresses[1].address, "0xc2");
    assert_eq!(list.addresses[1].info.total_fee, 20);
}

#[test]
fn malformed_fee_is_rejected() {
    let mut list = AccountingList::new();
    let r = list.add_batch(&AccountingOperation::Credit, proposed_batch(1, "0xp", "0xc", "abc"));
    assert_eq!(r, Err(QueryError::FeeParse));
    assert_eq!(list.total_fee, 0);
    assert_eq!(list.addresses.len(), 0);
}

#[test]
fn fee_sum_overflow_is_rejected() {
    let mut list = AccountingList::new();
    let max = u128_to_string_helper(u128::MAX);
    list.add_batch(&AccountingOperation::Credit, proposed_batch(1, "0xp", "0xc", &max))
        .unwrap();
    let r = list.add_batch(&AccountingOperation::Credit, proposed_batch(2, "0xp", "0xc", "1"));
    assert_eq!(r, Err(QueryError::FeeOverflow));
    assert_eq!(list.total_fee, u128::MAX);
}

fn u128_to_string_helper(v: u128) -> String {
    batch_indexer::decimal::u128_to_string(v)
}

#[test]
fn query_error_messages() {
    assert_eq!(QueryError::InvalidRange.message(), "from must be less than to");
    assert_eq!(
        QueryError::NoBatchesInRange.message(),
        "Integrity error: No batches found in range"
    );
    assert_eq!(
        QueryError::IncompleteRange.message(),
        "Integrity error: Not all batches found in range"
    );
    assert_eq!(QueryError::FeeParse.message(), "Cannot parse propose fee");
}
