use blob_exex::db::Database;
use blob_exex::ingest::{
    apply_notification, process_block, record_block, BlockInput, ChainEvent, TxInput,
};

fn blob_tx(hash: &str, sender: Option<&str>, blobs: &[&str]) -> TxInput {
    TxInput {
        tx_hash: hash.to_string(),
        tx_type: 3,
        blob_hashes: Some(blobs.iter().map(|b| b.to_string()).collect()),
        sender: sender.map(|s| s.to_string()),
    }
}

fn plain_tx(hash: &str) -> TxInput {
    TxInput { tx_hash: hash.to_string(), tx_type: 2, blob_hashes: None, sender: Some("0xdef".to_string()) }
}

fn block(number: u64, timestamp: u64, excess: Option<u64>, transactions: Vec<TxInput>) -> BlockInput {
    BlockInput { number, timestamp, excess_blob_gas: excess, transactions }
}

fn sample_segment() -> Vec<BlockInput> {
    vec![
        block(
            200,
            1_700_000_000,
            Some(0),
            vec![
                blob_tx("0x01", Some("0xaaa"), &["0xb1", "0xb2"]),
                blob_tx("0x02", Some("0xbbb"), &["0xb3", "0xb4", "0xb5", "0xb6"]),
                blob_tx("0x03", None, &["0xb7"]),
                plain_tx("0x04"),
            ],
        ),
        block(201, 1_700_000_012, Some(0), vec![blob_tx("0x05", Some("0xaaa"), &["0xb8"])]),
    ]
}

#[test]
fn end_to_end_single_block() {
    let mut db = Database::new();
    let b = block(
        100,
        1_700_000_000,
        Some(0),
        vec![blob_tx("0xfeed", Some("0xabc"), &["0xh0", "0xh1", "0xh2"])],
    );
    record_block(&mut db, &b, 5_000_000_000);
    let got = db.get_block(100).expect("block 100 is stored");
    assert_eq!(got.block_number, 100);
    assert_eq!(got.block_timestamp, 1_700_000_000);
    assert_eq!(got.total_blobs, 3);
    assert_eq!(got.tx_count, 1);
    assert_eq!(got.gas_price, 5_000_000_000);
    assert_eq!(got.gas_used, 3 * 131_072);
    assert_eq!(got.transactions.len(), 1);
    assert_eq!(got.transactions[0].tx_hash, "0xfeed");
    assert_eq!(got.transactions[0].sender, "0xabc");
    assert_eq!(got.transactions[0].blob_count, 3);
    let senders = db.get_top_senders(10);
    assert_eq!(senders.len(), 1);
    assert_eq!(senders[0].address, "0xabc");
    assert_eq!(senders[0].tx_count, 1);
    assert_eq!(senders[0].total_blobs, 3);
    let txs = db.get_blob_transactions(10);
    assert_eq!(txs.len(), 1);
    assert_eq!(txs[0].blob_hashes, vec!["0xh0", "0xh1", "0xh2"]);
    assert_eq!(txs[0].gas_price, 5_000_000_000);
}

#[test]
fn block_totals_count_only_recoverable_blob_transactions() {
    let mut db = Database::new();
    let seg = sample_segment();
    process_block(&mut db, &seg[0]);
    let got = db.get_block(200).unwrap();
    assert_eq!(got.tx_count, 2);
    assert_eq!(got.total_blobs, 6);
    let listed: u64 = got.transactions.iter().map(|t| t.blob_count).sum();
    assert_eq!(listed, got.total_blobs);
    assert_eq!(got.transactions.len(), 2);
}

#[test]
fn excess_blob_gas_sets_price_through_fee_market() {
    let mut db = Database::new();
    process_block(&mut db, &block(1, 10, Some(0), vec![]));
    process_block(&mut db, &block(2, 20, Some(10 * 11_684_671), vec![]));
    process_block(&mut db, &block(3, 30, None, vec![]));
    assert_eq!(db.get_block(1).unwrap().gas_price, 1);
    assert!(db.get_block(2).unwrap().gas_price > 1000);
    assert_eq!(db.get_block(2).unwrap().excess_blob_gas, 10 * 11_684_671);
    assert_eq!(db.get_block(3).unwrap().gas_price, 0);
    assert_eq!(db.get_block(3).unwrap().excess_blob_gas, 0);
}

#[test]
fn excess_beyond_signed_range_is_recorded_as_zero() {
    let mut db = Database::new();
    record_block(&mut db, &block(7, 70, Some(u64::MAX), vec![]), 3);
    let got = db.get_block(7).unwrap();
    assert_eq!(got.excess_blob_gas, 0);
    assert_eq!(got.gas_price, 3);
}

#[test]
fn replayed_commit_leaves_rows_unchanged() {
    let mut db = Database::new();
    let ack1 = apply_notification(&mut db, &ChainEvent::Committed { new: sample_segment() });
    let first = db.get_block(200).unwrap();
    let first_txs = db.get_blob_transactions(10);
    let ack2 = apply_notification(&mut db, &ChainEvent::Committed { new: sample_segment() });
    let second = db.get_block(200).unwrap();
    assert_eq!(ack1, Some(201));
    assert_eq!(ack2, Some(201));
    assert_eq!(first.total_blobs, second.total_blobs);
    assert_eq!(first.tx_count, second.tx_count);
    assert_eq!(first.gas_price, second.gas_price);
    assert_eq!(first.transactions.len(), second.transactions.len());
    let second_txs = db.get_blob_transactions(10);
    assert_eq!(first_txs.len(), second_txs.len());
    for (a, b) in first_txs.iter().zip(second_txs.iter()) {
        assert_eq!(a.tx_hash, b.tx_hash);
        assert_eq!(a.blob_count, b.blob_count);
        assert_eq!(a.block_number, b.block_number);
    }
    // Sender counters are cumulative and count the replay again.
    let senders = db.get_top_senders(10);
    let aaa = senders.iter().find(|s| s.address == "0xaaa").unwrap();
    assert_eq!(aaa.tx_count, 4);
    assert_eq!(aaa.total_blobs, 6);
    // Blob-hash rows are appended again: each index appears twice.
    let tx1 = second_txs.iter().find(|t| t.tx_hash == "0x01").unwrap();
    assert_eq!(tx1.blob_hashes, vec!["0xb1", "0xb1", "0xb2", "0xb2"]);
}

#[test]
fn revert_then_recommit_restores_block_rows() {
    let mut db = Database::new();
    apply_notification(&mut db, &ChainEvent::Committed { new: sample_segment() });
    let before = db.get_block(200).unwrap();
    let ack = apply_notification(&mut db, &ChainEvent::Reverted { old: sample_segment() });
    assert_eq!(ack, None);
    assert!(db.get_block(200).is_none());
    assert!(db.get_block(201).is_none());
    // Transaction rows of reverted blocks stay behind.
    assert_eq!(db.get_blob_transactions(10).len(), 3);
    apply_notification(&mut db, &ChainEvent::Committed { new: sample_segment() });
    let after = db.get_block(200).unwrap();
    assert_eq!(before.total_blobs, after.total_blobs);
    assert_eq!(before.tx_count, after.tx_count);
    assert_eq!(before.gas_used, after.gas_used);
    assert_eq!(before.gas_price, after.gas_price);
    assert_eq!(before.block_timestamp, after.block_timestamp);
}

#[test]
fn reorg_reverts_old_then_commits_new() {
    let mut db = Database::new();
    apply_notification(&mut db, &ChainEvent::Committed { new: sample_segment() });
    let replacement = vec![block(201, 1_700_000_024, Some(0), vec![])];
    let ack = apply_notification(
        &mut db,
        &ChainEvent::Reorged { old: vec![block(201, 0, None, vec![])], new: replacement },
    );
    assert_eq!(ack, Some(201));
    let got = db.get_block(201).unwrap();
    assert_eq!(got.block_timestamp, 1_700_000_024);
    assert_eq!(got.total_blobs, 0);
    assert!(db.get_block(200).is_some());
}

#[test]
fn empty_commit_acknowledges_nothing() {
    let mut db = Database::new();
    assert_eq!(apply_notification(&mut db, &ChainEvent::Committed { new: vec![] }), None);
    assert_eq!(db.get_stats().total_blocks, 0);
}
