use blob_exex::db::Database;

#[test]
fn insert_block_replaces_by_number() {
    let mut db = Database::new();
    db.insert_block(5, 50, 1, 2, 262_144, 9, 0);
    db.insert_block(5, 55, 2, 4, 524_288, 11, 7);
    let got = db.get_block(5).unwrap();
    assert_eq!(got.block_timestamp, 55);
    assert_eq!(got.total_blobs, 4);
    assert_eq!(got.excess_blob_gas, 7);
    assert_eq!(db.get_stats().total_blocks, 1);
}

#[test]
fn delete_block_keeps_other_rows() {
    let mut db = Database::new();
    db.insert_block(1, 10, 0, 0, 0, 1, 0);
    db.insert_block(2, 20, 1, 1, 131_072, 2, 0);
    db.insert_blob_transaction("0xt", 2, "0xs", 1, 2, 20);
    db.delete_block(2);
    db.delete_block(99);
    assert!(db.get_block(2).is_none());
    assert!(db.get_block(1).is_some());
    assert_eq!(db.get_blob_transactions(5).len(), 1);
}

#[test]
fn update_sender_adds_up() {
    let mut db = Database::new();
    db.update_sender("0xs", 2);
    db.update_sender("0xs", 3);
    db.update_sender("0xt", 1);
    let s = db.get_top_senders(5);
    assert_eq!(s.len(), 2);
    assert_eq!(s[0].address, "0xs");
    assert_eq!(s[0].tx_count, 2);
    assert_eq!(s[0].total_blobs, 5);
    assert_eq!(s[1].address, "0xt");
}

#[test]
fn update_sender_saturates() {
    let mut db = Database::new();
    db.update_sender("0xs", u64::MAX);
    db.update_sender("0xs", 5);
    let s = db.get_top_senders(1);
    assert_eq!(s[0].total_blobs, u64::MAX);
    assert_eq!(s[0].tx_count, 2);
}

#[test]
fn top_senders_ties_keep_table_order_and_limit() {
    let mut db = Database::new();
    db.update_sender("0xa", 3);
    db.update_sender("0xb", 7);
    db.update_sender("0xc", 3);
    let s = db.get_top_senders(2);
    assert_eq!(s.len(), 2);
    assert_eq!(s[0].address, "0xb");
    assert_eq!(s[1].address, "0xa");
    assert_eq!(db.get_top_senders(0).len(), 0);
}

#[test]
fn stats_over_empty_store_are_zero() {
    let db = Database::new();
    let s = db.get_stats();
    assert_eq!(s.total_blocks, 0);
    assert_eq!(s.total_blobs, 0);
    assert_eq!(s.total_transactions, 0);
    assert_eq!(s.latest_block, None);
    assert_eq!(s.earliest_block, None);
    assert_eq!(s.latest_gas_price, 0);
}

#[test]
fn stats_sum_and_bound_the_store() {
    let mut db = Database::new();
    db.insert_block(12, 120, 2, 5, 0, 40, 0);
    db.insert_block(10, 100, 1, 3, 0, 30, 0);
    db.insert_blob_transaction("0x1", 10, "0xs", 3, 30, 100);
    db.insert_blob_transaction("0x2", 12, "0xs", 2, 40, 120);
    db.insert_blob_transaction("0x3", 12, "0xs", 3, 40, 120);
    let s = db.get_stats();
    assert_eq!(s.total_blocks, 2);
    assert_eq!(s.total_blobs, 8);
    assert_eq!(s.total_transactions, 3);
    assert_eq!(s.latest_block, Some(12));
    assert_eq!(s.earliest_block, Some(10));
    assert_eq!(s.latest_gas_price, 40);
}

#[test]
fn recent_blocks_highest_first_with_transactions() {
    let mut db = Database::new();
    for n in 1..=5u64 {
        db.insert_block(n, n * 12, 0, 0, 0, n, 0);
    }
    db.insert_blob_transaction("0xa", 4, "0xs", 2, 4, 48);
    let r = db.get_recent_blocks(3);
    let nums: Vec<u64> = r.iter().map(|b| b.block_number).collect();
    assert_eq!(nums, vec![5, 4, 3]);
    assert_eq!(r[1].transactions.len(), 1);
    assert_eq!(r[1].transactions[0].tx_hash, "0xa");
    assert_eq!(db.get_recent_blocks(50).len(), 5);
}

#[test]
fn chart_fills_gaps_with_carried_price() {
    let mut db = Database::new();
    db.insert_block(10, 100, 1, 4, 0, 7, 0);
    db.insert_block(12, 124, 1, 6, 0, 9, 0);
    let c = db.get_chart_data(5);
    assert_eq!(c.labels, vec![8, 9, 10, 11, 12]);
    assert_eq!(c.blobs, vec![0, 0, 4, 0, 6]);
    assert_eq!(c.gas_prices, vec![0, 0, 7, 7, 9]);
}

#[test]
fn chart_window_stops_at_block_zero() {
    let mut db = Database::new();
    db.insert_block(2, 24, 1, 1, 0, 5, 0);
    let c = db.get_chart_data(100);
    assert_eq!(c.labels, vec![0, 1, 2]);
    assert_eq!(c.blobs, vec![0, 0, 1]);
    assert_eq!(c.gas_prices, vec![0, 0, 5]);
    let empty = Database::new().get_chart_data(100);
    assert!(empty.labels.is_empty());
}

#[test]
fn blob_transactions_newest_first_with_hashes_by_index() {
    let mut db = Database::new();
    db.insert_blob_transaction("0xold", 1, "0xs", 2, 5, 100);
    db.insert_blob_transaction("0xnew", 2, "0xs", 1, 6, 200);
    db.insert_blob_hash("0xold", "0xh1", 1);
    db.insert_blob_hash("0xold", "0xh0", 0);
    db.insert_blob_hash("0xnew", "0xn0", 0);
    let r = db.get_blob_transactions(10);
    assert_eq!(r.len(), 2);
    assert_eq!(r[0].tx_hash, "0xnew");
    assert_eq!(r[1].tx_hash, "0xold");
    assert_eq!(r[1].blob_hashes, vec!["0xh0", "0xh1"]);
    assert_eq!(db.get_blob_transactions(1).len(), 1);
}

#[test]
fn transactions_in_time_range_filters_by_creation() {
    let mut db = Database::new();
    db.insert_blob_transaction("0x1", 1, "0xa", 2, 5, 100);
    db.insert_blob_transaction("0x2", 2, "0xb", 3, 6, 200);
    let r = db.get_transactions_in_time_range(150);
    assert_eq!(r, vec![("0xb".to_string(), 3, 200, 6)]);
}

#[test]
fn all_time_chart_samples_chunks() {
    let mut db = Database::new();
    for n in 1..=10u64 {
        db.insert_block(n, 1000 + n, 1, n, 0, n * 1_000_000_000, 0);
    }
    let c = db.get_all_time_chart_data(5, 1006);
    assert_eq!(c.labels, vec![2, 4, 6, 8, 10]);
    assert_eq!(c.blob_sums, vec![3, 7, 11, 15, 19]);
    assert_eq!(c.chunk_sizes, vec![2, 2, 2, 2, 2]);
    assert_eq!(c.gas_price_sums[0], 3_000_000_000);
    assert_eq!(c.timestamps, vec![1002, 1004, 1006, 1008, 1010]);
    assert_eq!(c.targets, vec![6, 6, 10, 10, 10]);
    assert_eq!(c.maxes, vec![9, 9, 15, 15, 15]);
    assert_eq!(c.bpo2_block, Some(6));
}

#[test]
fn all_time_chart_uses_one_row_per_point_when_sparse() {
    let mut db = Database::new();
    db.insert_block(1, 10, 0, 2, 0, 0, 0);
    db.insert_block(2, 20, 0, 4, 0, 0, 0);
    db.insert_block(3, 30, 0, 6, 0, 0, 0);
    let c = db.get_all_time_chart_data(500, 1_000);
    assert_eq!(c.labels, vec![1, 2, 3]);
    assert_eq!(c.blob_sums, vec![2, 4, 6]);
    assert_eq!(c.bpo2_block, None);
    assert!(Database::new().get_all_time_chart_data(500, 0).labels.is_empty());
}
