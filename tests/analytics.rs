use blob_exex::analytics::{compute_period_stats, get_congestion_heatmap, get_rolling_comparison};
use blob_exex::db::{BlockRow, Database};
use blob_exex::labels::{identify_chain, known_labels};
use blob_exex::profiles::{build_profiles, get_chain_profiles, LabeledTx};
use blob_exex::regime::{classify_regime, saturation_index, target_utilization};

fn row(number: u64, ts: u64, blobs: u64, price: u64) -> BlockRow {
    BlockRow {
        block_number: number,
        block_timestamp: ts,
        tx_count: 1,
        total_blobs: blobs,
        gas_used: 0,
        gas_price: price,
        excess_blob_gas: 0,
    }
}

#[test]
fn regime_boundaries() {
    assert_eq!(classify_regime(0), "abundant");
    assert_eq!(classify_regime(5), "abundant");
    assert_eq!(classify_regime(6), "normal");
    assert_eq!(classify_regime(9), "normal");
    assert_eq!(classify_regime(10), "pressured");
    assert_eq!(classify_regime(12), "pressured");
    assert_eq!(classify_regime(13), "congested");
    assert_eq!(classify_regime(15), "congested");
    assert_eq!(classify_regime(16), "saturated");
}

#[test]
fn utilization_and_saturation_fractions() {
    assert_eq!(target_utilization(9), (900, 10));
    assert_eq!(saturation_index(9), (900, 15));
}

#[test]
fn period_stats_of_empty_window_are_zero() {
    let s = compute_period_stats(&vec![row(1, 100, 5, 9)], 200, 300);
    assert_eq!(s.block_count, 0);
    assert_eq!(s.total_blobs, 0);
    assert_eq!(s.total_gas_price, 0);
    assert_eq!(s.regime_counts.abundant, 0);
}

#[test]
fn rolling_windows_count_blocks_by_age() {
    let now = 1_000_000;
    let rows = vec![
        row(1, now - 200_000, 16, 1),
        row(2, now - 7_200, 12, 2),
        row(3, now - 100, 5, 3),
        row(4, now, 9, 4),
    ];
    let r = get_rolling_comparison(&rows, now);
    assert_eq!(r.hour_1.block_count, 1);
    assert_eq!(r.hour_1.total_blobs, 5);
    assert_eq!(r.hour_1.regime_counts.abundant, 1);
    assert_eq!(r.hour_24.block_count, 2);
    assert_eq!(r.hour_24.total_blobs, 17);
    assert_eq!(r.hour_24.total_gas_price, 5);
    assert_eq!(r.hour_24.regime_counts.pressured, 1);
    assert_eq!(r.baseline_7d.block_count, 3);
    assert_eq!(r.baseline_7d.regime_counts.saturated, 1);
    assert_eq!(r.baseline_7d.total_transactions, 3);
    assert_eq!(r.blob_target, 10);
    assert_eq!(r.blob_max, 15);
}

#[test]
fn heatmap_has_every_cell() {
    let now = 1_700_000_000;
    let rows = vec![row(1, 1_700_000_000, 6, 10), row(2, 1_699_999_990, 4, 20), row(3, 1_000, 9, 5)];
    let h = get_congestion_heatmap(&rows, now, 7);
    assert_eq!(h.len(), 168);
    let busy = &h[2 * 24 + 22];
    assert_eq!(busy.day_of_week, 2);
    assert_eq!(busy.hour, 22);
    assert_eq!(busy.block_count, 2);
    assert_eq!(busy.total_blobs, 10);
    assert_eq!(busy.total_gas_price, 30);
    let filled: u64 = h.iter().map(|c| c.block_count).sum();
    assert_eq!(filled, 2);
    assert_eq!(h[0].day_of_week, 0);
    assert_eq!(h[167].hour, 23);
    assert_eq!(get_congestion_heatmap(&vec![], now, 7).len(), 168);
}

#[test]
fn identify_chain_ignores_case() {
    assert_eq!(identify_chain("0x5050F69A9786F081509234F1A7F4684B5E5B76C9"), "Base");
    assert_eq!(identify_chain("0x3dB52cE065f728011Ac6732222270b3F2360d919"), "zkSync Era");
    assert_eq!(identify_chain("0x0000000000000000000000000000000000000001"), "Other");
    assert_eq!(known_labels().identify("0xB5BD290EF8EF3840CB866C7A8B7CC9E45FDE3AB9"), "Codex");
}

fn labeled(label: &str, blobs: u64, ts: u64, price: u64) -> LabeledTx {
    LabeledTx { label: label.to_string(), blob_count: blobs, timestamp: ts, gas_price: price }
}

#[test]
fn price_signal_needs_more_than_ten_transactions() {
    let mut txs = Vec::new();
    for i in 0..10u64 {
        txs.push(labeled("Ten", 1, 3_600 * i, 100 + i));
    }
    for i in 0..11u64 {
        txs.push(labeled("Eleven", 2, 60 * i, 200 + i));
    }
    let p = build_profiles(&txs);
    assert_eq!(p.len(), 2);
    assert_eq!(p[0].chain, "Eleven");
    assert!(p[0].has_price_signal());
    assert_eq!(p[0].samples.len(), 11);
    assert_eq!(p[0].samples[3], (203, 2));
    assert_eq!(p[1].chain, "Ten");
    assert_eq!(p[1].total_transactions, 10);
    assert!(!p[1].has_price_signal());
}

#[test]
fn profile_interval_and_hours() {
    let txs = vec![
        labeled("A", 2, 7_200, 5),
        labeled("B", 9, 100, 1),
        labeled("A", 4, 3_600, 6),
        labeled("A", 1, 10_800, 7),
    ];
    let p = build_profiles(&txs);
    assert_eq!(p.len(), 2);
    assert_eq!(p[0].chain, "B");
    assert_eq!(p[0].posting_interval(), (0, 0));
    let a = &p[1];
    assert_eq!(a.total_transactions, 3);
    assert_eq!(a.total_blobs, 7);
    assert_eq!(a.first_seen, 3_600);
    assert_eq!(a.last_seen, 10_800);
    assert_eq!(a.posting_interval(), (7_200, 2));
    assert_eq!(a.hourly_counts.len(), 24);
    assert_eq!(a.hourly_counts[1], 1);
    assert_eq!(a.hourly_counts[2], 1);
    assert_eq!(a.hourly_counts[3], 1);
    assert_eq!(a.hourly_counts[0], 0);
}

#[test]
fn chain_profiles_label_senders_in_window() {
    let mut db = Database::new();
    db.insert_blob_transaction("0x1", 1, "0x5050F69A9786F081509234F1A7F4684B5E5B76C9", 3, 5, 90_000);
    db.insert_blob_transaction("0x2", 1, "0x1234", 1, 5, 90_000);
    db.insert_blob_transaction("0x3", 1, "0xff00000000000000000000000000000000008453", 2, 5, 10);
    let p = get_chain_profiles(&db, &known_labels(), 100_000, 24);
    assert_eq!(p.len(), 2);
    assert_eq!(p[0].chain, "Base");
    assert_eq!(p[0].total_blobs, 3);
    assert_eq!(p[1].chain, "Other");
}
