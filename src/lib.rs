//! Indexer of blob-carrying transactions: an aggregate store, the processor of
//! chain events that fills it, and the analytics computed from it.

/// Protocol constants and the blob fee market.
pub mod params;
/// Utilization bands of blocks.
pub mod regime;
/// The aggregate store and its queries.
pub mod db;
/// Applying chain notifications to the store.
pub mod ingest;
/// What ingestion guarantees across notifications.
pub mod laws;
/// Time-window aggregates, heatmap and the all-time series.
pub mod analytics;
/// Attribution of sender addresses to chains.
pub mod labels;
/// Per-chain behaviour over a time window.
pub mod profiles;
/// Ordering entries by key.
pub mod select;
/// Sums of counters.
pub mod sums;
/// Inserting and removing many map entries.
pub mod fold;
