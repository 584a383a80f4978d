use vstd::prelude::*;
use crate::db::{sorted_blocks, BlockRow};
use crate::params::{BLOB_MAX, BLOB_TARGET, BPO1_MAX, BPO1_TARGET, BPO2_MAX, BPO2_TARGET};
use crate::regime::{classify, regime_of, Regime, RegimeCounts};
use crate::sums::{sat, sat_step, sum_u64};

verus! {

/// Seconds in an hour.
pub const HOUR_SECS: u64 = 3600;

/// Seconds in a day.
pub const DAY_SECS: u64 = 86400;

/// Cells of a heatmap: seven days of the week by 24 hours.
pub const HEATMAP_CELLS: usize = 168;

/// Rows of `s` whose timestamp lies in `[lo, hi)`, in order.
pub open spec fn window(s: Seq<BlockRow>, lo: u64, hi: u64) -> Seq<BlockRow>
    decreases s.len(),
{
    if s.len() == 0 {
        Seq::empty()
    } else {
        let rest = window(s.drop_last(), lo, hi);
        let b = s.last();
        if lo <= b.block_timestamp && b.block_timestamp < hi {
            rest.push(b)
        } else {
            rest
        }
    }
}

/// Number of rows of `s` in band `g`.
pub open spec fn regime_count(s: Seq<BlockRow>, g: Regime) -> nat
    decreases s.len(),
{
    if s.len() == 0 {
        0
    } else {
        regime_count(s.drop_last(), g) + if regime_of(s.last().total_blobs as nat) == g {
            1nat
        } else {
            0nat
        }
    }
}

/// Blob counts of block rows.
pub open spec fn blobs_of(s: Seq<BlockRow>) -> Seq<u64> {
    s.map_values(|b: BlockRow| b.total_blobs)
}

/// Transaction counts of block rows.
pub open spec fn txs_of(s: Seq<BlockRow>) -> Seq<u64> {
    s.map_values(|b: BlockRow| b.tx_count)
}

/// Gas prices of block rows.
pub open spec fn prices_of(s: Seq<BlockRow>) -> Seq<u64> {
    s.map_values(|b: BlockRow| b.gas_price)
}

/// Aggregates of the blocks of one time window. Sums are capped at `u64::MAX`.
#[derive(Debug)]
pub struct PeriodStats {
    pub block_count: u64,
    pub total_blobs: u64,
    pub total_transactions: u64,
    pub total_gas_price: u64,
    pub regime_counts: RegimeCounts,
}

impl PeriodStats {
    /// What the aggregates of the rows `w` are.
    pub open spec fn describes(&self, w: Seq<BlockRow>) -> bool {
        &&& self.block_count == w.len()
        &&& self.total_blobs == sat(sum_u64(blobs_of(w)))
        &&& self.total_transactions == sat(sum_u64(txs_of(w)))
        &&& self.total_gas_price == sat(sum_u64(prices_of(w)))
        &&& forall|g: Regime| #[trigger] self.regime_counts.count_of(g) == regime_count(w, g)
    }
}

proof fn lemma_push_views(w: Seq<BlockRow>, b: BlockRow)
    ensures
        blobs_of(w.push(b)) == blobs_of(w).push(b.total_blobs),
        txs_of(w.push(b)) == txs_of(w).push(b.tx_count),
        prices_of(w.push(b)) == prices_of(w).push(b.gas_price),
        blobs_of(w).push(b.total_blobs).drop_last() == blobs_of(w),
        txs_of(w).push(b.tx_count).drop_last() == txs_of(w),
        prices_of(w).push(b.gas_price).drop_last() == prices_of(w),
        w.push(b).drop_last() == w,
{
    assert(blobs_of(w.push(b)) =~= blobs_of(w).push(b.total_blobs));
    assert(txs_of(w.push(b)) =~= txs_of(w).push(b.tx_count));
    assert(prices_of(w.push(b)) =~= prices_of(w).push(b.gas_price));
    assert(blobs_of(w).push(b.total_blobs).drop_last() =~= blobs_of(w));
    assert(txs_of(w).push(b.tx_count).drop_last() =~= txs_of(w));
    assert(prices_of(w).push(b.gas_price).drop_last() =~= prices_of(w));
    assert(w.push(b).drop_last() =~= w);
}

proof fn lemma_window_len(s: Seq<BlockRow>, lo: u64, hi: u64)
    ensures
        window(s, lo, hi).len() <= s.len(),
    decreases s.len(),
{
    if s.len() > 0 {
        lemma_window_len(s.drop_last(), lo, hi);
    }
}

proof fn lemma_regime_count_len(s: Seq<BlockRow>, g: Regime)
    ensures
        regime_count(s, g) <= s.len(),
    decreases s.len(),
{
    if s.len() > 0 {
        lemma_regime_count_len(s.drop_last(), g);
    }
}

/// Aggregates of the blocks of `rows` whose timestamp lies in `[start, end)`.
pub fn compute_period_stats(rows: &Vec<BlockRow>, start: u64, end: u64) -> (r: PeriodStats)
    ensures
        r.describes(window(rows@, start, end)),
{
    let mut r = PeriodStats {
        block_count: 0,
        total_blobs: 0,
        total_transactions: 0,
        total_gas_price: 0,
        regime_counts: RegimeCounts::zero(),
    };
    let mut i: usize = 0;
    while i < rows.len()
        invariant
            i <= rows@.len(),
            r.describes(window(rows@.take(i as int), start, end)),
        decreases rows@.len() - i,
    {
        let ghost pre = rows@.take(i as int);
        let ghost w = window(pre, start, end);
        assert(rows@.take(i + 1).drop_last() =~= pre);
        assert(rows@.take(i + 1).last() == rows@[i as int]);
        let b = rows[i];
        if start <= b.block_timestamp && b.block_timestamp < end {
            proof {
                lemma_push_views(w, b);
                lemma_window_len(pre, start, end);
                lemma_regime_count_len(w, regime_of(b.total_blobs as nat));
            }
            r.block_count = r.block_count + 1;
            r.total_blobs = sat_step(r.total_blobs, b.total_blobs, Ghost(sum_u64(blobs_of(w))));
            r.total_transactions = sat_step(r.total_transactions, b.tx_count, Ghost(sum_u64(txs_of(w))));
            r.total_gas_price = sat_step(r.total_gas_price, b.gas_price, Ghost(sum_u64(prices_of(w))));
            let g = classify(b.total_blobs);
            r.regime_counts.record(g);
            assert forall|h: Regime| #[trigger] r.regime_counts.count_of(h) == regime_count(w.push(b), h) by {
                assert(regime_count(w.push(b), h) == regime_count(w, h) + if regime_of(b.total_blobs as nat) == h { 1nat } else { 0nat });
            }
        }
        i = i + 1;
    }
    assert(rows@.take(rows@.len() as int) =~= rows@);
    r
}

/// Aggregates over the last hour, day and week before `now`.
#[derive(Debug)]
pub struct RollingComparison {
    pub hour_1: PeriodStats,
    pub hour_24: PeriodStats,
    pub baseline_7d: PeriodStats,
    pub blob_target: u64,
    pub blob_max: u64,
}

/// `a - b`, or 0 where `b > a`.
pub open spec fn sat_sub(a: u64, b: int) -> u64 {
    if b > a {
        0
    } else {
        (a - b) as u64
    }
}

/// Aggregates of the blocks of `rows` over the hour, the day and the seven days
/// that end at `now` (excluded).
pub fn get_rolling_comparison(rows: &Vec<BlockRow>, now: u64) -> (r: RollingComparison)
    ensures
        r.hour_1.describes(window(rows@, sat_sub(now, 3600), now)),
        r.hour_24.describes(window(rows@, sat_sub(now, 86400), now)),
        r.baseline_7d.describes(window(rows@, sat_sub(now, 604800), now)),
        r.blob_target == BLOB_TARGET,
        r.blob_max == BLOB_MAX,
{
    let hour_1 = compute_period_stats(rows, now.saturating_sub(HOUR_SECS), now);
    let hour_24 = compute_period_stats(rows, now.saturating_sub(DAY_SECS), now);
    let baseline_7d = compute_period_stats(rows, now.saturating_sub(7 * DAY_SECS), now);
    RollingComparison { hour_1, hour_24, baseline_7d, blob_target: BLOB_TARGET, blob_max: BLOB_MAX }
}

/// Heatmap cell of a timestamp: `day * 24 + hour`, where the day of the week
/// counts from Sunday (the epoch fell on a Thursday) and hours are UTC.
pub open spec fn slot_of(ts: u64) -> int {
    (((ts / 86400) + 4) % 7) * 24 + (ts % 86400) / 3600
}

/// Rows of `s` with timestamp in `[lo, hi]` that fall in cell `c`, in order.
pub open spec fn cell_rows(s: Seq<BlockRow>, lo: u64, hi: u64, c: int) -> Seq<BlockRow>
    decreases s.len(),
{
    if s.len() == 0 {
        Seq::empty()
    } else {
        let rest = cell_rows(s.drop_last(), lo, hi, c);
        let b = s.last();
        if lo <= b.block_timestamp && b.block_timestamp <= hi && slot_of(b.block_timestamp) == c {
            rest.push(b)
        } else {
            rest
        }
    }
}

/// One hour of one day of the week, with the blocks seen in it. Sums are
/// capped at `u64::MAX`.
#[derive(Debug)]
pub struct HeatmapCell {
    pub day_of_week: u8,
    pub hour: u8,
    pub block_count: u64,
    pub total_blobs: u64,
    pub total_gas_price: u64,
}

impl HeatmapCell {
    /// What cell `c` holds for the rows `w`.
    pub open spec fn describes(&self, c: int, w: Seq<BlockRow>) -> bool {
        &&& self.day_of_week == c / 24
        &&& self.hour == c % 24
        &&& self.block_count == w.len()
        &&& self.total_blobs == sat(sum_u64(blobs_of(w)))
        &&& self.total_gas_price == sat(sum_u64(prices_of(w)))
    }
}

/// Congestion heatmap over the blocks of `rows` with timestamps in
/// `[now - days * 86400, now]`: all 168 cells, day-major, empty ones zeroed.
pub fn get_congestion_heatmap(rows: &Vec<BlockRow>, now: u64, days: u64) -> (r: Vec<HeatmapCell>)
    ensures
        r@.len() == 168,
        forall|c: int|
            0 <= c < 168 ==> (#[trigger] r@[c]).describes(
                c,
                cell_rows(rows@, sat_sub(now, days * 86400), now, c),
            ),
{
    let lo: u64 = if days > now / DAY_SECS {
        0
    } else {
        now - days * DAY_SECS
    };
    assert(lo == sat_sub(now, days * 86400)) by (nonlinear_arith)
        requires
            lo == (if days > now / 86400 { 0 } else { now - days * 86400 }),
    ;
    let mut cells: Vec<HeatmapCell> = Vec::new();
    let mut c: usize = 0;
    while c < HEATMAP_CELLS
        invariant
            c <= 168,
            cells@.len() == c,
            forall|k: int|
                0 <= k < c ==> (#[trigger] cells@[k]).describes(k, cell_rows(Seq::empty(), lo, now, k)),
        decreases 168 - c,
    {
        cells.push(
            HeatmapCell {
                day_of_week: (c / 24) as u8,
                hour: (c % 24) as u8,
                block_count: 0,
                total_blobs: 0,
                total_gas_price: 0,
            },
        );
        assert(blobs_of(Seq::<BlockRow>::empty()) =~= Seq::<u64>::empty());
        assert(prices_of(Seq::<BlockRow>::empty()) =~= Seq::<u64>::empty());
        c = c + 1;
    }
    assert(rows@.take(0) =~= Seq::<BlockRow>::empty());
    let mut i: usize = 0;
    while i < rows.len()
        invariant
            i <= rows@.len(),
            cells@.len() == 168,
            forall|k: int|
                0 <= k < 168 ==> (#[trigger] cells@[k]).describes(k, cell_rows(rows@.take(i as int), lo, now, k)),
        decreases rows@.len() - i,
    {
        let ghost pre = rows@.take(i as int);
        assert(rows@.take(i + 1).drop_last() =~= pre);
        assert(rows@.take(i + 1).last() == rows@[i as int]);
        let b = rows[i];
        let ts = b.block_timestamp;
        if lo <= ts && ts <= now {
            let day = ((ts / DAY_SECS) + 4) % 7;
            let hour = (ts % DAY_SECS) / HOUR_SECS;
            let slot = (day * 24 + hour) as usize;
            let ghost w = cell_rows(pre, lo, now, slot as int);
            proof {
                lemma_push_views(w, b);
                lemma_cell_rows_len(pre, lo, now, slot as int);
            }
            let old_cell = &cells[slot];
            let cell = HeatmapCell {
                day_of_week: old_cell.day_of_week,
                hour: old_cell.hour,
                block_count: old_cell.block_count + 1,
                total_blobs: sat_step(old_cell.total_blobs, b.total_blobs, Ghost(sum_u64(blobs_of(w)))),
                total_gas_price: sat_step(old_cell.total_gas_price, b.gas_price, Ghost(sum_u64(prices_of(w)))),
            };
            cells.set(slot, cell);
        }
        i = i + 1;
    }
    assert(rows@.take(rows@.len() as int) =~= rows@);
    cells
}

proof fn lemma_cell_rows_len(s: Seq<BlockRow>, lo: u64, hi: u64, c: int)
    ensures
        cell_rows(s, lo, hi, c).len() <= s.len(),
    decreases s.len(),
{
    if s.len() > 0 {
        lemma_cell_rows_len(s.drop_last(), lo, hi, c);
    }
}

/// Number of the first row of `s` with timestamp at or after `t`.
pub open spec fn first_at_or_after(s: Seq<BlockRow>, t: u64) -> Option<u64>
    decreases s.len(),
{
    if s.len() == 0 {
        None
    } else if s[0].block_timestamp >= t {
        Some(s[0].block_number)
    } else {
        first_at_or_after(s.drop_first(), t)
    }
}

/// Rows per point of the all-time series: the span of block numbers divided by
/// the number of points asked for, at least 1.
pub open spec fn sample_interval(s: Seq<BlockRow>, target_points: u64) -> int {
    let span = s.last().block_number - s[0].block_number + 1;
    if span / (target_points as int) >= 1 {
        span / (target_points as int)
    } else {
        1
    }
}

/// Smoothed series over the whole block table. Point `c` stands for the rows
/// `[c * k, min(c * k + k, n))`: it carries the number and timestamp of the
/// middle row, the sums of blob counts and gas prices (capped at `u64::MAX`)
/// and the row count, whose quotients are the means, and the blob target and
/// maximum in force at the middle row's timestamp.
#[derive(Debug)]
pub struct AllTimeChartData {
    pub labels: Vec<u64>,
    pub blob_sums: Vec<u64>,
    pub gas_price_sums: Vec<u64>,
    pub chunk_sizes: Vec<u64>,
    pub timestamps: Vec<u64>,
    pub targets: Vec<u64>,
    pub maxes: Vec<u64>,
    pub bpo2_block: Option<u64>,
}

impl AllTimeChartData {
    /// Number of points.
    pub open spec fn len(&self) -> nat {
        self.labels@.len()
    }

    /// Whether point `c` stands for the rows `s[lo..hi]` as described above.
    pub open spec fn point_is(&self, c: int, s: Seq<BlockRow>, lo: int, hi: int, t: u64) -> bool {
        let mid = lo + (hi - lo) / 2;
        &&& self.labels@[c] == s[mid].block_number
        &&& self.timestamps@[c] == s[mid].block_timestamp
        &&& self.blob_sums@[c] == sat(sum_u64(blobs_of(s.subrange(lo, hi))))
        &&& self.gas_price_sums@[c] == sat(sum_u64(prices_of(s.subrange(lo, hi))))
        &&& self.chunk_sizes@[c] == hi - lo
        &&& self.targets@[c] == if s[mid].block_timestamp >= t {
            BPO2_TARGET
        } else {
            BPO1_TARGET
        }
        &&& self.maxes@[c] == if s[mid].block_timestamp >= t {
            BPO2_MAX
        } else {
            BPO1_MAX
        }
    }

    /// Whether point `c` stands for the `c`-th chunk of `k` rows of `s`.
    pub open spec fn chunk_point(&self, c: int, s: Seq<BlockRow>, k: int, t: u64) -> bool {
        let lo = c * k;
        let hi = if lo + k < s.len() {
            lo + k
        } else {
            s.len() as int
        };
        self.point_is(c, s, lo, hi, t)
    }

    /// Whether all the series have one entry per point.
    pub open spec fn aligned(&self) -> bool {
        &&& self.blob_sums@.len() == self.len()
        &&& self.gas_price_sums@.len() == self.len()
        &&& self.chunk_sizes@.len() == self.len()
        &&& self.timestamps@.len() == self.len()
        &&& self.targets@.len() == self.len()
        &&& self.maxes@.len() == self.len()
    }
}

fn first_block_at_or_after(rows: &Vec<BlockRow>, t: u64) -> (r: Option<u64>)
    ensures
        r == first_at_or_after(rows@, t),
{
    let mut i: usize = 0;
    assert(rows@.skip(0) =~= rows@);
    while i < rows.len()
        invariant
            i <= rows@.len(),
            first_at_or_after(rows@, t) == first_at_or_after(rows@.skip(i as int), t),
        decreases rows@.len() - i,
    {
        assert(rows@.skip(i as int).drop_first() =~= rows@.skip(i + 1));
        assert(rows@.skip(i as int)[0] == rows@[i as int]);
        if rows[i].block_timestamp >= t {
            return Some(rows[i].block_number);
        }
        i = i + 1;
    }
    None
}

/// Sums of blob counts and gas prices of the rows `rows[lo..hi]`.
fn chunk_sums(rows: &Vec<BlockRow>, lo: usize, hi: usize) -> (r: (u64, u64))
    requires
        lo <= hi <= rows@.len(),
    ensures
        r.0 == sat(sum_u64(blobs_of(rows@.subrange(lo as int, hi as int)))),
        r.1 == sat(sum_u64(prices_of(rows@.subrange(lo as int, hi as int)))),
{
    let mut blobs: u64 = 0;
    let mut gas: u64 = 0;
    let mut j: usize = lo;
    assert(blobs_of(rows@.subrange(lo as int, lo as int)) =~= Seq::<u64>::empty());
    assert(prices_of(rows@.subrange(lo as int, lo as int)) =~= Seq::<u64>::empty());
    while j < hi
        invariant
            lo <= j <= hi <= rows@.len(),
            blobs == sat(sum_u64(blobs_of(rows@.subrange(lo as int, j as int)))),
            gas == sat(sum_u64(prices_of(rows@.subrange(lo as int, j as int)))),
        decreases hi - j,
    {
        let ghost w = rows@.subrange(lo as int, j as int);
        assert(rows@.subrange(lo as int, j + 1) =~= w.push(rows@[j as int]));
        proof {
            lemma_push_views(w, rows@[j as int]);
        }
        blobs = sat_step(blobs, rows[j].total_blobs, Ghost(sum_u64(blobs_of(w))));
        gas = sat_step(gas, rows[j].gas_price, Ghost(sum_u64(prices_of(w))));
        j = j + 1;
    }
    (blobs, gas)
}

/// The all-time series of the block rows `rows` (ascending by number), with
/// about `target_points` points, and the first block at or after the upgrade
/// time `bpo2_timestamp`. Empty where there is no row or the highest is block 0.
pub fn sample_all_time(rows: &Vec<BlockRow>, target_points: u64, bpo2_timestamp: u64) -> (r:
    AllTimeChartData)
    requires
        sorted_blocks(rows@),
        target_points > 0,
    ensures
        r.aligned(),
        rows@.len() == 0 || rows@.last().block_number == 0 ==> r.len() == 0 && r.bpo2_block.is_none(),
        rows@.len() > 0 && rows@.last().block_number != 0 ==> {
            let s = rows@;
            let k = sample_interval(s, target_points);
            &&& r.bpo2_block == first_at_or_after(s, bpo2_timestamp)
            &&& r.len() * k >= s.len()
            &&& r.len() > 0
            &&& (r.len() - 1) * k < s.len()
            &&& forall|c: int|
                0 <= c < r.len() ==> #[trigger] r.chunk_point(c, s, k as int, bpo2_timestamp)
        },
{
    let mut r = AllTimeChartData {
        labels: Vec::new(),
        blob_sums: Vec::new(),
        gas_price_sums: Vec::new(),
        chunk_sizes: Vec::new(),
        timestamps: Vec::new(),
        targets: Vec::new(),
        maxes: Vec::new(),
        bpo2_block: None,
    };
    let n = rows.len();
    if n == 0 || rows[n - 1].block_number == 0 {
        return r;
    }
    let ghost s = rows@;
    if n > 1 {
        assert(s[0].block_number < s[n - 1].block_number);
    }
    let span: u128 = (rows[n - 1].block_number - rows[0].block_number) as u128 + 1;
    let q: u128 = span / target_points as u128;
    let k: u128 = if q >= 1 {
        q
    } else {
        1
    };
    assert(k == sample_interval(s, target_points));
    r.bpo2_block = first_block_at_or_after(rows, bpo2_timestamp);
    let mut lo: usize = 0;
    while lo < n
        invariant
            n == s.len(),
            s == rows@,
            n > 0,
            k >= 1,
            k == sample_interval(s, target_points),
            lo <= n,
            r.aligned(),
            r.bpo2_block == first_at_or_after(s, bpo2_timestamp),
            lo < n ==> lo == r.len() * k,
            lo == n ==> n <= r.len() * k,
            r.len() > 0 ==> (r.len() - 1) * k < n,
            forall|c: int|
                0 <= c < r.len() ==> #[trigger] r.chunk_point(c, s, k as int, bpo2_timestamp),
        decreases n - lo,
    {
        let ghost c = r.len() as int;
        let hi: usize = if ((n - lo) as u128) > k {
            lo + k as usize
        } else {
            n
        };
        assert(hi == (if c * k + k < s.len() { c * k + k } else { s.len() as int }));
        let mid = lo + (hi - lo) / 2;
        let ghost r0 = r;
        let (blob_sum, gas_sum) = chunk_sums(rows, lo, hi);
        let ts = rows[mid].block_timestamp;
        r.labels.push(rows[mid].block_number);
        r.blob_sums.push(blob_sum);
        r.gas_price_sums.push(gas_sum);
        r.chunk_sizes.push((hi - lo) as u64);
        r.timestamps.push(ts);
        if ts >= bpo2_timestamp {
            r.targets.push(BPO2_TARGET);
            r.maxes.push(BPO2_MAX);
        } else {
            r.targets.push(BPO1_TARGET);
            r.maxes.push(BPO1_MAX);
        }
        assert(r.point_is(c, s, c * k, hi as int, bpo2_timestamp));
        assert(r.chunk_point(c, s, k as int, bpo2_timestamp));
        assert forall|d: int| 0 <= d < r.len() implies #[trigger] r.chunk_point(d, s, k as int, bpo2_timestamp) by {
            if d < c {
                assert(r0.chunk_point(d, s, k as int, bpo2_timestamp));
                assert(r.labels@[d] == r0.labels@[d]);
                assert(r.timestamps@[d] == r0.timestamps@[d]);
                assert(r.blob_sums@[d] == r0.blob_sums@[d]);
                assert(r.gas_price_sums@[d] == r0.gas_price_sums@[d]);
                assert(r.chunk_sizes@[d] == r0.chunk_sizes@[d]);
                assert(r.targets@[d] == r0.targets@[d]);
                assert(r.maxes@[d] == r0.maxes@[d]);
            }
        }
        assert((c + 1) * k == c * k + k) by (nonlinear_arith);
        lo = hi;
    }
    r
}

} // verus!
