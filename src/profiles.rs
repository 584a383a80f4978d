use vstd::prelude::*;
use crate::analytics::{sat_sub, DAY_SECS, HOUR_SECS};
use crate::db::{rows_since, Database};
use crate::labels::{label_in, lower_of, LabelTable};
use crate::select::{is_ranking, rank_indices};
use crate::sums::{sat, sat_step, sum_u64};

verus! {

/// A transaction of a time window with the label of its sender: (label, blob
/// count, time, gas price).
pub type Labeled = (Seq<char>, u64, u64, u64);

/// A transaction of a time window with the label of its sender.
#[derive(Debug)]
pub struct LabeledTx {
    pub label: String,
    pub blob_count: u64,
    pub timestamp: u64,
    pub gas_price: u64,
}

impl View for LabeledTx {
    type V = Labeled;

    open spec fn view(&self) -> Labeled {
        (self.label@, self.blob_count, self.timestamp, self.gas_price)
    }
}

/// The transactions of `s` labelled `l`, in order.
pub open spec fn group_of(s: Seq<Labeled>, l: Seq<char>) -> Seq<Labeled>
    decreases s.len(),
{
    if s.len() == 0 {
        Seq::empty()
    } else {
        let rest = group_of(s.drop_last(), l);
        if s.last().0 == l {
            rest.push(s.last())
        } else {
            rest
        }
    }
}

/// Earliest time in a non-empty group.
pub open spec fn min_ts(g: Seq<Labeled>) -> u64
    decreases g.len(),
{
    if g.len() <= 1 {
        g[0].2
    } else if g.last().2 < min_ts(g.drop_last()) {
        g.last().2
    } else {
        min_ts(g.drop_last())
    }
}

/// Latest time in a non-empty group.
pub open spec fn max_ts(g: Seq<Labeled>) -> u64
    decreases g.len(),
{
    if g.len() <= 1 {
        g[0].2
    } else if g.last().2 > max_ts(g.drop_last()) {
        g.last().2
    } else {
        max_ts(g.drop_last())
    }
}

/// Hour of the day (UTC) of a time.
pub open spec fn hour_of(ts: u64) -> int {
    ((ts % 86400) / 3600) as int
}

/// Transactions of a group posted in hour `h` of the day.
pub open spec fn hour_count(g: Seq<Labeled>, h: int) -> nat
    decreases g.len(),
{
    if g.len() == 0 {
        0
    } else {
        hour_count(g.drop_last(), h) + if hour_of(g.last().2) == h {
            1nat
        } else {
            0nat
        }
    }
}

/// Blob counts of a group.
pub open spec fn blob_counts(g: Seq<Labeled>) -> Seq<u64> {
    g.map_values(|x: Labeled| x.1)
}

/// (gas price, blob count) of each transaction of a group.
pub open spec fn price_blob_pairs(g: Seq<Labeled>) -> Seq<(u64, u64)> {
    g.map_values(|x: Labeled| (x.3, x.1))
}

/// Behaviour of one chain over a time window. The means (blobs per
/// transaction, seconds between posts, share of all blobs) are quotients of
/// these fields; the hourly activity is each hour's count over the largest.
#[derive(Debug)]
pub struct ChainProfile {
    pub chain: String,
    pub total_transactions: u64,
    pub total_blobs: u64,
    pub first_seen: u64,
    pub last_seen: u64,
    pub hourly_counts: Vec<u64>,
    pub samples: Vec<(u64, u64)>,
}

impl ChainProfile {
    /// What the profile of the non-empty group `g` holds.
    pub open spec fn describes(&self, g: Seq<Labeled>) -> bool {
        &&& g.len() > 0
        &&& self.total_transactions == g.len()
        &&& self.total_blobs == sat(sum_u64(blob_counts(g)))
        &&& self.first_seen == min_ts(g)
        &&& self.last_seen == max_ts(g)
        &&& self.hourly_counts@.len() == 24
        &&& forall|h: int| 0 <= h < 24 ==> #[trigger] self.hourly_counts@[h] == hour_count(g, h)
        &&& self.samples@ == price_blob_pairs(g)
    }

    /// Whether the profile holds enough transactions (more than ten) for the
    /// correlation of gas price and blob count to be reported; below that it
    /// is reported as 0.
    pub fn has_price_signal(&self) -> (r: bool)
        ensures
            r == (self.total_transactions > 10),
    {
        self.total_transactions > 10
    }

    /// Mean posting interval as (seconds, gaps): the consecutive differences
    /// of the sorted times add up to the span from first to last, over one gap
    /// fewer than there are transactions; (0, 0) below two transactions.
    pub fn posting_interval(&self) -> (r: (u64, u64))
        requires
            self.first_seen <= self.last_seen,
            self.total_transactions > 0,
        ensures
            self.total_transactions < 2 ==> r == (0u64, 0u64),
            self.total_transactions >= 2 ==> r == ((self.last_seen - self.first_seen) as u64, (
            self.total_transactions - 1) as u64),
    {
        if self.total_transactions < 2 {
            (0, 0)
        } else {
            (self.last_seen - self.first_seen, self.total_transactions - 1)
        }
    }
}

proof fn lemma_min_le_max(g: Seq<Labeled>)
    requires
        g.len() > 0,
    ensures
        min_ts(g) <= max_ts(g),
    decreases g.len(),
{
    if g.len() > 1 {
        lemma_min_le_max(g.drop_last());
    }
}

/// A profile's first transaction comes no later than its last, so its posting
/// interval is defined.
pub proof fn lemma_profile_span(p: ChainProfile, g: Seq<Labeled>)
    requires
        p.describes(g),
    ensures
        p.first_seen <= p.last_seen,
        p.total_transactions > 0,
{
    lemma_min_le_max(g);
}

proof fn lemma_group_len(s: Seq<Labeled>, l: Seq<char>)
    ensures
        group_of(s, l).len() <= s.len(),
    decreases s.len(),
{
    if s.len() > 0 {
        lemma_group_len(s.drop_last(), l);
    }
}

proof fn lemma_hour_count_len(g: Seq<Labeled>, h: int)
    ensures
        hour_count(g, h) <= g.len(),
    decreases g.len(),
{
    if g.len() > 0 {
        lemma_hour_count_len(g.drop_last(), h);
    }
}

/// The profile of a group extended by one transaction.
fn extend_profile(p: ChainProfile, t: &LabeledTx, Ghost(g): Ghost<Seq<Labeled>>) -> (r: ChainProfile)
    requires
        p.describes(g),
        g.len() < usize::MAX,
    ensures
        r.describes(g.push(t@)),
        r.chain == p.chain,
{
    let ghost g2 = g.push(t@);
    assert(g2.drop_last() =~= g);
    assert(blob_counts(g2) =~= blob_counts(g).push(t.blob_count));
    assert(blob_counts(g).push(t.blob_count).drop_last() =~= blob_counts(g));
    assert(price_blob_pairs(g2) =~= price_blob_pairs(g).push((t.gas_price, t.blob_count)));
    let mut p = p;
    let h = ((t.timestamp % DAY_SECS) / HOUR_SECS) as usize;
    proof {
        lemma_hour_count_len(g, h as int);
    }
    let c = p.hourly_counts[h];
    p.hourly_counts.set(h, c + 1);
    assert forall|k: int| 0 <= k < 24 implies #[trigger] p.hourly_counts@[k] == hour_count(g2, k) by {
        assert(hour_count(g2, k) == hour_count(g, k) + if hour_of(t.timestamp) == k { 1nat } else { 0nat });
    }
    p.samples.push((t.gas_price, t.blob_count));
    ChainProfile {
        chain: p.chain,
        total_transactions: p.total_transactions + 1,
        total_blobs: sat_step(p.total_blobs, t.blob_count, Ghost(sum_u64(blob_counts(g)))),
        first_seen: if t.timestamp < p.first_seen {
            t.timestamp
        } else {
            p.first_seen
        },
        last_seen: if t.timestamp > p.last_seen {
            t.timestamp
        } else {
            p.last_seen
        },
        hourly_counts: p.hourly_counts,
        samples: p.samples,
    }
}

/// The profile of the group holding `t` alone.
fn start_profile(t: &LabeledTx) -> (r: ChainProfile)
    ensures
        r.describes(seq![t@]),
        r.chain@ == t.label@,
{
    let ghost g = seq![t@];
    assert(g.drop_last() =~= Seq::<Labeled>::empty());
    let mut hourly_counts: Vec<u64> = Vec::new();
    let h = ((t.timestamp % DAY_SECS) / HOUR_SECS) as usize;
    assert(g.last() == t@);
    assert forall|j: int| #[trigger] hour_count(g, j) == (if hour_of(t.timestamp) == j { 1nat } else { 0nat }) by {
        assert(hour_count(g.drop_last(), j) == 0);
    }
    let mut k: usize = 0;
    while k < 24
        invariant
            k <= 24,
            h < 24,
            h == hour_of(t.timestamp),
            hourly_counts@.len() == k,
            forall|j: int| #[trigger] hour_count(g, j) == (if hour_of(t.timestamp) == j { 1nat } else { 0nat }),
            forall|j: int| 0 <= j < k ==> #[trigger] hourly_counts@[j] == hour_count(g, j),
        decreases 24 - k,
    {
        hourly_counts.push(if k == h { 1 } else { 0 });
        assert(hour_count(g, k as int) == (if hour_of(t.timestamp) == k as int { 1nat } else { 0nat }));
        k = k + 1;
    }
    let mut samples: Vec<(u64, u64)> = Vec::new();
    samples.push((t.gas_price, t.blob_count));
    assert(samples@ =~= price_blob_pairs(g));
    assert(blob_counts(g) =~= seq![t.blob_count]);
    assert(blob_counts(g).drop_last() =~= Seq::<u64>::empty());
    assert(sum_u64(blob_counts(g)) == sum_u64(blob_counts(g).drop_last()) + blob_counts(g).last() as nat);
    assert(sum_u64(blob_counts(g)) == t.blob_count as nat);
    assert(min_ts(g) == t.timestamp && max_ts(g) == t.timestamp);
    ChainProfile {
        chain: t.label.clone(),
        total_transactions: 1,
        total_blobs: t.blob_count,
        first_seen: t.timestamp,
        last_seen: t.timestamp,
        hourly_counts,
        samples,
    }
}

/// Profiles of the labels that occur in `txs`, one per label, most blobs
/// first (labels of equal totals in order of first occurrence).
pub fn build_profiles(txs: &Vec<LabeledTx>) -> (r: Vec<ChainProfile>)
    ensures
        forall|a: int, b: int| 0 <= a < b < r@.len() ==> r@[a].chain@ != r@[b].chain@,
        forall|a: int| 0 <= a < r@.len() ==> (#[trigger] r@[a]).describes(group_of(txs@.map_values(|t: LabeledTx| t@), r@[a].chain@)),
        forall|i: int| 0 <= i < txs@.len() ==> exists|a: int| 0 <= a < r@.len() && #[trigger] r@[a].chain@ == (#[trigger] txs@[i]).label@,
        forall|a: int, b: int| 0 <= a < b < r@.len() ==> r@[a].total_blobs >= r@[b].total_blobs,
{
    let ghost all = txs@.map_values(|t: LabeledTx| t@);
    let mut groups: Vec<ChainProfile> = Vec::new();
    let mut i: usize = 0;
    while i < txs.len()
        invariant
            i <= txs@.len(),
            all == txs@.map_values(|t: LabeledTx| t@),
            forall|a: int, b: int| 0 <= a < b < groups@.len() ==> groups@[a].chain@ != groups@[b].chain@,
            forall|a: int| 0 <= a < groups@.len() ==> (#[trigger] groups@[a]).describes(group_of(all.take(i as int), groups@[a].chain@)),
            forall|l: Seq<char>| group_of(all.take(i as int), l).len() > 0 ==> exists|a: int| 0 <= a < groups@.len() && #[trigger] groups@[a].chain@ == l,
            forall|j: int| 0 <= j < i ==> group_of(all.take(i as int), (#[trigger] all[j]).0).len() > 0,
        decreases txs@.len() - i,
    {
        let ghost pre = all.take(i as int);
        let ghost post = all.take(i + 1);
        let t = &txs[i];
        assert(post.drop_last() =~= pre);
        assert(post.last() == t@);
        let mut found: usize = groups.len();
        let mut a: usize = 0;
        while a < groups.len()
            invariant
                a <= groups@.len(),
                found == groups@.len() || (found < a && groups@[found as int].chain@ == t.label@),
                found == groups@.len() ==> forall|b: int| 0 <= b < a ==> groups@[b].chain@ != t.label@,
            decreases groups@.len() - a,
        {
            if found == groups.len() && groups[a].chain == t.label {
                found = a;
            }
            a = a + 1;
        }
        let ghost g0 = groups@;
        proof {
            lemma_group_len(pre, t.label@);
        }
        if found < groups.len() {
            let placeholder = ChainProfile {
                chain: String::new(),
                total_transactions: 0,
                total_blobs: 0,
                first_seen: 0,
                last_seen: 0,
                hourly_counts: Vec::new(),
                samples: Vec::new(),
            };
            let p = groups.remove(found);
            groups.insert(found, placeholder);
            let p2 = extend_profile(p, t, Ghost(group_of(pre, t.label@)));
            groups.set(found, p2);
            assert(groups@ =~= g0.update(found as int, groups@[found as int]));
        } else {
            assert(group_of(pre, t.label@).len() == 0);
            assert(group_of(pre, t.label@) =~= Seq::<Labeled>::empty());
            assert(seq![t@] =~= Seq::<Labeled>::empty().push(t@));
            let p = start_profile(t);
            groups.push(p);
        }
        assert forall|b: int| 0 <= b < groups@.len() implies (#[trigger] groups@[b]).describes(group_of(post, groups@[b].chain@)) by {
            if groups@[b].chain@ != t.label@ {
                assert(groups@[b] == g0[b]);
                assert(group_of(post, groups@[b].chain@) == group_of(pre, groups@[b].chain@));
            }
        }
        assert forall|l: Seq<char>| group_of(post, l).len() > 0 implies exists|b: int| 0 <= b < groups@.len() && #[trigger] groups@[b].chain@ == l by {
            if l == t.label@ {
                assert(groups@[found as int].chain@ == l);
            } else {
                assert(group_of(post, l) == group_of(pre, l));
                let b = choose|b: int| 0 <= b < g0.len() && #[trigger] g0[b].chain@ == l;
                assert(groups@[b] == g0[b]);
            }
        }
        assert forall|j: int| 0 <= j < i + 1 implies group_of(post, (#[trigger] all[j]).0).len() > 0 by {
            if j < i {
                assert(group_of(pre, all[j].0).len() > 0);
                if all[j].0 == t.label@ {
                    assert(group_of(post, all[j].0) == group_of(pre, all[j].0).push(t@));
                } else {
                    assert(group_of(post, all[j].0) == group_of(pre, all[j].0));
                }
            } else {
                assert(all[j] == t@);
                assert(group_of(post, all[j].0) == group_of(pre, all[j].0).push(t@));
            }
        }
        i = i + 1;
    }
    assert(all.take(all.len() as int) =~= all);
    let mut keys: Vec<u64> = Vec::new();
    let mut k: usize = 0;
    while k < groups.len()
        invariant
            k <= groups@.len(),
            keys@.len() == k,
            forall|a: int| 0 <= a < k ==> keys@[a] == groups@[a].total_blobs,
        decreases groups@.len() - k,
    {
        keys.push(groups[k].total_blobs);
        k = k + 1;
    }
    let order = rank_indices(&keys, keys.len() as u64, true);
    proof {
        assert forall|a: int, b: int| 0 <= a < b < order@.len() implies order@[a] != order@[b] by {
            assert(crate::select::ranks_before(keys@, true, order@[a] as int, order@[b] as int));
        }
    }
    let ghost g_final = groups@;
    let mut out: Vec<ChainProfile> = Vec::new();
    let mut j: usize = 0;
    while j < order.len()
        invariant
            j <= order@.len(),
            order@.len() == g_final.len(),
            is_ranking(keys@, true, keys@.len(), order@),
            keys@.len() == g_final.len(),
            forall|a: int| 0 <= a < g_final.len() ==> keys@[a] == g_final[a].total_blobs,
            forall|a: int, b: int| 0 <= a < b < order@.len() ==> order@[a] != order@[b],
            groups@.len() == g_final.len(),
            forall|a: int| 0 <= a < g_final.len() && !order@.take(j as int).contains(a as usize) ==> #[trigger] groups@[a] == g_final[a],
            out@.len() == j,
            forall|a: int| 0 <= a < j ==> #[trigger] out@[a] == g_final[order@[a] as int],
        decreases order@.len() - j,
    {
        let idx = order[j];
        assert(!order@.take(j as int).contains(idx)) by {
            if order@.take(j as int).contains(idx) {
                let a = choose|a: int| 0 <= a < j && order@.take(j as int)[a] == idx;
                assert(order@[a] == order@[j as int]);
            }
        }
        let placeholder = ChainProfile {
            chain: String::new(),
            total_transactions: 0,
            total_blobs: 0,
            first_seen: 0,
            last_seen: 0,
            hourly_counts: Vec::new(),
            samples: Vec::new(),
        };
        let ghost before = groups@;
        let p = groups.remove(idx);
        groups.insert(idx, placeholder);
        assert(groups@ =~= before.update(idx as int, groups@[idx as int]));
        out.push(p);
        assert forall|a: int| 0 <= a < g_final.len() && !order@.take(j + 1).contains(a as usize) implies #[trigger] groups@[a] == g_final[a] by {
            assert(order@.take(j + 1)[j as int] == idx);
            if a != idx {
                assert(!order@.take(j as int).contains(a as usize)) by {
                    if order@.take(j as int).contains(a as usize) {
                        let b = choose|b: int| 0 <= b < j && order@.take(j as int)[b] == a as usize;
                        assert(order@.take(j + 1)[b] == a as usize);
                    }
                }
            }
        }
        j = j + 1;
    }
    proof {
        assert forall|a: int| 0 <= a < out@.len() implies (#[trigger] out@[a]).describes(group_of(all, out@[a].chain@)) by {
            assert(g_final[order@[a] as int].describes(group_of(all, g_final[order@[a] as int].chain@)));
        }
        assert forall|a: int, b: int| 0 <= a < b < out@.len() implies out@[a].chain@ != out@[b].chain@ by {
            assert(order@[a] != order@[b]);
        }
        assert forall|a: int, b: int| 0 <= a < b < out@.len() implies out@[a].total_blobs >= out@[b].total_blobs by {
            assert(crate::select::ranks_before(keys@, true, order@[a] as int, order@[b] as int));
        }
        assert forall|i: int| 0 <= i < txs@.len() implies exists|a: int| 0 <= a < out@.len() && #[trigger] out@[a].chain@ == (#[trigger] txs@[i]).label@ by {
            assert(all[i].0 == txs@[i].label@);
            assert(group_of(all, all[i].0).len() > 0);
            let b = choose|b: int| 0 <= b < g_final.len() && #[trigger] g_final[b].chain@ == all[i].0;
            assert(order@.contains(b as usize)) by {
                if !order@.contains(b as usize) {
                    assert(order@.len() == keys@.len());
                    crate::select::lemma_ranking_covers(keys@, true, order@, b);
                }
            }
            let a = choose|a: int| 0 <= a < order@.len() && order@[a] == b as usize;
            assert(out@[a] == g_final[b]);
        }
    }
    out
}

/// The transactions created at or after `since`, each with the label that
/// `entries` gives its sender.
pub open spec fn labeled_since(
    entries: Seq<(Seq<char>, Seq<char>)>,
    rows: Seq<(Seq<char>, u64, u64, u64)>,
) -> Seq<Labeled> {
    rows.map_values(|x: (Seq<char>, u64, u64, u64)| (label_in(entries, lower_of(x.0)), x.1, x.2, x.3))
}

/// Profiles of the chains that posted in the `hours` hours up to `now`, the
/// senders labelled by `table`; most blobs first.
pub fn get_chain_profiles(db: &Database, table: &LabelTable, now: u64, hours: u64) -> (r: Vec<ChainProfile>)
    ensures
        ({
            let all = labeled_since(
                table.view_entries(),
                rows_since(db.tx_seq(), sat_sub(now, hours * 3600)),
            );
            &&& forall|a: int, b: int| 0 <= a < b < r@.len() ==> r@[a].chain@ != r@[b].chain@
            &&& forall|a: int| 0 <= a < r@.len() ==> (#[trigger] r@[a]).describes(group_of(all, r@[a].chain@))
            &&& forall|i: int| 0 <= i < all.len() ==> exists|a: int| 0 <= a < r@.len() && #[trigger] r@[a].chain@ == (#[trigger] all[i]).0
            &&& forall|a: int, b: int| 0 <= a < b < r@.len() ==> r@[a].total_blobs >= r@[b].total_blobs
        }),
{
    let since: u64 = if hours > now / HOUR_SECS {
        0
    } else {
        now - hours * HOUR_SECS
    };
    assert(since == sat_sub(now, hours * 3600)) by (nonlinear_arith)
        requires
            since == (if hours > now / 3600 { 0 } else { now - hours * 3600 }),
    ;
    let rows = db.get_transactions_in_time_range(since);
    let ghost rv = rows@.map_values(|x: (String, u64, u64, u64)| (x.0@, x.1, x.2, x.3));
    let ghost all = labeled_since(table.view_entries(), rv);
    let mut txs: Vec<LabeledTx> = Vec::new();
    let mut i: usize = 0;
    while i < rows.len()
        invariant
            i <= rows@.len(),
            rv == rows@.map_values(|x: (String, u64, u64, u64)| (x.0@, x.1, x.2, x.3)),
            all == labeled_since(table.view_entries(), rv),
            txs@.len() == i,
            forall|j: int| 0 <= j < i ==> (#[trigger] txs@[j])@ == all[j],
        decreases rows@.len() - i,
    {
        let row = &rows[i];
        let label = table.identify(&row.0);
        txs.push(LabeledTx { label, blob_count: row.1, timestamp: row.2, gas_price: row.3 });
        i = i + 1;
    }
    assert(txs@.map_values(|t: LabeledTx| t@) =~= all);
    let r = build_profiles(&txs);
    assert forall|i: int| 0 <= i < all.len() implies exists|a: int| 0 <= a < r@.len() && #[trigger] r@[a].chain@ == (#[trigger] all[i]).0 by {
        assert(txs@[i].label@ == all[i].0);
    }
    r
}

} // verus!
