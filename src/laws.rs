use vstd::prelude::*;
use crate::db::{StoreState, TxView};
use crate::fold::{
    agree_at, has_key, insert_all, lemma_insert_all_agree, lemma_insert_all_distinct,
    lemma_insert_all_has, lemma_insert_all_outside, lemma_insert_all_push, lemma_insert_all_twice,
    lemma_remove_all, remove_all,
};
use crate::ingest::{
    block_gas_price, block_numbers, block_pairs, block_row, blob_count, chain_tx_pairs, commit, counted, revert,
    total_blobs, tx_pairs, BlockInput, TxInput,
};

verus! {

/// Sum of the blob counts that `m` holds for the keys of `ps`.
pub open spec fn recorded_blobs(m: Map<Seq<char>, TxView>, ps: Seq<(Seq<char>, TxView)>) -> nat
    decreases ps.len(),
{
    if ps.len() == 0 {
        0
    } else {
        recorded_blobs(m, ps.drop_last()) + m[ps.last().0].blob_count as nat
    }
}

/// Sum of the blob counts of the rows in `ps`.
pub open spec fn pair_blobs(ps: Seq<(Seq<char>, TxView)>) -> nat
    decreases ps.len(),
{
    if ps.len() == 0 {
        0
    } else {
        pair_blobs(ps.drop_last()) + ps.last().1.blob_count as nat
    }
}

/// Whether the counted transactions of a block have pairwise distinct hashes.
pub open spec fn distinct_hashes(b: BlockInput) -> bool {
    let ps = tx_pairs(b, block_gas_price(b), b.transactions@);
    forall|i: int, j: int| 0 <= i < j < ps.len() ==> ps[i].0 != ps[j].0
}

proof fn lemma_recorded_is_pair_sum(m: Map<Seq<char>, TxView>, ps: Seq<(Seq<char>, TxView)>)
    requires
        forall|i: int| 0 <= i < ps.len() ==> #[trigger] m[ps[i].0] == ps[i].1,
    ensures
        recorded_blobs(m, ps) == pair_blobs(ps),
    decreases ps.len(),
{
    if ps.len() > 0 {
        let rest = ps.drop_last();
        assert forall|i: int| 0 <= i < rest.len() implies #[trigger] m[rest[i].0] == rest[i].1 by {
            assert(rest[i] == ps[i]);
        }
        lemma_recorded_is_pair_sum(m, rest);
        assert(m[ps[ps.len() - 1].0] == ps[ps.len() - 1].1);
    }
}

proof fn lemma_pair_sum_is_total(b: BlockInput, p: u64, txs: Seq<TxInput>)
    requires
        total_blobs(txs) <= u64::MAX,
    ensures
        pair_blobs(tx_pairs(b, p, txs)) == total_blobs(txs),
    decreases txs.len(),
{
    if txs.len() > 0 {
        let rest = txs.drop_last();
        let t = txs.last();
        lemma_pair_sum_is_total(b, p, rest);
        if counted(t) {
            let q = (t.tx_hash@, crate::ingest::tx_view(b, p, t));
            assert(tx_pairs(b, p, rest).push(q).drop_last() =~= tx_pairs(b, p, rest));
            assert(blob_count(t) <= total_blobs(txs));
        }
    }
}

proof fn lemma_pairs_reference_block(b: BlockInput, p: u64, txs: Seq<TxInput>)
    ensures
        forall|i: int|
            0 <= i < tx_pairs(b, p, txs).len() ==> (#[trigger] tx_pairs(b, p, txs)[i]).1.block_number
                == b.number,
    decreases txs.len(),
{
    if txs.len() > 0 {
        let rest = txs.drop_last();
        let t = txs.last();
        lemma_pairs_reference_block(b, p, rest);
        if counted(t) {
            assert forall|i: int| 0 <= i < tx_pairs(b, p, txs).len() implies (#[trigger] tx_pairs(
                b,
                p,
                txs,
            )[i]).1.block_number == b.number by {
                if i < tx_pairs(b, p, rest).len() {
                    assert(tx_pairs(b, p, txs)[i] == tx_pairs(b, p, rest)[i]);
                }
            }
        }
    }
}

proof fn lemma_block_pairs_index(bs: Seq<BlockInput>)
    ensures
        block_pairs(bs).len() == bs.len(),
        forall|i: int|
            0 <= i < bs.len() ==> #[trigger] block_pairs(bs)[i] == (bs[i].number, block_row(bs[i])),
    decreases bs.len(),
{
    if bs.len() > 0 {
        let rest = bs.drop_last();
        lemma_block_pairs_index(rest);
        assert forall|i: int| 0 <= i < bs.len() implies #[trigger] block_pairs(bs)[i] == (
            bs[i].number,
            block_row(bs[i]),
        ) by {
            if i < rest.len() {
                assert(block_pairs(bs)[i] == block_pairs(rest)[i]);
                assert(rest[i] == bs[i]);
            }
        }
    }
}

proof fn lemma_numbers_are_keys(bs: Seq<BlockInput>, k: u64)
    ensures
        has_key(block_pairs(bs), k) <==> block_numbers(bs).contains(k),
    decreases bs.len(),
{
    lemma_block_pairs_index(bs);
    let ps = block_pairs(bs);
    let ns = block_numbers(bs);
    {
        if has_key(ps, k) {
            let i = choose|i: int| 0 <= i < ps.len() && ps[i].0 == k;
            assert(ns[i] == k);
        }
        if ns.contains(k) {
            let i = choose|i: int| 0 <= i < ns.len() && ns[i] == k;
            assert(ps[i].0 == k);
        }
    }
}

/// Aggregate consistency: once a block is ingested into a store that held no
/// transaction row referencing its number, the transaction rows that reference
/// it are exactly those of its counted transactions, and the blob total of its
/// block row is the sum of their blob counts.
pub proof fn lemma_aggregate_consistency(s: StoreState, b: BlockInput)
    requires
        forall|h: Seq<char>| #[trigger] s.txs.contains_key(h) ==> s.txs[h].block_number != b.number,
        distinct_hashes(b),
        total_blobs(b.transactions@) <= u64::MAX,
    ensures
        ({
            let after = commit(s, seq![b]);
            let ps = tx_pairs(b, block_gas_price(b), b.transactions@);
            &&& forall|h: Seq<char>|
                (after.txs.contains_key(h) && after.txs[h].block_number == b.number) <==> has_key(
                    ps,
                    h,
                )
            &&& after.blocks.contains_key(b.number)
            &&& after.blocks[b.number].total_blobs == recorded_blobs(after.txs, ps)
        }),
{
    let txs = b.transactions@;
    let price = block_gas_price(b);
    let ps = tx_pairs(b, price, txs);
    let one = seq![b];
    assert(one.drop_last() =~= Seq::<BlockInput>::empty());
    assert(one.last() == b);
    assert(chain_tx_pairs(one) == chain_tx_pairs(one.drop_last()) + tx_pairs(b, price, txs));
    assert(chain_tx_pairs(one) =~= ps);
    assert(block_pairs(one) == block_pairs(one.drop_last()).push((b.number, block_row(b))));
    assert(block_pairs(one) =~= Seq::<(u64, crate::db::BlockRow)>::empty().push((b.number, block_row(b))));
    lemma_insert_all_push(s.blocks, Seq::empty(), (b.number, block_row(b)));
    let after = commit(s, one);
    lemma_pairs_reference_block(b, price, txs);
    assert forall|i: int| 0 <= i < ps.len() implies #[trigger] after.txs[ps[i].0] == ps[i].1 by {
        lemma_insert_all_distinct(s.txs, ps, i);
    }
    assert forall|h: Seq<char>|
        (after.txs.contains_key(h) && after.txs[h].block_number == b.number) <==> has_key(ps, h) by {
        if has_key(ps, h) {
            lemma_insert_all_has(s.txs, ps, h);
            let i = choose|i: int| 0 <= i < ps.len() && ps[i].0 == h;
            assert(after.txs[ps[i].0] == ps[i].1);
        } else {
            lemma_insert_all_outside(s.txs, ps, h);
        }
    }
    lemma_recorded_is_pair_sum(after.txs, ps);
    lemma_pair_sum_is_total(b, price, txs);
}

/// Idempotent replay: delivering the same committed segment twice leaves the
/// same block rows and transaction rows as delivering it once.
pub proof fn lemma_replay_idempotent(s: StoreState, bs: Seq<BlockInput>)
    ensures
        commit(commit(s, bs), bs).blocks == commit(s, bs).blocks,
        commit(commit(s, bs), bs).txs == commit(s, bs).txs,
{
    lemma_insert_all_twice(s.blocks, block_pairs(bs));
    lemma_insert_all_twice(s.txs, chain_tx_pairs(bs));
}

/// Revert and recommit: once a segment is committed, reverting it and
/// committing it again restores the block rows and transaction rows.
pub proof fn lemma_revert_recommit(s0: StoreState, bs: Seq<BlockInput>)
    ensures
        commit(revert(commit(s0, bs), bs), bs).blocks == commit(s0, bs).blocks,
        commit(revert(commit(s0, bs), bs), bs).txs == commit(s0, bs).txs,
{
    let s = commit(s0, bs);
    let ps = block_pairs(bs);
    let removed = remove_all(s.blocks, block_numbers(bs));
    assert forall|k: u64| !has_key(ps, k) implies #[trigger] agree_at(removed, s.blocks, k) by {
        lemma_numbers_are_keys(bs, k);
        lemma_remove_all(s.blocks, block_numbers(bs), k);
    }
    lemma_insert_all_agree(removed, s.blocks, ps);
    lemma_replay_idempotent(s0, bs);
}

} // verus!
