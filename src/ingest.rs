use vstd::prelude::*;
use crate::db::{bump_sender, BlockRow, Database, HashView, StoreState, TxView};
use crate::fold::{
    insert_all, lemma_insert_all_concat, lemma_insert_all_push, lemma_remove_all_push, remove_all,
};
use crate::params::{blob_fee_of, bpo2_blob_fee, data_gas_per_blob, spec_data_gas_per_blob};

verus! {

/// Type tag of blob-carrying transactions.
pub const BLOB_TX_TYPE: u8 = 3;

/// A transaction of a block, as the chain hands it over: its hash, type tag,
/// blob commitments (for blob-carrying ones) and signer (where it could be
/// recovered).
#[derive(Debug)]
pub struct TxInput {
    pub tx_hash: String,
    pub tx_type: u8,
    pub blob_hashes: Option<Vec<String>>,
    pub sender: Option<String>,
}

/// A block as the chain hands it over.
#[derive(Debug)]
pub struct BlockInput {
    pub number: u64,
    pub timestamp: u64,
    pub excess_blob_gas: Option<u64>,
    pub transactions: Vec<TxInput>,
}

/// One notification of the chain: blocks appended, replaced, or removed.
#[derive(Debug)]
pub enum ChainEvent {
    Committed { new: Vec<BlockInput> },
    Reorged { old: Vec<BlockInput>, new: Vec<BlockInput> },
    Reverted { old: Vec<BlockInput> },
}

/// Whether a transaction enters the store: it carries blobs, lists its blob
/// commitments, and its signer was recovered. Others count nowhere.
pub open spec fn counted(t: TxInput) -> bool {
    t.tx_type == BLOB_TX_TYPE && t.blob_hashes.is_some() && t.sender.is_some()
}

/// Blob commitments of a counted transaction.
pub open spec fn blob_count(t: TxInput) -> nat {
    t.blob_hashes.unwrap()@.len()
}

/// Blobs of the counted transactions of `txs`.
pub open spec fn total_blobs(txs: Seq<TxInput>) -> nat
    decreases txs.len(),
{
    if txs.len() == 0 {
        0
    } else {
        total_blobs(txs.drop_last()) + if counted(txs.last()) {
            blob_count(txs.last())
        } else {
            0
        }
    }
}

/// Number of counted transactions of `txs`.
pub open spec fn counted_txs(txs: Seq<TxInput>) -> nat
    decreases txs.len(),
{
    if txs.len() == 0 {
        0
    } else {
        counted_txs(txs.drop_last()) + if counted(txs.last()) {
            1nat
        } else {
            0nat
        }
    }
}

/// The blob gas price recorded for a block: the fee market's price for its
/// excess blob gas (0 where the header has none), capped at `i64::MAX`.
pub open spec fn block_gas_price(b: BlockInput) -> u64 {
    match b.excess_blob_gas {
        None => 0,
        Some(e) => if blob_fee_of(e) > i64::MAX as u128 {
            i64::MAX as u64
        } else {
            blob_fee_of(e) as u64
        },
    }
}

/// The excess blob gas recorded for a block: 0 where the header has none or
/// where it exceeds `i64::MAX`.
pub open spec fn block_excess(b: BlockInput) -> u64 {
    match b.excess_blob_gas {
        None => 0,
        Some(e) => if e > i64::MAX as u64 {
            0
        } else {
            e
        },
    }
}

/// Blob gas of `n` blobs, capped at `u64::MAX`.
pub open spec fn blob_gas(n: nat) -> u64 {
    if n * spec_data_gas_per_blob() > u64::MAX {
        u64::MAX
    } else {
        (n * spec_data_gas_per_blob()) as u64
    }
}

/// The row a block gets at blob gas price `gas_price`.
pub open spec fn block_row_at(b: BlockInput, gas_price: u64) -> BlockRow {
    BlockRow {
        block_number: b.number,
        block_timestamp: b.timestamp,
        tx_count: counted_txs(b.transactions@) as u64,
        total_blobs: total_blobs(b.transactions@) as u64,
        gas_used: blob_gas(total_blobs(b.transactions@)),
        gas_price,
        excess_blob_gas: block_excess(b),
    }
}

/// The row a block gets.
pub open spec fn block_row(b: BlockInput) -> BlockRow {
    block_row_at(b, block_gas_price(b))
}

/// The row a counted transaction of block `b` gets at blob gas price `gas_price`.
pub open spec fn tx_view(b: BlockInput, gas_price: u64, t: TxInput) -> TxView {
    TxView {
        block_number: b.number,
        sender: t.sender.unwrap()@,
        blob_count: blob_count(t) as u64,
        gas_price,
        created_at: b.timestamp,
    }
}

/// Transaction rows written for `txs`, which belong to block `b`, at blob gas
/// price `gas_price`, in order.
pub open spec fn tx_pairs(b: BlockInput, gas_price: u64, txs: Seq<TxInput>) -> Seq<(Seq<char>, TxView)>
    decreases txs.len(),
{
    if txs.len() == 0 {
        Seq::empty()
    } else {
        let rest = tx_pairs(b, gas_price, txs.drop_last());
        if counted(txs.last()) {
            rest.push((txs.last().tx_hash@, tx_view(b, gas_price, txs.last())))
        } else {
            rest
        }
    }
}

/// Blob-hash rows of one counted transaction, from index `0` up to `k`.
pub open spec fn hash_views(tx_hash: Seq<char>, hs: Seq<String>, k: nat) -> Seq<HashView>
    decreases k,
{
    if k == 0 || k > hs.len() {
        Seq::empty()
    } else {
        hash_views(tx_hash, hs, (k - 1) as nat).push(
            HashView { tx_hash, blob_hash: hs[k - 1]@, blob_index: (k - 1) as u64 },
        )
    }
}

/// Blob-hash rows written for `txs`, in order.
pub open spec fn hash_rows(txs: Seq<TxInput>) -> Seq<HashView>
    decreases txs.len(),
{
    if txs.len() == 0 {
        Seq::empty()
    } else {
        let t = txs.last();
        hash_rows(txs.drop_last()) + if counted(t) {
            hash_views(t.tx_hash@, t.blob_hashes.unwrap()@, blob_count(t))
        } else {
            Seq::empty()
        }
    }
}

/// The sender table after the counted transactions of `txs`.
pub open spec fn bump_senders(m: Map<Seq<char>, (u64, u64)>, txs: Seq<TxInput>) -> Map<
    Seq<char>,
    (u64, u64),
>
    decreases txs.len(),
{
    if txs.len() == 0 {
        m
    } else {
        let t = txs.last();
        let r = bump_senders(m, txs.drop_last());
        if counted(t) {
            bump_sender(r, t.sender.unwrap()@, blob_count(t) as u64)
        } else {
            r
        }
    }
}

/// Block rows written for a segment, in order.
pub open spec fn block_pairs(bs: Seq<BlockInput>) -> Seq<(u64, BlockRow)>
    decreases bs.len(),
{
    if bs.len() == 0 {
        Seq::empty()
    } else {
        block_pairs(bs.drop_last()).push((bs.last().number, block_row(bs.last())))
    }
}

/// Transaction rows written for a segment, in order.
pub open spec fn chain_tx_pairs(bs: Seq<BlockInput>) -> Seq<(Seq<char>, TxView)>
    decreases bs.len(),
{
    if bs.len() == 0 {
        Seq::empty()
    } else {
        chain_tx_pairs(bs.drop_last()) + tx_pairs(bs.last(), block_gas_price(bs.last()), bs.last().transactions@)
    }
}

/// Blob-hash rows written for a segment, in order.
pub open spec fn chain_hash_rows(bs: Seq<BlockInput>) -> Seq<HashView>
    decreases bs.len(),
{
    if bs.len() == 0 {
        Seq::empty()
    } else {
        chain_hash_rows(bs.drop_last()) + hash_rows(bs.last().transactions@)
    }
}

/// The sender table after a segment.
pub open spec fn chain_senders(m: Map<Seq<char>, (u64, u64)>, bs: Seq<BlockInput>) -> Map<
    Seq<char>,
    (u64, u64),
>
    decreases bs.len(),
{
    if bs.len() == 0 {
        m
    } else {
        bump_senders(chain_senders(m, bs.drop_last()), bs.last().transactions@)
    }
}

/// Numbers of the blocks of a segment, in order.
pub open spec fn block_numbers(bs: Seq<BlockInput>) -> Seq<u64> {
    bs.map_values(|b: BlockInput| b.number)
}

/// Whether every block of a segment holds at most `u64::MAX` counted blobs.
pub open spec fn segment_fits(bs: Seq<BlockInput>) -> bool {
    forall|i: int| 0 <= i < bs.len() ==> total_blobs(#[trigger] bs[i].transactions@) <= u64::MAX
}

/// The recorded blob gas price of a block.
fn gas_price_of(b: &BlockInput) -> (r: u64)
    ensures
        r == block_gas_price(*b),
{
    match b.excess_blob_gas {
        None => 0,
        Some(e) => {
            let fee = bpo2_blob_fee(e);
            if fee > i64::MAX as u128 {
                i64::MAX as u64
            } else {
                fee as u64
            }
        },
    }
}

/// Writes one block: the row and blob hashes of each counted transaction, the
/// increment of its sender, then the block row.
pub fn process_block(db: &mut Database, b: &BlockInput)
    requires
        old(db).wf(),
        total_blobs(b.transactions@) <= u64::MAX,
    ensures
        final(db).wf(),
        final(db).blocks() == old(db).blocks().insert(b.number, block_row(*b)),
        final(db).txs() == insert_all(old(db).txs(), tx_pairs(*b, block_gas_price(*b), b.transactions@)),
        final(db).hashes() == old(db).hashes() + hash_rows(b.transactions@),
        final(db).senders() == bump_senders(old(db).senders(), b.transactions@),
{
    let price = gas_price_of(b);
    record_block(db, b, price);
}

/// Writes one block whose blob gas price is `price`: the row and blob hashes of
/// each counted transaction, the increment of its sender, then the block row.
pub fn record_block(db: &mut Database, b: &BlockInput, price: u64)
    requires
        old(db).wf(),
        total_blobs(b.transactions@) <= u64::MAX,
    ensures
        final(db).wf(),
        final(db).blocks() == old(db).blocks().insert(b.number, block_row_at(*b, price)),
        final(db).txs() == insert_all(old(db).txs(), tx_pairs(*b, price, b.transactions@)),
        final(db).hashes() == old(db).hashes() + hash_rows(b.transactions@),
        final(db).senders() == bump_senders(old(db).senders(), b.transactions@),
{
    let excess: u64 = match b.excess_blob_gas {
        None => 0,
        Some(e) => if e > i64::MAX as u64 {
            0
        } else {
            e
        },
    };
    let mut total: u64 = 0;
    let mut count: u64 = 0;
    let mut i: usize = 0;
    let ghost txs = b.transactions@;
    while i < b.transactions.len()
        invariant
            db.wf(),
            i <= txs.len(),
            txs == b.transactions@,
            total == total_blobs(txs.take(i as int)),
            count == counted_txs(txs.take(i as int)),
            count <= i,
            total_blobs(txs) <= u64::MAX,
            db.blocks() == old(db).blocks(),
            db.txs() == insert_all(old(db).txs(), tx_pairs(*b, price, txs.take(i as int))),
            db.hashes() == old(db).hashes() + hash_rows(txs.take(i as int)),
            db.senders() == bump_senders(old(db).senders(), txs.take(i as int)),
        decreases txs.len() - i,
    {
        let ghost pre = txs.take(i as int);
        assert(txs.take(i + 1).drop_last() =~= pre);
        assert(txs.take(i + 1).last() == txs[i as int]);
        proof {
            lemma_total_blobs_prefix(txs, i as int + 1);
        }
        let t = &b.transactions[i];
        if t.tx_type == BLOB_TX_TYPE {
            match (&t.blob_hashes, &t.sender) {
                (Some(hs), Some(sender)) => {
                    let n: u64 = hs.len() as u64;
                    let ghost hashes0 = db.hashes();
                    db.insert_blob_transaction(&t.tx_hash, b.number, sender, n, price, b.timestamp);
                    proof {
                        lemma_insert_all_push(old(db).txs(), tx_pairs(*b, price, pre), (t.tx_hash@, tx_view(*b, price, *t)));
                    }
                    let mut j: usize = 0;
                    while j < hs.len()
                        invariant
                            db.wf(),
                            j <= hs@.len(),
                            db.blocks() == old(db).blocks(),
                            db.txs() == insert_all(old(db).txs(), tx_pairs(*b, price, txs.take(i + 1))),
                            db.senders() == bump_senders(old(db).senders(), pre),
                            db.hashes() == hashes0 + hash_views(t.tx_hash@, hs@, j as nat),
                        decreases hs@.len() - j,
                    {
                        let ghost h0 = db.hashes();
                        db.insert_blob_hash(&t.tx_hash, &hs[j], j as u64);
                        assert(hash_views(t.tx_hash@, hs@, (j + 1) as nat) == hash_views(t.tx_hash@, hs@, j as nat).push(
                            HashView { tx_hash: t.tx_hash@, blob_hash: hs@[j as int]@, blob_index: j as u64 }));
                        assert(db.hashes() =~= hashes0 + hash_views(t.tx_hash@, hs@, (j + 1) as nat));
                        j = j + 1;
                    }
                    db.update_sender(sender, n);
                    assert(hash_rows(txs.take(i + 1)) =~= hash_rows(pre) + hash_views(t.tx_hash@, hs@, blob_count(*t)));
                    assert(db.hashes() =~= old(db).hashes() + hash_rows(txs.take(i + 1)));
                    total = total + n;
                    count = count + 1;
                },
                _ => {},
            }
        }
        i = i + 1;
    }
    assert(txs.take(txs.len() as int) =~= txs);
    let g: u64 = data_gas_per_blob();
    let gas_used: u64 = if total as u128 * g as u128 > u64::MAX as u128 {
        u64::MAX
    } else {
        total * g
    };
    db.insert_block(b.number, b.timestamp, count, total, gas_used, price, excess);
}

proof fn lemma_total_blobs_prefix(txs: Seq<TxInput>, k: int)
    requires
        0 <= k <= txs.len(),
    ensures
        total_blobs(txs.take(k)) <= total_blobs(txs),
    decreases txs.len() - k,
{
    if k < txs.len() {
        lemma_total_blobs_prefix(txs, k + 1);
        assert(txs.take(k + 1).drop_last() =~= txs.take(k));
    } else {
        assert(txs.take(k) =~= txs);
    }
}

/// The store after a committed segment.
pub open spec fn commit(s: StoreState, bs: Seq<BlockInput>) -> StoreState {
    StoreState {
        blocks: insert_all(s.blocks, block_pairs(bs)),
        txs: insert_all(s.txs, chain_tx_pairs(bs)),
        senders: chain_senders(s.senders, bs),
        hashes: s.hashes + chain_hash_rows(bs),
    }
}

/// The store after a reverted segment: its block rows are gone.
pub open spec fn revert(s: StoreState, bs: Seq<BlockInput>) -> StoreState {
    StoreState { blocks: remove_all(s.blocks, block_numbers(bs)), ..s }
}

/// The store after a notification.
pub open spec fn apply(s: StoreState, ev: ChainEvent) -> StoreState {
    match ev {
        ChainEvent::Committed { new } => commit(s, new@),
        ChainEvent::Reorged { old, new } => commit(revert(s, old@), new@),
        ChainEvent::Reverted { old } => revert(s, old@),
    }
}

/// The height acknowledged after a notification: the last block of the
/// segment it commits, where it commits one.
pub open spec fn acknowledged(ev: ChainEvent) -> Option<u64> {
    match ev {
        ChainEvent::Committed { new } => if new@.len() > 0 {
            Some(new@.last().number)
        } else {
            None
        },
        ChainEvent::Reorged { old, new } => if new@.len() > 0 {
            Some(new@.last().number)
        } else {
            None
        },
        ChainEvent::Reverted { old } => None,
    }
}

/// Writes each block of a committed segment, in order.
pub fn process_chain(db: &mut Database, chain: &Vec<BlockInput>)
    requires
        old(db).wf(),
        segment_fits(chain@),
    ensures
        final(db).wf(),
        final(db).state() == commit(old(db).state(), chain@),
{
    let mut i: usize = 0;
    while i < chain.len()
        invariant
            db.wf(),
            i <= chain@.len(),
            segment_fits(chain@),
            db.state() == commit(old(db).state(), chain@.take(i as int)),
        decreases chain@.len() - i,
    {
        let ghost pre = chain@.take(i as int);
        let ghost s0 = db.state();
        assert(chain@.take(i + 1).drop_last() =~= pre);
        assert(chain@.take(i + 1).last() == chain@[i as int]);
        process_block(db, &chain[i]);
        proof {
            let b = chain@[i as int];
            lemma_insert_all_push(old(db).blocks(), block_pairs(pre), (b.number, block_row(b)));
            lemma_insert_all_concat(old(db).txs(), chain_tx_pairs(pre), tx_pairs(b, block_gas_price(b), b.transactions@));
            assert(old(db).hashes() + chain_hash_rows(pre) + hash_rows(b.transactions@) =~= old(
                db,
            ).hashes() + chain_hash_rows(chain@.take(i + 1)));
        }
        i = i + 1;
    }
    assert(chain@.take(chain@.len() as int) =~= chain@);
}

/// Removes the block row of each block of a reverted segment.
pub fn revert_chain(db: &mut Database, chain: &Vec<BlockInput>)
    requires
        old(db).wf(),
    ensures
        final(db).wf(),
        final(db).state() == revert(old(db).state(), chain@),
{
    let mut i: usize = 0;
    while i < chain.len()
        invariant
            db.wf(),
            i <= chain@.len(),
            db.state() == revert(old(db).state(), chain@.take(i as int)),
        decreases chain@.len() - i,
    {
        let ghost pre = chain@.take(i as int);
        db.delete_block(chain[i].number);
        proof {
            assert(block_numbers(chain@.take(i + 1)) =~= block_numbers(pre).push(chain@[i as int].number));
            lemma_remove_all_push(old(db).blocks(), block_numbers(pre), chain@[i as int].number);
        }
        i = i + 1;
    }
    assert(chain@.take(chain@.len() as int) =~= chain@);
}

/// Applies one notification: a reorganisation reverts the old segment in full,
/// then commits the new one. Returns the height to acknowledge.
pub fn apply_notification(db: &mut Database, ev: &ChainEvent) -> (r: Option<u64>)
    requires
        old(db).wf(),
        match *ev {
            ChainEvent::Committed { new } => segment_fits(new@),
            ChainEvent::Reorged { old, new } => segment_fits(new@),
            ChainEvent::Reverted { old } => true,
        },
    ensures
        final(db).wf(),
        final(db).state() == apply(old(db).state(), *ev),
        r == acknowledged(*ev),
{
    match ev {
        ChainEvent::Committed { new } => {
            process_chain(db, new);
            tip(new)
        },
        ChainEvent::Reorged { old, new } => {
            revert_chain(db, old);
            process_chain(db, new);
            tip(new)
        },
        ChainEvent::Reverted { old } => {
            revert_chain(db, old);
            None
        },
    }
}

/// Number of the last block of a segment.
fn tip(chain: &Vec<BlockInput>) -> (r: Option<u64>)
    ensures
        r == (if chain@.len() > 0 {
            Some(chain@.last().number)
        } else {
            None::<u64>
        }),
{
    if chain.len() > 0 {
        Some(chain[chain.len() - 1].number)
    } else {
        None
    }
}

} // verus!
