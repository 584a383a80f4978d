use vstd::prelude::*;
use vstd::string::StringExecFns;
use crate::sums::{sat, sat_step, sum_u64};
use crate::select::{is_ranking, rank_indices};
use crate::analytics::{sample_all_time, AllTimeChartData, first_at_or_after, sample_interval};

verus! {

/// One row of the block table: a block and its blob aggregates.
#[derive(Clone, Copy, Debug, PartialEq, Eq, Structural)]
pub struct BlockRow {
    pub block_number: u64,
    pub block_timestamp: u64,
    pub tx_count: u64,
    pub total_blobs: u64,
    pub gas_used: u64,
    pub gas_price: u64,
    pub excess_blob_gas: u64,
}

/// One row of the transaction table, keyed by the transaction hash.
#[derive(Debug)]
pub struct TxRow {
    pub tx_hash: String,
    pub block_number: u64,
    pub sender: String,
    pub blob_count: u64,
    pub gas_price: u64,
    pub created_at: u64,
}

/// What a transaction row holds besides its key.
pub struct TxView {
    pub block_number: u64,
    pub sender: Seq<char>,
    pub blob_count: u64,
    pub gas_price: u64,
    pub created_at: u64,
}

impl View for TxRow {
    type V = TxView;

    open spec fn view(&self) -> TxView {
        TxView {
            block_number: self.block_number,
            sender: self.sender@,
            blob_count: self.blob_count,
            gas_price: self.gas_price,
            created_at: self.created_at,
        }
    }
}

/// One row of the sender table: cumulative counts of an address.
#[derive(Debug)]
pub struct SenderRow {
    pub address: String,
    pub tx_count: u64,
    pub total_blobs: u64,
}

/// One blob commitment of a transaction, with its place in the transaction.
#[derive(Debug)]
pub struct HashRow {
    pub tx_hash: String,
    pub blob_hash: String,
    pub blob_index: u64,
}

/// What a blob-hash row holds.
pub struct HashView {
    pub tx_hash: Seq<char>,
    pub blob_hash: Seq<char>,
    pub blob_index: u64,
}

impl View for HashRow {
    type V = HashView;

    open spec fn view(&self) -> HashView {
        HashView { tx_hash: self.tx_hash@, blob_hash: self.blob_hash@, blob_index: self.blob_index }
    }
}

/// `a + b`, or `u64::MAX` where the sum does not fit.
pub open spec fn sat_add(a: u64, b: u64) -> u64 {
    if a as int + b as int > u64::MAX as int {
        u64::MAX
    } else {
        (a + b) as u64
    }
}

/// The sender table after one more transaction of `address` carrying `num_blobs`
/// blobs: a new row counts one transaction, an existing one adds to its counts.
pub open spec fn bump_sender(
    m: Map<Seq<char>, (u64, u64)>,
    address: Seq<char>,
    num_blobs: u64,
) -> Map<Seq<char>, (u64, u64)> {
    if m.contains_key(address) {
        m.insert(address, (sat_add(m[address].0, 1), sat_add(m[address].1, num_blobs)))
    } else {
        m.insert(address, (1, num_blobs))
    }
}

/// A transaction as a block lists it.
#[derive(Debug)]
pub struct TransactionData {
    pub tx_hash: String,
    pub sender: String,
    pub blob_count: u64,
}

impl View for TransactionData {
    type V = (Seq<char>, Seq<char>, u64);

    open spec fn view(&self) -> (Seq<char>, Seq<char>, u64) {
        (self.tx_hash@, self.sender@, self.blob_count)
    }
}

/// The transactions of block `n`, in table order, as a block lists them.
pub open spec fn block_txs(s: Seq<TxRow>, n: u64) -> Seq<(Seq<char>, Seq<char>, u64)>
    decreases s.len(),
{
    if s.len() == 0 {
        Seq::empty()
    } else {
        let rest = block_txs(s.drop_last(), n);
        if s.last().block_number == n {
            rest.push((s.last().tx_hash@, s.last().sender@, s.last().blob_count))
        } else {
            rest
        }
    }
}

/// A block with its transactions.
#[derive(Debug)]
pub struct BlockData {
    pub block_number: u64,
    pub block_timestamp: u64,
    pub tx_count: u64,
    pub total_blobs: u64,
    pub gas_used: u64,
    pub gas_price: u64,
    pub excess_blob_gas: u64,
    pub transactions: Vec<TransactionData>,
}

impl BlockData {
    /// The block row this holds.
    pub open spec fn row(&self) -> BlockRow {
        BlockRow {
            block_number: self.block_number,
            block_timestamp: self.block_timestamp,
            tx_count: self.tx_count,
            total_blobs: self.total_blobs,
            gas_used: self.gas_used,
            gas_price: self.gas_price,
            excess_blob_gas: self.excess_blob_gas,
        }
    }

    /// The transactions this lists.
    pub open spec fn tx_list(&self) -> Seq<(Seq<char>, Seq<char>, u64)> {
        self.transactions@.map_values(|t: TransactionData| t@)
    }
}

/// Whether block rows are in strictly ascending order of block number.
pub open spec fn sorted_blocks(s: Seq<BlockRow>) -> bool {
    forall|i: int, j: int| 0 <= i < j < s.len() ==> s[i].block_number < s[j].block_number
}

/// Summary statistics of the store.
#[derive(Debug)]
pub struct Stats {
    pub total_blocks: u64,
    pub total_blobs: u64,
    pub total_transactions: u64,
    pub latest_block: Option<u64>,
    pub earliest_block: Option<u64>,
    pub latest_gas_price: u64,
}

/// Blob count and gas price per block over a window of block numbers. Gas
/// prices are in the smallest unit.
#[derive(Debug)]
pub struct ChartData {
    pub labels: Vec<u64>,
    pub blobs: Vec<u64>,
    pub gas_prices: Vec<u64>,
}

/// Gas price shown for the block `start + i` of a chart window: its own where
/// the store holds it, else the last one shown before it, else 0.
pub open spec fn carried_price(m: Map<u64, BlockRow>, start: u64, i: nat) -> u64
    decreases i,
{
    let n = start + i;
    if n <= u64::MAX && m.contains_key(n as u64) {
        m[n as u64].gas_price
    } else if i == 0 {
        0
    } else {
        carried_price(m, start, (i - 1) as nat)
    }
}

/// Blob count shown for block `n` of a chart window.
pub open spec fn shown_blobs(m: Map<u64, BlockRow>, n: u64) -> u64 {
    if m.contains_key(n) {
        m[n].total_blobs
    } else {
        0
    }
}

/// A sender with its cumulative counts.
#[derive(Debug)]
pub struct SenderData {
    pub address: String,
    pub tx_count: u64,
    pub total_blobs: u64,
}

impl View for SenderData {
    type V = (Seq<char>, u64, u64);

    open spec fn view(&self) -> (Seq<char>, u64, u64) {
        (self.address@, self.tx_count, self.total_blobs)
    }
}

impl View for SenderRow {
    type V = (Seq<char>, u64, u64);

    open spec fn view(&self) -> (Seq<char>, u64, u64) {
        (self.address@, self.tx_count, self.total_blobs)
    }
}

/// A blob-carrying transaction with its blob commitments.
#[derive(Debug)]
pub struct BlobTransactionData {
    pub tx_hash: String,
    pub block_number: u64,
    pub sender: String,
    pub blob_count: u64,
    pub gas_price: u64,
    pub blob_hashes: Vec<String>,
}

/// Blob-hash rows of transaction `h`, in table order.
pub open spec fn hash_rows_of(s: Seq<HashView>, h: Seq<char>) -> Seq<HashView>
    decreases s.len(),
{
    if s.len() == 0 {
        Seq::empty()
    } else {
        let rest = hash_rows_of(s.drop_last(), h);
        if s.last().tx_hash == h {
            rest.push(s.last())
        } else {
            rest
        }
    }
}

/// Blob indexes of blob-hash rows.
pub open spec fn index_keys(rows: Seq<HashView>) -> Seq<u64> {
    rows.map_values(|h: HashView| h.blob_index)
}

/// Blob totals of sender rows.
pub open spec fn sender_blob_keys(rows: Seq<SenderRow>) -> Seq<u64> {
    rows.map_values(|x: SenderRow| x.total_blobs)
}

/// Creation times of transaction rows.
pub open spec fn tx_time_keys(rows: Seq<TxRow>) -> Seq<u64> {
    rows.map_values(|t: TxRow| t.created_at)
}

/// Whether `r` lists the blob hashes of the rows `rows` in ascending order of
/// their index, rows of equal index in table order.
pub open spec fn hashes_in_index_order(rows: Seq<HashView>, r: Seq<Seq<char>>) -> bool {
    exists|idx: Seq<usize>|
        #![trigger is_ranking(index_keys(rows), false, rows.len(), idx)]
        is_ranking(index_keys(rows), false, rows.len(), idx)
            && r.len() == idx.len() && forall|i: int|
            0 <= i < r.len() ==> #[trigger] r[i] == rows[idx[i] as int].blob_hash
}

/// Transaction rows as the time-range query lists them: (sender, blob count,
/// time, gas price) of each row created at or after `t`, in table order.
pub open spec fn rows_since(s: Seq<TxRow>, t: u64) -> Seq<(Seq<char>, u64, u64, u64)>
    decreases s.len(),
{
    if s.len() == 0 {
        Seq::empty()
    } else {
        let rest = rows_since(s.drop_last(), t);
        let x = s.last();
        if x.created_at >= t {
            rest.push((x.sender@, x.blob_count, x.created_at, x.gas_price))
        } else {
            rest
        }
    }
}

/// The contents of the store, table by table.
pub struct StoreState {
    pub blocks: Map<u64, BlockRow>,
    pub txs: Map<Seq<char>, TxView>,
    pub senders: Map<Seq<char>, (u64, u64)>,
    pub hashes: Seq<HashView>,
}

/// The aggregate store: blocks, transactions, blob hashes and senders.
pub struct Database {
    blocks: Vec<BlockRow>,
    txs: Vec<TxRow>,
    hashes: Vec<HashRow>,
    senders: Vec<SenderRow>,
    block_map: Ghost<Map<u64, BlockRow>>,
    tx_map: Ghost<Map<Seq<char>, TxView>>,
    sender_map: Ghost<Map<Seq<char>, (u64, u64)>>,
}

impl Database {
    /// Block rows by block number.
    pub closed spec fn blocks(&self) -> Map<u64, BlockRow> {
        self.block_map@
    }

    /// Transaction rows by transaction hash.
    pub closed spec fn txs(&self) -> Map<Seq<char>, TxView> {
        self.tx_map@
    }

    /// Sender rows by address: (transaction count, total blobs).
    pub closed spec fn senders(&self) -> Map<Seq<char>, (u64, u64)> {
        self.sender_map@
    }

    /// Blob-hash rows in the order they were added.
    pub closed spec fn hashes(&self) -> Seq<HashView> {
        self.hashes@.map_values(|h: HashRow| h@)
    }

    /// The contents of the store.
    pub open spec fn state(&self) -> StoreState {
        StoreState {
            blocks: self.blocks(),
            txs: self.txs(),
            senders: self.senders(),
            hashes: self.hashes(),
        }
    }

    /// Block rows in ascending order of block number.
    pub closed spec fn block_seq(&self) -> Seq<BlockRow> {
        self.blocks@
    }

    /// Transaction rows in table order.
    pub closed spec fn tx_seq(&self) -> Seq<TxRow> {
        self.txs@
    }

    /// Sender rows in table order.
    pub closed spec fn sender_seq(&self) -> Seq<SenderRow> {
        self.senders@
    }

    pub closed spec fn blocks_wf(&self) -> bool {
        &&& forall|i: int, j: int|
            0 <= i < j < self.blocks@.len() ==> self.blocks@[i].block_number
                < self.blocks@[j].block_number
        &&& forall|i: int|
            0 <= i < self.blocks@.len() ==> self.block_map@.contains_key(
                #[trigger] self.blocks@[i].block_number,
            ) && self.block_map@[self.blocks@[i].block_number] == self.blocks@[i]
        &&& forall|n: u64|
            #[trigger] self.block_map@.contains_key(n) ==> exists|i: int|
                0 <= i < self.blocks@.len() && self.blocks@[i].block_number == n
    }

    pub closed spec fn txs_wf(&self) -> bool {
        &&& forall|i: int, j: int|
            0 <= i < j < self.txs@.len() ==> self.txs@[i].tx_hash@ != self.txs@[j].tx_hash@
        &&& forall|i: int|
            0 <= i < self.txs@.len() ==> self.tx_map@.contains_key(#[trigger] self.txs@[i].tx_hash@)
                && self.tx_map@[self.txs@[i].tx_hash@] == self.txs@[i]@
        &&& forall|k: Seq<char>|
            #[trigger] self.tx_map@.contains_key(k) ==> exists|i: int|
                0 <= i < self.txs@.len() && self.txs@[i].tx_hash@ == k
    }

    pub closed spec fn senders_wf(&self) -> bool {
        &&& forall|i: int, j: int|
            0 <= i < j < self.senders@.len() ==> self.senders@[i].address@
                != self.senders@[j].address@
        &&& forall|i: int|
            0 <= i < self.senders@.len() ==> self.sender_map@.contains_key(
                #[trigger] self.senders@[i].address@,
            ) && self.sender_map@[self.senders@[i].address@] == (
                self.senders@[i].tx_count,
                self.senders@[i].total_blobs,
            )
        &&& forall|k: Seq<char>|
            #[trigger] self.sender_map@.contains_key(k) ==> exists|i: int|
                0 <= i < self.senders@.len() && self.senders@[i].address@ == k


    }

    pub closed spec fn wf(&self) -> bool {
        self.blocks_wf() && self.txs_wf() && self.senders_wf()
    }

    /// An empty store.
    pub fn new() -> (r: Database)
        ensures
            r.wf(),
            r.blocks() == Map::<u64, BlockRow>::empty(),
            r.txs() == Map::<Seq<char>, TxView>::empty(),
            r.senders() == Map::<Seq<char>, (u64, u64)>::empty(),
            r.hashes() == Seq::<HashView>::empty(),
    {
        let r = Database {
            blocks: Vec::new(),
            txs: Vec::new(),
            hashes: Vec::new(),
            senders: Vec::new(),
            block_map: Ghost(Map::empty()),
            tx_map: Ghost(Map::empty()),
            sender_map: Ghost(Map::empty()),
        };
        assert(r.hashes() =~= Seq::<HashView>::empty());
        r
    }

    /// Inserts the row of block `block_number`, replacing any row it had.
    pub fn insert_block(
        &mut self,
        block_number: u64,
        block_timestamp: u64,
        tx_count: u64,
        total_blobs: u64,
        gas_used: u64,
        gas_price: u64,
        excess_blob_gas: u64,
    )
        requires
            old(self).wf(),
        ensures
            final(self).wf(),
            final(self).blocks() == old(self).blocks().insert(
                block_number,
                BlockRow {
                    block_number,
                    block_timestamp,
                    tx_count,
                    total_blobs,
                    gas_used,
                    gas_price,
                    excess_blob_gas,
                },
            ),
            final(self).txs() == old(self).txs(),
            final(self).senders() == old(self).senders(),
            final(self).hashes() == old(self).hashes(),
            final(self).tx_seq() == old(self).tx_seq(),
            final(self).sender_seq() == old(self).sender_seq(),
    {
        let row = BlockRow {
            block_number,
            block_timestamp,
            tx_count,
            total_blobs,
            gas_used,
            gas_price,
            excess_blob_gas,
        };
        let mut i: usize = 0;
        while i < self.blocks.len() && self.blocks[i].block_number < block_number
            invariant
                self.wf(),
                *self == *old(self),
                i <= self.blocks@.len(),
                forall|j: int| 0 <= j < i ==> self.blocks@[j].block_number < block_number,
            decreases self.blocks@.len() - i,
        {
            i = i + 1;
        }
        let ghost old_blocks = self.blocks@;
        let ghost new_map = self.block_map@.insert(block_number, row);
        if i < self.blocks.len() && self.blocks[i].block_number == block_number {
            self.blocks.set(i, row);
        } else {
            self.blocks.insert(i, row);
            assert forall|j: int| i <= j < old_blocks.len() implies block_number
                < #[trigger] old_blocks[j].block_number by {
                assert(old_blocks[i as int].block_number <= old_blocks[j].block_number);
            }
        }
        self.block_map = Ghost(new_map);
        assert forall|a: int, b: int| 0 <= a < b < self.blocks@.len() implies self.blocks@[a].block_number
            < self.blocks@[b].block_number by {
            if self.blocks@.len() != old_blocks.len() {
                if b < i {
                } else if a < i && b == i {
                } else if a < i {
                    assert(self.blocks@[b] == old_blocks[b - 1]);
                } else if a == i {
                    assert(self.blocks@[b] == old_blocks[b - 1]);
                } else {
                    assert(self.blocks@[a] == old_blocks[a - 1]);
                    assert(self.blocks@[b] == old_blocks[b - 1]);
                }
            }
        }
        assert forall|j: int| 0 <= j < self.blocks@.len() implies self.block_map@.contains_key(
            #[trigger] self.blocks@[j].block_number,
        ) && self.block_map@[self.blocks@[j].block_number] == self.blocks@[j] by {
            if j != i {
                if self.blocks@.len() != old_blocks.len() && j > i {
                    assert(self.blocks@[j] == old_blocks[j - 1]);
                } else {
                    assert(self.blocks@[j] == old_blocks[j]);
                }
            }
        }
        assert forall|n: u64| #[trigger] self.block_map@.contains_key(n) implies exists|j: int|
            0 <= j < self.blocks@.len() && self.blocks@[j].block_number == n by {
            if n != block_number {
                let k = choose|k: int|
                    0 <= k < old_blocks.len() && old_blocks[k].block_number == n;
                if k < i {
                    assert(self.blocks@[k].block_number == n);
                } else if self.blocks@.len() == old_blocks.len() {
                    assert(self.blocks@[k].block_number == n);
                } else {
                    assert(self.blocks@[k + 1].block_number == n);
                }
            } else {
                assert(self.blocks@[i as int].block_number == n);
            }
        }
        assert(self.txs == old(self).txs && self.tx_map == old(self).tx_map);
        assert(self.senders == old(self).senders && self.sender_map == old(self).sender_map);
    }

    /// Removes the row of block `block_number`, if there is one. Transaction,
    /// blob-hash and sender rows stay as they are.
    pub fn delete_block(&mut self, block_number: u64)
        requires
            old(self).wf(),
        ensures
            final(self).wf(),
            final(self).blocks() == old(self).blocks().remove(block_number),
            final(self).txs() == old(self).txs(),
            final(self).senders() == old(self).senders(),
            final(self).hashes() == old(self).hashes(),
            final(self).tx_seq() == old(self).tx_seq(),
            final(self).sender_seq() == old(self).sender_seq(),
    {
        let mut i: usize = 0;
        while i < self.blocks.len() && self.blocks[i].block_number != block_number
            invariant
                self.wf(),
                *self == *old(self),
                i <= self.blocks@.len(),
                forall|j: int| 0 <= j < i ==> self.blocks@[j].block_number != block_number,
            decreases self.blocks@.len() - i,
        {
            i = i + 1;
        }
        let ghost old_blocks = self.blocks@;
        let ghost new_map = self.block_map@.remove(block_number);
        if i < self.blocks.len() {
            self.blocks.remove(i);
            self.block_map = Ghost(new_map);
            assert forall|a: int, b: int| 0 <= a < b < self.blocks@.len() implies self.blocks@[a].block_number
                < self.blocks@[b].block_number by {
                if a < i && b >= i {
                    assert(self.blocks@[b] == old_blocks[b + 1]);
                } else if a >= i {
                    assert(self.blocks@[a] == old_blocks[a + 1]);
                    assert(self.blocks@[b] == old_blocks[b + 1]);
                }
            }
            assert forall|j: int| 0 <= j < self.blocks@.len() implies new_map.contains_key(
                #[trigger] self.blocks@[j].block_number,
            ) && new_map[self.blocks@[j].block_number] == self.blocks@[j] by {
                if j >= i {
                    assert(self.blocks@[j] == old_blocks[j + 1]);
                    assert(old_blocks[i as int].block_number < old_blocks[j + 1].block_number);
                } else {
                    assert(old_blocks[j].block_number < old_blocks[i as int].block_number);
                }
            }
            assert forall|n: u64| #[trigger] new_map.contains_key(n) implies exists|j: int|
                0 <= j < self.blocks@.len() && self.blocks@[j].block_number == n by {
                let k = choose|k: int|
                    0 <= k < old_blocks.len() && old_blocks[k].block_number == n;
                assert(n != block_number);
                if k < i {
                    assert(self.blocks@[k].block_number == n);
                } else {
                    assert(k != i);
                    assert(self.blocks@[k - 1] == old_blocks[k]);
                }
            }
            assert(self.blocks_wf());
        } else {
            assert(!self.block_map@.contains_key(block_number));
            assert(new_map =~= self.block_map@);
            self.block_map = Ghost(new_map);
        }
        assert(self.txs == old(self).txs && self.tx_map == old(self).tx_map);
        assert(self.senders == old(self).senders && self.sender_map == old(self).sender_map);
    }

    /// Inserts the row of transaction `tx_hash`, replacing any row it had.
    pub fn insert_blob_transaction(
        &mut self,
        tx_hash: &str,
        block_number: u64,
        sender: &str,
        blob_count: u64,
        gas_price: u64,
        created_at: u64,
    )
        requires
            old(self).wf(),
        ensures
            final(self).wf(),
            final(self).txs() == old(self).txs().insert(
                tx_hash@,
                TxView { block_number, sender: sender@, blob_count, gas_price, created_at },
            ),
            final(self).blocks() == old(self).blocks(),
            final(self).senders() == old(self).senders(),
            final(self).hashes() == old(self).hashes(),
            final(self).block_seq() == old(self).block_seq(),
            final(self).sender_seq() == old(self).sender_seq(),
            old(self).txs().contains_key(tx_hash@) ==> final(self).tx_seq().len() == old(
                self,
            ).tx_seq().len(),
            !old(self).txs().contains_key(tx_hash@) ==> final(self).tx_seq().len() == old(
                self,
            ).tx_seq().len() + 1,
            forall|j: int|
                0 <= j < old(self).tx_seq().len() && old(self).tx_seq()[j].tx_hash@ != tx_hash@
                    ==> #[trigger] final(self).tx_seq()[j] == old(self).tx_seq()[j],
            forall|j: int|
                0 <= j < final(self).tx_seq().len() && final(self).tx_seq()[j].tx_hash@
                    == tx_hash@ ==> #[trigger] final(self).tx_seq()[j].block_number == block_number
                    && final(self).tx_seq()[j].sender@ == sender@
                    && final(self).tx_seq()[j].blob_count == blob_count,
    {
        let key = String::from_str(tx_hash);
        let row = TxRow {
            tx_hash: String::from_str(tx_hash),
            block_number,
            sender: String::from_str(sender),
            blob_count,
            gas_price,
            created_at,
        };
        let mut i: usize = 0;
        while i < self.txs.len() && self.txs[i].tx_hash != key
            invariant
                self.wf(),
                *self == *old(self),
                i <= self.txs@.len(),
                key@ == tx_hash@,
                forall|j: int| 0 <= j < i ==> self.txs@[j].tx_hash@ != tx_hash@,
            decreases self.txs@.len() - i,
        {
            i = i + 1;
        }
        let ghost old_txs = self.txs@;
        let ghost new_map = self.tx_map@.insert(tx_hash@, row@);
        if i < self.txs.len() {
            self.txs.set(i, row);
        } else {
            assert(!self.tx_map@.contains_key(tx_hash@));
            self.txs.push(row);
        }
        self.tx_map = Ghost(new_map);
        assert forall|k: Seq<char>| #[trigger] self.tx_map@.contains_key(k) implies exists|j: int|
            0 <= j < self.txs@.len() && self.txs@[j].tx_hash@ == k by {
            if k != tx_hash@ {
                let m = choose|m: int| 0 <= m < old_txs.len() && old_txs[m].tx_hash@ == k;
                assert(self.txs@[m].tx_hash@ == k);
            } else {
                assert(self.txs@[i as int].tx_hash@ == k);
            }
        }
        assert(self.blocks == old(self).blocks && self.block_map == old(self).block_map);
        assert(self.senders == old(self).senders && self.sender_map == old(self).sender_map);
    }

    /// Appends the blob-hash row (`tx_hash`, `blob_hash`, `blob_index`).
    pub fn insert_blob_hash(&mut self, tx_hash: &str, blob_hash: &str, blob_index: u64)
        requires
            old(self).wf(),
        ensures
            final(self).wf(),
            final(self).hashes() == old(self).hashes().push(
                HashView { tx_hash: tx_hash@, blob_hash: blob_hash@, blob_index },
            ),
            final(self).blocks() == old(self).blocks(),
            final(self).txs() == old(self).txs(),
            final(self).senders() == old(self).senders(),
            final(self).block_seq() == old(self).block_seq(),
            final(self).tx_seq() == old(self).tx_seq(),
            final(self).sender_seq() == old(self).sender_seq(),
    {
        let row = HashRow {
            tx_hash: String::from_str(tx_hash),
            blob_hash: String::from_str(blob_hash),
            blob_index,
        };
        self.hashes.push(row);
        assert(self.hashes() =~= old(self).hashes().push(
            HashView { tx_hash: tx_hash@, blob_hash: blob_hash@, blob_index },
        ));
        assert(self.blocks == old(self).blocks && self.block_map == old(self).block_map);
        assert(self.txs == old(self).txs && self.tx_map == old(self).tx_map);
        assert(self.senders == old(self).senders && self.sender_map == old(self).sender_map);
    }

    /// Counts one more transaction of `sender` carrying `num_blobs` blobs.
    pub fn update_sender(&mut self, sender: &str, num_blobs: u64)
        requires
            old(self).wf(),
        ensures
            final(self).wf(),
            final(self).senders() == bump_sender(old(self).senders(), sender@, num_blobs),
            final(self).blocks() == old(self).blocks(),
            final(self).txs() == old(self).txs(),
            final(self).hashes() == old(self).hashes(),
            final(self).block_seq() == old(self).block_seq(),
            final(self).tx_seq() == old(self).tx_seq(),
    {
        let key = String::from_str(sender);
        let mut i: usize = 0;
        while i < self.senders.len() && self.senders[i].address != key
            invariant
                self.wf(),
                *self == *old(self),
                i <= self.senders@.len(),
                key@ == sender@,
                forall|j: int| 0 <= j < i ==> self.senders@[j].address@ != sender@,
            decreases self.senders@.len() - i,
        {
            i = i + 1;
        }
        let ghost old_senders = self.senders@;
        let ghost new_map = bump_sender(self.sender_map@, sender@, num_blobs);
        if i < self.senders.len() {
            let tx_count = self.senders[i].tx_count.saturating_add(1);
            let total_blobs = self.senders[i].total_blobs.saturating_add(num_blobs);
            let row = SenderRow { address: key, tx_count, total_blobs };
            self.senders.set(i, row);
        } else {
            assert(!self.sender_map@.contains_key(sender@));
            let row = SenderRow { address: key, tx_count: 1, total_blobs: num_blobs };
            self.senders.push(row);
        }
        self.sender_map = Ghost(new_map);
        assert forall|k: Seq<char>| #[trigger] self.sender_map@.contains_key(k) implies exists|j: int|
            0 <= j < self.senders@.len() && self.senders@[j].address@ == k by {
            if k != sender@ {
                let m = choose|m: int| 0 <= m < old_senders.len() && old_senders[m].address@ == k;
                assert(self.senders@[m].address@ == k);
            } else {
                assert(self.senders@[i as int].address@ == k);
            }
        }
        assert(self.blocks == old(self).blocks && self.block_map == old(self).block_map);
        assert(self.txs == old(self).txs && self.tx_map == old(self).tx_map);
    }

    /// The transactions of block `block_number`, in table order.
    fn block_transactions(&self, block_number: u64) -> (r: Vec<TransactionData>)
        requires
            self.wf(),
        ensures
            r@.map_values(|t: TransactionData| t@) == block_txs(self.tx_seq(), block_number),
    {
        let mut out: Vec<TransactionData> = Vec::new();
        let mut i: usize = 0;
        while i < self.txs.len()
            invariant
                i <= self.txs@.len(),
                out@.map_values(|t: TransactionData| t@) == block_txs(
                    self.txs@.take(i as int),
                    block_number,
                ),
            decreases self.txs@.len() - i,
        {
            assert(self.txs@.take(i + 1).drop_last() =~= self.txs@.take(i as int));
            if self.txs[i].block_number == block_number {
                let t = TransactionData {
                    tx_hash: self.txs[i].tx_hash.clone(),
                    sender: self.txs[i].sender.clone(),
                    blob_count: self.txs[i].blob_count,
                };
                let ghost before = out@;
                out.push(t);
                assert(out@.map_values(|t: TransactionData| t@) =~= before.map_values(
                    |t: TransactionData| t@,
                ).push(t@));
            }
            i = i + 1;
        }
        assert(self.txs@.take(self.txs@.len() as int) =~= self.txs@);
        out
    }

    /// Index of the row of block `block_number`, if there is one.
    fn find_block(&self, block_number: u64) -> (r: Option<usize>)
        requires
            self.wf(),
        ensures
            r.is_some() <==> self.blocks().contains_key(block_number),
            r.is_some() ==> r.unwrap() < self.block_seq().len() && self.block_seq()[r.unwrap() as int]
                == self.blocks()[block_number],
    {
        let mut i: usize = 0;
        while i < self.blocks.len()
            invariant
                self.wf(),
                i <= self.blocks@.len(),
                forall|j: int| 0 <= j < i ==> self.blocks@[j].block_number != block_number,
            decreases self.blocks@.len() - i,
        {
            if self.blocks[i].block_number == block_number {
                return Some(i);
            }
            i = i + 1;
        }
        None
    }

    /// The block `block_number` with its transactions, or `None` where the store
    /// holds no row for it.
    pub fn get_block(&self, block_number: u64) -> (r: Option<BlockData>)
        requires
            self.wf(),
        ensures
            r.is_some() <==> self.blocks().contains_key(block_number),
            r.is_some() ==> r.unwrap().row() == self.blocks()[block_number] && r.unwrap().tx_list()
                == block_txs(self.tx_seq(), block_number),
    {
        match self.find_block(block_number) {
            None => None,
            Some(i) => {
                let b = self.blocks[i];
                Some(
                    BlockData {
                        block_number: b.block_number,
                        block_timestamp: b.block_timestamp,
                        tx_count: b.tx_count,
                        total_blobs: b.total_blobs,
                        gas_used: b.gas_used,
                        gas_price: b.gas_price,
                        excess_blob_gas: b.excess_blob_gas,
                        transactions: self.block_transactions(block_number),
                    },
                )
            },
        }
    }

    /// Block rows come in ascending order of block number, and are those of
    /// the block table.
    pub proof fn lemma_block_seq(&self)
        requires
            self.wf(),
        ensures
            sorted_blocks(self.block_seq()),
            forall|i: int|
                0 <= i < self.block_seq().len() ==> self.blocks().contains_key(
                    #[trigger] self.block_seq()[i].block_number,
                ) && self.blocks()[self.block_seq()[i].block_number] == self.block_seq()[i],
            forall|n: u64|
                #[trigger] self.blocks().contains_key(n) ==> exists|i: int|
                    0 <= i < self.block_seq().len() && self.block_seq()[i].block_number == n,
    {
    }

    /// The block rows, in ascending order of block number.
    pub fn block_rows(&self) -> (r: &Vec<BlockRow>)
        requires
            self.wf(),
        ensures
            r@ == self.block_seq(),
            sorted_blocks(r@),
    {
        &self.blocks
    }

    /// The transaction rows, in table order.
    pub fn tx_rows(&self) -> (r: &Vec<TxRow>)
        ensures
            r@ == self.tx_seq(),
    {
        &self.txs
    }

    /// Summary statistics: block count, blobs over all transaction rows,
    /// transactions over all block rows (sums capped at `u64::MAX`), lowest and
    /// highest block number, and the gas price of the highest block (0 where
    /// there is none).
    pub fn get_stats(&self) -> (r: Stats)
        requires
            self.wf(),
        ensures
            r.total_blocks == self.block_seq().len(),
            r.total_blobs == sat(sum_u64(self.tx_seq().map_values(|t: TxRow| t.blob_count))),
            r.total_transactions == sat(
                sum_u64(self.block_seq().map_values(|b: BlockRow| b.tx_count)),
            ),
            self.block_seq().len() == 0 ==> r.latest_block.is_none() && r.earliest_block.is_none()
                && r.latest_gas_price == 0,
            self.block_seq().len() > 0 ==> r.latest_block == Some(
                self.block_seq().last().block_number,
            ) && r.earliest_block == Some(self.block_seq()[0].block_number) && r.latest_gas_price
                == self.block_seq().last().gas_price,
    {
        let mut total_blobs: u64 = 0;
        let mut i: usize = 0;
        while i < self.txs.len()
            invariant
                i <= self.txs@.len(),
                total_blobs == sat(sum_u64(self.txs@.take(i as int).map_values(|t: TxRow| t.blob_count))),
            decreases self.txs@.len() - i,
        {
            let ghost pre = self.txs@.take(i as int).map_values(|t: TxRow| t.blob_count);
            assert(self.txs@.take(i + 1).map_values(|t: TxRow| t.blob_count) =~= pre.push(
                self.txs@[i as int].blob_count,
            ));
            assert(pre.push(self.txs@[i as int].blob_count).drop_last() =~= pre);
            total_blobs = sat_step(total_blobs, self.txs[i].blob_count, Ghost(sum_u64(pre)));
            i = i + 1;
        }
        assert(self.txs@.take(self.txs@.len() as int) =~= self.txs@);
        let mut total_transactions: u64 = 0;
        let mut i: usize = 0;
        while i < self.blocks.len()
            invariant
                i <= self.blocks@.len(),
                total_transactions == sat(
                    sum_u64(self.blocks@.take(i as int).map_values(|b: BlockRow| b.tx_count)),
                ),
            decreases self.blocks@.len() - i,
        {
            let ghost pre = self.blocks@.take(i as int).map_values(|b: BlockRow| b.tx_count);
            assert(self.blocks@.take(i + 1).map_values(|b: BlockRow| b.tx_count) =~= pre.push(
                self.blocks@[i as int].tx_count,
            ));
            assert(pre.push(self.blocks@[i as int].tx_count).drop_last() =~= pre);
            total_transactions = sat_step(total_transactions, self.blocks[i].tx_count, Ghost(sum_u64(pre)));
            i = i + 1;
        }
        assert(self.blocks@.take(self.blocks@.len() as int) =~= self.blocks@);
        let n = self.blocks.len();
        if n == 0 {
            Stats {
                total_blocks: 0,
                total_blobs,
                total_transactions,
                latest_block: None,
                earliest_block: None,
                latest_gas_price: 0,
            }
        } else {
            Stats {
                total_blocks: n as u64,
                total_blobs,
                total_transactions,
                latest_block: Some(self.blocks[n - 1].block_number),
                earliest_block: Some(self.blocks[0].block_number),
                latest_gas_price: self.blocks[n - 1].gas_price,
            }
        }
    }

    /// The `limit` highest blocks, highest first, each with its transactions.
    pub fn get_recent_blocks(&self, limit: u64) -> (r: Vec<BlockData>)
        requires
            self.wf(),
        ensures
            r@.len() == if (limit as int) < self.block_seq().len() {
                limit as int
            } else {
                self.block_seq().len() as int
            },
            forall|i: int|
                0 <= i < r@.len() ==> (#[trigger] r@[i]).row() == self.block_seq()[self.block_seq().len()
                    - 1 - i] && r@[i].tx_list() == block_txs(
                    self.tx_seq(),
                    self.block_seq()[self.block_seq().len() - 1 - i].block_number,
                ),
    {
        let n = self.blocks.len();
        let mut out: Vec<BlockData> = Vec::new();
        let mut i: usize = 0;
        while i < n && (i as u64) < limit
            invariant
                n == self.blocks@.len(),
                self.wf(),
                i <= n,
                i <= limit,
                out@.len() == i,
                forall|k: int|
                    0 <= k < i ==> (#[trigger] out@[k]).row() == self.blocks@[n - 1 - k]
                        && out@[k].tx_list() == block_txs(self.txs@, self.blocks@[n - 1 - k].block_number),
            decreases n - i,
        {
            let b = self.blocks[n - 1 - i];
            let d = BlockData {
                block_number: b.block_number,
                block_timestamp: b.block_timestamp,
                tx_count: b.tx_count,
                total_blobs: b.total_blobs,
                gas_used: b.gas_used,
                gas_price: b.gas_price,
                excess_blob_gas: b.excess_blob_gas,
                transactions: self.block_transactions(b.block_number),
            };
            out.push(d);
            i = i + 1;
        }
        out
    }

    /// One point per block number over the `num_blocks` numbers that end at the
    /// highest block (fewer where the numbers start at 0). A number without a
    /// row shows 0 blobs and the gas price carried from the point before it (0
    /// for the first). Empty where the store holds no block, where the highest
    /// is block 0, or where `num_blocks` is 0.
    pub fn get_chart_data(&self, num_blocks: u64) -> (r: ChartData)
        requires
            self.wf(),
        ensures
            ({
                let s = self.block_seq();
                if s.len() == 0 || s.last().block_number == 0 || num_blocks == 0 {
                    r.labels@.len() == 0 && r.blobs@.len() == 0 && r.gas_prices@.len() == 0
                } else {
                    let latest = s.last().block_number;
                    let start = if num_blocks - 1 > latest {
                        0
                    } else {
                        latest - (num_blocks - 1)
                    };
                    &&& r.labels@.len() == latest - start + 1
                    &&& r.blobs@.len() == r.labels@.len()
                    &&& r.gas_prices@.len() == r.labels@.len()
                    &&& forall|i: int|
                        0 <= i < r.labels@.len() ==> #[trigger] r.labels@[i] == start + i
                            && r.blobs@[i] == shown_blobs(self.blocks(), (start + i) as u64)
                            && r.gas_prices@[i] == carried_price(self.blocks(), start as u64, i as nat)
                }
            }),
    {
        let n = self.blocks.len();
        let mut labels: Vec<u64> = Vec::new();
        let mut blobs: Vec<u64> = Vec::new();
        let mut gas_prices: Vec<u64> = Vec::new();
        if n == 0 || num_blocks == 0 {
            return ChartData { labels, blobs, gas_prices };
        }
        let latest = self.blocks[n - 1].block_number;
        if latest == 0 {
            return ChartData { labels, blobs, gas_prices };
        }
        let start = latest.saturating_sub(num_blocks - 1);
        assert(start == (if num_blocks - 1 > latest { 0 } else { latest - (num_blocks - 1) }));
        let mut last_price: u64 = 0;
        let mut j: usize = 0;
        let mut cur: u64 = start;
        loop
            invariant_except_break
                labels@.len() == cur - start,
            invariant
                n == self.blocks@.len(),
                n > 0,
                self.wf(),
                latest == self.blocks@[n - 1].block_number,
                start <= cur <= latest,
                j <= n,
                forall|k: int| 0 <= k < j ==> self.blocks@[k].block_number < cur,
                blobs@.len() == labels@.len(),
                gas_prices@.len() == labels@.len(),
                last_price == if labels@.len() == 0 {
                    0
                } else {
                    carried_price(self.block_map@, start, (labels@.len() - 1) as nat)
                },
                forall|i: int|
                    0 <= i < labels@.len() ==> #[trigger] labels@[i] == start + i && blobs@[i]
                        == shown_blobs(self.block_map@, (start + i) as u64) && gas_prices@[i]
                        == carried_price(self.block_map@, start, i as nat),
            ensures
                labels@.len() == latest - start + 1,
                blobs@.len() == labels@.len(),
                gas_prices@.len() == labels@.len(),
                forall|i: int|
                    0 <= i < labels@.len() ==> #[trigger] labels@[i] == start + i && blobs@[i]
                        == shown_blobs(self.block_map@, (start + i) as u64) && gas_prices@[i]
                        == carried_price(self.block_map@, start, i as nat),
            decreases latest - cur,
        {
            while j < n && self.blocks[j].block_number < cur
                invariant
                    n == self.blocks@.len(),
                    j <= n,
                    forall|k: int| 0 <= k < j ==> self.blocks@[k].block_number < cur,
                decreases n - j,
            {
                j = j + 1;
            }
            let ghost len = labels@.len();
            let found = j < n && self.blocks[j].block_number == cur;
            proof {
                if self.block_map@.contains_key(cur) {
                    let k = choose|k: int| 0 <= k < n && self.blocks@[k].block_number == cur;
                    if k > j {
                        assert(self.blocks@[j as int].block_number < self.blocks@[k].block_number);
                    }
                }
                if found {
                    assert(self.block_map@[self.blocks@[j as int].block_number] == self.blocks@[j as int]);
                }
                assert(found == self.block_map@.contains_key(cur));
                assert(start + len == cur);
            }
            labels.push(cur);
            if found {
                blobs.push(self.blocks[j].total_blobs);
                last_price = self.blocks[j].gas_price;
            } else {
                blobs.push(0);
            }
            gas_prices.push(last_price);
            assert(carried_price(self.block_map@, start, len as nat) == last_price);
            assert(blobs@[len as int] == shown_blobs(self.block_map@, (start + len) as u64));
            if cur == latest {
                break;
            }
            cur = cur + 1;
        }
        assert(self.block_seq().last().block_number == latest);
        ChartData { labels, blobs, gas_prices }
    }


    /// The `limit` senders with the most blobs, most first; senders with equal
    /// counts in table order.
    pub fn get_top_senders(&self, limit: u64) -> (r: Vec<SenderData>)
        requires
            self.wf(),
        ensures
            exists|idx: Seq<usize>|
                #![trigger is_ranking(sender_blob_keys(self.sender_seq()), true, limit as nat, idx)]
                is_ranking(sender_blob_keys(self.sender_seq()), true, limit as nat, idx)
                    && r@.len() == idx.len() && forall|i: int|
                    0 <= i < r@.len() ==> (#[trigger] r@[i])@ == self.sender_seq()[idx[i] as int]@,
    {
        let mut keys: Vec<u64> = Vec::new();
        let mut i: usize = 0;
        while i < self.senders.len()
            invariant
                i <= self.senders@.len(),
                keys@ == self.senders@.take(i as int).map_values(|x: SenderRow| x.total_blobs),
            decreases self.senders@.len() - i,
        {
            keys.push(self.senders[i].total_blobs);
            assert(keys@ =~= self.senders@.take(i + 1).map_values(|x: SenderRow| x.total_blobs));
            i = i + 1;
        }
        assert(self.senders@.take(self.senders@.len() as int) =~= self.senders@);
        assert(keys@ == sender_blob_keys(self.senders@));
        let idx = rank_indices(&keys, limit, true);
        let mut out: Vec<SenderData> = Vec::new();
        let mut j: usize = 0;
        while j < idx.len()
            invariant
                j <= idx@.len(),
                is_ranking(keys@, true, limit as nat, idx@),
                keys@.len() == self.senders@.len(),
                out@.len() == j,
                forall|a: int| 0 <= a < j ==> (#[trigger] out@[a])@ == self.senders@[idx@[a] as int]@,
            decreases idx@.len() - j,
        {
            let x = &self.senders[idx[j]];
            out.push(SenderData { address: x.address.clone(), tx_count: x.tx_count, total_blobs: x.total_blobs });
            j = j + 1;
        }
        assert(is_ranking(sender_blob_keys(self.sender_seq()), true, limit as nat, idx@));
        out
    }

    /// The blob hashes of transaction `tx_hash`, by ascending index.
    fn blob_hashes_of(&self, tx_hash: &String) -> (r: Vec<String>)
        ensures
            hashes_in_index_order(hash_rows_of(self.hashes(), tx_hash@), r@.map_values(|x: String| x@)),
    {
        let ghost all = self.hashes();
        let mut rows: Vec<usize> = Vec::new();
        let mut keys: Vec<u64> = Vec::new();
        let mut i: usize = 0;
        while i < self.hashes.len()
            invariant
                i <= self.hashes@.len(),
                all == self.hashes(),
                rows@.len() == hash_rows_of(all.take(i as int), tx_hash@).len(),
                keys@ == index_keys(hash_rows_of(all.take(i as int), tx_hash@)),
                forall|a: int| 0 <= a < rows@.len() ==> #[trigger] rows@[a] < i && all[rows@[a] as int]
                    == hash_rows_of(all.take(i as int), tx_hash@)[a],
            decreases self.hashes@.len() - i,
        {
            let ghost pre = all.take(i as int);
            assert(all.take(i + 1).drop_last() =~= pre);
            assert(all.take(i + 1).last() == all[i as int]);
            assert(all[i as int] == self.hashes@[i as int]@);
            if self.hashes[i].tx_hash == *tx_hash {
                rows.push(i);
                keys.push(self.hashes[i].blob_index);
                assert(keys@ =~= index_keys(hash_rows_of(all.take(i + 1), tx_hash@)));
            }
            i = i + 1;
        }
        assert(all.take(all.len() as int) =~= all);
        let ghost mine = hash_rows_of(all, tx_hash@);
        let order = rank_indices(&keys, keys.len() as u64, false);
        let mut out: Vec<String> = Vec::new();
        let mut j: usize = 0;
        while j < order.len()
            invariant
                j <= order@.len(),
                is_ranking(keys@, false, keys@.len(), order@),
                keys@ == index_keys(mine),
                rows@.len() == mine.len(),
                forall|a: int| 0 <= a < rows@.len() ==> #[trigger] rows@[a] < self.hashes@.len() && all[rows@[a] as int] == mine[a],
                all == self.hashes(),
                out@.len() == j,
                forall|a: int| 0 <= a < j ==> (#[trigger] out@[a])@ == mine[order@[a] as int].blob_hash,
            decreases order@.len() - j,
        {
            let p = rows[order[j]];
            assert(all[p as int] == self.hashes@[p as int]@);
            out.push(self.hashes[p].blob_hash.clone());
            j = j + 1;
        }
        let ghost view = out@.map_values(|x: String| x@);
        assert(is_ranking(index_keys(mine), false, mine.len(), order@));
        assert(forall|i: int| 0 <= i < view.len() ==> #[trigger] view[i] == mine[order@[i] as int].blob_hash);
        out
    }

    /// The `limit` most recently created transactions, newest first (equal
    /// times in table order), each with its blob hashes by index.
    pub fn get_blob_transactions(&self, limit: u64) -> (r: Vec<BlobTransactionData>)
        requires
            self.wf(),
        ensures
            exists|idx: Seq<usize>|
                #![trigger is_ranking(tx_time_keys(self.tx_seq()), true, limit as nat, idx)]
                is_ranking(tx_time_keys(self.tx_seq()), true, limit as nat, idx)
                    && r@.len() == idx.len() && forall|i: int|
                    0 <= i < r@.len() ==> {
                        let t = #[trigger] self.tx_seq()[idx[i] as int];
                        &&& r@[i].tx_hash@ == t.tx_hash@
                        &&& r@[i].block_number == t.block_number
                        &&& r@[i].sender@ == t.sender@
                        &&& r@[i].blob_count == t.blob_count
                        &&& r@[i].gas_price == t.gas_price
                        &&& hashes_in_index_order(
                            hash_rows_of(self.hashes(), t.tx_hash@),
                            r@[i].blob_hashes@.map_values(|x: String| x@),
                        )
                    },
    {
        let mut keys: Vec<u64> = Vec::new();
        let mut i: usize = 0;
        while i < self.txs.len()
            invariant
                i <= self.txs@.len(),
                keys@ == self.txs@.take(i as int).map_values(|t: TxRow| t.created_at),
            decreases self.txs@.len() - i,
        {
            keys.push(self.txs[i].created_at);
            assert(keys@ =~= self.txs@.take(i + 1).map_values(|t: TxRow| t.created_at));
            i = i + 1;
        }
        assert(self.txs@.take(self.txs@.len() as int) =~= self.txs@);
        assert(keys@ == tx_time_keys(self.txs@));
        let idx = rank_indices(&keys, limit, true);
        let mut out: Vec<BlobTransactionData> = Vec::new();
        let mut j: usize = 0;
        while j < idx.len()
            invariant
                j <= idx@.len(),
                is_ranking(keys@, true, limit as nat, idx@),
                keys@.len() == self.txs@.len(),
                out@.len() == j,
                forall|a: int|
                    0 <= a < j ==> {
                        let t = #[trigger] self.txs@[idx@[a] as int];
                        &&& out@[a].tx_hash@ == t.tx_hash@
                        &&& out@[a].block_number == t.block_number
                        &&& out@[a].sender@ == t.sender@
                        &&& out@[a].blob_count == t.blob_count
                        &&& out@[a].gas_price == t.gas_price
                        &&& hashes_in_index_order(
                            hash_rows_of(self.hashes(), t.tx_hash@),
                            out@[a].blob_hashes@.map_values(|x: String| x@),
                        )
                    },
            decreases idx@.len() - j,
        {
            let t = &self.txs[idx[j]];
            let blob_hashes = self.blob_hashes_of(&t.tx_hash);
            out.push(
                BlobTransactionData {
                    tx_hash: t.tx_hash.clone(),
                    block_number: t.block_number,
                    sender: t.sender.clone(),
                    blob_count: t.blob_count,
                    gas_price: t.gas_price,
                    blob_hashes,
                },
            );
            j = j + 1;
        }
        assert(is_ranking(tx_time_keys(self.tx_seq()), true, limit as nat, idx@));
        out
    }

    /// (sender, blob count, time, gas price) of each transaction created at or
    /// after `time_limit`, in table order.
    pub fn get_transactions_in_time_range(&self, time_limit: u64) -> (r: Vec<(String, u64, u64, u64)>)
        ensures
            r@.map_values(|x: (String, u64, u64, u64)| (x.0@, x.1, x.2, x.3)) == rows_since(
                self.tx_seq(),
                time_limit,
            ),
    {
        let mut out: Vec<(String, u64, u64, u64)> = Vec::new();
        let mut i: usize = 0;
        while i < self.txs.len()
            invariant
                i <= self.txs@.len(),
                out@.map_values(|x: (String, u64, u64, u64)| (x.0@, x.1, x.2, x.3)) == rows_since(
                    self.txs@.take(i as int),
                    time_limit,
                ),
            decreases self.txs@.len() - i,
        {
            assert(self.txs@.take(i + 1).drop_last() =~= self.txs@.take(i as int));
            assert(self.txs@.take(i + 1).last() == self.txs@[i as int]);
            let t = &self.txs[i];
            if t.created_at >= time_limit {
                let ghost before = out@;
                out.push((t.sender.clone(), t.blob_count, t.created_at, t.gas_price));
                assert(out@.map_values(|x: (String, u64, u64, u64)| (x.0@, x.1, x.2, x.3)) =~= before.map_values(
                    |x: (String, u64, u64, u64)| (x.0@, x.1, x.2, x.3),
                ).push((t.sender@, t.blob_count, t.created_at, t.gas_price)));
            }
            i = i + 1;
        }
        assert(self.txs@.take(self.txs@.len() as int) =~= self.txs@);
        out
    }

    /// The all-time series of the block table with about `target_points`
    /// points, and the first block at or after `bpo2_timestamp`.
    pub fn get_all_time_chart_data(&self, target_points: u64, bpo2_timestamp: u64) -> (r: AllTimeChartData)
        requires
            self.wf(),
            target_points > 0,
        ensures
            r.aligned(),
            self.block_seq().len() == 0 || self.block_seq().last().block_number == 0 ==> r.len() == 0
                && r.bpo2_block.is_none(),
            self.block_seq().len() > 0 && self.block_seq().last().block_number != 0 ==> {
                let s = self.block_seq();
                let k = sample_interval(s, target_points);
                &&& r.bpo2_block == first_at_or_after(s, bpo2_timestamp)
                &&& r.len() * k >= s.len()
                &&& r.len() > 0
                &&& (r.len() - 1) * k < s.len()
                &&& forall|c: int|
                    0 <= c < r.len() ==> #[trigger] r.chunk_point(c, s, k, bpo2_timestamp)
            },
    {
        sample_all_time(&self.blocks, target_points, bpo2_timestamp)
    }


    /// The sender rows, in table order.
    pub fn sender_rows(&self) -> (r: &Vec<SenderRow>)
        ensures
            r@ == self.sender_seq(),
    {
        &self.senders
    }

    /// The blob-hash rows, in the order they were added.
    pub fn hash_rows(&self) -> (r: &Vec<HashRow>)
        ensures
            r@.map_values(|h: HashRow| h@) == self.hashes(),
    {
        &self.hashes
    }

    /// Sets the counts of `address`, replacing any row it had.
    pub fn insert_sender(&mut self, address: &str, tx_count: u64, total_blobs: u64)
        requires
            old(self).wf(),
        ensures
            final(self).wf(),
            final(self).senders() == old(self).senders().insert(address@, (tx_count, total_blobs)),
            final(self).blocks() == old(self).blocks(),
            final(self).txs() == old(self).txs(),
            final(self).hashes() == old(self).hashes(),
    {
        let key = String::from_str(address);
        let mut i: usize = 0;
        while i < self.senders.len() && self.senders[i].address != key
            invariant
                self.wf(),
                *self == *old(self),
                i <= self.senders@.len(),
                key@ == address@,
                forall|j: int| 0 <= j < i ==> self.senders@[j].address@ != address@,
            decreases self.senders@.len() - i,
        {
            i = i + 1;
        }
        let ghost old_senders = self.senders@;
        let ghost new_map = self.sender_map@.insert(address@, (tx_count, total_blobs));
        let row = SenderRow { address: key, tx_count, total_blobs };
        if i < self.senders.len() {
            self.senders.set(i, row);
        } else {
            self.senders.push(row);
        }
        self.sender_map = Ghost(new_map);
        assert forall|k: Seq<char>| #[trigger] self.sender_map@.contains_key(k) implies exists|j: int|
            0 <= j < self.senders@.len() && self.senders@[j].address@ == k by {
            if k != address@ {
                let m = choose|m: int| 0 <= m < old_senders.len() && old_senders[m].address@ == k;
                assert(self.senders@[m].address@ == k);
            } else {
                assert(self.senders@[i as int].address@ == k);
            }
        }
        assert(self.blocks == old(self).blocks && self.block_map == old(self).block_map);
        assert(self.txs == old(self).txs && self.tx_map == old(self).tx_map);
    }

}

} // verus!
