//! Blocks of the block-and-hash chain: a header that commits to the parent
//! and to the transactions, and the rules for joining the chain.

use vstd::prelude::*;
use crate::connect::copy_bytes;
use crate::database::{
    BlockRecord, BlockRecordView, Database, DatabaseView, block_records, same_bytes,
};
use crate::error::{Error, ErrorKind};
use crate::tx_rows::tx_hash;
use crate::primitives::{DIGEST_LEN, blake2b, blake2b_512};
use crate::transaction::{Transaction, TransactionView, byte_string_views};
use crate::wire::{enc_i64, put_i64, put_raw};

verus! {

/// Length in bytes of the root of a block without transactions.
pub const EMPTY_ROOT_LEN: usize = 32;

/// A block.
#[derive(Debug, Clone)]
pub struct Block {
    pub height: i64,
    pub hash: Vec<u8>,
    pub parent_hash: Vec<u8>,
    pub timestamp: i64,
    /// The root of the tree over the hashes of the transactions.
    pub merkle_root: Vec<u8>,
    pub transactions: Vec<Transaction>,
}

/// A block as a mathematical value.
pub struct BlockView {
    pub height: i64,
    pub hash: Seq<u8>,
    pub parent_hash: Seq<u8>,
    pub timestamp: i64,
    pub merkle_root: Seq<u8>,
    pub transactions: Seq<TransactionView>,
}

pub open spec fn transaction_views(txs: Seq<Transaction>) -> Seq<TransactionView> {
    txs.map_values(|t: Transaction| t@)
}

impl View for Block {
    type V = BlockView;

    open spec fn view(&self) -> BlockView {
        BlockView {
            height: self.height,
            hash: self.hash@,
            parent_hash: self.parent_hash@,
            timestamp: self.timestamp,
            merkle_root: self.merkle_root@,
            transactions: transaction_views(self.transactions@),
        }
    }
}

/// The digest of the pair at place `i` of a layer; a hash without a partner
/// is paired with itself.
pub open spec fn pair_hash(hashes: Seq<Seq<u8>>, i: int) -> Seq<u8> {
    blake2b_512(
        hashes[2 * i] + if 2 * i + 1 < hashes.len() {
            hashes[2 * i + 1]
        } else {
            hashes[2 * i]
        },
    )
}

/// The layer above a layer of hashes: the digests of its pairs.
pub open spec fn merkle_layer(hashes: Seq<Seq<u8>>) -> Seq<Seq<u8>> {
    Seq::new(((hashes.len() + 1) / 2) as nat, |i: int| pair_hash(hashes, i))
}

/// The root over a layer of hashes: layers are built until one hash is
/// left.
pub open spec fn merkle_fold(hashes: Seq<Seq<u8>>) -> Seq<u8>
    decreases hashes.len(),
{
    if hashes.len() == 0 {
        Seq::empty()
    } else if hashes.len() == 1 {
        hashes[0]
    } else {
        merkle_fold(merkle_layer(hashes))
    }
}

/// The hashes of a list of transactions.
pub open spec fn tx_hashes(txs: Seq<TransactionView>) -> Seq<Seq<u8>> {
    txs.map_values(|t: TransactionView| tx_hash(t))
}

/// The root over the transactions of a block: 32 zero bytes for none.
pub open spec fn merkle_root_of(txs: Seq<TransactionView>) -> Seq<u8> {
    if txs.len() == 0 {
        Seq::new(EMPTY_ROOT_LEN as nat, |i: int| 0u8)
    } else {
        merkle_fold(tx_hashes(txs))
    }
}

/// The hash of a header: the digest of the height, the parent's hash, the
/// timestamp and the root.
pub open spec fn header_hash(
    height: i64,
    parent_hash: Seq<u8>,
    timestamp: i64,
    merkle_root: Seq<u8>,
) -> Seq<u8> {
    blake2b_512(enc_i64(height) + parent_hash + enc_i64(timestamp) + merkle_root)
}

/// The nullifiers of a list of transactions, in order.
pub open spec fn all_nullifiers(txs: Seq<TransactionView>) -> Seq<Seq<u8>>
    decreases txs.len(),
{
    if txs.len() == 0 {
        Seq::empty()
    } else {
        all_nullifiers(txs.drop_last()) + txs.last().nullifiers
    }
}

impl BlockView {
    /// The rules for a block against the store: its hash and its root are
    /// what its header and its transactions give, its parent stands one
    /// below it unless it is the first block, every transaction meets the
    /// rules of its kind, and no nullifier occurs twice in the block or is
    /// in the store already.
    pub open spec fn valid(self, db: DatabaseView) -> bool {
        &&& self.hash == header_hash(
            self.height,
            self.parent_hash,
            self.timestamp,
            self.merkle_root,
        )
        &&& self.merkle_root == merkle_root_of(self.transactions)
        &&& (self.height > 0 ==> db.has_block(self.parent_hash, self.height - 1))
        &&& forall|i: int|
            0 <= i < self.transactions.len() ==> (#[trigger] self.transactions[i]).valid(db)
        &&& all_nullifiers(self.transactions).no_duplicates()
        &&& forall|i: int|
            0 <= i < all_nullifiers(self.transactions).len() ==> !db.has_nullifier(
                #[trigger] all_nullifiers(self.transactions)[i],
            )
    }
}

/// The store with the transactions connected at a height, in order.
pub open spec fn with_transactions(db: DatabaseView, txs: Seq<TransactionView>, height: i64) -> DatabaseView
    decreases txs.len(),
{
    if txs.len() == 0 {
        db
    } else {
        with_transactions(db, txs.drop_last(), height).with_transaction(txs.last(), height)
    }
}

/// The store with the transactions taken out, the last one first.
pub open spec fn without_transactions(db: DatabaseView, txs: Seq<TransactionView>) -> DatabaseView
    decreases txs.len(),
{
    if txs.len() == 0 {
        db
    } else {
        without_transactions(db.without_transaction(tx_hash(txs.last())), txs.drop_last())
    }
}

/// The blocks with those at a height marked as orphaned.
pub open spec fn orphaned(blocks: Seq<BlockRecordView>, height: i64) -> Seq<BlockRecordView> {
    blocks.map_values(
        |r: BlockRecordView|
            if r.height == height {
                BlockRecordView { active: false, ..r }
            } else {
                r
            },
    )
}

/// Whether every transaction has few enough shielded outputs for each to
/// get a position.
pub open spec fn connectable(txs: Seq<TransactionView>) -> bool {
    forall|i: int| 0 <= i < txs.len() ==> (#[trigger] txs[i]).shielded_outputs.len() <= i64::MAX
}

/// The nullifiers of the first transactions of a block open the nullifiers
/// of the block.
pub proof fn lemma_all_nullifiers_prefix(txs: Seq<TransactionView>, n: int)
    requires
        0 <= n <= txs.len(),
    ensures
        all_nullifiers(txs.take(n)).len() <= all_nullifiers(txs).len(),
        forall|i: int|
            0 <= i < all_nullifiers(txs.take(n)).len() ==> all_nullifiers(txs)[i]
                == #[trigger] all_nullifiers(txs.take(n))[i],
    decreases txs.len() - n,
{
    if n == txs.len() {
        assert(txs.take(n) =~= txs);
    } else {
        lemma_all_nullifiers_prefix(txs, n + 1);
        assert(txs.take(n + 1).drop_last() =~= txs.take(n));
        assert forall|i: int| 0 <= i < all_nullifiers(txs.take(n)).len() implies all_nullifiers(
            txs,
        )[i] == #[trigger] all_nullifiers(txs.take(n))[i] by {
            assert(all_nullifiers(txs.take(n + 1))[i] == all_nullifiers(txs.take(n))[i]);
        }
    }
}

/// Whether a list of byte strings holds an item.
pub fn contains_bytes(list: &Vec<Vec<u8>>, item: &[u8]) -> (found: bool)
    ensures
        found == (exists|k: int|
            0 <= k < list@.len() && #[trigger] byte_string_views(list@)[k] == item@),
{
    let mut k: usize = 0;
    while k < list.len()
        invariant
            0 <= k <= list@.len(),
            forall|m: int| 0 <= m < k ==> #[trigger] byte_string_views(list@)[m] != item@,
        decreases list@.len() - k,
    {
        assert(byte_string_views(list@)[k as int] == list@[k as int]@);
        if same_bytes(list[k].as_slice(), item) {
            return true;
        }
        k += 1;
    }
    false
}

impl Block {
    /// A block over transactions: its root is computed from them, and its
    /// hash from its header.
    pub fn new(height: i64, parent_hash: Vec<u8>, timestamp: i64, transactions: Vec<Transaction>) -> (res:
        Result<Block, Error>)
        ensures
            res is Ok,
            res->Ok_0@.height == height,
            res->Ok_0@.parent_hash == parent_hash@,
            res->Ok_0@.timestamp == timestamp,
            res->Ok_0@.transactions == transaction_views(transactions@),
            res->Ok_0@.merkle_root == merkle_root_of(transaction_views(transactions@)),
            res->Ok_0@.hash == header_hash(
                height,
                parent_hash@,
                timestamp,
                merkle_root_of(transaction_views(transactions@)),
            ),
            res->Ok_0@.hash.len() == DIGEST_LEN,
    {
        let merkle_root = match Self::calculate_merkle_root(&transactions) {
            Ok(r) => r,
            Err(e) => {
                return Err(e);
            },
        };
        let mut block = Block {
            height,
            hash: Vec::new(),
            parent_hash,
            timestamp,
            merkle_root,
            transactions,
        };
        let hash = match block.calculate_hash() {
            Ok(h) => h,
            Err(e) => {
                return Err(e);
            },
        };
        block.hash = hash;
        Ok(block)
    }

    /// The root of the tree over the hashes of the transactions.
    pub fn calculate_merkle_root(transactions: &Vec<Transaction>) -> (res: Result<Vec<u8>, Error>)
        ensures
            res is Ok,
            res->Ok_0@ == merkle_root_of(transaction_views(transactions@)),
    {
        let ghost txs = transaction_views(transactions@);
        if transactions.len() == 0 {
            let mut zeros: Vec<u8> = Vec::new();
            let mut z: usize = 0;
            while z < EMPTY_ROOT_LEN
                invariant
                    0 <= z <= EMPTY_ROOT_LEN,
                    zeros@.len() == z,
                    forall|k: int| 0 <= k < z ==> zeros@[k] == 0u8,
                decreases EMPTY_ROOT_LEN - z,
            {
                zeros.push(0u8);
                z += 1;
            }
            assert(zeros@ =~= merkle_root_of(txs));
            return Ok(zeros);
        }
        let mut hashes: Vec<Vec<u8>> = Vec::new();
        let mut i: usize = 0;
        while i < transactions.len()
            invariant
                0 <= i <= transactions@.len(),
                txs == transaction_views(transactions@),
                byte_string_views(hashes@) == tx_hashes(txs).take(i as int),
                hashes@.len() == i,
            decreases transactions@.len() - i,
        {
            let ghost before = hashes@;
            assert(txs[i as int] == transactions@[i as int]@);
            let h = match transactions[i].calculate_hash() {
                Ok(h) => h,
                Err(e) => {
                    return Err(e);
                },
            };
            hashes.push(h);
            i += 1;
            assert(byte_string_views(hashes@) =~= byte_string_views(before).push(
                tx_hash(txs[i - 1]),
            ));
            assert(byte_string_views(hashes@) =~= tx_hashes(txs).take(i as int));
        }
        assert(tx_hashes(txs).take(i as int) =~= tx_hashes(txs));
        while hashes.len() > 1
            invariant
                hashes@.len() >= 1,
                merkle_fold(byte_string_views(hashes@)) == merkle_fold(tx_hashes(txs)),
            decreases hashes@.len(),
        {
            let ghost layer = byte_string_views(hashes@);
            let n = hashes.len();
            let mut above: Vec<Vec<u8>> = Vec::new();
            let mut p: usize = 0;
            assert(byte_string_views(above@) =~= merkle_layer(layer).take(0));
            while p < (n - 1) / 2 + 1
                invariant
                    n == hashes@.len(),
                    n > 1,
                    layer == byte_string_views(hashes@),
                    0 <= p <= (n - 1) / 2 + 1,
                    above@.len() == p,
                    byte_string_views(above@) == merkle_layer(layer).take(p as int),
                decreases (n - 1) / 2 + 1 - p,
            {
                let ghost before = above@;
                let mut material: Vec<u8> = Vec::new();
                put_raw(&mut material, hashes[2 * p].as_slice());
                if 2 * p + 1 < n {
                    put_raw(&mut material, hashes[2 * p + 1].as_slice());
                } else {
                    put_raw(&mut material, hashes[2 * p].as_slice());
                }
                proof {
                    assert(layer[2 * p] == hashes@[2 * p]@);
                    if 2 * p + 1 < n {
                        assert(layer[2 * p + 1] == hashes@[2 * p + 1]@);
                    }
                    assert(blake2b_512(material@) == pair_hash(layer, p as int));
                }
                above.push(blake2b(material.as_slice()));
                p += 1;
                proof {
                    assert(byte_string_views(above@) =~= byte_string_views(before).push(
                        pair_hash(layer, p - 1),
                    ));
                    assert(byte_string_views(above@) =~= merkle_layer(layer).take(p as int));
                }
            }
            proof {
                assert((n + 1) / 2 == (n - 1) / 2 + 1);
                assert(merkle_layer(layer).take(p as int) =~= merkle_layer(layer));
            }
            hashes = above;
        }
        let root = hashes.remove(0);
        Ok(root)
    }

    /// The hash of the block's header.
    pub fn calculate_hash(&self) -> (res: Result<Vec<u8>, Error>)
        ensures
            res is Ok,
            res->Ok_0@ == header_hash(
                self@.height,
                self@.parent_hash,
                self@.timestamp,
                self@.merkle_root,
            ),
            res->Ok_0@.len() == DIGEST_LEN,
    {
        let mut header: Vec<u8> = Vec::new();
        put_i64(&mut header, self.height);
        put_raw(&mut header, self.parent_hash.as_slice());
        put_i64(&mut header, self.timestamp);
        put_raw(&mut header, self.merkle_root.as_slice());
        assert(header@ =~= enc_i64(self.height) + self.parent_hash@ + enc_i64(self.timestamp)
            + self.merkle_root@);
        Ok(blake2b(header.as_slice()))
    }

    /// Whether the block meets the rules for joining the chain.
    pub fn validate(&self, db: &Database) -> (res: Result<bool, Error>)
        ensures
            res is Ok,
            res->Ok_0 == self@.valid(db@),
    {
        let ghost txs = self@.transactions;
        let hash = match self.calculate_hash() {
            Ok(h) => h,
            Err(e) => {
                return Err(e);
            },
        };
        if !same_bytes(hash.as_slice(), self.hash.as_slice()) {
            return Ok(false);
        }
        let root = match Self::calculate_merkle_root(&self.transactions) {
            Ok(r) => r,
            Err(e) => {
                return Err(e);
            },
        };
        if !same_bytes(root.as_slice(), self.merkle_root.as_slice()) {
            return Ok(false);
        }
        if self.height > 0 && !db.has_block(self.parent_hash.as_slice(), self.height - 1) {
            return Ok(false);
        }
        let mut seen: Vec<Vec<u8>> = Vec::new();
        let mut t: usize = 0;
        assert(byte_string_views(seen@) =~= all_nullifiers(txs.take(0)));
        while t < self.transactions.len()
            invariant
                0 <= t <= self.transactions@.len(),
                txs == self@.transactions,
                byte_string_views(seen@) == all_nullifiers(txs.take(t as int)),
                byte_string_views(seen@).no_duplicates(),
                forall|k: int|
                    0 <= k < seen@.len() ==> !db@.has_nullifier(
                        #[trigger] byte_string_views(seen@)[k],
                    ),
                forall|k: int| 0 <= k < t ==> (#[trigger] txs[k]).valid(db@),
            decreases self.transactions@.len() - t,
        {
            let tx = &self.transactions[t];
            proof {
                assert(txs[t as int] == tx@);
                assert(txs.take(t + 1).drop_last() =~= txs.take(t as int));
                assert(txs.take(t + 1).last() == tx@);
                lemma_all_nullifiers_prefix(txs, t + 1);
            }
            let ok = match tx.validate(db) {
                Ok(ok) => ok,
                Err(e) => {
                    return Err(e);
                },
            };
            if !ok {
                return Ok(false);
            }
            let ghost base = byte_string_views(seen@);
            let ghost nfs = tx@.nullifiers;
            let mut j: usize = 0;
            assert(byte_string_views(seen@) =~= base + nfs.take(0));
            while j < tx.nullifiers.len()
                invariant
                    0 <= j <= tx.nullifiers@.len(),
                    0 <= t < self.transactions@.len(),
                    txs == self@.transactions,
                    tx@ == txs[t as int],
                    nfs == tx@.nullifiers,
                    base == all_nullifiers(txs.take(t as int)),
                    all_nullifiers(txs.take(t + 1)) == base + nfs,
                    byte_string_views(seen@) == base + nfs.take(j as int),
                    byte_string_views(seen@).no_duplicates(),
                    forall|k: int|
                        0 <= k < seen@.len() ==> !db@.has_nullifier(
                            #[trigger] byte_string_views(seen@)[k],
                        ),
                    all_nullifiers(txs.take(t + 1)).len() <= all_nullifiers(txs).len(),
                    forall|i: int|
                        0 <= i < all_nullifiers(txs.take(t + 1)).len() ==> all_nullifiers(txs)[i]
                            == #[trigger] all_nullifiers(txs.take(t + 1))[i],
                decreases tx.nullifiers@.len() - j,
            {
                let nf = &tx.nullifiers[j];
                let ghost before = byte_string_views(seen@);
                let ghost whole = all_nullifiers(txs);
                let ghost at = base.len() + j;
                proof {
                    assert(nfs[j as int] == nf@);
                    assert(all_nullifiers(txs.take(t + 1))[at] == nf@);
                    assert(whole[at] == nf@);
                }
                if contains_bytes(&seen, nf.as_slice()) {
                    proof {
                        let k = choose|k: int|
                            0 <= k < seen@.len() && #[trigger] byte_string_views(seen@)[k] == nf@;
                        assert(before[k] == nf@);
                        assert(before.len() == base.len() + j);
                        if k >= base.len() {
                            assert(nfs.take(j as int)[k - base.len()] == nfs[k - base.len()]);
                        }
                        assert((base + nfs)[k] == before[k]);
                        assert(all_nullifiers(txs.take(t + 1))[k] == nf@);
                        assert(whole[k] == whole[at] && k != at);
                    }
                    return Ok(false);
                }
                let in_store = match db.has_nullifier(nf.as_slice()) {
                    Ok(b) => b,
                    Err(e) => {
                        return Err(e);
                    },
                };
                if in_store {
                    return Ok(false);
                }
                seen.push(copy_bytes(nf));
                j += 1;
                proof {
                    assert(byte_string_views(seen@) =~= before.push(nf@));
                    assert(byte_string_views(seen@) =~= base + nfs.take(j as int));
                }
            }
            proof {
                assert(nfs.take(j as int) =~= nfs);
            }
            t += 1;
        }
        proof {
            assert(txs.take(t as int) =~= txs);
        }
        Ok(true)
    }

    /// Whether every transaction of the block can be connected.
    fn check_connectable(&self) -> (ok: bool)
        ensures
            ok == connectable(self@.transactions),
    {
        let mut i: usize = 0;
        while i < self.transactions.len()
            invariant
                0 <= i <= self.transactions@.len(),
                forall|k: int|
                    0 <= k < i ==> (#[trigger] self@.transactions[k]).shielded_outputs.len()
                        <= i64::MAX,
            decreases self.transactions@.len() - i,
        {
            assert(self@.transactions[i as int] == self.transactions@[i as int]@);
            if self.transactions[i].shielded_outputs.len() as u64 > i64::MAX as u64 {
                return false;
            }
            i += 1;
        }
        true
    }

    /// Connects the block to the store: a row for the block on the active
    /// chain, then its transactions in order.
    ///
    /// Fails, and changes nothing, where one of the transactions cannot be
    /// connected.
    pub fn connect(&self, db: &mut Database) -> (res: Result<(), Error>)
        ensures
            if connectable(self@.transactions) {
                res is Ok && final(db)@ == with_transactions(
                    DatabaseView {
                        blocks: old(db)@.blocks.push(
                            BlockRecordView {
                                height: self@.height,
                                hash: self@.hash,
                                parent_hash: self@.parent_hash,
                                timestamp: self@.timestamp,
                                merkle_root: self@.merkle_root,
                                active: true,
                            },
                        ),
                        ..old(db)@
                    },
                    self@.transactions,
                    self@.height,
                )
            } else {
                res is Err && res->Err_0.kind() == ErrorKind::InvalidTransaction && final(db)@
                    == old(db)@
            },
    {
        if !self.check_connectable() {
            return Err(Error::invalid_transaction("too many shielded outputs"));
        }
        let ghost txs = self@.transactions;
        let ghost rows = db.blocks@;
        let row = BlockRecord {
            height: self.height,
            hash: copy_bytes(&self.hash),
            parent_hash: copy_bytes(&self.parent_hash),
            timestamp: self.timestamp,
            merkle_root: copy_bytes(&self.merkle_root),
            active: true,
        };
        let ghost row_view = row@;
        db.blocks.push(row);
        assert(block_records(db.blocks@) =~= block_records(rows).push(row_view));
        let ghost start = db@;
        let mut i: usize = 0;
        while i < self.transactions.len()
            invariant
                0 <= i <= self.transactions@.len(),
                txs == self@.transactions,
                connectable(txs),
                db@ == with_transactions(start, txs.take(i as int), self.height),
            decreases self.transactions@.len() - i,
        {
            proof {
                assert(txs.take(i + 1).drop_last() =~= txs.take(i as int));
                assert(txs.take(i + 1).last() == self.transactions@[i as int]@);
                assert(txs[i as int].shielded_outputs.len() <= i64::MAX);
            }
            match self.transactions[i].connect(db, self.height) {
                Ok(()) => {},
                Err(e) => {
                    assert(false);
                    return Err(e);
                },
            }
            i += 1;
        }
        assert(txs.take(i as int) =~= txs);
        Ok(())
    }

    /// Disconnects the block from the store: its transactions are taken
    /// out, the last one first, and the blocks at its height are marked as
    /// orphaned.
    pub fn disconnect(&self, db: &mut Database) -> (res: Result<(), Error>)
        ensures
            res is Ok,
            final(db)@ == (DatabaseView {
                blocks: orphaned(old(db)@.blocks, self@.height),
                ..without_transactions(old(db)@, self@.transactions)
            }),
    {
        let ghost txs = self@.transactions;
        let ghost start = db@;
        let mut i: usize = self.transactions.len();
        assert(txs.take(i as int) =~= txs);
        while i > 0
            invariant
                0 <= i <= self.transactions@.len(),
                txs == self@.transactions,
                without_transactions(start, txs) == without_transactions(db@, txs.take(i as int)),
            decreases i,
        {
            proof {
                assert(txs.take(i as int).drop_last() =~= txs.take(i - 1));
                assert(txs.take(i as int).last() == self.transactions@[i - 1]@);
            }
            match self.transactions[i - 1].disconnect(db) {
                Ok(()) => {},
                Err(e) => {
                    assert(false);
                    return Err(e);
                },
            }
            i -= 1;
        }
        let ghost cleared = db@;
        assert(cleared.blocks == start.blocks) by {
            lemma_without_transactions_keeps_blocks(start, txs);
        }
        let mut k: usize = 0;
        while k < db.blocks.len()
            invariant
                0 <= k <= db.blocks@.len(),
                db@.blocks.len() == cleared.blocks.len(),
                db@ == (DatabaseView { blocks: db@.blocks, ..cleared }),
                forall|m: int|
                    0 <= m < k ==> (#[trigger] db@.blocks[m]) == orphaned(
                        cleared.blocks,
                        self.height,
                    )[m],
                forall|m: int|
                    k <= m < db@.blocks.len() ==> (#[trigger] db@.blocks[m]) == cleared.blocks[m],
            decreases db.blocks@.len() - k,
        {
            assert(db@.blocks[k as int] == db.blocks@[k as int]@);
            if db.blocks[k].height == self.height {
                let ghost before = db.blocks@;
                let mut row = db.blocks.remove(k);
                row.active = false;
                let ghost row_view = row@;
                db.blocks.insert(k, row);
                proof {
                    assert(db.blocks@ =~= before.update(k as int, db.blocks@[k as int]));
                    assert(block_records(db.blocks@) =~= block_records(before).update(
                        k as int,
                        row_view,
                    ));
                }
            }
            k += 1;
        }
        assert(db@.blocks =~= orphaned(start.blocks, self.height));
        Ok(())
    }
}

/// Taking transactions out of the store leaves the blocks alone.
pub proof fn lemma_without_transactions_keeps_blocks(db: DatabaseView, txs: Seq<TransactionView>)
    ensures
        without_transactions(db, txs).blocks == db.blocks,
    decreases txs.len(),
{
    if txs.len() > 0 {
        lemma_without_transactions_keeps_blocks(
            db.without_transaction(tx_hash(txs.last())),
            txs.drop_last(),
        );
    }
}

} // verus!
