//! The store of the block-and-hash chain: its tables as plain rows.
//!
//! Blocks are told apart by height and hash, transactions by their hash.
//! A row is never changed in place but for the flags that mark a block as
//! orphaned and a tree node as reverted.

use vstd::prelude::*;
use crate::address::{Address, AddressView};
use crate::error::Error;
use crate::primitives::unix_time;
use crate::transaction::{ShieldedNote, ShieldedNoteView, TransactionType};

verus! {

/// The height that a chain without blocks reports.
pub const NO_BLOCKS: i64 = -1;

/// A block as stored.
#[derive(Debug, Clone)]
pub struct BlockRecord {
    pub height: i64,
    pub hash: Vec<u8>,
    pub parent_hash: Vec<u8>,
    pub timestamp: i64,
    pub merkle_root: Vec<u8>,
    /// Whether the block is on the active chain, or orphaned.
    pub active: bool,
}

pub struct BlockRecordView {
    pub height: i64,
    pub hash: Seq<u8>,
    pub parent_hash: Seq<u8>,
    pub timestamp: i64,
    pub merkle_root: Seq<u8>,
    pub active: bool,
}

impl View for BlockRecord {
    type V = BlockRecordView;

    open spec fn view(&self) -> BlockRecordView {
        BlockRecordView {
            height: self.height,
            hash: self.hash@,
            parent_hash: self.parent_hash@,
            timestamp: self.timestamp,
            merkle_root: self.merkle_root@,
            active: self.active,
        }
    }
}

/// A transaction as stored.
#[derive(Debug, Clone)]
pub struct TransactionRecord {
    pub tx_hash: Vec<u8>,
    pub block_height: i64,
    pub tx_type: TransactionType,
    pub raw_data: Vec<u8>,
    pub proof_data: Option<Vec<u8>>,
}

pub struct TransactionRecordView {
    pub tx_hash: Seq<u8>,
    pub block_height: i64,
    pub tx_type: TransactionType,
    pub raw_data: Seq<u8>,
    pub proof_data: Option<Seq<u8>>,
}

/// The view of a byte string that may be absent.
pub open spec fn optional_bytes(b: Option<Vec<u8>>) -> Option<Seq<u8>> {
    match b {
        Some(v) => Some(v@),
        None => None,
    }
}

impl View for TransactionRecord {
    type V = TransactionRecordView;

    open spec fn view(&self) -> TransactionRecordView {
        TransactionRecordView {
            tx_hash: self.tx_hash@,
            block_height: self.block_height,
            tx_type: self.tx_type,
            raw_data: self.raw_data@,
            proof_data: optional_bytes(self.proof_data),
        }
    }
}

/// A transparent output as stored.
#[derive(Debug, Clone)]
pub struct OutputRecord {
    pub output_id: Vec<u8>,
    pub tx_hash: Vec<u8>,
    pub address: Address,
    pub amount: u64,
    /// Whether a transaction has spent the output.
    pub spent: bool,
}

pub struct OutputRecordView {
    pub output_id: Seq<u8>,
    pub tx_hash: Seq<u8>,
    pub address: AddressView,
    pub amount: u64,
    pub spent: bool,
}

impl View for OutputRecord {
    type V = OutputRecordView;

    open spec fn view(&self) -> OutputRecordView {
        OutputRecordView {
            output_id: self.output_id@,
            tx_hash: self.tx_hash@,
            address: self.address@,
            amount: self.amount,
            spent: self.spent,
        }
    }
}

/// A shielded note as stored.
#[derive(Debug, Clone)]
pub struct NoteRecord {
    pub note: ShieldedNote,
    pub tx_hash: Vec<u8>,
    pub block_height: i64,
    pub merkle_position: i64,
}

pub struct NoteRecordView {
    pub note: ShieldedNoteView,
    pub tx_hash: Seq<u8>,
    pub block_height: i64,
    pub merkle_position: i64,
}

impl View for NoteRecord {
    type V = NoteRecordView;

    open spec fn view(&self) -> NoteRecordView {
        NoteRecordView {
            note: self.note@,
            tx_hash: self.tx_hash@,
            block_height: self.block_height,
            merkle_position: self.merkle_position,
        }
    }
}

/// A revealed nullifier as stored.
#[derive(Debug, Clone)]
pub struct NullifierRecord {
    pub nullifier: Vec<u8>,
    pub block_height: i64,
    pub tx_hash: Vec<u8>,
}

pub struct NullifierRecordView {
    pub nullifier: Seq<u8>,
    pub block_height: i64,
    pub tx_hash: Seq<u8>,
}

impl View for NullifierRecord {
    type V = NullifierRecordView;

    open spec fn view(&self) -> NullifierRecordView {
        NullifierRecordView {
            nullifier: self.nullifier@,
            block_height: self.block_height,
            tx_hash: self.tx_hash@,
        }
    }
}

/// A node of the commitment tree as stored.
#[derive(Debug, Clone)]
pub struct NodeRecord {
    pub height: i64,
    pub position: i64,
    pub hash: Vec<u8>,
    pub block_height: i64,
    /// Whether the node counts, or was reverted.
    pub active: bool,
}

pub struct NodeRecordView {
    pub height: i64,
    pub position: i64,
    pub hash: Seq<u8>,
    pub block_height: i64,
    pub active: bool,
}

impl View for NodeRecord {
    type V = NodeRecordView;

    open spec fn view(&self) -> NodeRecordView {
        NodeRecordView {
            height: self.height,
            position: self.position,
            hash: self.hash@,
            block_height: self.block_height,
            active: self.active,
        }
    }
}

/// The store.
#[derive(Debug, Clone)]
pub struct Database {
    /// Where the store is kept between runs.
    pub path: String,
    pub blocks: Vec<BlockRecord>,
    pub transactions: Vec<TransactionRecord>,
    pub transparent_outputs: Vec<OutputRecord>,
    pub shielded_notes: Vec<NoteRecord>,
    pub nullifier_set: Vec<NullifierRecord>,
    pub merkle_tree: Vec<NodeRecord>,
}

/// The store as a mathematical value.
pub struct DatabaseView {
    pub path: Seq<char>,
    pub blocks: Seq<BlockRecordView>,
    pub transactions: Seq<TransactionRecordView>,
    pub transparent_outputs: Seq<OutputRecordView>,
    pub shielded_notes: Seq<NoteRecordView>,
    pub nullifier_set: Seq<NullifierRecordView>,
    pub merkle_tree: Seq<NodeRecordView>,
}

pub open spec fn block_records(rows: Seq<BlockRecord>) -> Seq<BlockRecordView> {
    rows.map_values(|r: BlockRecord| r@)
}

pub open spec fn transaction_records(rows: Seq<TransactionRecord>) -> Seq<TransactionRecordView> {
    rows.map_values(|r: TransactionRecord| r@)
}

pub open spec fn output_records(rows: Seq<OutputRecord>) -> Seq<OutputRecordView> {
    rows.map_values(|r: OutputRecord| r@)
}

pub open spec fn note_records(rows: Seq<NoteRecord>) -> Seq<NoteRecordView> {
    rows.map_values(|r: NoteRecord| r@)
}

pub open spec fn nullifier_records(rows: Seq<NullifierRecord>) -> Seq<NullifierRecordView> {
    rows.map_values(|r: NullifierRecord| r@)
}

pub open spec fn node_records(rows: Seq<NodeRecord>) -> Seq<NodeRecordView> {
    rows.map_values(|r: NodeRecord| r@)
}

impl View for Database {
    type V = DatabaseView;

    open spec fn view(&self) -> DatabaseView {
        DatabaseView {
            path: self.path@,
            blocks: block_records(self.blocks@),
            transactions: transaction_records(self.transactions@),
            transparent_outputs: output_records(self.transparent_outputs@),
            shielded_notes: note_records(self.shielded_notes@),
            nullifier_set: nullifier_records(self.nullifier_set@),
            merkle_tree: node_records(self.merkle_tree@),
        }
    }
}

/// The greatest height among the active blocks; [`NO_BLOCKS`] where there is
/// none.
pub open spec fn chain_height(blocks: Seq<BlockRecordView>) -> i64
    decreases blocks.len(),
{
    if blocks.len() == 0 {
        NO_BLOCKS
    } else {
        let rest = chain_height(blocks.drop_last());
        let last = blocks.last();
        if last.active && (last.height > rest || !has_active(blocks.drop_last())) {
            last.height
        } else {
            rest
        }
    }
}

/// Whether one of the blocks is active.
pub open spec fn has_active(blocks: Seq<BlockRecordView>) -> bool {
    exists|i: int| 0 <= i < blocks.len() && (#[trigger] blocks[i]).active
}

impl DatabaseView {
    /// The store at a path with empty tables.
    pub open spec fn empty(path: Seq<char>) -> DatabaseView {
        DatabaseView {
            path,
            blocks: Seq::empty(),
            transactions: Seq::empty(),
            transparent_outputs: Seq::empty(),
            shielded_notes: Seq::empty(),
            nullifier_set: Seq::empty(),
            merkle_tree: Seq::empty(),
        }
    }

    /// Whether the nullifier was revealed.
    pub open spec fn has_nullifier(self, nullifier: Seq<u8>) -> bool {
        exists|i: int|
            0 <= i < self.nullifier_set.len() && (#[trigger] self.nullifier_set[i]).nullifier
                == nullifier
    }

    /// Whether an output with the id exists that no transaction has spent.
    pub open spec fn has_unspent(self, output_id: Seq<u8>) -> bool {
        exists|i: int|
            0 <= i < self.transparent_outputs.len() && (
            #[trigger] self.transparent_outputs[i]).output_id == output_id
                && !self.transparent_outputs[i].spent
    }

    /// Whether a block with the hash stands at the height.
    pub open spec fn has_block(self, hash: Seq<u8>, height: int) -> bool {
        exists|i: int|
            0 <= i < self.blocks.len() && (#[trigger] self.blocks[i]).hash == hash
                && self.blocks[i].height == height
    }
}

/// A row that belongs to a transaction.
pub trait OfTransaction {
    /// The hash of the transaction that the row belongs to.
    spec fn owner(&self) -> Seq<u8>;

    /// The hash of the transaction that the row belongs to.
    fn owner_hash(&self) -> (h: &Vec<u8>)
        ensures
            h@ == self.owner(),
    ;
}

impl OfTransaction for TransactionRecord {
    open spec fn owner(&self) -> Seq<u8> {
        self.tx_hash@
    }

    fn owner_hash(&self) -> (h: &Vec<u8>) {
        &self.tx_hash
    }
}

impl OfTransaction for OutputRecord {
    open spec fn owner(&self) -> Seq<u8> {
        self.tx_hash@
    }

    fn owner_hash(&self) -> (h: &Vec<u8>) {
        &self.tx_hash
    }
}

impl OfTransaction for NoteRecord {
    open spec fn owner(&self) -> Seq<u8> {
        self.tx_hash@
    }

    fn owner_hash(&self) -> (h: &Vec<u8>) {
        &self.tx_hash
    }
}

impl OfTransaction for NullifierRecord {
    open spec fn owner(&self) -> Seq<u8> {
        self.tx_hash@
    }

    fn owner_hash(&self) -> (h: &Vec<u8>) {
        &self.tx_hash
    }
}

/// The rows that `drop` does not name, in their order.
pub open spec fn kept<T>(rows: Seq<T>, drop: spec_fn(T) -> bool) -> Seq<T>
    decreases rows.len(),
{
    if rows.len() == 0 {
        rows
    } else if drop(rows.last()) {
        kept(rows.drop_last(), drop)
    } else {
        kept(rows.drop_last(), drop).push(rows.last())
    }
}

/// Tells the rows that belong to the transaction with the hash.
pub open spec fn owned_by<T: OfTransaction>(tx_hash: Seq<u8>) -> spec_fn(T) -> bool {
    |r: T| r.owner() == tx_hash
}

/// The rows that do not belong to the transaction with the hash.
pub open spec fn not_of<T: OfTransaction>(rows: Seq<T>, tx_hash: Seq<u8>) -> Seq<T> {
    kept(rows, owned_by::<T>(tx_hash))
}

/// Keeping rows commutes with taking their views, where the rows to drop
/// are told by their views.
pub proof fn lemma_kept_views<T, V>(
    rows: Seq<T>,
    drop: spec_fn(T) -> bool,
    view: spec_fn(T) -> V,
    drop_view: spec_fn(V) -> bool,
)
    requires
        forall|r: T| #[trigger] drop(r) == drop_view(view(r)),
    ensures
        kept(rows, drop).map_values(view) == kept(rows.map_values(view), drop_view),
    decreases rows.len(),
{
    if rows.len() > 0 {
        lemma_kept_views(rows.drop_last(), drop, view, drop_view);
        assert(rows.map_values(view).drop_last() =~= rows.drop_last().map_values(view));
        if !drop(rows.last()) {
            assert(kept(rows, drop).map_values(view) =~= kept(rows.drop_last(), drop).map_values(
                view,
            ).push(view(rows.last())));
        }
    } else {
        assert(kept(rows, drop).map_values(view) =~= kept(rows.map_values(view), drop_view));
    }
}

/// Keeping the rows of the first part of a table, then one more row.
pub proof fn lemma_kept_step<T>(rows: Seq<T>, drop: spec_fn(T) -> bool, k: int)
    requires
        0 <= k < rows.len(),
    ensures
        kept(rows.take(k + 1), drop) == if drop(rows[k]) {
            kept(rows.take(k), drop)
        } else {
            kept(rows.take(k), drop).push(rows[k])
        },
{
    assert(rows.take(k + 1).drop_last() =~= rows.take(k));
}

/// Removes the rows that belong to the transaction with the hash.
pub fn remove_rows_of<T: OfTransaction>(rows: &mut Vec<T>, tx_hash: &[u8])
    ensures
        final(rows)@ == not_of(old(rows)@, tx_hash@),
{
    let ghost orig = rows@;
    let ghost drop = owned_by::<T>(tx_hash@);
    let mut i: usize = 0;
    let ghost mut k: int = 0;
    proof {
        assert(orig.skip(0) =~= orig);
        assert(rows@ =~= kept(orig.take(0), drop) + orig.skip(0));
    }
    while i < rows.len()
        invariant
            0 <= k <= orig.len(),
            i == kept(orig.take(k), drop).len(),
            rows@ == kept(orig.take(k), drop) + orig.skip(k),
            drop == owned_by::<T>(tx_hash@),
        decreases orig.len() - k,
    {
        proof {
            lemma_kept_step(orig, drop, k);
            assert(rows@[i as int] == orig[k]);
        }
        if same_bytes(rows[i].owner_hash().as_slice(), tx_hash) {
            rows.remove(i);
            proof {
                assert(rows@ =~= kept(orig.take(k + 1), drop) + orig.skip(k + 1));
                k = k + 1;
            }
        } else {
            i += 1;
            proof {
                assert(rows@ =~= kept(orig.take(k + 1), drop) + orig.skip(k + 1));
                k = k + 1;
            }
        }
    }
    proof {
        assert(k == orig.len()) by {
            if k < orig.len() {
                assert(rows@.len() == i + (orig.len() - k));
            }
        }
        assert(orig.take(k) =~= orig);
        assert(rows@ =~= kept(orig, drop));
    }
}

/// Whether two byte strings are the same.
pub fn same_bytes(a: &[u8], b: &[u8]) -> (same: bool)
    ensures
        same == (a@ == b@),
{
    if a.len() != b.len() {
        return false;
    }
    let mut i: usize = 0;
    while i < a.len()
        invariant
            0 <= i <= a@.len(),
            a@.len() == b@.len(),
            forall|k: int| 0 <= k < i ==> a@[k] == b@[k],
        decreases a@.len() - i,
    {
        if a[i] != b[i] {
            return false;
        }
        i += 1;
    }
    assert(a@ =~= b@);
    true
}

impl Database {
    /// A store with empty tables, to be kept at `path`. Nothing is read or
    /// written here: the tables are in memory, and who holds the store
    /// decides when they go to the file.
    pub fn new(path: &str) -> (res: Result<Database, Error>)
        ensures
            res is Ok,
            res->Ok_0@ == DatabaseView::empty(path@),
    {
        let db = Database {
            path: path.to_owned(),
            blocks: Vec::new(),
            transactions: Vec::new(),
            transparent_outputs: Vec::new(),
            shielded_notes: Vec::new(),
            nullifier_set: Vec::new(),
            merkle_tree: Vec::new(),
        };
        assert(db@.blocks =~= Seq::empty());
        assert(db@.transactions =~= Seq::empty());
        assert(db@.transparent_outputs =~= Seq::empty());
        assert(db@.shielded_notes =~= Seq::empty());
        assert(db@.nullifier_set =~= Seq::empty());
        assert(db@.merkle_tree =~= Seq::empty());
        Ok(db)
    }

    /// Prepares the store for use. The tables exist from the start, so
    /// nothing changes.
    pub fn initialize(&self) -> (res: Result<(), Error>)
        ensures
            res is Ok,
    {
        Ok(())
    }

    /// The height of the chain: the greatest height of an active block, or
    /// `-1` where there is none.
    pub fn get_chain_height(&self) -> (res: Result<i64, Error>)
        ensures
            res is Ok,
            res->Ok_0 == chain_height(self@.blocks),
    {
        let ghost rows = self@.blocks;
        let mut height: i64 = NO_BLOCKS;
        let mut seen = false;
        let mut i: usize = 0;
        while i < self.blocks.len()
            invariant
                0 <= i <= self.blocks@.len(),
                rows == self@.blocks,
                height == chain_height(rows.take(i as int)),
                seen == has_active(rows.take(i as int)),
            decreases self.blocks@.len() - i,
        {
            proof {
                assert(rows.take(i + 1).drop_last() =~= rows.take(i as int));
                assert(rows.take(i + 1).last() == self.blocks@[i as int]@);
                if has_active(rows.take(i as int)) {
                    let k = choose|k: int|
                        0 <= k < rows.take(i as int).len() && (#[trigger] rows.take(
                            i as int,
                        )[k]).active;
                    assert(rows.take(i + 1)[k].active);
                }
                if self.blocks@[i as int].active {
                    assert(rows.take(i + 1)[i as int].active);
                }
                if has_active(rows.take(i + 1)) && !self.blocks@[i as int].active {
                    let k = choose|k: int|
                        0 <= k < rows.take(i + 1).len() && (#[trigger] rows.take(i + 1)[k]).active;
                    assert(rows.take(i as int)[k].active);
                }
            }
            let row = &self.blocks[i];
            if row.active && (row.height > height || !seen) {
                height = row.height;
            }
            if row.active {
                seen = true;
            }
            i += 1;
        }
        assert(rows.take(i as int) =~= rows);
        Ok(height)
    }

    /// Whether the nullifier was revealed.
    pub fn has_nullifier(&self, nullifier: &[u8]) -> (res: Result<bool, Error>)
        ensures
            res is Ok,
            res->Ok_0 == self@.has_nullifier(nullifier@),
    {
        let mut i: usize = 0;
        while i < self.nullifier_set.len()
            invariant
                0 <= i <= self.nullifier_set@.len(),
                forall|k: int| 0 <= k < i ==> (#[trigger] self@.nullifier_set[k]).nullifier != nullifier@,
            decreases self.nullifier_set@.len() - i,
        {
            assert(self@.nullifier_set[i as int] == self.nullifier_set@[i as int]@);
            if same_bytes(self.nullifier_set[i].nullifier.as_slice(), nullifier) {
                return Ok(true);
            }
            i += 1;
        }
        Ok(false)
    }

    /// Whether an output with the id exists that no transaction has spent.
    pub fn has_unspent_output(&self, output_id: &[u8]) -> (found: bool)
        ensures
            found == self@.has_unspent(output_id@),
    {
        let mut i: usize = 0;
        while i < self.transparent_outputs.len()
            invariant
                0 <= i <= self.transparent_outputs@.len(),
                forall|k: int|
                    0 <= k < i ==> !((#[trigger] self@.transparent_outputs[k]).output_id
                        == output_id@ && !self@.transparent_outputs[k].spent),
            decreases self.transparent_outputs@.len() - i,
        {
            assert(self@.transparent_outputs[i as int] == self.transparent_outputs@[i as int]@);
            let row = &self.transparent_outputs[i];
            if !row.spent && same_bytes(row.output_id.as_slice(), output_id) {
                return true;
            }
            i += 1;
        }
        false
    }

    /// Whether a block with the hash stands at the height.
    pub fn has_block(&self, hash: &[u8], height: i64) -> (found: bool)
        ensures
            found == self@.has_block(hash@, height as int),
    {
        let mut i: usize = 0;
        while i < self.blocks.len()
            invariant
                0 <= i <= self.blocks@.len(),
                forall|k: int|
                    0 <= k < i ==> !((#[trigger] self@.blocks[k]).hash == hash@
                        && self@.blocks[k].height == height),
            decreases self.blocks@.len() - i,
        {
            assert(self@.blocks[i as int] == self.blocks@[i as int]@);
            let row = &self.blocks[i];
            if row.height == height && same_bytes(row.hash.as_slice(), hash) {
                return true;
            }
            i += 1;
        }
        false
    }

    /// The time now, in seconds since the Unix epoch, as the clock of the
    /// machine tells it.
    pub fn get_current_timestamp(&self) -> (seconds: i64) {
        unix_time()
    }
}

} // verus!
