//! The commitment tree of the block-and-hash chain: a table of nodes, one
//! row for every node that an appended leaf touched, and the Merkle paths
//! that lead from a leaf to the root.
//!
//! Rows are never replaced. Where several rows stand for one node, the node
//! is read from the newest active one, and the root from the newest active
//! row among those of the greatest block height: a node is what the last
//! leaf that touched it made of it.

use vstd::prelude::*;
use std::collections::HashMap;
use crate::connect::copy_bytes;
use crate::database::{Database, DatabaseView, NodeRecord, NodeRecordView, node_records, same_bytes};
use crate::error::{Error, ErrorKind};
use crate::primitives::{blake2b, blake2b_512};
use crate::transaction::byte_string_views;
use crate::wire::put_raw;

verus! {

/// Depth of the tree: the height of its root.
pub const TREE_DEPTH: i64 = 32;

/// Length in bytes of the hash that stands for a missing node.
pub const EMPTY_HASH_LEN: usize = 32;

/// A node of the tree.
#[derive(Debug, Clone)]
pub struct Node {
    pub height: i64,
    pub position: i64,
    pub hash: Vec<u8>,
}

pub struct NodeView {
    pub height: i64,
    pub position: i64,
    pub hash: Seq<u8>,
}

impl View for Node {
    type V = NodeView;

    open spec fn view(&self) -> NodeView {
        NodeView { height: self.height, position: self.position, hash: self.hash@ }
    }
}

/// The siblings of a leaf on its way to the root, and the position of the
/// leaf.
#[derive(Debug, Clone)]
pub struct MerklePath {
    pub authentication_path: Vec<Vec<u8>>,
    pub position: u64,
}

/// Reads, extends and reverts the tree, and checks Merkle paths.
pub struct MerkleTreeManager {
    /// Hashes of nodes, each under the key of its height and position.
    cache: HashMap<i128, Vec<u8>>,
}

/// The key of a node in the cache: its height and its position in one
/// number, the height in the upper half and the position, counted from the
/// least of all positions, in the lower.
pub open spec fn node_key(height: i64, position: i64) -> i128 {
    (height * 0x1_0000_0000_0000_0000 + (position + 0x8000_0000_0000_0000)) as i128
}

/// The key of a node in the cache.
pub fn key_of(height: i64, position: i64) -> (key: i128)
    ensures
        key == node_key(height, position),
{
    let high: i128 = height as i128;
    let low: i128 = position as i128;
    high * 0x1_0000_0000_0000_0000 + (low + 0x8000_0000_0000_0000)
}

/// A key names one node: two nodes have one key only where they are one
/// node.
pub proof fn node_key_names_one_node(h1: i64, p1: i64, h2: i64, p2: i64)
    requires
        node_key(h1, p1) == node_key(h2, p2),
    ensures
        h1 == h2,
        p1 == p2,
{
}

/// The digest of two hashes, one after the other.
pub open spec fn combined(left: Seq<u8>, right: Seq<u8>) -> Seq<u8> {
    blake2b_512(left + right)
}

/// The hash that stands for a missing node: 32 zero bytes.
pub open spec fn empty_hash() -> Seq<u8> {
    Seq::new(EMPTY_HASH_LEN as nat, |i: int| 0u8)
}

/// The hash that a path leads to from a hash at a position: at each step
/// the hash is combined with the next sibling, on the side that the position
/// tells, and the position is halved.
pub open spec fn path_root(hash: Seq<u8>, siblings: Seq<Seq<u8>>, position: int) -> Seq<u8>
    decreases siblings.len(),
{
    if siblings.len() == 0 {
        hash
    } else {
        let next = if position % 2 == 0 {
            combined(hash, siblings[0])
        } else {
            combined(siblings[0], hash)
        };
        path_root(next, siblings.drop_first(), position / 2)
    }
}

/// The hash that the cache holds for the node at a height and position.
pub open spec fn cached_hash(cache: Map<i128, Seq<u8>>, height: i64, position: i64) -> Option<
    Seq<u8>,
> {
    if cache.contains_key(node_key(height, position)) {
        Some(cache[node_key(height, position)])
    } else {
        None
    }
}

/// The hash of the newest active row at a height and position.
pub open spec fn stored_hash(rows: Seq<NodeRecordView>, height: i64, position: i64) -> Option<
    Seq<u8>,
>
    decreases rows.len(),
{
    if rows.len() == 0 {
        None
    } else if rows.last().active && rows.last().height == height && rows.last().position
        == position {
        Some(rows.last().hash)
    } else {
        stored_hash(rows.drop_last(), height, position)
    }
}

/// The hash of a node: from the cache where it is there, else from the
/// store.
pub open spec fn node_hash(
    cache: Map<i128, Seq<u8>>,
    rows: Seq<NodeRecordView>,
    height: i64,
    position: i64,
) -> Option<Seq<u8>> {
    match cached_hash(cache, height, position) {
        Some(h) => Some(h),
        None => stored_hash(rows, height, position),
    }
}

/// The number of active leaves.
pub open spec fn leaf_count(rows: Seq<NodeRecordView>) -> int
    decreases rows.len(),
{
    if rows.len() == 0 {
        0
    } else {
        leaf_count(rows.drop_last()) + if rows.last().active && rows.last().height == 0 {
            1int
        } else {
            0int
        }
    }
}

/// Whether a row is an active root.
pub open spec fn is_root(row: NodeRecordView) -> bool {
    row.active && row.height == TREE_DEPTH && row.position == 0
}

/// The place of the row that the root is read from: the newest active root
/// among those of the greatest block height, which is the root after the
/// last leaf.
pub open spec fn root_place(rows: Seq<NodeRecordView>) -> Option<int>
    decreases rows.len(),
{
    if rows.len() == 0 {
        None
    } else {
        let last = rows.len() - 1;
        match root_place(rows.drop_last()) {
            Some(at) => if is_root(rows[last]) && rows[last].block_height >= rows[at].block_height {
                Some(last)
            } else {
                Some(at)
            },
            None => if is_root(rows[last]) {
                Some(last)
            } else {
                None
            },
        }
    }
}

/// The rows with those of a block height and of those above it marked as
/// reverted.
pub open spec fn reverted(rows: Seq<NodeRecordView>, block_height: i64) -> Seq<NodeRecordView> {
    rows.map_values(
        |r: NodeRecordView|
            if r.block_height >= block_height {
                NodeRecordView { active: false, ..r }
            } else {
                r
            },
    )
}

/// The position of the sibling of a node.
pub open spec fn sibling_of(position: i64) -> int {
    if position % 2 == 0 {
        position + 1
    } else {
        position - 1
    }
}

/// The climb from a node at a height to the root: at each height the
/// sibling is read, a missing one counting as the empty hash, it joins the
/// path, and a row for the parent is added. Gives the rows and the path at
/// the end.
pub open spec fn climb(
    cache: Map<i128, Seq<u8>>,
    rows: Seq<NodeRecordView>,
    path: Seq<Seq<u8>>,
    hash: Seq<u8>,
    position: i64,
    height: i64,
    block_height: i64,
) -> (Seq<NodeRecordView>, Seq<Seq<u8>>)
    decreases TREE_DEPTH - height,
{
    if height < 0 || height >= TREE_DEPTH || position < 0 || position == i64::MAX {
        (rows, path)
    } else {
        let sibling = match node_hash(cache, rows, height, sibling_of(position) as i64) {
            Some(h) => h,
            None => empty_hash(),
        };
        let parent = if position % 2 == 0 {
            combined(hash, sibling)
        } else {
            combined(sibling, hash)
        };
        climb(
            cache,
            rows.push(
                NodeRecordView {
                    height: (height + 1) as i64,
                    position: (position / 2) as i64,
                    hash: parent,
                    block_height,
                    active: true,
                },
            ),
            path.push(sibling),
            parent,
            (position / 2) as i64,
            (height + 1) as i64,
            block_height,
        )
    }
}

/// A fresh copy of the empty hash.
pub fn zero_hash() -> (h: Vec<u8>)
    ensures
        h@ == empty_hash(),
{
    let mut h: Vec<u8> = Vec::new();
    let mut i: usize = 0;
    while i < EMPTY_HASH_LEN
        invariant
            0 <= i <= EMPTY_HASH_LEN,
            h@.len() == i,
            forall|k: int| 0 <= k < i ==> h@[k] == 0u8,
        decreases EMPTY_HASH_LEN - i,
    {
        h.push(0u8);
        i += 1;
    }
    assert(h@ =~= empty_hash());
    h
}

impl MerkleTreeManager {
    /// The hashes in the cache, each under the key of its node.
    pub closed spec fn cached(&self) -> Map<i128, Seq<u8>> {
        self.cache@.map_values(|h: Vec<u8>| h@)
    }

    /// A manager with an empty cache.
    pub fn new() -> (manager: MerkleTreeManager)
        ensures
            manager.cached() == Map::<i128, Seq<u8>>::empty(),
    {
        let manager = MerkleTreeManager { cache: HashMap::new() };
        assert(manager.cached() =~= Map::<i128, Seq<u8>>::empty());
        manager
    }

    /// Starts the tree: a row for a root with the empty hash, at block
    /// height zero.
    pub fn initialize(&self, db: &mut Database) -> (res: Result<(), Error>)
        ensures
            res is Ok,
            final(db)@ == (DatabaseView {
                merkle_tree: old(db)@.merkle_tree.push(
                    NodeRecordView {
                        height: TREE_DEPTH,
                        position: 0,
                        hash: empty_hash(),
                        block_height: 0,
                        active: true,
                    },
                ),
                ..old(db)@
            }),
    {
        let ghost rows = db.merkle_tree@;
        let row = NodeRecord {
            height: TREE_DEPTH,
            position: 0,
            hash: zero_hash(),
            block_height: 0,
            active: true,
        };
        let ghost row_view = row@;
        db.merkle_tree.push(row);
        assert(node_records(db.merkle_tree@) =~= node_records(rows).push(row_view));
        Ok(())
    }

    /// The hash of a node, from the cache or from the store.
    fn find_hash(&self, db: &Database, height: i64, position: i64) -> (res: Option<Vec<u8>>)
        ensures
            crate::database::optional_bytes(res) == node_hash(
                self.cached(),
                db@.merkle_tree,
                height,
                position,
            ),
    {
        broadcast use vstd::std_specs::hash::group_hash_axioms;

        let key = key_of(height, position);
        match self.cache.get(&key) {
            Some(hash) => {
                assert(self.cached()[key] == hash@);
                return Some(copy_bytes(hash));
            },
            None => {
                assert(!self.cached().contains_key(key));
            },
        }
        let ghost rows = db@.merkle_tree;
        let mut j: usize = db.merkle_tree.len();
        assert(rows.take(j as int) =~= rows);
        while j > 0
            invariant
                0 <= j <= db.merkle_tree@.len(),
                rows == db@.merkle_tree,
                cached_hash(self.cached(), height, position) is None,
                stored_hash(rows, height, position) == stored_hash(
                    rows.take(j as int),
                    height,
                    position,
                ),
            decreases j,
        {
            j -= 1;
            proof {
                assert(rows.take(j + 1).last() == db.merkle_tree@[j as int]@);
                assert(rows.take(j + 1).drop_last() =~= rows.take(j as int));
            }
            let row = &db.merkle_tree[j];
            if row.active && row.height == height && row.position == position {
                return Some(copy_bytes(&row.hash));
            }
        }
        None
    }

    /// The node at a height and position, where there is one.
    pub fn get_node(&self, db: &Database, height: i64, position: i64) -> (res: Result<
        Option<Node>,
        Error,
    >)
        ensures
            res is Ok,
            match node_hash(self.cached(), db@.merkle_tree, height, position) {
                Some(hash) => res->Ok_0 is Some && res->Ok_0->Some_0@ == (NodeView {
                    height,
                    position,
                    hash,
                }),
                None => res->Ok_0 is None,
            },
    {
        match self.find_hash(db, height, position) {
            Some(hash) => Ok(Some(Node { height, position, hash })),
            None => Ok(None),
        }
    }

    /// The root of the tree. Fails where the store holds no active root.
    pub fn get_root(&self, db: &Database) -> (res: Result<Vec<u8>, Error>)
        ensures
            match root_place(db@.merkle_tree) {
                Some(at) => res is Ok && res->Ok_0@ == db@.merkle_tree[at].hash,
                None => res is Err && res->Err_0.kind() == ErrorKind::MerkleTree,
            },
    {
        let ghost rows = db@.merkle_tree;
        let mut best: Option<usize> = None;
        let mut i: usize = 0;
        while i < db.merkle_tree.len()
            invariant
                0 <= i <= db.merkle_tree@.len(),
                rows == db@.merkle_tree,
                match best {
                    Some(at) => at < i && root_place(rows.take(i as int)) == Some(at as int),
                    None => root_place(rows.take(i as int)) is None,
                },
            decreases db.merkle_tree@.len() - i,
        {
            proof {
                assert(rows.take(i + 1).drop_last() =~= rows.take(i as int));
                assert(rows.take(i + 1)[i as int] == db.merkle_tree@[i as int]@);
            }
            let row = &db.merkle_tree[i];
            let root = row.active && row.height == TREE_DEPTH && row.position == 0;
            match best {
                Some(at) => {
                    proof {
                        assert(rows.take(i + 1)[at as int] == db.merkle_tree@[at as int]@);
                    }
                    if root && row.block_height >= db.merkle_tree[at].block_height {
                        best = Some(i);
                    }
                },
                None => {
                    if root {
                        best = Some(i);
                    }
                },
            }
            i += 1;
        }
        assert(rows.take(i as int) =~= rows);
        match best {
            Some(at) => {
                assert(rows[at as int] == db.merkle_tree@[at as int]@);
                Ok(copy_bytes(&db.merkle_tree[at].hash))
            },
            None => Err(Error::merkle_tree_error("the tree has no root")),
        }
    }

    /// Reverts the tree to the state before a block height: the rows of that
    /// height and of those above it no longer count, and the cache is
    /// emptied.
    pub fn revert(&mut self, db: &mut Database, block_height: i64) -> (res: Result<(), Error>)
        ensures
            res is Ok,
            final(self).cached() == Map::<i128, Seq<u8>>::empty(),
            final(db)@ == (DatabaseView {
                merkle_tree: reverted(old(db)@.merkle_tree, block_height),
                ..old(db)@
            }),
    {
        let ghost start = db@;
        let mut k: usize = 0;
        while k < db.merkle_tree.len()
            invariant
                0 <= k <= db.merkle_tree@.len(),
                db@.merkle_tree.len() == start.merkle_tree.len(),
                db@ == (DatabaseView { merkle_tree: db@.merkle_tree, ..start }),
                forall|m: int|
                    0 <= m < k ==> (#[trigger] db@.merkle_tree[m]) == reverted(
                        start.merkle_tree,
                        block_height,
                    )[m],
                forall|m: int|
                    k <= m < db@.merkle_tree.len() ==> (#[trigger] db@.merkle_tree[m])
                        == start.merkle_tree[m],
            decreases db.merkle_tree@.len() - k,
        {
            assert(db@.merkle_tree[k as int] == db.merkle_tree@[k as int]@);
            if db.merkle_tree[k].block_height >= block_height {
                let ghost before = db.merkle_tree@;
                let mut row = db.merkle_tree.remove(k);
                row.active = false;
                let ghost row_view = row@;
                db.merkle_tree.insert(k, row);
                proof {
                    assert(db.merkle_tree@ =~= before.update(k as int, db.merkle_tree@[k as int]));
                    assert(node_records(db.merkle_tree@) =~= node_records(before).update(
                        k as int,
                        row_view,
                    ));
                }
            }
            k += 1;
        }
        assert(db@.merkle_tree =~= reverted(start.merkle_tree, block_height));
        self.cache.clear();
        assert(self.cached() =~= Map::<i128, Seq<u8>>::empty());
        Ok(())
    }

    /// The number of active leaves.
    fn count_leaves(db: &Database) -> (n: usize)
        ensures
            n == leaf_count(db@.merkle_tree),
    {
        let ghost rows = db@.merkle_tree;
        let mut n: usize = 0;
        let mut i: usize = 0;
        while i < db.merkle_tree.len()
            invariant
                0 <= i <= db.merkle_tree@.len(),
                rows == db@.merkle_tree,
                n == leaf_count(rows.take(i as int)),
                n <= i,
            decreases db.merkle_tree@.len() - i,
        {
            proof {
                assert(rows.take(i + 1).drop_last() =~= rows.take(i as int));
                assert(rows.take(i + 1).last() == db.merkle_tree@[i as int]@);
            }
            if db.merkle_tree[i].active && db.merkle_tree[i].height == 0 {
                n += 1;
            }
            i += 1;
        }
        assert(rows.take(i as int) =~= rows);
        n
    }

    /// Appends a leaf for a commitment of a block and returns its path.
    ///
    /// The leaf takes the position after the active leaves. A row is added
    /// for the leaf and for every node above it up to the root; the path
    /// holds the sibling that was read at each height. Fails, and changes
    /// nothing, where the positions are used up.
    pub fn append(&mut self, db: &mut Database, block_height: i64, commitment: &[u8]) -> (res:
        Result<MerklePath, Error>)
        ensures
            final(self).cached() == old(self).cached(),
            if leaf_count(old(db)@.merkle_tree) < i64::MAX {
                let position = leaf_count(old(db)@.merkle_tree) as i64;
                let end = climb(
                    old(self).cached(),
                    old(db)@.merkle_tree.push(
                        NodeRecordView {
                            height: 0,
                            position,
                            hash: commitment@,
                            block_height,
                            active: true,
                        },
                    ),
                    Seq::empty(),
                    commitment@,
                    position,
                    0,
                    block_height,
                );
                &&& res is Ok
                &&& res->Ok_0.position == position
                &&& byte_string_views(res->Ok_0.authentication_path@) == end.1
                &&& final(db)@ == (DatabaseView { merkle_tree: end.0, ..old(db)@ })
            } else {
                res is Err && res->Err_0.kind() == ErrorKind::MerkleTree && final(db)@ == old(db)@
            },
    {
        let count = Self::count_leaves(db);
        if count as u64 >= i64::MAX as u64 {
            return Err(Error::merkle_tree_error("the positions of the tree are used up"));
        }
        let leaf_position: i64 = count as i64;
        let ghost start = db@;
        let ghost rows = db.merkle_tree@;
        let mut leaf_hash: Vec<u8> = Vec::new();
        put_raw(&mut leaf_hash, commitment);
        assert(leaf_hash@ =~= commitment@);
        let row = NodeRecord {
            height: 0,
            position: leaf_position,
            hash: leaf_hash,
            block_height,
            active: true,
        };
        let ghost row_view = row@;
        db.merkle_tree.push(row);
        assert(node_records(db.merkle_tree@) =~= node_records(rows).push(row_view));
        let ghost first = db@.merkle_tree;
        let mut current: Vec<u8> = Vec::new();
        put_raw(&mut current, commitment);
        assert(current@ =~= commitment@);
        let mut path: Vec<Vec<u8>> = Vec::new();
        let mut position: i64 = leaf_position;
        let mut height: i64 = 0;
        assert(byte_string_views(path@) =~= Seq::<Seq<u8>>::empty());
        while height < TREE_DEPTH
            invariant
                0 <= height <= TREE_DEPTH,
                0 <= position < i64::MAX,
                self.cached() == old(self).cached(),
                db@ == (DatabaseView { merkle_tree: db@.merkle_tree, ..start }),
                climb(
                    self.cached(),
                    first,
                    Seq::empty(),
                    commitment@,
                    leaf_position,
                    0,
                    block_height,
                ) == climb(
                    self.cached(),
                    db@.merkle_tree,
                    byte_string_views(path@),
                    current@,
                    position,
                    height,
                    block_height,
                ),
            decreases TREE_DEPTH - height,
        {
            let sibling_position = if position % 2 == 0 {
                position + 1
            } else {
                position - 1
            };
            let sibling = match self.find_hash(db, height, sibling_position) {
                Some(h) => h,
                None => zero_hash(),
            };
            let parent = if position % 2 == 0 {
                self.combine_hashes(current.as_slice(), sibling.as_slice())
            } else {
                self.combine_hashes(sibling.as_slice(), current.as_slice())
            };
            let ghost before_path = path@;
            let ghost sibling_view = sibling@;
            path.push(sibling);
            assert(byte_string_views(path@) =~= byte_string_views(before_path).push(sibling_view));
            position = position / 2;
            let ghost before_rows = db.merkle_tree@;
            let row = NodeRecord {
                height: height + 1,
                position,
                hash: copy_bytes(&parent),
                block_height,
                active: true,
            };
            let ghost row_view = row@;
            db.merkle_tree.push(row);
            assert(node_records(db.merkle_tree@) =~= node_records(before_rows).push(row_view));
            current = parent;
            height = height + 1;
        }
        Ok(MerklePath { authentication_path: path, position: leaf_position as u64 })
    }

    /// The digest of two hashes, one after the other.
    pub fn combine_hashes(&self, left: &[u8], right: &[u8]) -> (res: Vec<u8>)
        ensures
            res@ == combined(left@, right@),
    {
        let mut material: Vec<u8> = Vec::new();
        put_raw(&mut material, left);
        put_raw(&mut material, right);
        assert(material@ =~= left@ + right@);
        blake2b(material.as_slice())
    }

    /// Whether a path leads from a commitment to a root.
    pub fn verify_path(&self, commitment: &[u8], path: &MerklePath, root: &[u8]) -> (res: Result<
        bool,
        Error,
    >)
        ensures
            res is Ok,
            res->Ok_0 == (path_root(
                commitment@,
                byte_string_views(path.authentication_path@),
                path.position as int,
            ) == root@),
    {
        let ghost siblings = byte_string_views(path.authentication_path@);
        let mut current: Vec<u8> = Vec::new();
        put_raw(&mut current, commitment);
        assert(current@ =~= commitment@);
        let mut position = path.position;
        let mut i: usize = 0;
        assert(siblings.skip(0) =~= siblings);
        while i < path.authentication_path.len()
            invariant
                0 <= i <= path.authentication_path@.len(),
                siblings == byte_string_views(path.authentication_path@),
                path_root(commitment@, siblings, path.position as int) == path_root(
                    current@,
                    siblings.skip(i as int),
                    position as int,
                ),
            decreases path.authentication_path@.len() - i,
        {
            let sibling = &path.authentication_path[i];
            proof {
                assert(siblings.skip(i as int)[0] == sibling@);
                assert(siblings.skip(i as int).drop_first() =~= siblings.skip(i + 1));
            }
            current = if position % 2 == 0 {
                self.combine_hashes(current.as_slice(), sibling.as_slice())
            } else {
                self.combine_hashes(sibling.as_slice(), current.as_slice())
            };
            position = position / 2;
            i += 1;
        }
        Ok(same_bytes(current.as_slice(), root))
    }
}

} // verus!
