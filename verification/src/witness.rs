//! The stored witness of a note: the tree as it stood at the note, the hashes
//! filled in since, and the subtree that is being filled, as plain values.
//!
//! A witness is stored as three parts one after the other. A tree is its left
//! leaf, its right leaf and its list of parents; a hash that may be absent is
//! one byte, 0 or 1, followed by the hash where the byte is 1; a list is its
//! length as a 64-bit word followed by its items.

use vstd::prelude::*;
use crate::codec::{parse_items, parse_vec};
use crate::provider::TREE_DEPTH;
use crate::wire::{parse_hash, take_hash, take_u64};

verus! {

/// The most hashes that a witness may hold as filled: one for each level of
/// the tree.
pub const MAX_FILLED: usize = 32;

/// The most parents that the subtree being filled may hold: it is lower than
/// the tree.
pub const MAX_CURSOR_PARENTS: usize = 30;

/// A tree as stored: its two newest leaves and, level by level, the roots of
/// the full subtrees to their left.
#[derive(Debug, Clone)]
pub struct Tree {
    pub left: Option<[u8; 32]>,
    pub right: Option<[u8; 32]>,
    pub parents: Vec<Option<[u8; 32]>>,
}

pub struct TreeView {
    pub left: Option<Seq<u8>>,
    pub right: Option<Seq<u8>>,
    pub parents: Seq<Option<Seq<u8>>>,
}

/// The view of a hash that may be absent.
pub open spec fn optional_hash(h: Option<[u8; 32]>) -> Option<Seq<u8>> {
    match h {
        Some(x) => Some(x@),
        None => None,
    }
}

pub open spec fn optional_hashes(hs: Seq<Option<[u8; 32]>>) -> Seq<Option<Seq<u8>>> {
    hs.map_values(|h: Option<[u8; 32]>| optional_hash(h))
}

impl View for Tree {
    type V = TreeView;

    open spec fn view(&self) -> TreeView {
        TreeView {
            left: optional_hash(self.left),
            right: optional_hash(self.right),
            parents: optional_hashes(self.parents@),
        }
    }
}

/// A witness as stored.
#[derive(Debug, Clone)]
pub struct Witness {
    /// The tree as it stood when the note was its newest leaf.
    pub tree: Tree,
    /// The roots of the subtrees to the right of the note that are full.
    pub filled: Vec<[u8; 32]>,
    /// The subtree to the right of the note that is being filled.
    pub cursor: Option<Tree>,
}

pub struct WitnessView {
    pub tree: TreeView,
    pub filled: Seq<Seq<u8>>,
    pub cursor: Option<TreeView>,
}

impl View for Witness {
    type V = WitnessView;

    open spec fn view(&self) -> WitnessView {
        WitnessView {
            tree: self.tree@,
            filled: crate::types::hash_views(self.filled@),
            cursor: match self.cursor {
                Some(c) => Some(c@),
                None => None,
            },
        }
    }
}

/// The level that is reached by climbing the parents from the one at `i`,
/// where `skip` empty places are passed over: the level of the first empty
/// place that is not passed over, or, past the last parent, as many levels
/// further as places are left to pass over.
pub open spec fn climb(parents: Seq<Option<Seq<u8>>>, i: int, skip: int) -> int
    decreases parents.len() - i,
{
    if i < 0 || i >= parents.len() {
        i + 1 + skip
    } else if parents[i] is Some {
        climb(parents, i + 1, skip)
    } else if skip > 0 {
        climb(parents, i + 1, skip - 1)
    } else {
        i + 1
    }
}

impl WitnessView {
    /// The level of the subtree to the right of the note that is filled
    /// next: the first empty place of the tree, from the leaves up, that
    /// none of the filled hashes stands for.
    pub open spec fn next_depth(self) -> int {
        let skip = self.filled.len() as int;
        if self.tree.left is None && skip == 0 {
            0
        } else {
            let skip = if self.tree.left is None {
                skip - 1
            } else {
                skip
            };
            if self.tree.right is None && skip == 0 {
                0
            } else {
                climb(
                    self.tree.parents,
                    0,
                    if self.tree.right is None {
                        skip - 1
                    } else {
                        skip
                    },
                )
            }
        }
    }

    /// What a stored witness must meet before the tree code may work on it.
    ///
    /// The tree holds the note, so it has a left leaf, and it is lower than
    /// the tree of all notes. There is at most one filled hash for each
    /// level. Where a subtree is being filled, it stands above the leaves
    /// and below the root, and it is not full.
    pub open spec fn well_formed(self) -> bool {
        &&& self.tree.left is Some
        &&& self.tree.parents.len() < TREE_DEPTH
        &&& self.filled.len() <= MAX_FILLED
        &&& match self.cursor {
            Some(c) => {
                &&& 1 <= self.next_depth() < TREE_DEPTH
                &&& c.parents.len() <= MAX_CURSOR_PARENTS
            },
            None => true,
        }
    }
}

pub open spec fn parse_optional_hash(bytes: Seq<u8>, pos: int) -> Option<(Option<Seq<u8>>, int)> {
    if 0 <= pos < bytes.len() {
        if bytes[pos] == 0 {
            Some((None, pos + 1))
        } else if bytes[pos] == 1 {
            match parse_hash(bytes, pos + 1) {
                Some((h, end)) => Some((Some(h), end)),
                None => None,
            }
        } else {
            None
        }
    } else {
        None
    }
}

pub open spec fn optional_hash_parse() -> spec_fn(Seq<u8>, int) -> Option<(Option<Seq<u8>>, int)> {
    |bytes: Seq<u8>, pos: int| parse_optional_hash(bytes, pos)
}

pub open spec fn hash_parse() -> spec_fn(Seq<u8>, int) -> Option<(Seq<u8>, int)> {
    |bytes: Seq<u8>, pos: int| parse_hash(bytes, pos)
}

pub open spec fn parse_tree(bytes: Seq<u8>, pos: int) -> Option<(TreeView, int)> {
    match parse_optional_hash(bytes, pos) {
        Some((left, p1)) => match parse_optional_hash(bytes, p1) {
            Some((right, p2)) => match parse_vec(bytes, p2, optional_hash_parse()) {
                Some((parents, p3)) => Some((TreeView { left, right, parents }, p3)),
                None => None,
            },
            None => None,
        },
        None => None,
    }
}

pub open spec fn parse_optional_tree(bytes: Seq<u8>, pos: int) -> Option<(Option<TreeView>, int)> {
    if 0 <= pos < bytes.len() {
        if bytes[pos] == 0 {
            Some((None, pos + 1))
        } else if bytes[pos] == 1 {
            match parse_tree(bytes, pos + 1) {
                Some((t, end)) => Some((Some(t), end)),
                None => None,
            }
        } else {
            None
        }
    } else {
        None
    }
}

/// The witness that stored bytes begin with.
pub open spec fn parse_witness(bytes: Seq<u8>, pos: int) -> Option<(WitnessView, int)> {
    match parse_tree(bytes, pos) {
        Some((tree, p1)) => match parse_vec(bytes, p1, hash_parse()) {
            Some((filled, p2)) => match parse_optional_tree(bytes, p2) {
                Some((cursor, p3)) => Some((WitnessView { tree, filled, cursor }, p3)),
                None => None,
            },
            None => None,
        },
        None => None,
    }
}

/// Whether stored bytes hold a witness that the tree code may work on.
pub open spec fn stored_witness_ok(bytes: Seq<u8>) -> bool {
    parse_witness(bytes, 0) is Some && parse_witness(bytes, 0)->Some_0.0.well_formed()
}

fn take_optional_hash(bytes: &[u8], pos: usize) -> (res: Option<(Option<[u8; 32]>, usize)>)
    ensures
        match res {
            Some((h, end)) => parse_optional_hash(bytes@, pos as int) == Some(
                (optional_hash(h), end as int),
            ),
            None => parse_optional_hash(bytes@, pos as int) is None,
        },
{
    if pos >= bytes.len() {
        return None;
    }
    let tag = bytes[pos];
    if tag == 0 {
        Some((None, pos + 1))
    } else if tag == 1 {
        match take_hash(bytes, pos + 1) {
            Some((h, end)) => Some((Some(h), end)),
            None => None,
        }
    } else {
        None
    }
}

fn take_optional_hashes(bytes: &[u8], pos: usize) -> (res: Option<(Vec<Option<[u8; 32]>>, usize)>)
    ensures
        match res {
            Some((v, end)) => parse_vec(bytes@, pos as int, optional_hash_parse()) == Some(
                (optional_hashes(v@), end as int),
            ),
            None => parse_vec(bytes@, pos as int, optional_hash_parse()) is None,
        },
{
    let (n, start) = match take_u64(bytes, pos) {
        Some(x) => x,
        None => {
            return None;
        },
    };
    let mut v: Vec<Option<[u8; 32]>> = Vec::new();
    let mut cur: usize = start;
    let mut i: u64 = 0;
    assert(optional_hashes(v@) =~= Seq::<Option<Seq<u8>>>::empty());
    while i < n
        invariant
            0 <= i <= n,
            parse_vec(bytes@, pos as int, optional_hash_parse()) == parse_items(
                bytes@,
                cur as int,
                (n - i) as nat,
                optional_hashes(v@),
                optional_hash_parse(),
            ),
        decreases n - i,
    {
        match take_optional_hash(bytes, cur) {
            Some((h, next)) => {
                let ghost before = v@;
                v.push(h);
                assert(optional_hashes(v@) =~= optional_hashes(before).push(optional_hash(h)));
                cur = next;
                i += 1;
            },
            None => {
                return None;
            },
        }
    }
    Some((v, cur))
}

fn take_hashes(bytes: &[u8], pos: usize) -> (res: Option<(Vec<[u8; 32]>, usize)>)
    ensures
        match res {
            Some((v, end)) => parse_vec(bytes@, pos as int, hash_parse()) == Some(
                (crate::types::hash_views(v@), end as int),
            ),
            None => parse_vec(bytes@, pos as int, hash_parse()) is None,
        },
{
    let (n, start) = match take_u64(bytes, pos) {
        Some(x) => x,
        None => {
            return None;
        },
    };
    let mut v: Vec<[u8; 32]> = Vec::new();
    let mut cur: usize = start;
    let mut i: u64 = 0;
    assert(crate::types::hash_views(v@) =~= Seq::<Seq<u8>>::empty());
    while i < n
        invariant
            0 <= i <= n,
            parse_vec(bytes@, pos as int, hash_parse()) == parse_items(
                bytes@,
                cur as int,
                (n - i) as nat,
                crate::types::hash_views(v@),
                hash_parse(),
            ),
        decreases n - i,
    {
        match take_hash(bytes, cur) {
            Some((h, next)) => {
                let ghost before = v@;
                v.push(h);
                assert(crate::types::hash_views(v@) =~= crate::types::hash_views(before).push(h@));
                cur = next;
                i += 1;
            },
            None => {
                return None;
            },
        }
    }
    Some((v, cur))
}

fn take_tree(bytes: &[u8], pos: usize) -> (res: Option<(Tree, usize)>)
    ensures
        match res {
            Some((t, end)) => parse_tree(bytes@, pos as int) == Some((t@, end as int)),
            None => parse_tree(bytes@, pos as int) is None,
        },
{
    let (left, p1) = match take_optional_hash(bytes, pos) {
        Some(x) => x,
        None => {
            return None;
        },
    };
    let (right, p2) = match take_optional_hash(bytes, p1) {
        Some(x) => x,
        None => {
            return None;
        },
    };
    let (parents, p3) = match take_optional_hashes(bytes, p2) {
        Some(x) => x,
        None => {
            return None;
        },
    };
    Some((Tree { left, right, parents }, p3))
}

fn take_optional_tree(bytes: &[u8], pos: usize) -> (res: Option<(Option<Tree>, usize)>)
    ensures
        match res {
            Some((t, end)) => parse_optional_tree(bytes@, pos as int) == Some(
                (
                    match t {
                        Some(tree) => Some(tree@),
                        None => None,
                    },
                    end as int,
                ),
            ),
            None => parse_optional_tree(bytes@, pos as int) is None,
        },
{
    if pos >= bytes.len() {
        return None;
    }
    let tag = bytes[pos];
    if tag == 0 {
        Some((None, pos + 1))
    } else if tag == 1 {
        match take_tree(bytes, pos + 1) {
            Some((t, end)) => Some((Some(t), end)),
            None => None,
        }
    } else {
        None
    }
}

impl Witness {
    /// Reads a witness from the front of stored bytes; `None` where the
    /// bytes do not hold one.
    pub fn from_stored(bytes: &[u8]) -> (res: Option<Witness>)
        ensures
            match res {
                Some(w) => parse_witness(bytes@, 0) is Some && parse_witness(bytes@, 0)->Some_0.0
                    == w@,
                None => parse_witness(bytes@, 0) is None,
            },
    {
        let (tree, p1) = match take_tree(bytes, 0) {
            Some(x) => x,
            None => {
                return None;
            },
        };
        let (filled, p2) = match take_hashes(bytes, p1) {
            Some(x) => x,
            None => {
                return None;
            },
        };
        let (cursor, _) = match take_optional_tree(bytes, p2) {
            Some(x) => x,
            None => {
                return None;
            },
        };
        Some(Witness { tree, filled, cursor })
    }

    /// The level of the subtree that is filled next.
    fn next_depth(&self) -> (d: usize)
        requires
            self@.tree.parents.len() < TREE_DEPTH,
            self@.filled.len() <= MAX_FILLED,
        ensures
            d == self@.next_depth(),
    {
        let mut skip: usize = self.filled.len();
        if self.tree.left.is_none() {
            if skip == 0 {
                return 0;
            }
            skip -= 1;
        }
        if self.tree.right.is_none() {
            if skip == 0 {
                return 0;
            }
            skip -= 1;
        }
        let ghost parents = self@.tree.parents;
        let mut i: usize = 0;
        while i < self.tree.parents.len()
            invariant
                0 <= i <= self.tree.parents@.len(),
                parents == self@.tree.parents,
                parents.len() < TREE_DEPTH,
                skip <= MAX_FILLED,
                self@.next_depth() == climb(parents, i as int, skip as int),
            decreases self.tree.parents@.len() - i,
        {
            assert(parents[i as int] == optional_hash(self.tree.parents@[i as int]));
            assert(parents[i as int] is Some <==> self.tree.parents@[i as int] is Some);
            if self.tree.parents[i].is_none() {
                if skip == 0 {
                    assert(climb(parents, i as int, 0) == i + 1);
                    return i + 1;
                }
                skip -= 1;
            }
            i += 1;
        }
        assert(climb(parents, i as int, skip as int) == i + 1 + skip);
        i + 1 + skip
    }

    /// Whether the tree code may work on the witness.
    pub fn is_well_formed(&self) -> (ok: bool)
        ensures
            ok == self@.well_formed(),
    {
        if self.tree.left.is_none() || self.tree.parents.len() >= TREE_DEPTH as usize
            || self.filled.len() > MAX_FILLED {
            return false;
        }
        match &self.cursor {
            Some(c) => {
                let d = self.next_depth();
                1 <= d && d < TREE_DEPTH as usize && c.parents.len() <= MAX_CURSOR_PARENTS
            },
            None => true,
        }
    }
}

/// Whether stored bytes hold a witness that the tree code may work on.
pub fn check_stored_witness(bytes: &[u8]) -> (ok: bool)
    ensures
        ok == stored_witness_ok(bytes@),
{
    match Witness::from_stored(bytes) {
        Some(w) => w.is_well_formed(),
        None => false,
    }
}

} // verus!
