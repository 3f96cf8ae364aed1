//! The nullifier set of the block-and-hash chain: a cache over the table of
//! revealed nullifiers that refuses a nullifier it already holds.

use vstd::prelude::*;
use crate::block::contains_bytes;
use crate::connect::copy_bytes;
use crate::database::{
    Database, DatabaseView, NullifierRecord, NullifierRecordView, kept, lemma_kept_step,
    lemma_kept_views, nullifier_records, same_bytes,
};
use crate::error::{Error, ErrorKind};
use crate::transaction::byte_string_views;

verus! {

/// A set of nullifiers held in memory.
pub struct NullifierSet {
    cache: Vec<Vec<u8>>,
}

/// Tells the rows of a nullifier.
pub open spec fn row_of_nullifier(nullifier: Seq<u8>) -> spec_fn(NullifierRecordView) -> bool {
    |r: NullifierRecordView| r.nullifier == nullifier
}

/// Tells the rows of a block height and of those above it.
pub open spec fn row_from_height(height: i64) -> spec_fn(NullifierRecordView) -> bool {
    |r: NullifierRecordView| r.block_height >= height
}

/// The nullifiers of the rows at a block height, in their order.
pub open spec fn nullifiers_at(rows: Seq<NullifierRecordView>, height: i64) -> Seq<Seq<u8>>
    decreases rows.len(),
{
    if rows.len() == 0 {
        Seq::empty()
    } else if rows.last().block_height == height {
        nullifiers_at(rows.drop_last(), height).push(rows.last().nullifier)
    } else {
        nullifiers_at(rows.drop_last(), height)
    }
}

/// The nullifiers of the rows at a block height and above it, in their
/// order.
pub open spec fn nullifiers_from(rows: Seq<NullifierRecordView>, height: i64) -> Seq<Seq<u8>>
    decreases rows.len(),
{
    if rows.len() == 0 {
        Seq::empty()
    } else if rows.last().block_height >= height {
        nullifiers_from(rows.drop_last(), height).push(rows.last().nullifier)
    } else {
        nullifiers_from(rows.drop_last(), height)
    }
}

/// Whether a list of byte strings holds an item.
pub open spec fn lists(list: Seq<Seq<u8>>, item: Seq<u8>) -> bool {
    exists|k: int| 0 <= k < list.len() && #[trigger] list[k] == item
}

impl NullifierSet {
    /// Whether the set holds the nullifier.
    pub closed spec fn holds(&self, nullifier: Seq<u8>) -> bool {
        lists(byte_string_views(self.cache@), nullifier)
    }

    /// An empty set.
    pub fn new() -> (set: NullifierSet)
        ensures
            forall|n: Seq<u8>| !set.holds(n),
    {
        NullifierSet { cache: Vec::new() }
    }

    /// Whether the set holds the nullifier.
    pub fn contains(&self, nullifier: &[u8]) -> (found: bool)
        ensures
            found == self.holds(nullifier@),
    {
        contains_bytes(&self.cache, nullifier)
    }

    /// Puts a nullifier into the cache unless it is there.
    fn remember(&mut self, nullifier: &Vec<u8>)
        ensures
            forall|n: Seq<u8>| final(self).holds(n) == (old(self).holds(n) || n == nullifier@),
    {
        if !contains_bytes(&self.cache, nullifier.as_slice()) {
            let ghost before = byte_string_views(self.cache@);
            self.cache.push(copy_bytes(nullifier));
            proof {
                let after = byte_string_views(self.cache@);
                assert(after =~= before.push(nullifier@));
                assert forall|n: Seq<u8>| lists(after, n) == (lists(before, n) || n
                    == nullifier@) by {
                    if lists(before, n) {
                        let k = choose|k: int| 0 <= k < before.len() && #[trigger] before[k] == n;
                        assert(after[k] == n);
                    }
                    if n == nullifier@ {
                        assert(after[before.len() as int] == n);
                    }
                    if lists(after, n) {
                        let k = choose|k: int| 0 <= k < after.len() && #[trigger] after[k] == n;
                        if k < before.len() {
                            assert(before[k] == n);
                        }
                    }
                }
            }
        }
    }

    /// Takes a nullifier out of the cache.
    fn forget(&mut self, nullifier: &[u8])
        ensures
            forall|n: Seq<u8>| final(self).holds(n) == (old(self).holds(n) && n != nullifier@),
    {
        let ghost orig = byte_string_views(self.cache@);
        let mut i: usize = 0;
        while i < self.cache.len()
            invariant
                0 <= i <= self.cache@.len(),
                forall|k: int| 0 <= k < i ==> #[trigger] byte_string_views(self.cache@)[k] != nullifier@,
                forall|n: Seq<u8>|
                    n != nullifier@ ==> (lists(byte_string_views(self.cache@), n) == lists(
                        orig,
                        n,
                    )),
            decreases self.cache@.len() - i,
        {
            let ghost before = byte_string_views(self.cache@);
            assert(before[i as int] == self.cache@[i as int]@);
            if same_bytes(self.cache[i].as_slice(), nullifier) {
                self.cache.remove(i);
                proof {
                    let after = byte_string_views(self.cache@);
                    assert(after =~= before.remove(i as int));
                    assert forall|n: Seq<u8>| n != nullifier@ implies (lists(after, n) == lists(
                        before,
                        n,
                    )) by {
                        if lists(before, n) {
                            let k = choose|k: int|
                                0 <= k < before.len() && #[trigger] before[k] == n;
                            if k < i {
                                assert(after[k] == n);
                            } else {
                                assert(after[k - 1] == n);
                            }
                        }
                        if lists(after, n) {
                            let k = choose|k: int|
                                0 <= k < after.len() && #[trigger] after[k] == n;
                            if k < i {
                                assert(before[k] == n);
                            } else {
                                assert(before[k + 1] == n);
                            }
                        }
                    }
                }
            } else {
                i += 1;
            }
        }
        proof {
            let after = byte_string_views(self.cache@);
            assert(!lists(after, nullifier@));
        }
    }

    /// Loads every nullifier of the store into the set.
    pub fn initialize(&mut self, db: &Database) -> (res: Result<(), Error>)
        ensures
            res is Ok,
            forall|n: Seq<u8>|
                final(self).holds(n) == (old(self).holds(n) || db@.has_nullifier(n)),
    {
        let mut i: usize = 0;
        while i < db.nullifier_set.len()
            invariant
                0 <= i <= db.nullifier_set@.len(),
                forall|n: Seq<u8>|
                    self.holds(n) == (old(self).holds(n) || exists|k: int|
                        0 <= k < i && (#[trigger] db@.nullifier_set[k]).nullifier == n),
            decreases db.nullifier_set@.len() - i,
        {
            assert(db@.nullifier_set[i as int] == db.nullifier_set@[i as int]@);
            self.remember(&db.nullifier_set[i].nullifier);
            i += 1;
            proof {
                assert forall|n: Seq<u8>|
                    self.holds(n) == (old(self).holds(n) || exists|k: int|
                        0 <= k < i && (#[trigger] db@.nullifier_set[k]).nullifier == n) by {
                    if n == db@.nullifier_set[i - 1].nullifier {
                        assert(db@.nullifier_set[i - 1].nullifier == n);
                    }
                    if exists|k: int|
                        0 <= k < i && (#[trigger] db@.nullifier_set[k]).nullifier == n {
                        let k = choose|k: int|
                            0 <= k < i && (#[trigger] db@.nullifier_set[k]).nullifier == n;
                        if k < i - 1 {
                            assert(db@.nullifier_set[k].nullifier == n);
                        }
                    }
                }
            }
        }
        Ok(())
    }

    /// Adds a nullifier that a transaction of a block reveals, to the set
    /// and to the store. Fails, and changes nothing, where the set holds it
    /// already.
    pub fn add(
        &mut self,
        db: &mut Database,
        nullifier: Vec<u8>,
        block_height: i64,
        tx_hash: &[u8],
    ) -> (res: Result<(), Error>)
        ensures
            if old(self).holds(nullifier@) {
                &&& res is Err
                &&& res->Err_0.kind() == ErrorKind::Nullifier
                &&& final(db)@ == old(db)@
                &&& forall|n: Seq<u8>| final(self).holds(n) == old(self).holds(n)
            } else {
                &&& res is Ok
                &&& final(db)@ == (DatabaseView {
                    nullifier_set: old(db)@.nullifier_set.push(
                        NullifierRecordView {
                            nullifier: nullifier@,
                            block_height,
                            tx_hash: tx_hash@,
                        },
                    ),
                    ..old(db)@
                })
                &&& forall|n: Seq<u8>|
                    final(self).holds(n) == (old(self).holds(n) || n == nullifier@)
            },
    {
        if self.contains(nullifier.as_slice()) {
            return Err(Error::nullifier_error("Nullifier already exists"));
        }
        let mut owner: Vec<u8> = Vec::new();
        crate::wire::put_raw(&mut owner, tx_hash);
        assert(owner@ =~= tx_hash@);
        self.remember(&nullifier);
        let ghost rows = db.nullifier_set@;
        let row = NullifierRecord { nullifier, block_height, tx_hash: owner };
        let ghost row_view = row@;
        db.nullifier_set.push(row);
        assert(nullifier_records(db.nullifier_set@) =~= nullifier_records(rows).push(row_view));
        Ok(())
    }

    /// Removes a nullifier from the set and its rows from the store.
    pub fn remove(&mut self, db: &mut Database, nullifier: &[u8]) -> (res: Result<(), Error>)
        ensures
            res is Ok,
            final(db)@ == (DatabaseView {
                nullifier_set: kept(old(db)@.nullifier_set, row_of_nullifier(nullifier@)),
                ..old(db)@
            }),
            forall|n: Seq<u8>| final(self).holds(n) == (old(self).holds(n) && n != nullifier@),
    {
        let ghost orig = db.nullifier_set@;
        let ghost drop = |r: NullifierRecord| r.nullifier@ == nullifier@;
        let mut i: usize = 0;
        let ghost mut k: int = 0;
        proof {
            assert(orig.skip(0) =~= orig);
            assert(db.nullifier_set@ =~= kept(orig.take(0), drop) + orig.skip(0));
        }
        while i < db.nullifier_set.len()
            invariant
                0 <= k <= orig.len(),
                i == kept(orig.take(k), drop).len(),
                db.nullifier_set@ == kept(orig.take(k), drop) + orig.skip(k),
                drop == (|r: NullifierRecord| r.nullifier@ == nullifier@),
                db@ == (DatabaseView { nullifier_set: db@.nullifier_set, ..old(db)@ }),
            decreases orig.len() - k,
        {
            proof {
                lemma_kept_step(orig, drop, k);
                assert(db.nullifier_set@[i as int] == orig[k]);
            }
            if same_bytes(db.nullifier_set[i].nullifier.as_slice(), nullifier) {
                db.nullifier_set.remove(i);
                proof {
                    assert(db.nullifier_set@ =~= kept(orig.take(k + 1), drop) + orig.skip(k + 1));
                    k = k + 1;
                }
            } else {
                i += 1;
                proof {
                    assert(db.nullifier_set@ =~= kept(orig.take(k + 1), drop) + orig.skip(k + 1));
                    k = k + 1;
                }
            }
        }
        proof {
            assert(k == orig.len()) by {
                if k < orig.len() {
                    assert(db.nullifier_set@.len() == i + (orig.len() - k));
                }
            }
            assert(orig.take(k) =~= orig);
            assert(db.nullifier_set@ =~= kept(orig, drop));
            lemma_kept_views(
                orig,
                drop,
                |r: NullifierRecord| r@,
                row_of_nullifier(nullifier@),
            );
        }
        self.forget(nullifier);
        Ok(())
    }

    /// The nullifiers that the store holds for a block height.
    pub fn get_block_nullifiers(&self, db: &Database, block_height: i64) -> (res: Result<
        Vec<Vec<u8>>,
        Error,
    >)
        ensures
            res is Ok,
            byte_string_views(res->Ok_0@) == nullifiers_at(db@.nullifier_set, block_height),
    {
        let ghost rows = db@.nullifier_set;
        let mut found: Vec<Vec<u8>> = Vec::new();
        let mut i: usize = 0;
        assert(byte_string_views(found@) =~= nullifiers_at(rows.take(0), block_height));
        while i < db.nullifier_set.len()
            invariant
                0 <= i <= db.nullifier_set@.len(),
                rows == db@.nullifier_set,
                byte_string_views(found@) == nullifiers_at(rows.take(i as int), block_height),
            decreases db.nullifier_set@.len() - i,
        {
            proof {
                assert(rows.take(i + 1).drop_last() =~= rows.take(i as int));
                assert(rows.take(i + 1).last() == db.nullifier_set@[i as int]@);
            }
            if db.nullifier_set[i].block_height == block_height {
                let ghost before = found@;
                let copy = copy_bytes(&db.nullifier_set[i].nullifier);
                found.push(copy);
                assert(byte_string_views(found@) =~= byte_string_views(before).push(copy@));
            }
            i += 1;
        }
        assert(rows.take(i as int) =~= rows);
        Ok(found)
    }

    /// The nullifiers that the store holds for a block height and for those
    /// above it.
    fn nullifiers_from_height(db: &Database, block_height: i64) -> (found: Vec<Vec<u8>>)
        ensures
            byte_string_views(found@) == nullifiers_from(db@.nullifier_set, block_height),
    {
        let ghost rows = db@.nullifier_set;
        let mut found: Vec<Vec<u8>> = Vec::new();
        let mut i: usize = 0;
        assert(byte_string_views(found@) =~= nullifiers_from(rows.take(0), block_height));
        while i < db.nullifier_set.len()
            invariant
                0 <= i <= db.nullifier_set@.len(),
                rows == db@.nullifier_set,
                byte_string_views(found@) == nullifiers_from(rows.take(i as int), block_height),
            decreases db.nullifier_set@.len() - i,
        {
            proof {
                assert(rows.take(i + 1).drop_last() =~= rows.take(i as int));
                assert(rows.take(i + 1).last() == db.nullifier_set@[i as int]@);
            }
            if db.nullifier_set[i].block_height >= block_height {
                let ghost before = found@;
                let copy = copy_bytes(&db.nullifier_set[i].nullifier);
                found.push(copy);
                assert(byte_string_views(found@) =~= byte_string_views(before).push(copy@));
            }
            i += 1;
        }
        assert(rows.take(i as int) =~= rows);
        found
    }

    /// Reverts to the state before a block height: the rows of that height
    /// and of those above it leave the store, and their nullifiers leave the
    /// set, so that set and store stay in step.
    pub fn revert(&mut self, db: &mut Database, block_height: i64) -> (res: Result<(), Error>)
        ensures
            res is Ok,
            final(db)@ == (DatabaseView {
                nullifier_set: kept(old(db)@.nullifier_set, row_from_height(block_height)),
                ..old(db)@
            }),
            forall|n: Seq<u8>|
                final(self).holds(n) == (old(self).holds(n) && !lists(
                    nullifiers_from(old(db)@.nullifier_set, block_height),
                    n,
                )),
    {
        let gone = Self::nullifiers_from_height(db, block_height);
        let ghost orig = db.nullifier_set@;
        let ghost drop = |r: NullifierRecord| r.block_height >= block_height;
        let mut i: usize = 0;
        let ghost mut k: int = 0;
        proof {
            assert(orig.skip(0) =~= orig);
            assert(db.nullifier_set@ =~= kept(orig.take(0), drop) + orig.skip(0));
        }
        while i < db.nullifier_set.len()
            invariant
                0 <= k <= orig.len(),
                i == kept(orig.take(k), drop).len(),
                db.nullifier_set@ == kept(orig.take(k), drop) + orig.skip(k),
                drop == (|r: NullifierRecord| r.block_height >= block_height),
                db@ == (DatabaseView { nullifier_set: db@.nullifier_set, ..old(db)@ }),
            decreases orig.len() - k,
        {
            proof {
                lemma_kept_step(orig, drop, k);
                assert(db.nullifier_set@[i as int] == orig[k]);
            }
            if db.nullifier_set[i].block_height >= block_height {
                db.nullifier_set.remove(i);
                proof {
                    assert(db.nullifier_set@ =~= kept(orig.take(k + 1), drop) + orig.skip(k + 1));
                    k = k + 1;
                }
            } else {
                i += 1;
                proof {
                    assert(db.nullifier_set@ =~= kept(orig.take(k + 1), drop) + orig.skip(k + 1));
                    k = k + 1;
                }
            }
        }
        proof {
            assert(k == orig.len()) by {
                if k < orig.len() {
                    assert(db.nullifier_set@.len() == i + (orig.len() - k));
                }
            }
            assert(orig.take(k) =~= orig);
            assert(db.nullifier_set@ =~= kept(orig, drop));
            lemma_kept_views(orig, drop, |r: NullifierRecord| r@, row_from_height(block_height));
        }
        let ghost list = byte_string_views(gone@);
        let mut j: usize = 0;
        while j < gone.len()
            invariant
                0 <= j <= gone@.len(),
                list == byte_string_views(gone@),
                forall|n: Seq<u8>|
                    self.holds(n) == (old(self).holds(n) && !lists(list.take(j as int), n)),
            decreases gone@.len() - j,
        {
            assert(list[j as int] == gone@[j as int]@);
            self.forget(gone[j].as_slice());
            j += 1;
            proof {
                assert forall|n: Seq<u8>|
                    self.holds(n) == (old(self).holds(n) && !lists(list.take(j as int), n)) by {
                    if lists(list.take(j as int), n) {
                        let k = choose|k: int|
                            0 <= k < list.take(j as int).len() && #[trigger] list.take(
                                j as int,
                            )[k] == n;
                        if k < j - 1 {
                            assert(list.take(j - 1)[k] == n);
                        }
                    }
                    if lists(list.take(j - 1), n) {
                        let k = choose|k: int|
                            0 <= k < list.take(j - 1).len() && #[trigger] list.take(j - 1)[k]
                                == n;
                        assert(list.take(j as int)[k] == n);
                    }
                    if n == list[j - 1] {
                        assert(list.take(j as int)[j - 1] == n);
                    }
                }
            }
        }
        assert(list.take(j as int) =~= list);
        Ok(())
    }

    /// Empties the set and loads it again from the store.
    pub fn reload(&mut self, db: &Database) -> (res: Result<(), Error>)
        ensures
            res is Ok,
            forall|n: Seq<u8>| final(self).holds(n) == db@.has_nullifier(n),
    {
        self.cache = Vec::new();
        assert(forall|n: Seq<u8>| !self.holds(n));
        self.initialize(db)
    }
}

} // verus!
