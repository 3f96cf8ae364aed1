//! Connecting a transaction of the block-and-hash chain to the store, and
//! taking it out again.

use vstd::prelude::*;
use crate::connect::copy_bytes;
use crate::database::{
    Database, DatabaseView, NoteRecord, NoteRecordView, NullifierRecord, NullifierRecordView,
    OutputRecord, OutputRecordView, TransactionRecord, TransactionRecordView, kept,
    lemma_kept_views, owned_by, note_records, nullifier_records, optional_bytes, output_records,
    remove_rows_of, transaction_records,
};
use crate::encoding::encoding;
use crate::error::{Error, ErrorKind};
use crate::primitives::{DIGEST_LEN, blake2b, blake2b_512};
use crate::transaction::{
    ShieldedNote, ShieldedNoteView, Transaction, TransactionView, TransparentOutputView,
};

verus! {

/// The hash of a transaction: the digest of its byte form.
pub open spec fn tx_hash(tx: TransactionView) -> Seq<u8> {
    blake2b_512(encoding(tx))
}

/// The rows of the transparent outputs of a transaction. All of them stand
/// under the id that is the digest of the transaction's hash.
pub open spec fn output_rows(outputs: Seq<TransparentOutputView>, h: Seq<u8>) -> Seq<
    OutputRecordView,
> {
    outputs.map_values(
        |o: TransparentOutputView|
            OutputRecordView {
                output_id: blake2b_512(h),
                tx_hash: h,
                address: o.address,
                amount: o.amount,
                spent: false,
            },
    )
}

/// The rows of the shielded outputs of a transaction, each at the place
/// that it has in the transaction.
pub open spec fn note_rows(notes: Seq<ShieldedNoteView>, h: Seq<u8>, height: i64) -> Seq<
    NoteRecordView,
> {
    Seq::new(
        notes.len(),
        |i: int|
            NoteRecordView {
                note: notes[i],
                tx_hash: h,
                block_height: height,
                merkle_position: i as i64,
            },
    )
}

/// The rows of the nullifiers of a transaction.
pub open spec fn nullifier_rows(nullifiers: Seq<Seq<u8>>, h: Seq<u8>, height: i64) -> Seq<
    NullifierRecordView,
> {
    nullifiers.map_values(
        |n: Seq<u8>| NullifierRecordView { nullifier: n, block_height: height, tx_hash: h },
    )
}

impl DatabaseView {
    /// The store with a transaction connected at a height: a row for the
    /// transaction, and rows for its transparent outputs, its shielded
    /// outputs and its nullifiers.
    pub open spec fn with_transaction(self, tx: TransactionView, height: i64) -> DatabaseView {
        let h = tx_hash(tx);
        DatabaseView {
            transactions: self.transactions.push(
                TransactionRecordView {
                    tx_hash: h,
                    block_height: height,
                    tx_type: tx.tx_type,
                    raw_data: encoding(tx),
                    proof_data: tx.proof,
                },
            ),
            transparent_outputs: self.transparent_outputs + output_rows(tx.transparent_outputs, h),
            shielded_notes: self.shielded_notes + note_rows(tx.shielded_outputs, h, height),
            nullifier_set: self.nullifier_set + nullifier_rows(tx.nullifiers, h, height),
            ..self
        }
    }

    /// The store without the rows of the transaction with the hash.
    pub open spec fn without_transaction(self, h: Seq<u8>) -> DatabaseView {
        DatabaseView {
            transactions: kept(self.transactions, transaction_row_of(h)),
            transparent_outputs: kept(self.transparent_outputs, output_row_of(h)),
            shielded_notes: kept(self.shielded_notes, note_row_of(h)),
            nullifier_set: kept(self.nullifier_set, nullifier_row_of(h)),
            ..self
        }
    }
}

pub open spec fn transaction_row_of(h: Seq<u8>) -> spec_fn(TransactionRecordView) -> bool {
    |r: TransactionRecordView| r.tx_hash == h
}

pub open spec fn output_row_of(h: Seq<u8>) -> spec_fn(OutputRecordView) -> bool {
    |r: OutputRecordView| r.tx_hash == h
}

pub open spec fn note_row_of(h: Seq<u8>) -> spec_fn(NoteRecordView) -> bool {
    |r: NoteRecordView| r.tx_hash == h
}

pub open spec fn nullifier_row_of(h: Seq<u8>) -> spec_fn(NullifierRecordView) -> bool {
    |r: NullifierRecordView| r.tx_hash == h
}

/// A copy of a byte string that may be absent.
pub fn copy_optional(b: &Option<Vec<u8>>) -> (res: Option<Vec<u8>>)
    ensures
        optional_bytes(res) == optional_bytes(*b),
{
    match b {
        Some(v) => Some(copy_bytes(v)),
        None => None,
    }
}

impl ShieldedNote {
    /// A copy of the note.
    pub fn duplicate(&self) -> (copy: ShieldedNote)
        ensures
            copy@ == self@,
    {
        ShieldedNote {
            commitment: copy_bytes(&self.commitment),
            ephemeral_key: copy_bytes(&self.ephemeral_key),
            amount: copy_bytes(&self.amount),
            memo: copy_optional(&self.memo),
        }
    }
}

impl Transaction {
    /// The hash of the transaction.
    pub fn calculate_hash(&self) -> (res: Result<Vec<u8>, Error>)
        ensures
            res is Ok,
            res->Ok_0@ == tx_hash(self@),
            res->Ok_0@.len() == DIGEST_LEN,
    {
        let bytes = self.raw_data();
        Ok(blake2b(bytes.as_slice()))
    }

    /// Connects the transaction to the store at a height.
    ///
    /// Fails, and changes nothing, where the transaction has more shielded
    /// outputs than a position can count.
    pub fn connect(&self, db: &mut Database, block_height: i64) -> (res: Result<(), Error>)
        ensures
            if self@.shielded_outputs.len() <= i64::MAX {
                res is Ok && final(db)@ == old(db)@.with_transaction(self@, block_height)
            } else {
                res is Err && res->Err_0.kind() == ErrorKind::InvalidTransaction && final(db)@
                    == old(db)@
            },
    {
        if self.shielded_outputs.len() as u64 > i64::MAX as u64 {
            return Err(Error::invalid_transaction("too many shielded outputs"));
        }
        let raw = self.raw_data();
        let hash = blake2b(raw.as_slice());
        let output_id = blake2b(hash.as_slice());
        let ghost h = tx_hash(self@);
        let ghost before = db@;
        let ghost tx_rows = db.transactions@;
        let row = TransactionRecord {
            tx_hash: copy_bytes(&hash),
            block_height,
            tx_type: self.tx_type,
            raw_data: raw,
            proof_data: copy_optional(&self.proof),
        };
        let ghost row_view = row@;
        db.transactions.push(row);
        assert(transaction_records(db.transactions@) =~= transaction_records(tx_rows).push(
            row_view,
        ));
        let ghost outs = output_rows(self@.transparent_outputs, h);
        let mut i: usize = 0;
        assert(db@.transparent_outputs =~= before.transparent_outputs + outs.take(0));
        while i < self.transparent_outputs.len()
            invariant
                0 <= i <= self.transparent_outputs@.len(),
                h == tx_hash(self@),
                hash@ == h,
                output_id@ == blake2b_512(h),
                outs == output_rows(self@.transparent_outputs, h),
                db@ == (DatabaseView {
                    transactions: before.with_transaction(self@, block_height).transactions,
                    transparent_outputs: before.transparent_outputs + outs.take(i as int),
                    ..before
                }),
            decreases self.transparent_outputs@.len() - i,
        {
            let ghost rows = db.transparent_outputs@;
            let o = &self.transparent_outputs[i];
            assert(self@.transparent_outputs[i as int] == o@);
            let row = OutputRecord {
                output_id: copy_bytes(&output_id),
                tx_hash: copy_bytes(&hash),
                address: o.address.duplicate(),
                amount: o.amount,
                spent: false,
            };
            let ghost row_view = row@;
            db.transparent_outputs.push(row);
            i += 1;
            proof {
                assert(output_records(db.transparent_outputs@) =~= output_records(rows).push(
                    row_view,
                ));
                assert(outs.take(i as int) =~= outs.take(i - 1).push(row_view));
                assert(db@.transparent_outputs =~= before.transparent_outputs + outs.take(
                    i as int,
                ));
            }
        }
        assert(outs.take(i as int) =~= outs);
        let ghost notes = note_rows(self@.shielded_outputs, h, block_height);
        let mut j: usize = 0;
        assert(db@.shielded_notes =~= before.shielded_notes + notes.take(0));
        while j < self.shielded_outputs.len()
            invariant
                0 <= j <= self.shielded_outputs@.len(),
                self.shielded_outputs@.len() <= i64::MAX,
                h == tx_hash(self@),
                hash@ == h,
                notes == note_rows(self@.shielded_outputs, h, block_height),
                db@ == (DatabaseView {
                    transactions: before.with_transaction(self@, block_height).transactions,
                    transparent_outputs: before.with_transaction(
                        self@,
                        block_height,
                    ).transparent_outputs,
                    shielded_notes: before.shielded_notes + notes.take(j as int),
                    ..before
                }),
            decreases self.shielded_outputs@.len() - j,
        {
            let ghost rows = db.shielded_notes@;
            let n = &self.shielded_outputs[j];
            assert(self@.shielded_outputs[j as int] == n@);
            let row = NoteRecord {
                note: n.duplicate(),
                tx_hash: copy_bytes(&hash),
                block_height,
                merkle_position: j as i64,
            };
            let ghost row_view = row@;
            db.shielded_notes.push(row);
            j += 1;
            proof {
                assert(note_records(db.shielded_notes@) =~= note_records(rows).push(row_view));
                assert(notes.take(j as int) =~= notes.take(j - 1).push(row_view));
                assert(db@.shielded_notes =~= before.shielded_notes + notes.take(j as int));
            }
        }
        assert(notes.take(j as int) =~= notes);
        let ghost nfs = nullifier_rows(self@.nullifiers, h, block_height);
        let mut k: usize = 0;
        assert(db@.nullifier_set =~= before.nullifier_set + nfs.take(0));
        while k < self.nullifiers.len()
            invariant
                0 <= k <= self.nullifiers@.len(),
                h == tx_hash(self@),
                hash@ == h,
                nfs == nullifier_rows(self@.nullifiers, h, block_height),
                db@ == (DatabaseView {
                    nullifier_set: before.nullifier_set + nfs.take(k as int),
                    ..before.with_transaction(self@, block_height)
                }),
            decreases self.nullifiers@.len() - k,
        {
            let ghost rows = db.nullifier_set@;
            assert(self@.nullifiers[k as int] == self.nullifiers@[k as int]@);
            let row = NullifierRecord {
                nullifier: copy_bytes(&self.nullifiers[k]),
                block_height,
                tx_hash: copy_bytes(&hash),
            };
            let ghost row_view = row@;
            db.nullifier_set.push(row);
            k += 1;
            proof {
                assert(nullifier_records(db.nullifier_set@) =~= nullifier_records(rows).push(
                    row_view,
                ));
                assert(nfs.take(k as int) =~= nfs.take(k - 1).push(row_view));
                assert(db@.nullifier_set =~= before.nullifier_set + nfs.take(k as int));
            }
        }
        assert(nfs.take(k as int) =~= nfs);
        Ok(())
    }

    /// Takes the rows of the transaction out of the store.
    pub fn disconnect(&self, db: &mut Database) -> (res: Result<(), Error>)
        ensures
            res is Ok,
            final(db)@ == old(db)@.without_transaction(tx_hash(self@)),
    {
        let raw = self.raw_data();
        let hash = blake2b(raw.as_slice());
        let ghost h = tx_hash(self@);
        proof {
            lemma_kept_views(
                db.nullifier_set@,
                owned_by::<NullifierRecord>(h),
                |r: NullifierRecord| r@,
                nullifier_row_of(h),
            );
            lemma_kept_views(
                db.shielded_notes@,
                owned_by::<NoteRecord>(h),
                |r: NoteRecord| r@,
                note_row_of(h),
            );
            lemma_kept_views(
                db.transparent_outputs@,
                owned_by::<OutputRecord>(h),
                |r: OutputRecord| r@,
                output_row_of(h),
            );
            lemma_kept_views(
                db.transactions@,
                owned_by::<TransactionRecord>(h),
                |r: TransactionRecord| r@,
                transaction_row_of(h),
            );
        }
        remove_rows_of(&mut db.nullifier_set, hash.as_slice());
        remove_rows_of(&mut db.shielded_notes, hash.as_slice());
        remove_rows_of(&mut db.transparent_outputs, hash.as_slice());
        remove_rows_of(&mut db.transactions, hash.as_slice());
        Ok(())
    }
}

} // verus!
