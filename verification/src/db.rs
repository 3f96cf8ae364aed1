//! The ledger store: every table of the ledger as plain rows, and the
//! operations of the mempool workspace and of the wallet view on them.
//!
//! A [`Db`] is the whole persisted state held in memory. Every operation is a
//! function from one state to the next; one that fails leaves the state as it
//! found it, which is what a rolled-back store transaction does.

use vstd::prelude::*;
use crate::error::{Error, ErrorKind};
use crate::types::{Note, NoteView, Output};

verus! {

/// An unspent transparent output.
#[derive(Clone, Copy, Debug, PartialEq, Eq, Structural)]
pub struct Utxo {
    pub id: u32,
    pub value: u64,
}

/// A note of the wallet with its stored witness. Its id is its place in the
/// table, counted from one.
#[derive(Debug, Clone)]
pub struct WalletNote {
    pub note: Note,
    pub witness: Vec<u8>,
}

pub struct WalletNoteView {
    pub note: NoteView,
    pub witness: Seq<u8>,
}

impl View for WalletNote {
    type V = WalletNoteView;

    open spec fn view(&self) -> WalletNoteView {
        WalletNoteView { note: self.note@, witness: self.witness@ }
    }
}

/// A connected block as stored: the fee it collected, the frontier of the
/// note-commitment tree after it, and its serialized body. Its id is its place
/// in the table, counted from one.
#[derive(Debug, Clone)]
pub struct BlockRow {
    pub fee: u64,
    pub frontier: Option<Vec<u8>>,
    pub body: Vec<u8>,
}

pub struct BlockRowView {
    pub fee: u64,
    pub frontier: Option<Seq<u8>>,
    pub body: Seq<u8>,
}

impl View for BlockRow {
    type V = BlockRowView;

    open spec fn view(&self) -> BlockRowView {
        BlockRowView {
            fee: self.fee,
            frontier: match self.frontier {
                Some(f) => Some(f@),
                None => None,
            },
            body: self.body@,
        }
    }
}

/// A staged shielded output.
#[derive(Clone, Copy, Debug)]
pub struct ShieldedOutput {
    pub recipient: [u8; 43],
    pub value: u64,
}

pub struct ShieldedOutputView {
    pub recipient: Seq<u8>,
    pub value: u64,
}

impl View for ShieldedOutput {
    type V = ShieldedOutputView;

    open spec fn view(&self) -> ShieldedOutputView {
        ShieldedOutputView { recipient: self.recipient@, value: self.value }
    }
}

/// The ledger store.
#[derive(Debug, Clone)]
pub struct Db {
    /// Unspent transparent outputs.
    pub utxos: Vec<Utxo>,
    /// Notes that the wallet owns, in the order of their discovery.
    pub notes: Vec<WalletNote>,
    /// The mnemonic phrase of the wallet, once it has one.
    pub wallet_seed: Option<String>,
    /// Shielded addresses handed out; the address at place `k` has index
    /// `k + 1`.
    pub addresses: Vec<[u8; 43]>,
    /// Every nullifier revealed by a connected block.
    pub nullifiers: Vec<[u8; 32]>,
    /// Serialized transactions that wait for a block.
    pub transactions: Vec<Vec<u8>>,
    /// The connected blocks, oldest first.
    pub blocks: Vec<BlockRow>,
    /// Staged transparent inputs, by id.
    pub inputs: Vec<u32>,
    /// Staged transparent outputs, by value.
    pub outputs: Vec<u64>,
    /// Staged shielded inputs, by note id.
    pub shielded_inputs: Vec<u32>,
    /// Staged shielded outputs.
    pub shielded_outputs: Vec<ShieldedOutput>,
}

/// The ledger store as a mathematical value.
pub struct DbView {
    pub utxos: Seq<Utxo>,
    pub notes: Seq<WalletNoteView>,
    pub wallet_seed: Option<Seq<char>>,
    pub addresses: Seq<Seq<u8>>,
    pub nullifiers: Seq<Seq<u8>>,
    pub transactions: Seq<Seq<u8>>,
    pub blocks: Seq<BlockRowView>,
    pub inputs: Seq<u32>,
    pub outputs: Seq<u64>,
    pub shielded_inputs: Seq<u32>,
    pub shielded_outputs: Seq<ShieldedOutputView>,
}

pub open spec fn note_row_views(rows: Seq<WalletNote>) -> Seq<WalletNoteView> {
    rows.map_values(|r: WalletNote| r@)
}

pub open spec fn block_row_views(rows: Seq<BlockRow>) -> Seq<BlockRowView> {
    rows.map_values(|r: BlockRow| r@)
}

pub open spec fn address_views(rows: Seq<[u8; 43]>) -> Seq<Seq<u8>> {
    rows.map_values(|r: [u8; 43]| r@)
}

pub open spec fn blob_views(rows: Seq<Vec<u8>>) -> Seq<Seq<u8>> {
    rows.map_values(|r: Vec<u8>| r@)
}

pub open spec fn shielded_output_views(rows: Seq<ShieldedOutput>) -> Seq<ShieldedOutputView> {
    rows.map_values(|r: ShieldedOutput| r@)
}

impl View for Db {
    type V = DbView;

    open spec fn view(&self) -> DbView {
        DbView {
            utxos: self.utxos@,
            notes: note_row_views(self.notes@),
            wallet_seed: match self.wallet_seed {
                Some(p) => Some(p@),
                None => None,
            },
            addresses: address_views(self.addresses@),
            nullifiers: crate::types::hash_views(self.nullifiers@),
            transactions: blob_views(self.transactions@),
            blocks: block_row_views(self.blocks@),
            inputs: self.inputs@,
            outputs: self.outputs@,
            shielded_inputs: self.shielded_inputs@,
            shielded_outputs: shielded_output_views(self.shielded_outputs@),
        }
    }
}

/// The largest id among `utxos`; zero where there is none.
pub open spec fn max_utxo_id(utxos: Seq<Utxo>) -> int
    decreases utxos.len(),
{
    if utxos.len() == 0 {
        0
    } else {
        let rest = max_utxo_id(utxos.drop_last());
        if utxos.last().id > rest {
            utxos.last().id as int
        } else {
            rest
        }
    }
}

/// The value of the first unspent output with the given id.
pub open spec fn utxo_value(utxos: Seq<Utxo>, id: u32) -> Option<u64>
    decreases utxos.len(),
{
    if utxos.len() == 0 {
        None
    } else if utxos[0].id == id {
        Some(utxos[0].value)
    } else {
        utxo_value(utxos.drop_first(), id)
    }
}

/// The rows of `utxos` whose id is not `id`, in their order.
pub open spec fn without_utxo(utxos: Seq<Utxo>, id: u32) -> Seq<Utxo>
    decreases utxos.len(),
{
    if utxos.len() == 0 {
        utxos
    } else if utxos.last().id == id {
        without_utxo(utxos.drop_last(), id)
    } else {
        without_utxo(utxos.drop_last(), id).push(utxos.last())
    }
}

/// The sum of the values of `utxos`.
pub open spec fn total_utxo_value(utxos: Seq<Utxo>) -> int
    decreases utxos.len(),
{
    if utxos.len() == 0 {
        0
    } else {
        total_utxo_value(utxos.drop_last()) + utxos.last().value
    }
}

/// The sum of the values of `notes`.
pub open spec fn total_note_value(notes: Seq<WalletNoteView>) -> int
    decreases notes.len(),
{
    if notes.len() == 0 {
        0
    } else {
        total_note_value(notes.drop_last()) + notes.last().note.value
    }
}

impl DbView {
    /// The store with nothing in it and no seed.
    pub open spec fn empty() -> DbView {
        DbView {
            utxos: Seq::empty(),
            notes: Seq::empty(),
            wallet_seed: None,
            addresses: Seq::empty(),
            nullifiers: Seq::empty(),
            transactions: Seq::empty(),
            blocks: Seq::empty(),
            inputs: Seq::empty(),
            outputs: Seq::empty(),
            shielded_inputs: Seq::empty(),
            shielded_outputs: Seq::empty(),
        }
    }

    /// The store with its four mempool tables wiped.
    pub open spec fn cleared(self) -> DbView {
        DbView {
            inputs: Seq::empty(),
            outputs: Seq::empty(),
            shielded_inputs: Seq::empty(),
            shielded_outputs: Seq::empty(),
            ..self
        }
    }

    /// Whether nothing is staged.
    pub open spec fn mempool_is_empty(self) -> bool {
        &&& self.inputs.len() == 0
        &&& self.outputs.len() == 0
        &&& self.shielded_inputs.len() == 0
        &&& self.shielded_outputs.len() == 0
    }

    /// The store with one more unspent output of the given value, under the
    /// id after the largest one in use.
    pub open spec fn with_utxo(self, value: u64) -> DbView {
        DbView {
            utxos: self.utxos.push(Utxo { id: (max_utxo_id(self.utxos) + 1) as u32, value }),
            ..self
        }
    }
}

impl Db {
    /// A store with empty tables and no seed.
    pub fn empty() -> (db: Db)
        ensures
            db@ == DbView::empty(),
    {
        let db = Db {
            utxos: Vec::new(),
            notes: Vec::new(),
            wallet_seed: None,
            addresses: Vec::new(),
            nullifiers: Vec::new(),
            transactions: Vec::new(),
            blocks: Vec::new(),
            inputs: Vec::new(),
            outputs: Vec::new(),
            shielded_inputs: Vec::new(),
            shielded_outputs: Vec::new(),
        };
        assert(db@.notes =~= Seq::empty());
        assert(db@.addresses =~= Seq::empty());
        assert(db@.nullifiers =~= Seq::empty());
        assert(db@.transactions =~= Seq::empty());
        assert(db@.blocks =~= Seq::empty());
        assert(db@.shielded_outputs =~= Seq::empty());
        db
    }

    /// The staged transparent inputs.
    pub fn get_inputs(&self) -> (res: Vec<u32>)
        ensures
            res@ == self@.inputs,
    {
        let mut res: Vec<u32> = Vec::new();
        let mut i: usize = 0;
        while i < self.inputs.len()
            invariant
                0 <= i <= self.inputs@.len(),
                res@ == self.inputs@.take(i as int),
            decreases self.inputs@.len() - i,
        {
            res.push(self.inputs[i]);
            i += 1;
            assert(res@ =~= self.inputs@.take(i as int));
        }
        assert(self.inputs@.take(i as int) =~= self.inputs@);
        res
    }

    /// The staged transparent outputs.
    pub fn get_outputs(&self) -> (res: Vec<Output>)
        ensures
            crate::types::output_values(res@) == self@.outputs,
    {
        let mut res: Vec<Output> = Vec::new();
        let mut i: usize = 0;
        while i < self.outputs.len()
            invariant
                0 <= i <= self.outputs@.len(),
                res@.len() == i,
                crate::types::output_values(res@) == self.outputs@.take(i as int),
            decreases self.outputs@.len() - i,
        {
            let ghost before = res@;
            res.push(Output { value: self.outputs[i] });
            i += 1;
            assert(crate::types::output_values(res@) =~= crate::types::output_values(before).push(
                self.outputs@[i - 1],
            ));
            assert(crate::types::output_values(res@) =~= self.outputs@.take(i as int));
        }
        assert(self.outputs@.take(i as int) =~= self.outputs@);
        res
    }

    /// The staged shielded inputs.
    pub fn get_shielded_inputs(&self) -> (res: Vec<u32>)
        ensures
            res@ == self@.shielded_inputs,
    {
        let mut res: Vec<u32> = Vec::new();
        let mut i: usize = 0;
        while i < self.shielded_inputs.len()
            invariant
                0 <= i <= self.shielded_inputs@.len(),
                res@ == self.shielded_inputs@.take(i as int),
            decreases self.shielded_inputs@.len() - i,
        {
            res.push(self.shielded_inputs[i]);
            i += 1;
            assert(res@ =~= self.shielded_inputs@.take(i as int));
        }
        assert(self.shielded_inputs@.take(i as int) =~= self.shielded_inputs@);
        res
    }

    /// The staged shielded outputs.
    pub fn get_shielded_outputs(&self) -> (res: Vec<ShieldedOutput>)
        ensures
            shielded_output_views(res@) == self@.shielded_outputs,
    {
        let mut res: Vec<ShieldedOutput> = Vec::new();
        let mut i: usize = 0;
        while i < self.shielded_outputs.len()
            invariant
                0 <= i <= self.shielded_outputs@.len(),
                res@ == self.shielded_outputs@.take(i as int),
            decreases self.shielded_outputs@.len() - i,
        {
            res.push(self.shielded_outputs[i]);
            i += 1;
            assert(res@ =~= self.shielded_outputs@.take(i as int));
        }
        assert(self.shielded_outputs@.take(i as int) =~= self.shielded_outputs@);
        res
    }

    /// Stages a transparent output of the given value.
    pub fn create_utxo(&mut self, value: u64)
        ensures
            final(self)@ == (DbView { outputs: old(self)@.outputs.push(value), ..old(self)@ }),
    {
        self.outputs.push(value);
    }

    /// The largest id in use among the unspent outputs; zero where there is
    /// none.
    pub fn last_utxo_id(&self) -> (id: u32)
        ensures
            id == max_utxo_id(self@.utxos),
    {
        crate::connect::largest_id(&self.utxos)
    }

    /// The value of the unspent output with the given id.
    pub fn get_utxo_value(&self, id: u32) -> (res: Result<u64, Error>)
        ensures
            match utxo_value(self@.utxos, id) {
                Some(v) => res == Ok::<u64, Error>(v),
                None => res is Err && res->Err_0.kind() == ErrorKind::State,
            },
    {
        let mut i: usize = 0;
        assert(self.utxos@.skip(0) =~= self.utxos@);
        while i < self.utxos.len()
            invariant
                0 <= i <= self.utxos@.len(),
                utxo_value(self.utxos@, id) == utxo_value(self.utxos@.skip(i as int), id),
            decreases self.utxos@.len() - i,
        {
            if self.utxos[i].id == id {
                return Ok(self.utxos[i].value);
            }
            assert(self.utxos@.skip(i as int).drop_first() =~= self.utxos@.skip(i + 1));
            i += 1;
        }
        Err(Error::state_error("no unspent output has this id"))
    }

    /// Stages the unspent output with the given id as an input.
    pub fn spend_utxo(&mut self, utxo_id: u32) -> (res: Result<(), Error>)
        ensures
            match utxo_value(old(self)@.utxos, utxo_id) {
                Some(_) => res is Ok && final(self)@ == (DbView {
                    inputs: old(self)@.inputs.push(utxo_id),
                    ..old(self)@
                }),
                None => res is Err && res->Err_0.kind() == ErrorKind::State && final(self)@ == old(
                    self,
                )@,
            },
    {
        match self.get_utxo_value(utxo_id) {
            Ok(_) => {
                self.inputs.push(utxo_id);
                Ok(())
            },
            Err(e) => Err(e),
        }
    }

    /// Stages the wallet note with the given id as a shielded input.
    pub fn spend_note(&mut self, note_id: u32) -> (res: Result<(), Error>)
        ensures
            if 1 <= note_id <= old(self)@.notes.len() {
                res is Ok && final(self)@ == (DbView {
                    shielded_inputs: old(self)@.shielded_inputs.push(note_id),
                    ..old(self)@
                })
            } else {
                res is Err && res->Err_0.kind() == ErrorKind::State && final(self)@ == old(self)@
            },
    {
        if note_id >= 1 && note_id as usize <= self.notes.len() {
            self.shielded_inputs.push(note_id);
            Ok(())
        } else {
            Err(Error::state_error("no wallet note has this id"))
        }
    }

    /// Discards everything that is staged.
    pub fn clear_transaction(&mut self)
        ensures
            final(self)@ == old(self)@.cleared(),
    {
        self.inputs = Vec::new();
        self.outputs = Vec::new();
        self.shielded_inputs = Vec::new();
        self.shielded_outputs = Vec::new();
        assert(self@.shielded_outputs =~= Seq::empty());
    }

    /// Adds an unspent output of the given value out of thin air, under the
    /// id after the largest one in use. Fails where the ids are used up.
    pub fn conjure_utxo(&mut self, value: u64) -> (res: Result<(), Error>)
        ensures
            if max_utxo_id(old(self)@.utxos) < u32::MAX {
                res is Ok && final(self)@ == old(self)@.with_utxo(value)
            } else {
                res is Err && res->Err_0.kind() == ErrorKind::State && final(self)@ == old(self)@
            },
    {
        let last = self.last_utxo_id();
        if last == u32::MAX {
            return Err(Error::state_error("the ids of unspent outputs are used up"));
        }
        self.utxos.push(Utxo { id: last + 1, value });
        Ok(())
    }

    /// The unspent outputs, each as its id and its value.
    pub fn get_utxos(&self) -> (res: Vec<(u32, u64)>)
        ensures
            res@.len() == self@.utxos.len(),
            forall|i: int|
                0 <= i < res@.len() ==> #[trigger] res@[i] == (
                    self@.utxos[i].id,
                    self@.utxos[i].value,
                ),
    {
        let mut res: Vec<(u32, u64)> = Vec::new();
        let mut i: usize = 0;
        while i < self.utxos.len()
            invariant
                0 <= i <= self.utxos@.len(),
                res@.len() == i,
                forall|k: int|
                    0 <= k < i ==> #[trigger] res@[k] == (self.utxos@[k].id, self.utxos@[k].value),
            decreases self.utxos@.len() - i,
        {
            res.push((self.utxos[i].id, self.utxos[i].value));
            i += 1;
        }
        res
    }

    /// The sum of the values of the unspent outputs. Fails where the sum does
    /// not fit in 64 bits.
    pub fn get_total_transparent_value(&self) -> (res: Result<u64, Error>)
        ensures
            if total_utxo_value(self@.utxos) <= u64::MAX {
                res is Ok && res->Ok_0 == total_utxo_value(self@.utxos)
            } else {
                res is Err && res->Err_0.kind() == ErrorKind::State
            },
    {
        let mut total: u64 = 0;
        let mut i: usize = 0;
        while i < self.utxos.len()
            invariant
                0 <= i <= self.utxos@.len(),
                total == total_utxo_value(self.utxos@.take(i as int)),
            decreases self.utxos@.len() - i,
        {
            let v = self.utxos[i].value;
            proof {
                assert(self.utxos@.take(i + 1).drop_last() =~= self.utxos@.take(i as int));
                lemma_total_utxo_value_monotone(self.utxos@, i + 1);
            }
            if v > u64::MAX - total {
                return Err(Error::state_error("the transparent total does not fit in 64 bits"));
            }
            total = total + v;
            i += 1;
        }
        assert(self.utxos@.take(i as int) =~= self.utxos@);
        Ok(total)
    }

    /// The sum of the values of the wallet's notes. Fails where the sum does
    /// not fit in 64 bits.
    pub fn get_total_shielded_value(&self) -> (res: Result<u64, Error>)
        ensures
            if total_note_value(self@.notes) <= u64::MAX {
                res is Ok && res->Ok_0 == total_note_value(self@.notes)
            } else {
                res is Err && res->Err_0.kind() == ErrorKind::State
            },
    {
        let mut total: u64 = 0;
        let mut i: usize = 0;
        while i < self.notes.len()
            invariant
                0 <= i <= self.notes@.len(),
                total == total_note_value(self@.notes.take(i as int)),
            decreases self.notes@.len() - i,
        {
            let v = self.notes[i].note.value;
            proof {
                assert(self@.notes.take(i + 1).drop_last() =~= self@.notes.take(i as int));
                assert(self@.notes.take(i + 1).last() == self.notes@[i as int]@);
                lemma_total_note_value_monotone(self@.notes, i + 1);
            }
            if v > u64::MAX - total {
                return Err(Error::state_error("the shielded total does not fit in 64 bits"));
            }
            total = total + v;
            i += 1;
        }
        assert(self@.notes.take(i as int) =~= self@.notes);
        Ok(total)
    }
}

/// The total of a front part of a table is at most the total of the table.
pub proof fn lemma_total_utxo_value_monotone(utxos: Seq<Utxo>, n: int)
    requires
        0 <= n <= utxos.len(),
    ensures
        0 <= total_utxo_value(utxos.take(n)) <= total_utxo_value(utxos),
    decreases utxos.len() - n,
{
    lemma_total_utxo_value_nonnegative(utxos.take(n));
    if n == utxos.len() {
        assert(utxos.take(n) =~= utxos);
    } else {
        lemma_total_utxo_value_monotone(utxos, n + 1);
        assert(utxos.take(n + 1).drop_last() =~= utxos.take(n));
    }
}

pub proof fn lemma_total_utxo_value_nonnegative(utxos: Seq<Utxo>)
    ensures
        0 <= total_utxo_value(utxos),
    decreases utxos.len(),
{
    if utxos.len() > 0 {
        lemma_total_utxo_value_nonnegative(utxos.drop_last());
    }
}

/// The total of a front part of a table is at most the total of the table.
pub proof fn lemma_total_note_value_monotone(notes: Seq<WalletNoteView>, n: int)
    requires
        0 <= n <= notes.len(),
    ensures
        0 <= total_note_value(notes.take(n)) <= total_note_value(notes),
    decreases notes.len() - n,
{
    lemma_total_note_value_nonnegative(notes.take(n));
    if n == notes.len() {
        assert(notes.take(n) =~= notes);
    } else {
        lemma_total_note_value_monotone(notes, n + 1);
        assert(notes.take(n + 1).drop_last() =~= notes.take(n));
    }
}

pub proof fn lemma_total_note_value_nonnegative(notes: Seq<WalletNoteView>)
    ensures
        0 <= total_note_value(notes),
    decreases notes.len(),
{
    if notes.len() > 0 {
        lemma_total_note_value_nonnegative(notes.drop_last());
    }
}

} // verus!
