//! The commands of the wallet and what each of them does to the store.

use vstd::prelude::*;
use crate::db::{Db, DbView, ShieldedOutput, total_note_value, total_utxo_value, utxo_value, max_utxo_id};
use crate::error::{Error, ErrorKind};
use crate::mine::mined;
use crate::provider::{base58check_encoded, phrase_decodes};
use crate::types::Output;
use crate::wallet::{
    built_from, listed_notes, next_address, parsed_recipient, request_spec, request_taken,
    submit_spec, witnesses_decode,
};

verus! {

/// A command line: one command.
#[derive(Debug)]
pub struct Cli {
    pub command: Commands,
}

/// The commands.
#[derive(Debug)]
pub enum Commands {
    /// Report what is staged and what the wallet holds.
    Wallet,
    /// Stage a new transparent output.
    CreateUtxo { value: u64 },
    /// Stage an existing transparent output as an input.
    SpendUtxo { utxo_id: u32 },
    /// Stage a new note, to a fresh address of the wallet where no recipient
    /// is given.
    CreateNote { value: u64, recipient: Option<String> },
    /// Stage a note of the wallet as a shielded input.
    SpendNote { note_id: u32 },
    /// Turn what is staged into a pending transaction.
    SubmitTxn,
    /// Discard what is staged.
    ClearTxn,
    /// Mine a block from the pending transactions.
    Mine,
    /// Tell the twelve words of the wallet's seed.
    GetMnemonic,
    /// Hand out a new shielded address.
    GetNewAddress,
    /// Tell the totals of the two pools.
    ValuePools,
    /// Create a transparent output out of thin air.
    ConjureUtxo { value: u64 },
    /// List the unspent outputs and the notes of the wallet.
    GetUtxos,
}

/// What is staged and what the wallet holds.
#[derive(Debug)]
pub struct WalletReport {
    pub inputs: Vec<u32>,
    pub outputs: Vec<Output>,
    pub shielded_inputs: Vec<u32>,
    pub shielded_outputs: Vec<ShieldedOutput>,
    pub transparent_total: u64,
    pub shielded_total: u64,
}

/// What a command answers.
#[derive(Debug)]
pub enum Reply {
    /// The command was carried out and has nothing to tell.
    Done,
    Wallet(WalletReport),
    Mnemonic(String),
    /// A shielded address, raw and in base58check.
    Address([u8; 43], String),
    /// The transparent total and the shielded total.
    Pools(u64, u64),
    /// The unspent outputs, each with its id and value, and the notes of
    /// the wallet, each with its id and value.
    Utxos(Vec<(u32, u64)>, Vec<(u32, u64)>),
}

/// Whether a result is the refusal of the given kind.
pub open spec fn refused(res: Result<Reply, Error>, kind: ErrorKind) -> bool {
    res is Err && res->Err_0.kind() == kind
}

/// Whether a result is the plain success.
pub open spec fn done(res: Result<Reply, Error>) -> bool {
    res is Ok && res->Ok_0 is Done
}

/// The totals of the two pools, where each fits in 64 bits.
pub open spec fn pool_totals(s: DbView) -> Option<(u64, u64)> {
    if total_utxo_value(s.utxos) <= u64::MAX && total_note_value(s.notes) <= u64::MAX {
        Some((total_utxo_value(s.utxos) as u64, total_note_value(s.notes) as u64))
    } else {
        None
    }
}

/// What carrying out a command means: the answer and the store after it,
/// given the store before it.
pub open spec fn executed(
    before: DbView,
    command: Commands,
    res: Result<Reply, Error>,
    after: DbView,
) -> bool {
    match command {
        Commands::Wallet => after == before && match pool_totals(before) {
            Some((transparent, shielded)) => res is Ok && res->Ok_0 is Wallet && {
                let report = res->Ok_0->Wallet_0;
                &&& report.inputs@ == before.inputs
                &&& crate::types::output_values(report.outputs@) == before.outputs
                &&& report.shielded_inputs@ == before.shielded_inputs
                &&& crate::db::shielded_output_views(report.shielded_outputs@)
                    == before.shielded_outputs
                &&& report.transparent_total == transparent
                &&& report.shielded_total == shielded
            },
            None => refused(res, ErrorKind::State),
        },
        Commands::CreateUtxo { value } => done(res) && after == (DbView {
            outputs: before.outputs.push(value),
            ..before
        }),
        Commands::SpendUtxo { utxo_id } => match utxo_value(before.utxos, utxo_id) {
            Some(_) => done(res) && after == (DbView {
                inputs: before.inputs.push(utxo_id),
                ..before
            }),
            None => refused(res, ErrorKind::State) && after == before,
        },
        Commands::CreateNote { value, recipient } => match recipient {
            Some(text) => match parsed_recipient(text@) {
                Some(raw) => done(res) && after == (DbView {
                    shielded_outputs: before.shielded_outputs.push(
                        crate::db::ShieldedOutputView { recipient: raw, value },
                    ),
                    ..before
                }),
                None => refused(res, ErrorKind::InvalidAddress) && after == before,
            },
            None => match next_address(before) {
                Ok(raw) => done(res) && after == (DbView {
                    addresses: before.addresses.push(raw),
                    shielded_outputs: before.shielded_outputs.push(
                        crate::db::ShieldedOutputView { recipient: raw, value },
                    ),
                    ..before
                }),
                Err(kind) => refused(res, kind) && after == before,
            },
        },
        Commands::SpendNote { note_id } => if 1 <= note_id <= before.notes.len() {
            done(res) && after == (DbView {
                shielded_inputs: before.shielded_inputs.push(note_id),
                ..before
            })
        } else {
            refused(res, ErrorKind::State) && after == before
        },
        Commands::SubmitTxn => {
            &&& res is Err ==> after == before
            &&& res is Ok ==> res->Ok_0 is Done
            &&& match request_spec(before) {
                Err(kind) => refused(res, kind),
                Ok(request) => if request.spends.len() == 0 && request.outputs.len() == 0 {
                    done(res) && after == submit_spec(before, None)
                } else {
                    &&& res is Err ==> res->Err_0.kind() == ErrorKind::Crypto
                    &&& !request_taken(request) ==> res is Err
                    &&& res is Ok ==> exists|bundle: (Seq<crate::types::ActionView>, i64)|
                        after == #[trigger] submit_spec(before, Some(bundle)) && built_from(
                            request,
                            bundle,
                        )
                },
            }
        },
        Commands::ClearTxn => done(res) && after == before.cleared(),
        Commands::Mine => match mined(before) {
            Ok(next) => done(res) && after == next,
            Err(kind) => refused(res, kind) && after == before,
        },
        Commands::GetMnemonic => after == before && match before.wallet_seed {
            Some(phrase) => if phrase_decodes(phrase) {
                res is Ok && res->Ok_0 is Mnemonic && res->Ok_0->Mnemonic_0@ == phrase
            } else {
                refused(res, ErrorKind::Crypto)
            },
            None => refused(res, ErrorKind::State),
        },
        Commands::GetNewAddress => match next_address(before) {
            Ok(raw) => res is Ok && res->Ok_0 is Address && res->Ok_0->Address_0@ == raw
                && res->Ok_0->Address_1@ == base58check_encoded(raw) && after == (DbView {
                addresses: before.addresses.push(raw),
                ..before
            }),
            Err(kind) => refused(res, kind) && after == before,
        },
        Commands::ValuePools => after == before && match pool_totals(before) {
            Some((transparent, shielded)) => res is Ok && res->Ok_0 is Pools
                && res->Ok_0->Pools_0 == transparent && res->Ok_0->Pools_1 == shielded,
            None => refused(res, ErrorKind::State),
        },
        Commands::ConjureUtxo { value } => if max_utxo_id(before.utxos) < u32::MAX {
            done(res) && after == before.with_utxo(value)
        } else {
            refused(res, ErrorKind::State) && after == before
        },
        Commands::GetUtxos => after == before && if witnesses_decode(before) {
            res is Ok && res->Ok_0 is Utxos && {
                let utxos = res->Ok_0->Utxos_0@;
                let notes = res->Ok_0->Utxos_1@;
                &&& utxos.len() == before.utxos.len()
                &&& forall|i: int|
                    0 <= i < utxos.len() ==> #[trigger] utxos[i] == (
                        before.utxos[i].id,
                        before.utxos[i].value,
                    )
                &&& notes.len() == listed_notes(before)
                &&& forall|i: int|
                    0 <= i < notes.len() ==> #[trigger] notes[i] == (
                        (i + 1) as u32,
                        before.notes[i].note.value,
                    )
            }
        } else {
            refused(res, ErrorKind::Serialization)
        },
    }
}

impl Db {
    /// The totals of the two pools.
    pub fn value_pools(&self) -> (res: Result<(u64, u64), Error>)
        ensures
            match pool_totals(self@) {
                Some(totals) => res == Ok::<(u64, u64), Error>(totals),
                None => res is Err && res->Err_0.kind() == ErrorKind::State,
            },
    {
        let transparent = match self.get_total_transparent_value() {
            Ok(t) => t,
            Err(e) => {
                return Err(e);
            },
        };
        let shielded = match self.get_total_shielded_value() {
            Ok(s) => s,
            Err(e) => {
                return Err(e);
            },
        };
        Ok((transparent, shielded))
    }

    /// Carries out a command.
    pub fn execute(&mut self, command: Commands) -> (res: Result<Reply, Error>)
        ensures
            executed(old(self)@, command, res, final(self)@),
    {
        match command {
            Commands::Wallet => {
                let (transparent_total, shielded_total) = match self.value_pools() {
                    Ok(t) => t,
                    Err(e) => {
                        return Err(e);
                    },
                };
                Ok(
                    Reply::Wallet(
                        WalletReport {
                            inputs: self.get_inputs(),
                            outputs: self.get_outputs(),
                            shielded_inputs: self.get_shielded_inputs(),
                            shielded_outputs: self.get_shielded_outputs(),
                            transparent_total,
                            shielded_total,
                        },
                    ),
                )
            },
            Commands::CreateUtxo { value } => {
                self.create_utxo(value);
                Ok(Reply::Done)
            },
            Commands::SpendUtxo { utxo_id } => match self.spend_utxo(utxo_id) {
                Ok(()) => Ok(Reply::Done),
                Err(e) => Err(e),
            },
            Commands::CreateNote { value, recipient } => match self.create_note(recipient, value) {
                Ok(()) => Ok(Reply::Done),
                Err(e) => Err(e),
            },
            Commands::SpendNote { note_id } => match self.spend_note(note_id) {
                Ok(()) => Ok(Reply::Done),
                Err(e) => Err(e),
            },
            Commands::SubmitTxn => match self.submit_transaction() {
                Ok(()) => Ok(Reply::Done),
                Err(e) => Err(e),
            },
            Commands::ClearTxn => {
                self.clear_transaction();
                Ok(Reply::Done)
            },
            Commands::Mine => match self.mine() {
                Ok(()) => Ok(Reply::Done),
                Err(e) => Err(e),
            },
            Commands::GetMnemonic => match self.get_mnemonic() {
                Ok(phrase) => Ok(Reply::Mnemonic(phrase)),
                Err(e) => Err(e),
            },
            Commands::GetNewAddress => match self.get_new_address() {
                Ok(raw) => {
                    let text = Db::encode_address(&raw);
                    Ok(Reply::Address(raw, text))
                },
                Err(e) => Err(e),
            },
            Commands::ValuePools => match self.value_pools() {
                Ok((transparent, shielded)) => Ok(Reply::Pools(transparent, shielded)),
                Err(e) => Err(e),
            },
            Commands::ConjureUtxo { value } => match self.conjure_utxo(value) {
                Ok(()) => Ok(Reply::Done),
                Err(e) => Err(e),
            },
            Commands::GetUtxos => {
                let utxos = self.get_utxos();
                let rows = match self.get_wallet_notes() {
                    Ok(r) => r,
                    Err(e) => {
                        return Err(e);
                    },
                };
                let mut notes: Vec<(u32, u64)> = Vec::new();
                let mut i: usize = 0;
                while i < rows.len()
                    invariant
                        0 <= i <= rows@.len(),
                        notes@.len() == i,
                        rows@.len() <= self@.notes.len(),
                        forall|k: int|
                            0 <= k < rows@.len() ==> {
                                &&& (#[trigger] rows@[k]).0 == k + 1
                                &&& rows@[k].1@ == self@.notes[k].note
                            },
                        forall|k: int|
                            0 <= k < i ==> #[trigger] notes@[k] == (
                                (k + 1) as u32,
                                self@.notes[k].note.value,
                            ),
                    decreases rows@.len() - i,
                {
                    notes.push((rows[i].0, rows[i].1.value));
                    i += 1;
                }
                Ok(Reply::Utxos(utxos, notes))
            },
        }
    }
}

} // verus!
