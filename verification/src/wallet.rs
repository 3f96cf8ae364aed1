//! The wallet view: the seed, the sequence of shielded addresses, the notes
//! of the wallet, and the shielded side of the mempool workspace.

use vstd::prelude::*;
use crate::chain::anchor_of;
use crate::codec::enc_transaction;
use crate::db::{
    Db, DbView, ShieldedOutput, ShieldedOutputView, WalletNote, WalletNoteView, address_views,
    blob_views, note_row_views, shielded_output_views,
};
use crate::error::{Error, ErrorKind};
use crate::provider::{
    FLAGS_ENABLED, KeyScope, MIN_ACTIONS, SpendView, address_decodes, address_is_valid,
    anchor_taken, auth_path_of, base58check_decode, bundle_size, incoming_key_of, notes_for_key,
    outputs_value, scoped_address, seed_viewing_key, spend_taken, spends_value, base58check_decoded, base58check_encode, base58check_encoded,
    builder_add_output, builder_add_spend, builder_anchor, builder_finish, builder_outputs,
    builder_spends, builder_start, fresh_phrase, phrase_decodes, phrase_is_valid,
    wallet_address, wallet_viewing_key, witness_path,
};
use crate::witness::{Witness, check_stored_witness, parse_witness, stored_witness_ok};
use orchard::builder::Builder;
use crate::types::{
    Action, ActionView, Note, NoteView, Output, Transaction, TransactionView, action_views,
    hash_views, output_values,
};

verus! {

/// The coin type under which the wallet derives its keys.
pub const COIN_TYPE: u32 = 0;

/// The account of the wallet.
pub const ACCOUNT: u32 = 0;

/// Whether a bundle is built where nothing shielded is staged: it is not.
pub const BUNDLE_REQUIRED: bool = false;

/// The scope of the addresses that the wallet hands out and reads notes for.
pub const WALLET_SCOPE: KeyScope = KeyScope::External;

/// The full viewing key, in bytes, of the wallet that `phrase` seeds: that
/// of its account, derived without a password.
pub open spec fn viewing_key_of(phrase: Seq<char>) -> Option<Seq<u8>> {
    seed_viewing_key(phrase, Seq::<char>::empty(), COIN_TYPE, ACCOUNT)
}

/// The raw address of a full viewing key at a diversifier index, in the
/// wallet's scope.
pub open spec fn address_at_index(fvk: Seq<u8>, index: u32) -> Option<Seq<u8>> {
    scoped_address(fvk, index, WALLET_SCOPE)
}

/// What the wallet's incoming viewing key decrypts in the bundle of the
/// given actions, value balance and anchor: for each output that decrypts,
/// the index of its action and its note, in the order of the actions. `None`
/// where the key gives no incoming key or the bundle cannot be read.
pub open spec fn decrypted_notes(
    actions: Seq<ActionView>,
    value_balance: i64,
    anchor: Seq<u8>,
    fvk: Seq<u8>,
) -> Option<Seq<(usize, NoteView)>> {
    match incoming_key_of(fvk, WALLET_SCOPE) {
        Some(ivk) => notes_for_key(actions, value_balance, anchor, ivk),
        None => None,
    }
}

/// The first byte of a memo that says that there is no memo.
pub const NO_MEMO: u8 = 0xf6;

/// The transaction that the staged transparent rows and a bundle make.
pub open spec fn packaged(s: DbView, bundle: Option<(Seq<ActionView>, i64)>) -> TransactionView {
    match bundle {
        Some((actions, value_balance)) => TransactionView {
            inputs: s.inputs,
            outputs: s.outputs,
            actions,
            value_balance_orchard: value_balance,
        },
        None => TransactionView {
            inputs: s.inputs,
            outputs: s.outputs,
            actions: Seq::empty(),
            value_balance_orchard: 0,
        },
    }
}

/// Submitting on the mathematical model: the packaged transaction joins the
/// pending ones, and the mempool is wiped.
pub open spec fn submit_spec(s: DbView, bundle: Option<(Seq<ActionView>, i64)>) -> DbView {
    DbView {
        transactions: s.transactions.push(enc_transaction(packaged(s, bundle))),
        ..s.cleared()
    }
}

/// The view of a bundle that may be absent.
pub open spec fn bundle_view(bundle: Option<(Vec<Action>, i64)>) -> Option<(Seq<ActionView>, i64)> {
    match bundle {
        Some((actions, value_balance)) => Some((action_views(actions@), value_balance)),
        None => None,
    }
}

/// The next shielded address of the wallet on the mathematical model: the
/// address of the seed's viewing key, in the wallet's scope, at the index
/// after the number of addresses handed out. An address that was handed out
/// before is not handed out again: the provider gives a new address at each
/// index, and were it not to, that is an error.
pub open spec fn next_address(s: DbView) -> Result<Seq<u8>, ErrorKind> {
    match s.wallet_seed {
        None => Err(ErrorKind::State),
        Some(phrase) => match viewing_key_of(phrase) {
            None => Err(ErrorKind::Crypto),
            Some(fvk) => if s.addresses.len() >= u32::MAX {
                Err(ErrorKind::State)
            } else {
                match address_at_index(fvk, (s.addresses.len() + 1) as u32) {
                    Some(raw) => if s.addresses.contains(raw) {
                        Err(ErrorKind::Crypto)
                    } else {
                        Ok(raw)
                    },
                    None => Err(ErrorKind::Crypto),
                }
            },
        },
    }
}

/// The raw recipient that a base58check string names; the kind of error
/// where it names none.
pub open spec fn parsed_recipient(text: Seq<char>) -> Option<Seq<u8>> {
    match base58check_decoded(text) {
        Some(raw) => if raw.len() == 43 && address_decodes(raw) {
            Some(raw)
        } else {
            None
        },
        None => None,
    }
}

impl Transaction {
    /// The transaction that transparent rows and a bundle make: the actions
    /// and the value balance of the bundle, or no action and no balance where
    /// there is no bundle.
    pub fn from_bundle(inputs: Vec<u32>, outputs: Vec<Output>, bundle: Option<(Vec<Action>, i64)>) -> (tx: Transaction)
        ensures
            tx@.inputs == inputs@,
            tx@.outputs == output_values(outputs@),
            match bundle {
                Some((actions, value_balance)) => tx@.actions == action_views(actions@)
                    && tx@.value_balance_orchard == value_balance,
                None => tx@.actions == Seq::<ActionView>::empty() && tx@.value_balance_orchard
                    == 0,
            },
    {
        match bundle {
            Some((actions, value_balance)) => Transaction {
                inputs,
                outputs,
                actions,
                value_balance_orchard: value_balance,
            },
            None => {
                let tx = Transaction {
                    inputs,
                    outputs,
                    actions: Vec::new(),
                    value_balance_orchard: 0,
                };
                assert(tx@.actions =~= Seq::<ActionView>::empty());
                tx
            },
        }
    }
}

/// A memo that says that there is no memo.
pub fn empty_memo() -> (memo: [u8; 512])
    ensures
        memo@[0] == NO_MEMO,
        forall|i: int| 1 <= i < 512 ==> memo@[i] == 0,
{
    let mut memo = [0u8; 512];
    memo[0] = NO_MEMO;
    memo
}

/// Whether two raw addresses are the same.
pub fn same_address(a: &[u8; 43], b: &[u8; 43]) -> (same: bool)
    ensures
        same == (a@ == b@),
{
    let mut i: usize = 0;
    while i < 43
        invariant
            0 <= i <= 43,
            forall|k: int| 0 <= k < i ==> a@[k] == b@[k],
        decreases 43 - i,
    {
        if a[i] != b[i] {
            return false;
        }
        i += 1;
    }
    assert(a@ =~= b@);
    true
}

/// Whether a raw address is among those that were handed out.
pub fn handed_out(addresses: &Vec<[u8; 43]>, raw: &[u8; 43]) -> (found: bool)
    ensures
        found == address_views(addresses@).contains(raw@),
{
    let mut i: usize = 0;
    while i < addresses.len()
        invariant
            0 <= i <= addresses@.len(),
            forall|k: int| 0 <= k < i ==> address_views(addresses@)[k] != raw@,
        decreases addresses@.len() - i,
    {
        if same_address(&addresses[i], raw) {
            assert(address_views(addresses@)[i as int] == raw@);
            return true;
        }
        i += 1;
    }
    false
}

/// The password under which the wallet derives its seed: none.
pub fn no_password() -> (password: &'static str)
    ensures
        password@ == Seq::<char>::empty(),
{
    proof {
        reveal_strlit("");
    }
    ""
}

impl Db {
    /// A fresh store: empty tables and a new seed that parses.
    pub fn new() -> (db: Db)
        ensures
            db@.wallet_seed is Some,
            phrase_decodes(db@.wallet_seed->Some_0),
            db@ == (DbView { wallet_seed: db@.wallet_seed, ..DbView::empty() }),
    {
        let mut db = Db::empty();
        db.generate_seed();
        db
    }

    /// Gives the wallet a new seed: twelve English words from fresh entropy,
    /// a phrase that parses.
    pub fn generate_seed(&mut self)
        ensures
            final(self)@.wallet_seed is Some,
            phrase_decodes(final(self)@.wallet_seed->Some_0),
            final(self)@ == (DbView { wallet_seed: final(self)@.wallet_seed, ..old(self)@ }),
    {
        self.wallet_seed = Some(fresh_phrase());
    }

    /// Gives a store without a seed a new one. A store that has a seed is
    /// left as it is, also where its phrase does not parse: that is reported
    /// by whatever asks for the phrase, and never mended.
    pub fn bootstrap(&mut self)
        ensures
            match old(self)@.wallet_seed {
                Some(_) => final(self)@ == old(self)@,
                None => {
                    &&& final(self)@.wallet_seed is Some
                    &&& phrase_decodes(final(self)@.wallet_seed->Some_0)
                    &&& final(self)@ == (DbView {
                        wallet_seed: final(self)@.wallet_seed,
                        ..old(self)@
                    })
                },
            },
    {
        if self.wallet_seed.is_none() {
            self.generate_seed();
        }
    }

    /// The mnemonic phrase of the wallet.
    pub fn get_mnemonic(&self) -> (res: Result<String, Error>)
        ensures
            match self@.wallet_seed {
                Some(phrase) => if phrase_decodes(phrase) {
                    res is Ok && res->Ok_0@ == phrase
                } else {
                    res is Err && res->Err_0.kind() == ErrorKind::Crypto
                },
                None => res is Err && res->Err_0.kind() == ErrorKind::State,
            },
    {
        match &self.wallet_seed {
            Some(phrase) => {
                if phrase_is_valid(phrase.as_str()) {
                    Ok(phrase.clone())
                } else {
                    Err(Error::crypto_error("the stored phrase is no mnemonic"))
                }
            },
            None => Err(Error::state_error("the wallet has no seed")),
        }
    }

    /// The full viewing key of the wallet, in bytes.
    pub fn get_fvk(&self) -> (res: Result<[u8; 96], Error>)
        ensures
            match self@.wallet_seed {
                Some(phrase) => match viewing_key_of(phrase) {
                    Some(fvk) => res is Ok && res->Ok_0@ == fvk,
                    None => res is Err && res->Err_0.kind() == ErrorKind::Crypto,
                },
                None => res is Err && res->Err_0.kind() == ErrorKind::State,
            },
    {
        match &self.wallet_seed {
            Some(phrase) => match wallet_viewing_key(phrase.as_str(), no_password(), COIN_TYPE, ACCOUNT) {
                Some(fvk) => Ok(fvk),
                None => Err(Error::crypto_error("no key derives from the stored phrase")),
            },
            None => Err(Error::state_error("the wallet has no seed")),
        }
    }

    /// Hands out the next shielded address of the wallet and records it.
    pub fn get_new_address(&mut self) -> (res: Result<[u8; 43], Error>)
        ensures
            match next_address(old(self)@) {
                Ok(raw) => res is Ok && res->Ok_0@ == raw && final(self)@ == (DbView {
                    addresses: old(self)@.addresses.push(raw),
                    ..old(self)@
                }),
                Err(kind) => res is Err && res->Err_0.kind() == kind && final(self)@ == old(self)@,
            },
    {
        let fvk = match self.get_fvk() {
            Ok(k) => k,
            Err(e) => {
                return Err(e);
            },
        };
        if self.addresses.len() >= u32::MAX as usize {
            return Err(Error::state_error("the address indices are used up"));
        }
        let index: u32 = (self.addresses.len() + 1) as u32;
        match wallet_address(&fvk, index, WALLET_SCOPE) {
            Some(raw) => {
                if handed_out(&self.addresses, &raw) {
                    return Err(Error::crypto_error("the provider derived an address twice"));
                }
                let ghost before = self.addresses@;
                self.addresses.push(raw);
                assert(address_views(self.addresses@) =~= address_views(before).push(raw@));
                Ok(raw)
            },
            None => Err(Error::crypto_error("the provider derived no address")),
        }
    }

    /// The base58check form of a raw address.
    pub fn encode_address(raw: &[u8; 43]) -> (text: String)
        ensures
            text@ == base58check_encoded(raw@),
    {
        base58check_encode(raw.as_slice())
    }

    /// The raw address that a base58check string names.
    pub fn parse_recipient(text: &str) -> (res: Result<[u8; 43], Error>)
        ensures
            match parsed_recipient(text@) {
                Some(raw) => res is Ok && res->Ok_0@ == raw,
                None => res is Err && res->Err_0.kind() == ErrorKind::InvalidAddress,
            },
    {
        let bytes = match base58check_decode(text) {
            Some(b) => b,
            None => {
                return Err(Error::invalid_address("the address is no base58check string"));
            },
        };
        if bytes.len() != 43 {
            return Err(Error::invalid_address("wrong address length"));
        }
        let mut raw = [0u8; 43];
        let mut i: usize = 0;
        while i < 43
            invariant
                0 <= i <= 43,
                bytes@.len() == 43,
                forall|k: int| 0 <= k < i ==> raw@[k] == bytes@[k],
            decreases 43 - i,
        {
            raw[i] = bytes[i];
            i += 1;
        }
        assert(raw@ =~= bytes@);
        if !address_is_valid(&raw) {
            return Err(Error::invalid_address("the bytes are no shielded address"));
        }
        Ok(raw)
    }

    /// Stages a shielded output: to the given base58check address, or to a
    /// fresh address of the wallet where none is given.
    pub fn create_note(&mut self, recipient: Option<String>, value: u64) -> (res: Result<(), Error>)
        ensures
            match recipient {
                Some(text) => match parsed_recipient(text@) {
                    Some(raw) => res is Ok && final(self)@ == (DbView {
                        shielded_outputs: old(self)@.shielded_outputs.push(
                            ShieldedOutputView { recipient: raw, value },
                        ),
                        ..old(self)@
                    }),
                    None => res is Err && res->Err_0.kind() == ErrorKind::InvalidAddress
                        && final(self)@ == old(self)@,
                },
                None => match next_address(old(self)@) {
                    Ok(raw) => res is Ok && final(self)@ == (DbView {
                        addresses: old(self)@.addresses.push(raw),
                        shielded_outputs: old(self)@.shielded_outputs.push(
                            ShieldedOutputView { recipient: raw, value },
                        ),
                        ..old(self)@
                    }),
                    Err(kind) => res is Err && res->Err_0.kind() == kind && final(self)@ == old(
                        self,
                    )@,
                },
            },
    {
        let raw = match recipient {
            Some(text) => match Self::parse_recipient(text.as_str()) {
                Ok(raw) => raw,
                Err(e) => {
                    return Err(e);
                },
            },
            None => match self.get_new_address() {
                Ok(raw) => raw,
                Err(e) => {
                    return Err(e);
                },
            },
        };
        let ghost before = self.shielded_outputs@;
        let row = ShieldedOutput { recipient: raw, value };
        self.shielded_outputs.push(row);
        assert(shielded_output_views(self.shielded_outputs@) =~= shielded_output_views(
            before,
        ).push(row@));
        Ok(())
    }

    /// Adds a note of the wallet with its witness.
    pub fn store_note(&mut self, note: &Note, witness: &Vec<u8>)
        ensures
            final(self)@ == (DbView {
                notes: old(self)@.notes.push(WalletNoteView { note: note@, witness: witness@ }),
                ..old(self)@
            }),
    {
        let ghost before = self.notes@;
        let row = WalletNote { note: *note, witness: crate::connect::copy_bytes(witness) };
        let ghost row_view = row@;
        self.notes.push(row);
        assert(note_row_views(self.notes@) =~= note_row_views(before).push(row_view));
    }

    /// The notes of the wallet, each with its id and its witness, read from
    /// its stored bytes. Notes beyond the reach of an id are left out. Fails
    /// where the stored bytes of one of the witnesses hold no witness that
    /// the tree code may work on.
    pub fn get_wallet_notes(&self) -> (res: Result<Vec<(u32, Note, Witness)>, Error>)
        ensures
            res is Ok <==> witnesses_decode(self@),
            res is Err ==> res->Err_0.kind() == ErrorKind::Serialization,
            res is Ok ==> {
                &&& res->Ok_0@.len() == listed_notes(self@)
                &&& forall|i: int|
                    0 <= i < res->Ok_0@.len() ==> {
                        &&& (#[trigger] res->Ok_0@[i]).0 == i + 1
                        &&& res->Ok_0@[i].1@ == self@.notes[i].note
                        &&& parse_witness(self@.notes[i].witness, 0)->Some_0.0 == res->Ok_0@[i].2@
                    }
            },
    {
        let mut res: Vec<(u32, Note, Witness)> = Vec::new();
        let mut i: usize = 0;
        while i < self.notes.len() && i < u32::MAX as usize
            invariant
                0 <= i <= self.notes@.len(),
                i <= u32::MAX,
                res@.len() == i,
                forall|k: int| 0 <= k < i ==> stored_witness_ok(self@.notes[k].witness),
                forall|k: int|
                    0 <= k < i ==> {
                        &&& (#[trigger] res@[k]).0 == k + 1
                        &&& res@[k].1@ == self@.notes[k].note
                        &&& parse_witness(self@.notes[k].witness, 0)->Some_0.0 == res@[k].2@
                    },
            decreases self.notes@.len() - i,
        {
            assert(self@.notes[i as int] == self.notes@[i as int]@);
            let row = &self.notes[i];
            let witness = match Witness::from_stored(row.witness.as_slice()) {
                Some(w) => w,
                None => {
                    assert(!stored_witness_ok(self@.notes[i as int].witness));
                    return Err(Error::serialization_error("a stored witness does not decode"));
                },
            };
            if !witness.is_well_formed() {
                assert(!stored_witness_ok(self@.notes[i as int].witness));
                return Err(Error::serialization_error("a stored witness does not decode"));
            }
            res.push(((i + 1) as u32, row.note, witness));
            i += 1;
        }
        Ok(res)
    }

    /// The wallet note with the given id and the authentication path that
    /// its stored witness proves: the position of the note in the tree and
    /// its sibling hashes.
    pub fn get_note(&self, note_id: u32) -> (res: Result<(Note, u32, Vec<[u8; 32]>), Error>)
        ensures
            match note_path(self@, note_id) {
                Ok((note, position, path)) => res is Ok && res->Ok_0.0@ == note && res->Ok_0.1
                    == position && hash_views(res->Ok_0.2@) == path,
                Err(kind) => res is Err && res->Err_0.kind() == kind,
            },
    {
        if note_id < 1 || note_id as usize > self.notes.len() {
            return Err(Error::state_error("no wallet note has this id"));
        }
        let at: usize = (note_id - 1) as usize;
        assert(self@.notes[at as int] == self.notes@[at as int]@);
        let row = &self.notes[at];
        if !check_stored_witness(row.witness.as_slice()) {
            return Err(Error::serialization_error("a stored witness does not decode"));
        }
        match witness_path(&row.witness) {
            Some((position, path)) => {
                if position > u32::MAX as u64 {
                    return Err(Error::serialization_error("a stored witness is out of range"));
                }
                Ok((row.note, position as u32, path))
            },
            None => Err(Error::serialization_error("a stored witness has no path")),
        }
    }

    /// What a bundle is to be built from: the anchor, a spend for each staged
    /// note, in table order, each with the wallet's key and the path of its
    /// stored witness, and the staged shielded outputs.
    ///
    /// Fails where the frontier behind the anchor does not decode, where a
    /// staged id names no note, where a stored witness does not decode or is
    /// out of range, where the wallet has no seed or no key, and where a
    /// staged recipient is no shielded address; the first failure in the
    /// order of reading gives its kind.
    pub fn bundle_request(&self) -> (res: Result<BundleRequest, Error>)
        ensures
            match request_spec(self@) {
                Ok(request) => res is Ok && res->Ok_0@ == request,
                Err(kind) => res is Err && res->Err_0.kind() == kind,
            },
    {
        let anchor = match self.get_bundle_anchor() {
            Ok(a) => a,
            Err(e) => {
                return Err(e);
            },
        };
        let ghost ids = self@.shielded_inputs;
        let mut spends: Vec<Spend> = Vec::new();
        let mut i: usize = 0;
        assert(spend_views(spends@) =~= Seq::<SpendView>::empty());
        while i < self.shielded_inputs.len()
            invariant
                0 <= i <= self.shielded_inputs@.len(),
                ids == self@.shielded_inputs,
                anchor_of(self@.anchor_frontier()) == Some(anchor@),
                spends_of(self@, ids.take(i as int)) == Ok::<Seq<SpendView>, ErrorKind>(
                    spend_views(spends@),
                ),
            decreases self.shielded_inputs@.len() - i,
        {
            proof {
                assert(ids.take(i + 1).drop_last() =~= ids.take(i as int));
                assert(ids.take(i + 1).last() == self.shielded_inputs@[i as int]);
            }
            let (note, position, path) = match self.get_note(self.shielded_inputs[i]) {
                Ok(n) => n,
                Err(e) => {
                    proof {
                        lemma_spends_prefix(self@, ids, i + 1);
                    }
                    return Err(e);
                },
            };
            let fvk = match self.get_fvk() {
                Ok(k) => k,
                Err(e) => {
                    proof {
                        lemma_spends_prefix(self@, ids, i + 1);
                    }
                    return Err(e);
                },
            };
            let ghost before = spends@;
            let spend = Spend { fvk, note, position, path };
            let ghost spend_view = spend@;
            spends.push(spend);
            assert(spend_views(spends@) =~= spend_views(before).push(spend_view));
            i += 1;
        }
        assert(ids.take(i as int) =~= ids);
        let outputs = self.get_shielded_outputs();
        let mut j: usize = 0;
        while j < outputs.len()
            invariant
                0 <= j <= outputs@.len(),
                shielded_output_views(outputs@) == self@.shielded_outputs,
                anchor_of(self@.anchor_frontier()) == Some(anchor@),
                spends_of(self@, self@.shielded_inputs) == Ok::<Seq<SpendView>, ErrorKind>(
                    spend_views(spends@),
                ),
                forall|k: int|
                    0 <= k < j ==> address_decodes((#[trigger] self@.shielded_outputs[k]).recipient),
            decreases outputs@.len() - j,
        {
            assert(self@.shielded_outputs[j as int] == outputs@[j as int]@);
            if !address_is_valid(&outputs[j].recipient) {
                assert(!address_decodes(self@.shielded_outputs[j as int].recipient));
                return Err(Error::invalid_address("a staged recipient is no shielded address"));
            }
            j += 1;
        }
        Ok(BundleRequest { anchor, spends, outputs })
    }

    /// Records a transaction made of the staged transparent rows and the
    /// given bundle as pending, and wipes the mempool.
    pub fn submit_with(&mut self, bundle: Option<(Vec<Action>, i64)>)
        ensures
            final(self)@ == submit_spec(old(self)@, bundle_view(bundle)),
    {
        let inputs = self.get_inputs();
        let outputs = self.get_outputs();
        let tx = Transaction::from_bundle(inputs, outputs, bundle);
        assert(tx@ == packaged(old(self)@, bundle_view(bundle)));
        let body = tx.to_body();
        let ghost before = self.transactions@;
        self.transactions.push(body);
        assert(blob_views(self.transactions@) =~= blob_views(before).push(body@));
        self.clear_transaction();
    }

    /// Builds a transaction from everything that is staged, records it as
    /// pending and wipes the mempool.
    ///
    /// What the bundle is built from is read first, and a failure of that
    /// reading is the failure of the submission. Where nothing shielded is
    /// staged no bundle is needed, and the outcome is fixed. Otherwise the
    /// provider's builder is given the anchor, the spends and the outputs of
    /// the request, and the bundle is what it builds with fresh randomness.
    /// The provider refuses where it does not take the anchor or one of the
    /// spends, and it may refuse to build. A success records the transaction
    /// that the bundle makes with the staged transparent rows: the bundle
    /// has the number of actions and the value balance that the request
    /// fixes. A failure leaves the store as it was.
    pub fn submit_transaction(&mut self) -> (res: Result<(), Error>)
        ensures
            res is Err ==> final(self)@ == old(self)@,
            match request_spec(old(self)@) {
                Err(kind) => res is Err && res->Err_0.kind() == kind,
                Ok(request) => if request.spends.len() == 0 && request.outputs.len() == 0 {
                    res is Ok && final(self)@ == submit_spec(old(self)@, None)
                } else {
                    &&& res is Err ==> res->Err_0.kind() == ErrorKind::Crypto
                    &&& !request_taken(request) ==> res is Err
                    &&& res is Ok ==> exists|bundle: (Seq<ActionView>, i64)|
                        final(self)@ == #[trigger] submit_spec(old(self)@, Some(bundle))
                            && built_from(request, bundle)
                },
            },
    {
        let request = match self.bundle_request() {
            Ok(r) => r,
            Err(e) => {
                return Err(e);
            },
        };
        proof {
            lemma_spends_len(self@, self@.shielded_inputs);
        }
        if request.spends.len() == 0 && request.outputs.len() == 0 {
            self.submit_with(None);
            return Ok(());
        }
        let builder = match fill_builder(&request) {
            Some(b) => b,
            None => {
                return Err(Error::crypto_error("the provider refused a part of the bundle"));
            },
        };
        let bundle = match builder_finish(builder) {
            Some(b) => b,
            None => {
                return Err(Error::crypto_error("the provider built no bundle"));
            },
        };
        proof {
            let actions = bundle->Some_0.0;
            assert(actions@.len() == actions.len());
            assert forall|i: int| 0 <= i < action_views(actions@).len() implies (
            #[trigger] action_views(actions@)[i]).widths_exact() by {
                assert(action_views(actions@)[i] == actions@[i]@);
            }
            assert(built_from(request@, bundle_view(bundle)->Some_0));
        }
        self.submit_with(bundle);
        Ok(())
    }
}

/// A spend of a note of the wallet.
#[derive(Debug, Clone)]
pub struct Spend {
    /// The full viewing key of the wallet.
    pub fvk: [u8; 96],
    pub note: Note,
    /// The position of the note in the tree.
    pub position: u32,
    /// The sibling hashes of the note on its way to the root.
    pub path: Vec<[u8; 32]>,
}

impl View for Spend {
    type V = SpendView;

    open spec fn view(&self) -> SpendView {
        SpendView {
            fvk: self.fvk@,
            note: self.note@,
            position: self.position,
            path: hash_views(self.path@),
        }
    }
}

pub open spec fn spend_views(spends: Seq<Spend>) -> Seq<SpendView> {
    spends.map_values(|s: Spend| s@)
}

/// What a bundle is to be built from.
#[derive(Debug, Clone)]
pub struct BundleRequest {
    pub anchor: [u8; 32],
    pub spends: Vec<Spend>,
    pub outputs: Vec<ShieldedOutput>,
}

pub struct BundleRequestView {
    pub anchor: Seq<u8>,
    pub spends: Seq<SpendView>,
    pub outputs: Seq<ShieldedOutputView>,
}

impl View for BundleRequest {
    type V = BundleRequestView;

    open spec fn view(&self) -> BundleRequestView {
        BundleRequestView {
            anchor: self.anchor@,
            spends: spend_views(self.spends@),
            outputs: shielded_output_views(self.outputs@),
        }
    }
}

/// The note with an id and the path of its stored witness: the position of
/// the note in the tree and its sibling hashes.
pub open spec fn note_path(s: DbView, note_id: u32) -> Result<
    (NoteView, u32, Seq<Seq<u8>>),
    ErrorKind,
> {
    if 1 <= note_id <= s.notes.len() {
        let row = s.notes[note_id - 1];
        if !stored_witness_ok(row.witness) {
            Err(ErrorKind::Serialization)
        } else {
            match auth_path_of(row.witness) {
                Some((position, path)) => if position <= u32::MAX {
                    Ok((row.note, position as u32, path))
                } else {
                    Err(ErrorKind::Serialization)
                },
                None => Err(ErrorKind::Serialization),
            }
        }
    } else {
        Err(ErrorKind::State)
    }
}

/// The full viewing key of the wallet.
pub open spec fn wallet_key(s: DbView) -> Result<Seq<u8>, ErrorKind> {
    match s.wallet_seed {
        Some(phrase) => match viewing_key_of(phrase) {
            Some(fvk) => Ok(fvk),
            None => Err(ErrorKind::Crypto),
        },
        None => Err(ErrorKind::State),
    }
}

/// The spends for staged note ids, in their order: for each the note and
/// its path are read, then the key.
pub open spec fn spends_of(s: DbView, ids: Seq<u32>) -> Result<Seq<SpendView>, ErrorKind>
    decreases ids.len(),
{
    if ids.len() == 0 {
        Ok(Seq::empty())
    } else {
        match spends_of(s, ids.drop_last()) {
            Err(kind) => Err(kind),
            Ok(spends) => match note_path(s, ids.last()) {
                Err(kind) => Err(kind),
                Ok((note, position, path)) => match wallet_key(s) {
                    Err(kind) => Err(kind),
                    Ok(fvk) => Ok(spends.push(SpendView { fvk, note, position, path })),
                },
            },
        }
    }
}

/// The number of wallet notes that have an id.
pub open spec fn listed_notes(s: DbView) -> int {
    if s.notes.len() <= u32::MAX {
        s.notes.len() as int
    } else {
        u32::MAX as int
    }
}

/// Whether the stored bytes of every listed note hold a witness that the
/// tree code may work on.
pub open spec fn witnesses_decode(s: DbView) -> bool {
    forall|i: int| 0 <= i < listed_notes(s) ==> stored_witness_ok(#[trigger] s.notes[i].witness)
}

/// Whether the recipient of every output is a shielded address.
pub open spec fn recipients_decode(outputs: Seq<ShieldedOutputView>) -> bool {
    forall|j: int| 0 <= j < outputs.len() ==> address_decodes((#[trigger] outputs[j]).recipient)
}

/// What a bundle for the staged shielded rows is to be built from.
pub open spec fn request_spec(s: DbView) -> Result<BundleRequestView, ErrorKind> {
    match anchor_of(s.anchor_frontier()) {
        None => Err(ErrorKind::Serialization),
        Some(anchor) => match spends_of(s, s.shielded_inputs) {
            Err(kind) => Err(kind),
            Ok(spends) => if recipients_decode(s.shielded_outputs) {
                Ok(BundleRequestView { anchor, spends, outputs: s.shielded_outputs })
            } else {
                Err(ErrorKind::InvalidAddress)
            },
        },
    }
}

/// Whether the provider's builder takes every part of a request: the anchor,
/// each spend against that anchor, and the recipient of each output.
pub open spec fn request_taken(request: BundleRequestView) -> bool {
    &&& anchor_taken(request.anchor)
    &&& forall|i: int|
        0 <= i < request.spends.len() ==> spend_taken(
            request.anchor,
            #[trigger] request.spends[i],
        )
    &&& recipients_decode(request.outputs)
}

/// Whether a bundle is one that the provider may build from a request: it
/// has an action for each spend or output, whichever are more, and at least
/// two; the byte widths of every action are exact; and its value balance is
/// the value of the spent notes less the value of the outputs.
pub open spec fn built_from(request: BundleRequestView, bundle: (Seq<ActionView>, i64)) -> bool {
    &&& bundle_fits(Some(bundle))
    &&& bundle.0.len() == bundle_size(request.spends.len(), request.outputs.len())
    &&& bundle.1 == spends_value(request.spends) - outputs_value(request.outputs)
}

/// Whether a bundle can be stored: it has no more actions than a length can
/// count, and the byte widths of every action are exact.
pub open spec fn bundle_fits(bundle: Option<(Seq<ActionView>, i64)>) -> bool {
    match bundle {
        Some((actions, _)) => actions.len() <= u64::MAX && forall|i: int|
            0 <= i < actions.len() ==> (#[trigger] actions[i]).widths_exact(),
        None => true,
    }
}

/// A failure among the first staged notes is the failure of all.
pub proof fn lemma_spends_prefix(s: DbView, ids: Seq<u32>, n: int)
    requires
        0 <= n <= ids.len(),
        spends_of(s, ids.take(n)) is Err,
    ensures
        spends_of(s, ids) == spends_of(s, ids.take(n)),
    decreases ids.len() - n,
{
    if n == ids.len() {
        assert(ids.take(n) =~= ids);
    } else {
        assert(ids.take(n + 1).drop_last() =~= ids.take(n));
        lemma_spends_prefix(s, ids, n + 1);
    }
}

/// There is a spend for each staged note.
pub proof fn lemma_spends_len(s: DbView, ids: Seq<u32>)
    ensures
        spends_of(s, ids) is Ok ==> spends_of(s, ids)->Ok_0.len() == ids.len(),
    decreases ids.len(),
{
    if ids.len() > 0 {
        lemma_spends_len(s, ids.drop_last());
    }
}

/// Gives the provider's builder what a request holds: the anchor, then the
/// spends in order, then the outputs in order, each output with a memo that
/// says that there is none. `None` exactly where the provider refuses one of
/// them.
pub fn fill_builder(request: &BundleRequest) -> (res: Option<Builder>)
    ensures
        res is Some <==> request_taken(request@),
        res is Some ==> {
            &&& builder_anchor(res->Some_0) == request@.anchor
            &&& builder_spends(res->Some_0) == request@.spends
            &&& builder_outputs(res->Some_0) == request@.outputs
        },
{
    let mut builder = match builder_start(
        &request.anchor,
        BUNDLE_REQUIRED,
        MIN_ACTIONS,
        FLAGS_ENABLED,
    ) {
        Some(b) => b,
        None => {
            return None;
        },
    };
    let ghost spends = request@.spends;
    let mut i: usize = 0;
    assert(spends.take(0) =~= Seq::<SpendView>::empty());
    while i < request.spends.len()
        invariant
            0 <= i <= request.spends@.len(),
            spends == request@.spends,
            builder_anchor(builder) == request@.anchor,
            builder_spends(builder) == spends.take(i as int),
            builder_outputs(builder) == Seq::<ShieldedOutputView>::empty(),
            anchor_taken(request@.anchor),
            forall|k: int| 0 <= k < i ==> spend_taken(request@.anchor, #[trigger] spends[k]),
        decreases request.spends@.len() - i,
    {
        let spend = &request.spends[i];
        assert(spends[i as int] == spend@);
        if builder_add_spend(&mut builder, &spend.fvk, &spend.note, spend.position, &spend.path)
            .is_none() {
            return None;
        }
        i += 1;
        assert(spends.take(i as int) =~= spends.take(i - 1).push(spends[i - 1]));
    }
    assert(spends.take(i as int) =~= spends);
    let memo = empty_memo();
    let ghost outputs = request@.outputs;
    let mut j: usize = 0;
    assert(outputs.take(0) =~= Seq::<ShieldedOutputView>::empty());
    while j < request.outputs.len()
        invariant
            0 <= j <= request.outputs@.len(),
            outputs == request@.outputs,
            builder_anchor(builder) == request@.anchor,
            builder_spends(builder) == request@.spends,
            builder_outputs(builder) == outputs.take(j as int),
            anchor_taken(request@.anchor),
            forall|k: int|
                0 <= k < request@.spends.len() ==> spend_taken(
                    request@.anchor,
                    #[trigger] request@.spends[k],
                ),
            forall|k: int| 0 <= k < j ==> address_decodes((#[trigger] outputs[k]).recipient),
        decreases request.outputs@.len() - j,
    {
        let row = &request.outputs[j];
        assert(outputs[j as int] == row@);
        if !builder_add_output(&mut builder, &row.recipient, row.value, &memo) {
            return None;
        }
        j += 1;
        assert(outputs.take(j as int) =~= outputs.take(j - 1).push(outputs[j - 1]));
    }
    assert(outputs.take(j as int) =~= outputs);
    Some(builder)
}

} // verus!
