//! Transactions of the block-and-hash chain: five kinds, each with its own
//! shape, and the rules that a transaction of each kind must meet.

use vstd::prelude::*;
use crate::address::{Address, AddressType, AddressView};
use crate::database::{Database, DatabaseView, optional_bytes};
use crate::error::{Error, ErrorKind};

verus! {

/// The kind of a transaction.
#[derive(Debug, Clone, Copy, PartialEq, Eq, Structural)]
pub enum TransactionType {
    Deposit,
    Transparent,
    Shield,
    ShieldToShield,
    Deshield,
}

impl TransactionType {
    /// The name of the kind.
    pub open spec fn name(self) -> Seq<char> {
        match self {
            TransactionType::Deposit => "deposit"@,
            TransactionType::Transparent => "transparent"@,
            TransactionType::Shield => "shield"@,
            TransactionType::ShieldToShield => "shield_to_shield"@,
            TransactionType::Deshield => "deshield"@,
        }
    }

    /// The byte that stands for the kind in the encoding of a transaction.
    pub open spec fn tag(self) -> u8 {
        match self {
            TransactionType::Deposit => 0,
            TransactionType::Transparent => 1,
            TransactionType::Shield => 2,
            TransactionType::ShieldToShield => 3,
            TransactionType::Deshield => 4,
        }
    }

    /// The name of the kind.
    pub fn to_string(&self) -> (s: String)
        ensures
            s@ == self.name(),
    {
        match self {
            TransactionType::Deposit => "deposit".to_owned(),
            TransactionType::Transparent => "transparent".to_owned(),
            TransactionType::Shield => "shield".to_owned(),
            TransactionType::ShieldToShield => "shield_to_shield".to_owned(),
            TransactionType::Deshield => "deshield".to_owned(),
        }
    }
}

/// A transparent input: the output that it spends.
#[derive(Debug, Clone)]
pub struct TransparentInput {
    pub output_id: Vec<u8>,
    pub address: Address,
    pub amount: u64,
    pub signature: Vec<u8>,
}

pub struct TransparentInputView {
    pub output_id: Seq<u8>,
    pub address: AddressView,
    pub amount: u64,
    pub signature: Seq<u8>,
}

impl View for TransparentInput {
    type V = TransparentInputView;

    open spec fn view(&self) -> TransparentInputView {
        TransparentInputView {
            output_id: self.output_id@,
            address: self.address@,
            amount: self.amount,
            signature: self.signature@,
        }
    }
}

/// A transparent output.
#[derive(Debug, Clone)]
pub struct TransparentOutput {
    pub address: Address,
    pub amount: u64,
}

pub struct TransparentOutputView {
    pub address: AddressView,
    pub amount: u64,
}

impl View for TransparentOutput {
    type V = TransparentOutputView;

    open spec fn view(&self) -> TransparentOutputView {
        TransparentOutputView { address: self.address@, amount: self.amount }
    }
}

/// A shielded note as it stands in a transaction.
#[derive(Debug, Clone)]
pub struct ShieldedNote {
    pub commitment: Vec<u8>,
    pub ephemeral_key: Vec<u8>,
    /// The amount, encrypted.
    pub amount: Vec<u8>,
    pub memo: Option<Vec<u8>>,
}

pub struct ShieldedNoteView {
    pub commitment: Seq<u8>,
    pub ephemeral_key: Seq<u8>,
    pub amount: Seq<u8>,
    pub memo: Option<Seq<u8>>,
}

impl View for ShieldedNote {
    type V = ShieldedNoteView;

    open spec fn view(&self) -> ShieldedNoteView {
        ShieldedNoteView {
            commitment: self.commitment@,
            ephemeral_key: self.ephemeral_key@,
            amount: self.amount@,
            memo: optional_bytes(self.memo),
        }
    }
}

/// A transaction.
#[derive(Debug, Clone)]
pub struct Transaction {
    pub tx_type: TransactionType,
    pub transparent_inputs: Vec<TransparentInput>,
    pub transparent_outputs: Vec<TransparentOutput>,
    pub shielded_inputs: Vec<ShieldedNote>,
    pub shielded_outputs: Vec<ShieldedNote>,
    pub nullifiers: Vec<Vec<u8>>,
    /// The proof of a transaction that spends a shielded note.
    pub proof: Option<Vec<u8>>,
}

pub struct TransactionView {
    pub tx_type: TransactionType,
    pub transparent_inputs: Seq<TransparentInputView>,
    pub transparent_outputs: Seq<TransparentOutputView>,
    pub shielded_inputs: Seq<ShieldedNoteView>,
    pub shielded_outputs: Seq<ShieldedNoteView>,
    pub nullifiers: Seq<Seq<u8>>,
    pub proof: Option<Seq<u8>>,
}

pub open spec fn input_views(rows: Seq<TransparentInput>) -> Seq<TransparentInputView> {
    rows.map_values(|r: TransparentInput| r@)
}

pub open spec fn output_views(rows: Seq<TransparentOutput>) -> Seq<TransparentOutputView> {
    rows.map_values(|r: TransparentOutput| r@)
}

pub open spec fn note_views(rows: Seq<ShieldedNote>) -> Seq<ShieldedNoteView> {
    rows.map_values(|r: ShieldedNote| r@)
}

pub open spec fn byte_string_views(rows: Seq<Vec<u8>>) -> Seq<Seq<u8>> {
    rows.map_values(|r: Vec<u8>| r@)
}

impl View for Transaction {
    type V = TransactionView;

    open spec fn view(&self) -> TransactionView {
        TransactionView {
            tx_type: self.tx_type,
            transparent_inputs: input_views(self.transparent_inputs@),
            transparent_outputs: output_views(self.transparent_outputs@),
            shielded_inputs: note_views(self.shielded_inputs@),
            shielded_outputs: note_views(self.shielded_outputs@),
            nullifiers: byte_string_views(self.nullifiers@),
            proof: optional_bytes(self.proof),
        }
    }
}

/// The sum of the amounts of the inputs.
pub open spec fn input_sum(inputs: Seq<TransparentInputView>) -> int
    decreases inputs.len(),
{
    if inputs.len() == 0 {
        0
    } else {
        input_sum(inputs.drop_last()) + inputs.last().amount
    }
}

/// The sum of the amounts of the outputs.
pub open spec fn output_sum(outputs: Seq<TransparentOutputView>) -> int
    decreases outputs.len(),
{
    if outputs.len() == 0 {
        0
    } else {
        output_sum(outputs.drop_last()) + outputs.last().amount
    }
}

impl TransactionView {
    /// Whether every input is transparent.
    pub open spec fn inputs_transparent(self) -> bool {
        forall|i: int|
            0 <= i < self.transparent_inputs.len() ==> (
            #[trigger] self.transparent_inputs[i]).address.address_type == AddressType::Transparent
    }

    /// Whether every input and every output is transparent.
    pub open spec fn all_transparent(self) -> bool {
        &&& self.inputs_transparent()
        &&& forall|i: int|
            0 <= i < self.transparent_outputs.len() ==> (
            #[trigger] self.transparent_outputs[i]).address.address_type
                == AddressType::Transparent
    }

    /// Whether a proof is present and not empty.
    pub open spec fn has_proof(self) -> bool {
        self.proof is Some && self.proof->Some_0.len() > 0
    }

    /// Whether every input spends an output that exists and is unspent.
    pub open spec fn inputs_unspent(self, db: DatabaseView) -> bool {
        forall|i: int|
            0 <= i < self.transparent_inputs.len() ==> db.has_unspent(
                (#[trigger] self.transparent_inputs[i]).output_id,
            )
    }

    /// The rules of a deposit: one transparent output and nothing else.
    pub open spec fn valid_deposit(self) -> bool {
        &&& self.transparent_inputs.len() == 0
        &&& self.shielded_inputs.len() == 0
        &&& self.shielded_outputs.len() == 0
        &&& self.nullifiers.len() == 0
        &&& self.proof is None
        &&& self.transparent_outputs.len() == 1
    }

    /// The rules of a transparent transfer: nothing shielded, every input
    /// unspent, and as much put in as taken out.
    pub open spec fn valid_transparent(self, db: DatabaseView) -> bool {
        &&& self.shielded_inputs.len() == 0
        &&& self.shielded_outputs.len() == 0
        &&& self.nullifiers.len() == 0
        &&& self.proof is None
        &&& self.inputs_unspent(db)
        &&& input_sum(self.transparent_inputs) == output_sum(self.transparent_outputs)
    }

    /// The rules of shielding: one unspent transparent input, one shielded
    /// output, and a proof that is not empty where there is one.
    pub open spec fn valid_shield(self, db: DatabaseView) -> bool {
        &&& self.transparent_inputs.len() == 1
        &&& self.transparent_outputs.len() == 0
        &&& self.shielded_inputs.len() == 0
        &&& self.shielded_outputs.len() == 1
        &&& db.has_unspent(self.transparent_inputs[0].output_id)
        &&& (self.proof is Some ==> self.proof->Some_0.len() > 0)
    }

    /// The rules of a shielded transfer: one note in, one note out, one
    /// nullifier, and a proof.
    pub open spec fn valid_shield_to_shield(self) -> bool {
        &&& self.transparent_inputs.len() == 0
        &&& self.transparent_outputs.len() == 0
        &&& self.shielded_inputs.len() == 1
        &&& self.shielded_outputs.len() == 1
        &&& self.nullifiers.len() == 1
        &&& self.has_proof()
    }

    /// The rules of deshielding: one note in, one transparent output, one
    /// nullifier, and a proof.
    pub open spec fn valid_deshield(self) -> bool {
        &&& self.transparent_inputs.len() == 0
        &&& self.transparent_outputs.len() == 1
        &&& self.shielded_inputs.len() == 1
        &&& self.shielded_outputs.len() == 0
        &&& self.nullifiers.len() == 1
        &&& self.has_proof()
    }

    /// The rules of the transaction's kind.
    pub open spec fn valid(self, db: DatabaseView) -> bool {
        match self.tx_type {
            TransactionType::Deposit => self.valid_deposit(),
            TransactionType::Transparent => self.valid_transparent(db),
            TransactionType::Shield => self.valid_shield(db),
            TransactionType::ShieldToShield => self.valid_shield_to_shield(),
            TransactionType::Deshield => self.valid_deshield(),
        }
    }
}

/// Whether the proof is present and not empty.
fn proof_present(given: &Option<Vec<u8>>) -> (present: bool)
    ensures
        present == (optional_bytes(*given) is Some && optional_bytes(*given)->Some_0.len() > 0),
{
    match given {
        Some(p) => p.len() > 0,
        None => false,
    }
}

impl Transaction {
    /// A deposit of an amount to a transparent address.
    pub fn new_deposit(address: Address, amount: u64) -> (res: Result<Transaction, Error>)
        ensures
            match address.address_type {
                AddressType::Transparent => res is Ok && res->Ok_0@ == (TransactionView {
                    tx_type: TransactionType::Deposit,
                    transparent_inputs: Seq::empty(),
                    transparent_outputs: seq![TransparentOutputView { address: address@, amount }],
                    shielded_inputs: Seq::empty(),
                    shielded_outputs: Seq::empty(),
                    nullifiers: Seq::empty(),
                    proof: None,
                }),
                AddressType::Shielded => res is Err && res->Err_0.kind()
                    == ErrorKind::InvalidTransaction && res->Err_0.message()
                    == "Deposit must be to transparent address"@,
            },
    {
        match address.address_type {
            AddressType::Transparent => {},
            AddressType::Shielded => {
                return Err(Error::invalid_transaction("Deposit must be to transparent address"));
            },
        }
        let mut outputs: Vec<TransparentOutput> = Vec::new();
        outputs.push(TransparentOutput { address, amount });
        let tx = Transaction {
            tx_type: TransactionType::Deposit,
            transparent_inputs: Vec::new(),
            transparent_outputs: outputs,
            shielded_inputs: Vec::new(),
            shielded_outputs: Vec::new(),
            nullifiers: Vec::new(),
            proof: None,
        };
        proof {
            assert(tx@.transparent_inputs =~= Seq::empty());
            assert(tx@.transparent_outputs =~= seq![
                TransparentOutputView { address: address@, amount },
            ]);
            assert(tx@.shielded_inputs =~= Seq::empty());
            assert(tx@.shielded_outputs =~= Seq::empty());
            assert(tx@.nullifiers =~= Seq::empty());
        }
        Ok(tx)
    }

    /// A transfer between transparent addresses.
    pub fn new_transparent(inputs: Vec<TransparentInput>, outputs: Vec<TransparentOutput>) -> (res:
        Result<Transaction, Error>)
        ensures
            ({
                let wanted = TransactionView {
                    tx_type: TransactionType::Transparent,
                    transparent_inputs: input_views(inputs@),
                    transparent_outputs: output_views(outputs@),
                    shielded_inputs: Seq::empty(),
                    shielded_outputs: Seq::empty(),
                    nullifiers: Seq::empty(),
                    proof: None,
                };
                if wanted.all_transparent() {
                    res is Ok && res->Ok_0@ == wanted
                } else {
                    res is Err && res->Err_0.kind() == ErrorKind::InvalidTransaction
                        && res->Err_0.message() == if wanted.inputs_transparent() {
                        "All outputs must be transparent"@
                    } else {
                        "All inputs must be transparent"@
                    }
                }
            }),
    {
        let mut i: usize = 0;
        while i < inputs.len()
            invariant
                0 <= i <= inputs@.len(),
                forall|k: int|
                    0 <= k < i ==> (#[trigger] input_views(inputs@)[k]).address.address_type
                        == AddressType::Transparent,
            decreases inputs@.len() - i,
        {
            assert(input_views(inputs@)[i as int] == inputs@[i as int]@);
            match inputs[i].address.address_type {
                AddressType::Transparent => {},
                AddressType::Shielded => {
                    return Err(Error::invalid_transaction("All inputs must be transparent"));
                },
            }
            i += 1;
        }
        let mut j: usize = 0;
        while j < outputs.len()
            invariant
                0 <= j <= outputs@.len(),
                forall|k: int|
                    0 <= k < inputs@.len() ==> (
                    #[trigger] input_views(inputs@)[k]).address.address_type
                        == AddressType::Transparent,
                forall|k: int|
                    0 <= k < j ==> (#[trigger] output_views(outputs@)[k]).address.address_type
                        == AddressType::Transparent,
            decreases outputs@.len() - j,
        {
            assert(output_views(outputs@)[j as int] == outputs@[j as int]@);
            match outputs[j].address.address_type {
                AddressType::Transparent => {},
                AddressType::Shielded => {
                    return Err(Error::invalid_transaction("All outputs must be transparent"));
                },
            }
            j += 1;
        }
        let tx = Transaction {
            tx_type: TransactionType::Transparent,
            transparent_inputs: inputs,
            transparent_outputs: outputs,
            shielded_inputs: Vec::new(),
            shielded_outputs: Vec::new(),
            nullifiers: Vec::new(),
            proof: None,
        };
        proof {
            assert(tx@.shielded_inputs =~= Seq::empty());
            assert(tx@.shielded_outputs =~= Seq::empty());
            assert(tx@.nullifiers =~= Seq::empty());
        }
        Ok(tx)
    }

    /// A transaction that moves a transparent input into a shielded note.
    pub fn new_shield(input: TransparentInput, note: ShieldedNote) -> (res: Result<
        Transaction,
        Error,
    >)
        ensures
            match input.address.address_type {
                AddressType::Transparent => res is Ok && res->Ok_0@ == (TransactionView {
                    tx_type: TransactionType::Shield,
                    transparent_inputs: seq![input@],
                    transparent_outputs: Seq::empty(),
                    shielded_inputs: Seq::empty(),
                    shielded_outputs: seq![note@],
                    nullifiers: Seq::empty(),
                    proof: None,
                }),
                AddressType::Shielded => res is Err && res->Err_0.kind()
                    == ErrorKind::InvalidTransaction && res->Err_0.message()
                    == "Shield input must be transparent"@,
            },
    {
        match input.address.address_type {
            AddressType::Transparent => {},
            AddressType::Shielded => {
                return Err(Error::invalid_transaction("Shield input must be transparent"));
            },
        }
        let ghost input_view = input@;
        let ghost note_view = note@;
        let mut inputs: Vec<TransparentInput> = Vec::new();
        inputs.push(input);
        let mut notes: Vec<ShieldedNote> = Vec::new();
        notes.push(note);
        let tx = Transaction {
            tx_type: TransactionType::Shield,
            transparent_inputs: inputs,
            transparent_outputs: Vec::new(),
            shielded_inputs: Vec::new(),
            shielded_outputs: notes,
            nullifiers: Vec::new(),
            proof: None,
        };
        proof {
            assert(tx@.transparent_inputs =~= seq![input_view]);
            assert(tx@.transparent_outputs =~= Seq::empty());
            assert(tx@.shielded_inputs =~= Seq::empty());
            assert(tx@.shielded_outputs =~= seq![note_view]);
            assert(tx@.nullifiers =~= Seq::empty());
        }
        Ok(tx)
    }

    /// A transaction that spends one shielded note into another.
    pub fn new_shield_to_shield(
        input_note: ShieldedNote,
        output_note: ShieldedNote,
        nullifier: Vec<u8>,
        zk_proof: Vec<u8>,
    ) -> (res: Result<Transaction, Error>)
        ensures
            res is Ok,
            res->Ok_0@ == (TransactionView {
                tx_type: TransactionType::ShieldToShield,
                transparent_inputs: Seq::empty(),
                transparent_outputs: Seq::empty(),
                shielded_inputs: seq![input_note@],
                shielded_outputs: seq![output_note@],
                nullifiers: seq![nullifier@],
                proof: Some(zk_proof@),
            }),
    {
        let ghost in_view = input_note@;
        let ghost out_view = output_note@;
        let ghost nf_view = nullifier@;
        let mut ins: Vec<ShieldedNote> = Vec::new();
        ins.push(input_note);
        let mut outs: Vec<ShieldedNote> = Vec::new();
        outs.push(output_note);
        let mut nullifiers: Vec<Vec<u8>> = Vec::new();
        nullifiers.push(nullifier);
        let tx = Transaction {
            tx_type: TransactionType::ShieldToShield,
            transparent_inputs: Vec::new(),
            transparent_outputs: Vec::new(),
            shielded_inputs: ins,
            shielded_outputs: outs,
            nullifiers,
            proof: Some(zk_proof),
        };
        proof {
            assert(tx@.transparent_inputs =~= Seq::empty());
            assert(tx@.transparent_outputs =~= Seq::empty());
            assert(tx@.shielded_inputs =~= seq![in_view]);
            assert(tx@.shielded_outputs =~= seq![out_view]);
            assert(tx@.nullifiers =~= seq![nf_view]);
        }
        Ok(tx)
    }

    /// A transaction that spends a shielded note into a transparent output.
    pub fn new_deshield(
        input_note: ShieldedNote,
        output: TransparentOutput,
        nullifier: Vec<u8>,
        zk_proof: Vec<u8>,
    ) -> (res: Result<Transaction, Error>)
        ensures
            match output.address.address_type {
                AddressType::Transparent => res is Ok && res->Ok_0@ == (TransactionView {
                    tx_type: TransactionType::Deshield,
                    transparent_inputs: Seq::empty(),
                    transparent_outputs: seq![output@],
                    shielded_inputs: seq![input_note@],
                    shielded_outputs: Seq::empty(),
                    nullifiers: seq![nullifier@],
                    proof: Some(zk_proof@),
                }),
                AddressType::Shielded => res is Err && res->Err_0.kind()
                    == ErrorKind::InvalidTransaction && res->Err_0.message()
                    == "Deshield output must be transparent"@,
            },
    {
        match output.address.address_type {
            AddressType::Transparent => {},
            AddressType::Shielded => {
                return Err(Error::invalid_transaction("Deshield output must be transparent"));
            },
        }
        let ghost in_view = input_note@;
        let ghost out_view = output@;
        let ghost nf_view = nullifier@;
        let mut ins: Vec<ShieldedNote> = Vec::new();
        ins.push(input_note);
        let mut outs: Vec<TransparentOutput> = Vec::new();
        outs.push(output);
        let mut nullifiers: Vec<Vec<u8>> = Vec::new();
        nullifiers.push(nullifier);
        let tx = Transaction {
            tx_type: TransactionType::Deshield,
            transparent_inputs: Vec::new(),
            transparent_outputs: outs,
            shielded_inputs: ins,
            shielded_outputs: Vec::new(),
            nullifiers,
            proof: Some(zk_proof),
        };
        proof {
            assert(tx@.transparent_inputs =~= Seq::empty());
            assert(tx@.transparent_outputs =~= seq![out_view]);
            assert(tx@.shielded_inputs =~= seq![in_view]);
            assert(tx@.shielded_outputs =~= Seq::empty());
            assert(tx@.nullifiers =~= seq![nf_view]);
        }
        Ok(tx)
    }

    /// The nullifiers that the transaction reveals.
    pub fn get_nullifiers(&self) -> (res: &[Vec<u8>])
        ensures
            byte_string_views(res@) == self@.nullifiers,
    {
        self.nullifiers.as_slice()
    }

    /// Whether the transaction meets the rules of its kind.
    pub fn validate(&self, db: &Database) -> (res: Result<bool, Error>)
        ensures
            res is Ok,
            res->Ok_0 == self@.valid(db@),
    {
        match self.tx_type {
            TransactionType::Deposit => self.validate_deposit(),
            TransactionType::Transparent => self.validate_transparent(db),
            TransactionType::Shield => self.validate_shield(db),
            TransactionType::ShieldToShield => self.validate_shield_to_shield(db),
            TransactionType::Deshield => self.validate_deshield(db),
        }
    }

    /// Whether the transaction meets the rules of a deposit.
    pub fn validate_deposit(&self) -> (res: Result<bool, Error>)
        ensures
            res is Ok,
            res->Ok_0 == self@.valid_deposit(),
    {
        if self.transparent_inputs.len() != 0 || self.shielded_inputs.len() != 0
            || self.shielded_outputs.len() != 0 || self.nullifiers.len() != 0
            || self.proof.is_some() {
            return Ok(false);
        }
        Ok(self.transparent_outputs.len() == 1)
    }

    /// Whether every input spends an output that exists and is unspent.
    fn check_inputs_unspent(&self, db: &Database) -> (ok: bool)
        ensures
            ok == self@.inputs_unspent(db@),
    {
        let mut i: usize = 0;
        while i < self.transparent_inputs.len()
            invariant
                0 <= i <= self.transparent_inputs@.len(),
                forall|k: int|
                    0 <= k < i ==> db@.has_unspent(
                        (#[trigger] self@.transparent_inputs[k]).output_id,
                    ),
            decreases self.transparent_inputs@.len() - i,
        {
            assert(self@.transparent_inputs[i as int] == self.transparent_inputs@[i as int]@);
            if !db.has_unspent_output(self.transparent_inputs[i].output_id.as_slice()) {
                return false;
            }
            i += 1;
        }
        true
    }

    /// Whether the transaction meets the rules of a transparent transfer.
    pub fn validate_transparent(&self, db: &Database) -> (res: Result<bool, Error>)
        ensures
            res is Ok,
            res->Ok_0 == self@.valid_transparent(db@),
    {
        if self.shielded_inputs.len() != 0 || self.shielded_outputs.len() != 0
            || self.nullifiers.len() != 0 || self.proof.is_some() {
            return Ok(false);
        }
        if !self.check_inputs_unspent(db) {
            return Ok(false);
        }
        let ghost ins = self@.transparent_inputs;
        let ghost outs = self@.transparent_outputs;
        let mut total_in: u128 = 0;
        let mut i: usize = 0;
        while i < self.transparent_inputs.len()
            invariant
                0 <= i <= self.transparent_inputs@.len(),
                ins == self@.transparent_inputs,
                total_in == input_sum(ins.take(i as int)),
                total_in <= i * u64::MAX,
            decreases self.transparent_inputs@.len() - i,
        {
            proof {
                assert(ins.take(i + 1).drop_last() =~= ins.take(i as int));
                assert(ins.take(i + 1).last() == self.transparent_inputs@[i as int]@);
                assert((i + 1) * u64::MAX == i * u64::MAX + u64::MAX) by (nonlinear_arith);
                assert(i * u64::MAX <= usize::MAX * u64::MAX) by (nonlinear_arith)
                    requires
                        i <= usize::MAX,
                ;
            }
            total_in = total_in + self.transparent_inputs[i].amount as u128;
            i += 1;
        }
        let mut total_out: u128 = 0;
        let mut j: usize = 0;
        while j < self.transparent_outputs.len()
            invariant
                0 <= j <= self.transparent_outputs@.len(),
                outs == self@.transparent_outputs,
                total_out == output_sum(outs.take(j as int)),
                total_out <= j * u64::MAX,
            decreases self.transparent_outputs@.len() - j,
        {
            proof {
                assert(outs.take(j + 1).drop_last() =~= outs.take(j as int));
                assert(outs.take(j + 1).last() == self.transparent_outputs@[j as int]@);
                assert((j + 1) * u64::MAX == j * u64::MAX + u64::MAX) by (nonlinear_arith);
                assert(j * u64::MAX <= usize::MAX * u64::MAX) by (nonlinear_arith)
                    requires
                        j <= usize::MAX,
                ;
            }
            total_out = total_out + self.transparent_outputs[j].amount as u128;
            j += 1;
        }
        proof {
            assert(ins.take(i as int) =~= ins);
            assert(outs.take(j as int) =~= outs);
        }
        Ok(total_in == total_out)
    }

    /// Whether the transaction meets the rules of shielding.
    pub fn validate_shield(&self, db: &Database) -> (res: Result<bool, Error>)
        ensures
            res is Ok,
            res->Ok_0 == self@.valid_shield(db@),
    {
        if self.transparent_inputs.len() != 1 || self.transparent_outputs.len() != 0
            || self.shielded_inputs.len() != 0 || self.shielded_outputs.len() != 1 {
            return Ok(false);
        }
        assert(self@.transparent_inputs[0] == self.transparent_inputs@[0]@);
        if !db.has_unspent_output(self.transparent_inputs[0].output_id.as_slice()) {
            return Ok(false);
        }
        match &self.proof {
            Some(p) => Ok(p.len() > 0),
            None => Ok(true),
        }
    }

    /// Whether the transaction meets the rules of a shielded transfer.
    pub fn validate_shield_to_shield(&self, db: &Database) -> (res: Result<bool, Error>)
        ensures
            res is Ok,
            res->Ok_0 == self@.valid_shield_to_shield(),
    {
        if self.transparent_inputs.len() != 0 || self.transparent_outputs.len() != 0
            || self.shielded_inputs.len() != 1 || self.shielded_outputs.len() != 1
            || self.nullifiers.len() != 1 {
            return Ok(false);
        }
        Ok(proof_present(&self.proof))
    }

    /// Whether the transaction meets the rules of deshielding.
    pub fn validate_deshield(&self, db: &Database) -> (res: Result<bool, Error>)
        ensures
            res is Ok,
            res->Ok_0 == self@.valid_deshield(),
    {
        if self.transparent_inputs.len() != 0 || self.transparent_outputs.len() != 1
            || self.shielded_inputs.len() != 1 || self.shielded_outputs.len() != 0
            || self.nullifiers.len() != 1 {
            return Ok(false);
        }
        Ok(proof_present(&self.proof))
    }
}

} // verus!
