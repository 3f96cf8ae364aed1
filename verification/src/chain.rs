//! The chain side of the ledger: the bundle anchor, the validation of a
//! transaction, and the protocol that connects a block.

use vstd::prelude::*;
use crate::db::{Db, DbView, Utxo, utxo_value};
use crate::error::{Error, ErrorKind};
use crate::provider::{
    TREE_DEPTH, action_decodes, empty_root, empty_root_at, frontier_root, frontier_root_of,
    provider_action,
};
use crate::types::{Transaction, TransactionView, sum_u64};

verus! {

/// How many blocks back from the tip, the tip counted, the anchor of a new
/// bundle is taken: the most recent block and three confirmations.
pub const ANCHOR_AGE: usize = 4;

/// The anchor that a stored frontier stands for: its root, or the root of
/// the empty tree where there is no frontier. `None` where the stored
/// frontier does not decode.
pub open spec fn anchor_of(frontier: Option<Seq<u8>>) -> Option<Seq<u8>> {
    match frontier {
        Some(f) => frontier_root_of(f),
        None => Some(empty_root_at(TREE_DEPTH)),
    }
}

/// Whether `nullifiers` holds `nf`.
pub open spec fn is_spent(nullifiers: Seq<Seq<u8>>, nf: Seq<u8>) -> bool {
    exists|i: int| 0 <= i < nullifiers.len() && nullifiers[i] == nf
}

/// Whether one of `revealed` is already in `nullifiers`.
pub open spec fn any_spent(nullifiers: Seq<Seq<u8>>, revealed: Seq<Seq<u8>>) -> bool {
    exists|i: int| 0 <= i < revealed.len() && is_spent(nullifiers, #[trigger] revealed[i])
}

/// Whether the provider accepts every action of the transaction, so that
/// its bundle can be rebuilt. A transaction carries its actions and its value
/// balance, and neither a proof nor a signature, so there is no more that the
/// provider can check of it.
pub open spec fn actions_decode(tx: TransactionView) -> bool {
    forall|i: int| 0 <= i < tx.actions.len() ==> action_decodes(#[trigger] tx.actions[i])
}

/// The sum of the values of the unspent outputs that `inputs` names; `None`
/// where one of them does not exist.
pub open spec fn inputs_value(utxos: Seq<Utxo>, inputs: Seq<u32>) -> Option<int>
    decreases inputs.len(),
{
    if inputs.len() == 0 {
        Some(0)
    } else {
        match (inputs_value(utxos, inputs.drop_last()), utxo_value(utxos, inputs.last())) {
            (Some(sum), Some(v)) => Some(sum + v),
            _ => None,
        }
    }
}

/// What the transparent side takes in minus what it gives out: the inputs
/// and the value that leaves the shielded pool, less the outputs.
pub open spec fn fee_of(value_in: int, tx: TransactionView) -> int {
    value_in + tx.value_balance_orchard - tx.value_out()
}

/// The verdict on a transaction against a state: its fee, or the kind of the
/// first check that it fails.
pub open spec fn validation(s: DbView, tx: TransactionView) -> Result<u64, ErrorKind> {
    if any_spent(s.nullifiers, tx.nullifiers()) {
        Err(ErrorKind::Nullifier)
    } else if anchor_of(s.anchor_frontier()) is None {
        Err(ErrorKind::Serialization)
    } else if !actions_decode(tx) {
        Err(ErrorKind::Crypto)
    } else {
        match inputs_value(s.utxos, tx.inputs) {
            None => Err(ErrorKind::State),
            Some(value_in) => {
                let fee = fee_of(value_in, tx);
                if !tx.inputs.no_duplicates() {
                    Err(ErrorKind::State)
                } else if 0 <= fee <= u64::MAX {
                    Ok(fee as u64)
                } else {
                    Err(ErrorKind::InvalidTransaction)
                }
            },
        }
    }
}

impl DbView {
    /// The frontier stored with the block that is fourth from the tip, the
    /// tip counted; `None` where the chain is shorter or that block has none.
    pub open spec fn anchor_frontier(self) -> Option<Seq<u8>> {
        if self.blocks.len() < ANCHOR_AGE {
            None
        } else {
            self.blocks[self.blocks.len() - ANCHOR_AGE].frontier
        }
    }

    /// The frontier stored with the newest block.
    pub open spec fn last_frontier(self) -> Option<Seq<u8>> {
        if self.blocks.len() == 0 {
            None
        } else {
            self.blocks.last().frontier
        }
    }
}

/// Whether two digests are the same.
pub fn same_hash(a: &[u8; 32], b: &[u8; 32]) -> (same: bool)
    ensures
        same == (a@ == b@),
{
    let mut i: usize = 0;
    while i < 32
        invariant
            0 <= i <= 32,
            forall|k: int| 0 <= k < i ==> a@[k] == b@[k],
        decreases 32 - i,
    {
        if a[i] != b[i] {
            return false;
        }
        i += 1;
    }
    assert(a@ =~= b@);
    true
}

impl Db {
    /// The anchor for a new bundle: the root of the frontier stored four
    /// blocks back from the tip, or the root of the empty tree where there is
    /// no such frontier.
    pub fn get_bundle_anchor(&self) -> (res: Result<[u8; 32], Error>)
        ensures
            match anchor_of(self@.anchor_frontier()) {
                Some(anchor) => res is Ok && res->Ok_0@ == anchor,
                None => res is Err && res->Err_0.kind() == ErrorKind::Serialization,
            },
    {
        let n = self.blocks.len();
        if n < ANCHOR_AGE {
            return Ok(empty_root(TREE_DEPTH));
        }
        assert(self@.blocks[n - ANCHOR_AGE] == self.blocks@[n - ANCHOR_AGE]@);
        match &self.blocks[n - ANCHOR_AGE].frontier {
            None => Ok(empty_root(TREE_DEPTH)),
            Some(frontier) => match frontier_root(frontier) {
                Some(root) => Ok(root),
                None => Err(Error::serialization_error("a stored frontier does not decode")),
            },
        }
    }

    /// The frontier stored with the newest block.
    pub fn get_last_frontier(&self) -> (res: Option<&Vec<u8>>)
        ensures
            match res {
                Some(f) => self@.last_frontier() == Some(f@),
                None => self@.last_frontier() is None,
            },
    {
        let n = self.blocks.len();
        if n == 0 {
            return None;
        }
        assert(self@.blocks.last() == self.blocks@[n - 1]@);
        match &self.blocks[n - 1].frontier {
            Some(f) => Some(f),
            None => None,
        }
    }

    /// Whether the nullifier is in the index.
    pub fn nullifier_exists(&self, nf: &[u8; 32]) -> (found: bool)
        ensures
            found == is_spent(self@.nullifiers, nf@),
    {
        let mut i: usize = 0;
        while i < self.nullifiers.len()
            invariant
                0 <= i <= self.nullifiers@.len(),
                forall|k: int| 0 <= k < i ==> self@.nullifiers[k] != nf@,
            decreases self.nullifiers@.len() - i,
        {
            if same_hash(&self.nullifiers[i], nf) {
                assert(self@.nullifiers[i as int] == nf@);
                return true;
            }
            i += 1;
        }
        false
    }

    /// The sum of the values of the unspent outputs that `inputs` names.
    fn sum_inputs(&self, inputs: &Vec<u32>) -> (res: Option<u128>)
        ensures
            match res {
                Some(sum) => inputs_value(self@.utxos, inputs@) == Some(sum as int) && sum
                    <= inputs@.len() * u64::MAX,
                None => inputs_value(self@.utxos, inputs@) is None,
            },
    {
        let mut sum: u128 = 0;
        let mut i: usize = 0;
        while i < inputs.len()
            invariant
                0 <= i <= inputs@.len(),
                inputs_value(self@.utxos, inputs@.take(i as int)) == Some(sum as int),
                sum <= i * u64::MAX,
            decreases inputs@.len() - i,
        {
            proof {
                assert(inputs@.take(i + 1).drop_last() =~= inputs@.take(i as int));
                lemma_inputs_value_prefix(self@.utxos, inputs@, i + 1);
                assert((i + 1) * u64::MAX == i * u64::MAX + u64::MAX) by (nonlinear_arith);
                assert(i * u64::MAX <= usize::MAX * u64::MAX) by (nonlinear_arith)
                    requires
                        i <= usize::MAX,
                ;
            }
            match self.get_utxo_value(inputs[i]) {
                Ok(v) => {
                    sum = sum + v as u128;
                },
                Err(_) => {
                    return None;
                },
            }
            i += 1;
        }
        assert(inputs@.take(i as int) =~= inputs@);
        Some(sum)
    }

    /// Whether the provider accepts every action of the transaction. Where
    /// it does, the byte widths of every action are exact.
    pub fn actions_decode(transaction: &Transaction) -> (ok: bool)
        ensures
            ok == actions_decode(transaction@),
            ok ==> forall|k: int|
                0 <= k < transaction@.actions.len() ==> (
                #[trigger] transaction@.actions[k]).widths_exact(),
    {
        let mut i: usize = 0;
        while i < transaction.actions.len()
            invariant
                0 <= i <= transaction.actions@.len(),
                forall|k: int| 0 <= k < i ==> action_decodes(#[trigger] transaction@.actions[k]),
                forall|k: int| 0 <= k < i ==> (#[trigger] transaction@.actions[k]).widths_exact(),
            decreases transaction.actions@.len() - i,
        {
            assert(transaction@.actions[i as int] == transaction.actions@[i as int]@);
            if provider_action(&transaction.actions[i]).is_none() {
                return false;
            }
            i += 1;
        }
        true
    }

    /// Validates a transaction against the store and returns its fee.
    ///
    /// Fails where a nullifier of the transaction is already in the index,
    /// where the frontier behind the anchor does not decode, where the
    /// provider does not accept the bundle, where a transparent input names no
    /// unspent output or is named twice, and where the fee is negative or does
    /// not fit in 64 bits; in that order.
    pub fn validate_transaction(&self, transaction: &Transaction) -> (res: Result<u64, Error>)
        ensures
            match validation(self@, transaction@) {
                Ok(fee) => res == Ok::<u64, Error>(fee),
                Err(kind) => res is Err && res->Err_0.kind() == kind,
            },
    {
        let nullifiers = transaction.nullifiers();
        let mut i: usize = 0;
        while i < nullifiers.len()
            invariant
                0 <= i <= nullifiers@.len(),
                crate::types::hash_views(nullifiers@) == transaction@.nullifiers(),
                forall|k: int|
                    0 <= k < i ==> !is_spent(self@.nullifiers, #[trigger] transaction@.nullifiers()[k]),
            decreases nullifiers@.len() - i,
        {
            assert(transaction@.nullifiers()[i as int] == nullifiers@[i as int]@);
            if self.nullifier_exists(&nullifiers[i]) {
                return Err(Error::nullifier_error("nullifier exists, note is already spent"));
            }
            i += 1;
        }
        match self.get_bundle_anchor() {
            Ok(_) => {},
            Err(e) => {
                return Err(e);
            },
        }
        if !Self::actions_decode(transaction) {
            return Err(Error::crypto_error("the provider does not accept the bundle"));
        }
        let value_in: u128 = match self.sum_inputs(&transaction.inputs) {
            Some(v) => v,
            None => {
                return Err(Error::state_error("a transparent input names no unspent output"));
            },
        };
        if !crate::connect::all_different(&transaction.inputs) {
            return Err(Error::state_error("a transparent input is named twice"));
        }
        let mut value_out: u128 = 0;
        let mut j: usize = 0;
        while j < transaction.outputs.len()
            invariant
                0 <= j <= transaction.outputs@.len(),
                value_out == sum_u64(transaction@.outputs.take(j as int)),
                value_out <= j * u64::MAX,
            decreases transaction.outputs@.len() - j,
        {
            proof {
                assert(transaction@.outputs.take(j + 1).drop_last() =~= transaction@.outputs.take(
                    j as int,
                ));
                assert(transaction@.outputs[j as int] == transaction.outputs@[j as int].value);
                assert((j + 1) * u64::MAX == j * u64::MAX + u64::MAX) by (nonlinear_arith);
                assert(j * u64::MAX <= usize::MAX * u64::MAX) by (nonlinear_arith)
                    requires
                        j <= usize::MAX,
                ;
            }
            value_out = value_out + transaction.outputs[j].value as u128;
            j += 1;
        }
        proof {
            assert(transaction@.outputs.take(j as int) =~= transaction@.outputs);
            assert(transaction.inputs@.len() == transaction.inputs.len());
            assert(transaction.inputs@.len() * u64::MAX <= usize::MAX * u64::MAX)
                by (nonlinear_arith)
                requires
                    transaction.inputs@.len() <= usize::MAX,
            ;
            assert(j * u64::MAX <= usize::MAX * u64::MAX) by (nonlinear_arith)
                requires
                    j <= usize::MAX,
            ;
        }
        let balance = transaction.value_balance_orchard;
        let (credit, debit): (u128, u128) = if balance >= 0 {
            (value_in + balance as u128, value_out)
        } else {
            (value_in, value_out + ((-(balance + 1)) as u128 + 1))
        };
        if credit < debit || credit - debit > u64::MAX as u128 {
            return Err(Error::invalid_transaction("transaction fee is negative or too large"));
        }
        Ok((credit - debit) as u64)
    }
}

/// The value of named inputs is defined for every front part of a list for
/// which it is defined.
pub proof fn lemma_inputs_value_prefix(utxos: Seq<Utxo>, inputs: Seq<u32>, n: int)
    requires
        0 <= n <= inputs.len(),
    ensures
        inputs_value(utxos, inputs.take(n)) is None ==> inputs_value(utxos, inputs) is None,
    decreases inputs.len() - n,
{
    if n == inputs.len() {
        assert(inputs.take(n) =~= inputs);
    } else {
        lemma_inputs_value_prefix(utxos, inputs, n + 1);
        assert(inputs.take(n + 1).drop_last() =~= inputs.take(n));
    }
}

} // verus!
