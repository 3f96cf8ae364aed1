//! Blocks, transactions and shielded actions as they stand on the chain, with
//! their mathematical views and their stored byte layout.

use vstd::prelude::*;

verus! {

/// Length in bytes of an encrypted note ciphertext.
pub const ENC_CIPHERTEXT_LEN: usize = 580;

/// Length in bytes of an outgoing ciphertext.
pub const OUT_CIPHERTEXT_LEN: usize = 80;

/// One shielded spend-and-output, in wire form.
#[derive(Debug, Clone)]
pub struct Action {
    /// Nullifier of the note being spent.
    pub nf: [u8; 32],
    /// Randomized verification key.
    pub rk: [u8; 32],
    /// Extracted commitment of the note being created.
    pub cmx: [u8; 32],
    /// Ephemeral public key.
    pub epk_bytes: [u8; 32],
    /// Encrypted note; 580 bytes in a well-formed action.
    pub enc_ciphertext: Vec<u8>,
    /// Outgoing ciphertext; 80 bytes in a well-formed action.
    pub out_ciphertext: Vec<u8>,
    /// Net value commitment.
    pub cv_net: [u8; 32],
}

/// An action as a mathematical value.
pub struct ActionView {
    pub nf: Seq<u8>,
    pub rk: Seq<u8>,
    pub cmx: Seq<u8>,
    pub epk_bytes: Seq<u8>,
    pub enc_ciphertext: Seq<u8>,
    pub out_ciphertext: Seq<u8>,
    pub cv_net: Seq<u8>,
}

impl View for Action {
    type V = ActionView;

    open spec fn view(&self) -> ActionView {
        ActionView {
            nf: self.nf@,
            rk: self.rk@,
            cmx: self.cmx@,
            epk_bytes: self.epk_bytes@,
            enc_ciphertext: self.enc_ciphertext@,
            out_ciphertext: self.out_ciphertext@,
            cv_net: self.cv_net@,
        }
    }
}

impl ActionView {
    /// Every fixed-width field has its width, and the two ciphertexts can be
    /// length-prefixed.
    pub open spec fn encodable(self) -> bool {
        &&& self.nf.len() == 32
        &&& self.rk.len() == 32
        &&& self.cmx.len() == 32
        &&& self.epk_bytes.len() == 32
        &&& self.cv_net.len() == 32
        &&& self.enc_ciphertext.len() <= u64::MAX
        &&& self.out_ciphertext.len() <= u64::MAX
    }

    /// The byte widths are exact.
    pub open spec fn widths_exact(self) -> bool {
        &&& self.encodable()
        &&& self.enc_ciphertext.len() == ENC_CIPHERTEXT_LEN
        &&& self.out_ciphertext.len() == OUT_CIPHERTEXT_LEN
    }
}

/// A shielded note in plain form: who receives it, how much it holds, and the
/// two values from which its commitment and nullifier are derived.
#[derive(Clone, Copy, Debug)]
pub struct Note {
    /// Raw bytes of the recipient address.
    pub recipient: [u8; 43],
    pub value: u64,
    pub rho: [u8; 32],
    pub rseed: [u8; 32],
}

/// A note as a mathematical value.
pub struct NoteView {
    pub recipient: Seq<u8>,
    pub value: u64,
    pub rho: Seq<u8>,
    pub rseed: Seq<u8>,
}

impl View for Note {
    type V = NoteView;

    open spec fn view(&self) -> NoteView {
        NoteView {
            recipient: self.recipient@,
            value: self.value,
            rho: self.rho@,
            rseed: self.rseed@,
        }
    }
}

/// A transparent output: a value that becomes an unspent output.
#[derive(Clone, Copy, Debug, PartialEq, Eq, Structural)]
pub struct Output {
    pub value: u64,
}

/// The values of a list of outputs.
pub open spec fn output_values(outputs: Seq<Output>) -> Seq<u64> {
    outputs.map_values(|o: Output| o.value)
}

/// The views of a list of actions.
pub open spec fn action_views(actions: Seq<Action>) -> Seq<ActionView> {
    actions.map_values(|a: Action| a@)
}

/// A list of digests as byte strings.
pub open spec fn hash_views(hashes: Seq<[u8; 32]>) -> Seq<Seq<u8>> {
    hashes.map_values(|h: [u8; 32]| h@)
}

/// A transaction: transparent inputs by id, transparent outputs by value, the
/// shielded actions in order, and the net value leaving the shielded pool.
#[derive(Debug, Clone)]
pub struct Transaction {
    pub inputs: Vec<u32>,
    pub outputs: Vec<Output>,
    pub actions: Vec<Action>,
    pub value_balance_orchard: i64,
}

/// A transaction as a mathematical value.
pub struct TransactionView {
    pub inputs: Seq<u32>,
    pub outputs: Seq<u64>,
    pub actions: Seq<ActionView>,
    pub value_balance_orchard: i64,
}

impl View for Transaction {
    type V = TransactionView;

    open spec fn view(&self) -> TransactionView {
        TransactionView {
            inputs: self.inputs@,
            outputs: output_values(self.outputs@),
            actions: action_views(self.actions@),
            value_balance_orchard: self.value_balance_orchard,
        }
    }
}

impl TransactionView {
    /// The nullifiers that the transaction reveals, in action order.
    pub open spec fn nullifiers(self) -> Seq<Seq<u8>> {
        self.actions.map_values(|a: ActionView| a.nf)
    }

    /// The note commitments that the transaction adds, in action order.
    pub open spec fn extracted_note_commitments(self) -> Seq<Seq<u8>> {
        self.actions.map_values(|a: ActionView| a.cmx)
    }

    /// The sum of the transparent output values.
    pub open spec fn value_out(self) -> int {
        sum_u64(self.outputs)
    }

    pub open spec fn encodable(self) -> bool {
        &&& self.inputs.len() <= u64::MAX
        &&& self.outputs.len() <= u64::MAX
        &&& self.actions.len() <= u64::MAX
        &&& forall|i: int| 0 <= i < self.actions.len() ==> (#[trigger] self.actions[i]).encodable()
    }
}

/// The sum of a list of values.
pub open spec fn sum_u64(values: Seq<u64>) -> int
    decreases values.len(),
{
    if values.len() == 0 {
        0
    } else {
        sum_u64(values.drop_last()) + values.last()
    }
}

/// An ordered list of transactions.
#[derive(Debug, Clone)]
pub struct Block {
    pub transactions: Vec<Transaction>,
}

/// A block as a mathematical value.
pub struct BlockView {
    pub transactions: Seq<TransactionView>,
}

/// The views of a list of transactions.
pub open spec fn transaction_views(transactions: Seq<Transaction>) -> Seq<TransactionView> {
    transactions.map_values(|t: Transaction| t@)
}

impl View for Block {
    type V = BlockView;

    open spec fn view(&self) -> BlockView {
        BlockView { transactions: transaction_views(self.transactions@) }
    }
}

/// The nullifiers of a list of transactions: those of the first transaction,
/// then those of the second, and so on.
pub open spec fn nullifiers_of(transactions: Seq<TransactionView>) -> Seq<Seq<u8>>
    decreases transactions.len(),
{
    if transactions.len() == 0 {
        Seq::empty()
    } else {
        nullifiers_of(transactions.drop_last()) + transactions.last().nullifiers()
    }
}

/// The note commitments of a list of transactions, in chain order.
pub open spec fn commitments_of(transactions: Seq<TransactionView>) -> Seq<Seq<u8>>
    decreases transactions.len(),
{
    if transactions.len() == 0 {
        Seq::empty()
    } else {
        commitments_of(transactions.drop_last())
            + transactions.last().extracted_note_commitments()
    }
}

impl BlockView {
    pub open spec fn nullifiers(self) -> Seq<Seq<u8>> {
        nullifiers_of(self.transactions)
    }

    pub open spec fn extracted_note_commitments(self) -> Seq<Seq<u8>> {
        commitments_of(self.transactions)
    }

    pub open spec fn encodable(self) -> bool {
        &&& self.transactions.len() <= u64::MAX
        &&& forall|i: int|
            0 <= i < self.transactions.len() ==> (#[trigger] self.transactions[i]).encodable()
    }
}

impl Transaction {
    /// The nullifiers that must enter the nullifier set when the transaction
    /// is connected.
    pub fn nullifiers(&self) -> (res: Vec<[u8; 32]>)
        ensures
            hash_views(res@) == self@.nullifiers(),
    {
        let mut res: Vec<[u8; 32]> = Vec::new();
        let mut i: usize = 0;
        while i < self.actions.len()
            invariant
                0 <= i <= self.actions@.len(),
                res@.len() == i,
                hash_views(res@) == self@.nullifiers().take(i as int),
            decreases self.actions@.len() - i,
        {
            let ghost before = res@;
            res.push(self.actions[i].nf);
            i += 1;
            assert forall|k: int| 0 <= k < i implies hash_views(res@)[k] == self@.nullifiers().take(
                i as int,
            )[k] by {
                if k < i - 1 {
                    assert(hash_views(before)[k] == self@.nullifiers().take(i - 1)[k]);
                } else {
                    assert(self@.actions[k] == self.actions@[k]@);
                }
            }
            assert(hash_views(res@) =~= self@.nullifiers().take(i as int));
        }
        assert(self@.nullifiers().take(i as int) =~= self@.nullifiers());
        res
    }

    /// The commitments that must be appended to the note-commitment tree when
    /// the transaction is connected.
    pub fn extracted_note_commitments(&self) -> (res: Vec<[u8; 32]>)
        ensures
            hash_views(res@) == self@.extracted_note_commitments(),
    {
        let mut res: Vec<[u8; 32]> = Vec::new();
        let mut i: usize = 0;
        while i < self.actions.len()
            invariant
                0 <= i <= self.actions@.len(),
                res@.len() == i,
                hash_views(res@) == self@.extracted_note_commitments().take(i as int),
            decreases self.actions@.len() - i,
        {
            let ghost before = res@;
            res.push(self.actions[i].cmx);
            i += 1;
            assert forall|k: int| 0 <= k < i implies hash_views(res@)[k] == self@.extracted_note_commitments().take(
                i as int,
            )[k] by {
                if k < i - 1 {
                    assert(hash_views(before)[k] == self@.extracted_note_commitments().take(i - 1)[k]);
                } else {
                    assert(self@.actions[k] == self.actions@[k]@);
                }
            }
            assert(hash_views(res@) =~= self@.extracted_note_commitments().take(i as int));
        }
        assert(self@.extracted_note_commitments().take(i as int)
            =~= self@.extracted_note_commitments());
        res
    }
}

/// Appends a copy of every digest of `src` to `out`.
pub fn extend_hashes(out: &mut Vec<[u8; 32]>, src: &Vec<[u8; 32]>)
    ensures
        final(out)@ == old(out)@ + src@,
{
    let mut i: usize = 0;
    while i < src.len()
        invariant
            0 <= i <= src@.len(),
            out@ == old(out)@ + src@.take(i as int),
        decreases src@.len() - i,
    {
        out.push(src[i]);
        i += 1;
        assert(out@ =~= old(out)@ + src@.take(i as int));
    }
    assert(src@.take(i as int) =~= src@);
}

impl Block {
    /// The nullifiers of every transaction, in chain order.
    pub fn nullifiers(&self) -> (res: Vec<[u8; 32]>)
        ensures
            hash_views(res@) == self@.nullifiers(),
    {
        let mut res: Vec<[u8; 32]> = Vec::new();
        let mut i: usize = 0;
        assert(hash_views(res@) =~= nullifiers_of(self@.transactions.take(0)));
        while i < self.transactions.len()
            invariant
                0 <= i <= self.transactions@.len(),
                hash_views(res@) == nullifiers_of(self@.transactions.take(i as int)),
            decreases self.transactions@.len() - i,
        {
            let more = self.transactions[i].nullifiers();
            let ghost before = res@;
            extend_hashes(&mut res, &more);
            i += 1;
            proof {
                let txs = self@.transactions;
                assert(txs.take(i as int).drop_last() =~= txs.take(i - 1));
                assert(txs.take(i as int).last() == self.transactions@[i - 1]@);
                assert(hash_views(res@) =~= hash_views(before) + hash_views(more@));
            }
        }
        assert(self@.transactions.take(i as int) =~= self@.transactions);
        res
    }

    /// The note commitments of every transaction, in chain order.
    pub fn extracted_note_commitments(&self) -> (res: Vec<[u8; 32]>)
        ensures
            hash_views(res@) == self@.extracted_note_commitments(),
    {
        let mut res: Vec<[u8; 32]> = Vec::new();
        let mut i: usize = 0;
        assert(hash_views(res@) =~= commitments_of(self@.transactions.take(0)));
        while i < self.transactions.len()
            invariant
                0 <= i <= self.transactions@.len(),
                hash_views(res@) == commitments_of(self@.transactions.take(i as int)),
            decreases self.transactions@.len() - i,
        {
            let more = self.transactions[i].extracted_note_commitments();
            let ghost before = res@;
            extend_hashes(&mut res, &more);
            i += 1;
            proof {
                let txs = self@.transactions;
                assert(txs.take(i as int).drop_last() =~= txs.take(i - 1));
                assert(txs.take(i as int).last() == self.transactions@[i - 1]@);
                assert(hash_views(res@) =~= hash_views(before) + hash_views(more@));
            }
        }
        assert(self@.transactions.take(i as int) =~= self@.transactions);
        res
    }
}

} // verus!
