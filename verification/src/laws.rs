//! What holds of the ledger as a whole, stated over its mathematical model
//! and proved from the definitions of its operations.

use vstd::prelude::*;
use crate::chain::{any_spent, inputs_value, is_spent, validation};
use crate::codec::{enc_transaction, parse_block, parse_transaction};
use crate::connect::{
    advance_witnesses, all_fresh, block_fee, connect_spec, consumed_ids, frontier_step,
    utxos_after, walk, walk_step, with_utxos, without_utxos, witness_sound, witness_step,
};
use crate::db::{
    BlockRowView, DbView, ShieldedOutputView, Utxo, WalletNoteView, max_utxo_id,
    total_utxo_value, utxo_value, without_utxo,
};
use crate::cli::{Commands, Reply, executed};
use crate::error::Error;
use crate::mine::{decoded, discovered, mine_spec, mined};
use crate::provider::witness_of_frontier;
use crate::types::{BlockView, NoteView, TransactionView, nullifiers_of};
use crate::types::ActionView;
use crate::provider::{outputs_value, spends_value};
use crate::wallet::{
    BundleRequestView, address_at_index, built_from, bundle_fits, next_address, packaged,
    submit_spec, viewing_key_of,
};

verus! {

/// The value of the unspent outputs that the transactions name as inputs,
/// one transaction after the other.
pub open spec fn transparent_in(utxos: Seq<Utxo>, txs: Seq<TransactionView>) -> int
    decreases txs.len(),
{
    if txs.len() == 0 {
        0
    } else {
        transparent_in(utxos, txs.drop_last()) + match inputs_value(utxos, txs.last().inputs) {
            Some(v) => v,
            None => 0,
        }
    }
}

/// The value of the transparent outputs that the transactions create.
pub open spec fn transparent_out(txs: Seq<TransactionView>) -> int
    decreases txs.len(),
{
    if txs.len() == 0 {
        0
    } else {
        transparent_out(txs.drop_last()) + txs.last().value_out()
    }
}

/// The net value that leaves the shielded pool in the transactions.
pub open spec fn shielded_balance(txs: Seq<TransactionView>) -> int
    decreases txs.len(),
{
    if txs.len() == 0 {
        0
    } else {
        shielded_balance(txs.drop_last()) + txs.last().value_balance_orchard
    }
}

/// The fees of validated transactions add up to what the transparent side
/// takes in, plus what leaves the shielded pool, less what the transparent
/// side gives out.
pub proof fn lemma_block_fee_is_net_intake(s: DbView, txs: Seq<TransactionView>)
    requires
        block_fee(s, txs) is Ok,
    ensures
        block_fee(s, txs)->Ok_0 == transparent_in(s.utxos, txs) + shielded_balance(txs)
            - transparent_out(txs),
        block_fee(s, txs)->Ok_0 >= 0,
    decreases txs.len(),
{
    if txs.len() > 0 {
        lemma_block_fee_is_net_intake(s, txs.drop_last());
    }
}

/// The fee of a connected block is the net intake of the transparent side:
/// the sum over its transactions of the inputs, plus the value balance, less
/// the outputs. It is never negative.
pub proof fn fee_is_net_intake(s: DbView, b: BlockView, owned: Seq<Option<NoteView>>)
    requires
        connect_spec(s, b, owned) is Ok,
    ensures
        connect_spec(s, b, owned)->Ok_0.fee == transparent_in(s.utxos, b.transactions)
            + shielded_balance(b.transactions) - transparent_out(b.transactions),
        connect_spec(s, b, owned)->Ok_0.fee >= 0,
{
    lemma_block_fee_is_net_intake(s, b.transactions);
}

/// Conservation. In a connected block whose value balances cancel out, the
/// sum over the transactions of the inputs, less the outputs, less the value
/// balance, is the fee of the block, and the fee is not negative.
pub proof fn conservation(s: DbView, b: BlockView, owned: Seq<Option<NoteView>>)
    requires
        connect_spec(s, b, owned) is Ok,
        shielded_balance(b.transactions) == 0,
    ensures
        connect_spec(s, b, owned)->Ok_0.fee == transparent_in(s.utxos, b.transactions)
            - transparent_out(b.transactions) - shielded_balance(b.transactions),
        connect_spec(s, b, owned)->Ok_0.fee >= 0,
{
    lemma_block_fee_is_net_intake(s, b.transactions);
}

/// The fee stored with a mined block is the fee of connecting it.
pub proof fn mined_fee_is_connected_fee(s: DbView, owned: Seq<Option<NoteView>>)
    requires
        mine_spec(s, owned) is Ok,
        s.transactions.len() > 0,
    ensures
        ({
            let txs = crate::mine::decoded(s.transactions)->Some_0;
            let b = BlockView { transactions: txs };
            let next = mine_spec(s, owned)->Ok_0;
            &&& connect_spec(s, b, owned) is Ok
            &&& next.blocks.len() == s.blocks.len() + 1
            &&& next.blocks.last().fee == connect_spec(s, b, owned)->Ok_0.fee
            &&& next.blocks.last().frontier == connect_spec(s, b, owned)->Ok_0.frontier
            &&& next.transactions.len() == 0
        }),
{
    crate::mine::lemma_decoded_len(s.transactions);
}

/// The index of the address that the wallet hands out next.
pub open spec fn next_index(s: DbView) -> int {
    (s.addresses.len() + 1) as int
}

/// The store after `n` addresses were handed out, where every one of them
/// could be derived.
pub open spec fn after_addresses(s: DbView, n: nat) -> Option<DbView>
    decreases n,
{
    if n == 0 {
        Some(s)
    } else {
        match after_addresses(s, (n - 1) as nat) {
            None => None,
            Some(t) => match next_address(t) {
                Ok(raw) => Some(DbView { addresses: t.addresses.push(raw), ..t }),
                Err(_) => None,
            },
        }
    }
}

/// After `n` addresses the next index is `n` further on.
pub proof fn lemma_index_advances(s: DbView, n: nat)
    requires
        after_addresses(s, n) is Some,
    ensures
        next_index(after_addresses(s, n)->Some_0) == next_index(s) + n,
        n > 0 ==> after_addresses(s, (n - 1) as nat) is Some,
    decreases n,
{
    if n > 0 {
        lemma_index_advances(s, (n - 1) as nat);
    }
}

/// Address uniqueness. However many addresses the wallet hands out, no two
/// of them are derived at the same index: the address handed out after `i`
/// others has a smaller index than the one handed out after `j` others,
/// `i` before `j`.
pub proof fn address_indices_never_repeat(s: DbView, i: nat, j: nat)
    requires
        i < j,
        after_addresses(s, j + 1) is Some,
    ensures
        after_addresses(s, i) is Some,
        after_addresses(s, j) is Some,
        next_index(after_addresses(s, i)->Some_0) < next_index(after_addresses(s, j)->Some_0),
    decreases j - i,
{
    lemma_index_advances(s, j + 1);
    lemma_after_addresses_earlier(s, j, i);
    lemma_index_advances(s, j);
    lemma_index_advances(s, i);
}

/// Where `n` addresses could be handed out, fewer could.
pub proof fn lemma_after_addresses_earlier(s: DbView, n: nat, m: nat)
    requires
        m <= n,
        after_addresses(s, n) is Some,
    ensures
        after_addresses(s, m) is Some,
    decreases n - m,
{
    if m < n {
        lemma_index_advances(s, n);
        lemma_after_addresses_earlier(s, (n - 1) as nat, m);
    }
}

/// One step of staging in the mempool workspace.
pub enum Staging {
    /// Stage a transparent output of a value.
    CreateUtxo(u64),
    /// Stage the unspent output with an id.
    SpendUtxo(u32),
    /// Stage a shielded output to a raw recipient.
    CreateNote(Seq<u8>, u64),
    /// Stage a shielded output to a fresh address of the wallet.
    CreateNoteToSelf(u64),
    /// Stage the wallet note with an id.
    SpendNote(u32),
}

/// The store after one step of staging; a step that is refused changes
/// nothing.
pub open spec fn staged(s: DbView, step: Staging) -> DbView {
    match step {
        Staging::CreateUtxo(value) => DbView { outputs: s.outputs.push(value), ..s },
        Staging::SpendUtxo(id) => match utxo_value(s.utxos, id) {
            Some(_) => DbView { inputs: s.inputs.push(id), ..s },
            None => s,
        },
        Staging::CreateNote(recipient, value) => DbView {
            shielded_outputs: s.shielded_outputs.push(ShieldedOutputView { recipient, value }),
            ..s
        },
        Staging::CreateNoteToSelf(value) => match next_address(s) {
            Ok(raw) => DbView {
                addresses: s.addresses.push(raw),
                shielded_outputs: s.shielded_outputs.push(
                    ShieldedOutputView { recipient: raw, value },
                ),
                ..s
            },
            Err(_) => s,
        },
        Staging::SpendNote(id) => if 1 <= id <= s.notes.len() {
            DbView { shielded_inputs: s.shielded_inputs.push(id), ..s }
        } else {
            s
        },
    }
}

/// The store after a sequence of steps of staging.
pub open spec fn staged_all(s: DbView, steps: Seq<Staging>) -> DbView
    decreases steps.len(),
{
    if steps.len() == 0 {
        s
    } else {
        staged(staged_all(s, steps.drop_last()), steps.last())
    }
}

/// The four tables of the mempool workspace.
pub open spec fn mempool(s: DbView) -> (Seq<u32>, Seq<u64>, Seq<u32>, Seq<ShieldedOutputView>) {
    (s.inputs, s.outputs, s.shielded_inputs, s.shielded_outputs)
}

/// Staging touches nothing but the mempool workspace and the addresses
/// handed out.
pub proof fn lemma_staging_stays_in_mempool(s: DbView, steps: Seq<Staging>)
    ensures
        staged_all(s, steps).cleared() == (DbView {
            addresses: staged_all(s, steps).addresses,
            ..s.cleared()
        }),
    decreases steps.len(),
{
    if steps.len() > 0 {
        lemma_staging_stays_in_mempool(s, steps.drop_last());
    }
}

/// Clearing after any sequence of staging steps restores the mempool: from a
/// store with nothing staged, the four tables are again as they were, and
/// nothing but the addresses handed out has changed.
pub proof fn clear_restores_mempool(s: DbView, steps: Seq<Staging>)
    requires
        s.mempool_is_empty(),
    ensures
        mempool(staged_all(s, steps).cleared()) == mempool(s),
        staged_all(s, steps).cleared() == (DbView {
            addresses: staged_all(s, steps).addresses,
            ..s
        }),
{
    lemma_staging_stays_in_mempool(s, steps);
    assert(s.inputs =~= Seq::empty());
    assert(s.outputs =~= Seq::empty());
    assert(s.shielded_inputs =~= Seq::empty());
    assert(s.shielded_outputs =~= Seq::empty());
}


/// The transactions of all connected blocks, oldest first, as their stored
/// bodies decode; `None` where a body does not decode.
pub open spec fn chain_transactions(blocks: Seq<BlockRowView>) -> Option<Seq<TransactionView>>
    decreases blocks.len(),
{
    if blocks.len() == 0 {
        Some(Seq::empty())
    } else {
        match (chain_transactions(blocks.drop_last()), parse_block(blocks.last().body, 0)) {
            (Some(txs), Some((b, _))) => Some(txs + b.transactions),
            _ => None,
        }
    }
}

/// The nullifier index is exactly what the connected transactions reveal,
/// in chain order, and nothing in it occurs twice.
pub open spec fn nullifiers_accounted(s: DbView) -> bool {
    &&& chain_transactions(s.blocks) is Some
    &&& nullifiers_of(chain_transactions(s.blocks)->Some_0) == s.nullifiers
    &&& s.nullifiers.no_duplicates()
}

/// The nullifiers of two lists of transactions, one after the other.
pub proof fn lemma_nullifiers_of_append(a: Seq<TransactionView>, b: Seq<TransactionView>)
    ensures
        nullifiers_of(a + b) == nullifiers_of(a) + nullifiers_of(b),
    decreases b.len(),
{
    if b.len() == 0 {
        assert(a + b =~= a);
        assert(nullifiers_of(a) + nullifiers_of(b) =~= nullifiers_of(a));
    } else {
        lemma_nullifiers_of_append(a, b.drop_last());
        assert((a + b).drop_last() =~= a + b.drop_last());
        assert((a + b).last() == b.last());
        assert(nullifiers_of(a + b) =~= nullifiers_of(a) + nullifiers_of(b));
    }
}

/// Pending bodies decode to transactions that can be written again.
pub proof fn lemma_decoded_encodable(bodies: Seq<Seq<u8>>)
    requires
        decoded(bodies) is Some,
    ensures
        decoded(bodies)->Some_0.len() == bodies.len(),
        forall|i: int|
            0 <= i < bodies.len() ==> (#[trigger] decoded(bodies)->Some_0[i]).encodable(),
    decreases bodies.len(),
{
    if bodies.len() > 0 {
        lemma_decoded_encodable(bodies.drop_last());
        crate::codec::lemma_parsed_transaction(bodies.last(), 0);
    }
}

/// Two lists without repetition that share nothing make a list without
/// repetition.
pub proof fn lemma_fresh_append(index: Seq<Seq<u8>>, revealed: Seq<Seq<u8>>)
    requires
        index.no_duplicates(),
        all_fresh(index, revealed),
    ensures
        (index + revealed).no_duplicates(),
{
    let both = index + revealed;
    assert forall|i: int, j: int| 0 <= i < both.len() && 0 <= j < both.len() && i != j implies both[i]
        != both[j] by {
        if i < index.len() && j >= index.len() {
            let k = j - index.len();
            if both[i] == both[j] {
                assert(is_spent(index, revealed[k]));
                assert(any_spent(index, revealed));
            }
        } else if j < index.len() && i >= index.len() {
            let k = i - index.len();
            if both[i] == both[j] {
                assert(is_spent(index, revealed[k]));
                assert(any_spent(index, revealed));
            }
        } else if i >= index.len() {
            assert(revealed[i - index.len()] != revealed[j - index.len()]);
        }
    }
}

/// Mining keeps the nullifier index in step with the chain: where the index
/// was exactly what the connected transactions revealed, without
/// repetition, it is so after the next block.
pub proof fn mining_keeps_nullifiers_accounted(s: DbView, owned: Seq<Option<NoteView>>)
    requires
        nullifiers_accounted(s),
        s.transactions.len() <= u64::MAX,
        mine_spec(s, owned) is Ok,
    ensures
        nullifiers_accounted(mine_spec(s, owned)->Ok_0),
{
    let txs = decoded(s.transactions)->Some_0;
    if txs.len() > 0 {
        let b = BlockView { transactions: txs };
        let c = connect_spec(s, b, owned)->Ok_0;
        let next = mine_spec(s, owned)->Ok_0;
        lemma_decoded_encodable(s.transactions);
        assert(b.encodable());
        crate::codec::block_body_roundtrip(b);
        assert(next.blocks.drop_last() =~= s.blocks);
        let before = chain_transactions(s.blocks)->Some_0;
        lemma_nullifiers_of_append(before, txs);
        lemma_fresh_append(s.nullifiers, b.nullifiers());
    }
}

/// Where the nullifiers of the transaction at place `i` begin among the
/// nullifiers of the list.
pub open spec fn nullifier_start(txs: Seq<TransactionView>, i: int) -> int {
    nullifiers_of(txs.take(i)).len() as int
}

/// The nullifier `k` of the transaction at place `i` stands at its place
/// among the nullifiers of the list.
pub proof fn lemma_nullifier_place(txs: Seq<TransactionView>, i: int, k: int)
    requires
        0 <= i < txs.len(),
        0 <= k < txs[i].nullifiers().len(),
    ensures
        nullifier_start(txs, i) + k < nullifiers_of(txs).len(),
        nullifiers_of(txs)[nullifier_start(txs, i) + k] == txs[i].nullifiers()[k],
    decreases txs.len(),
{
    if i == txs.len() - 1 {
        assert(txs.take(i) =~= txs.drop_last());
    } else {
        lemma_nullifier_place(txs.drop_last(), i, k);
        assert(txs.drop_last().take(i) =~= txs.take(i));
    }
}

/// The nullifiers of an earlier transaction end before those of a later one
/// begin.
pub proof fn lemma_nullifier_starts_grow(txs: Seq<TransactionView>, i: int, j: int)
    requires
        0 <= i < j <= txs.len(),
    ensures
        nullifier_start(txs, i) + txs[i].nullifiers().len() <= nullifier_start(txs, j),
    decreases j - i,
{
    assert(txs.take(i + 1).drop_last() =~= txs.take(i));
    if i + 1 < j {
        lemma_nullifier_starts_grow(txs, i + 1, j);
        assert(txs.take(i + 2).drop_last() =~= txs.take(i + 1));
    }
}

/// No double-spend. Where the nullifier index is in step with the chain, no
/// nullifier of one connected transaction is a nullifier of another.
pub proof fn no_double_spend(s: DbView, i: int, j: int, a: int, b: int)
    requires
        nullifiers_accounted(s),
        0 <= i < j < chain_transactions(s.blocks)->Some_0.len(),
        0 <= a < chain_transactions(s.blocks)->Some_0[i].nullifiers().len(),
        0 <= b < chain_transactions(s.blocks)->Some_0[j].nullifiers().len(),
    ensures
        chain_transactions(s.blocks)->Some_0[i].nullifiers()[a] != chain_transactions(
            s.blocks,
        )->Some_0[j].nullifiers()[b],
{
    let txs = chain_transactions(s.blocks)->Some_0;
    lemma_nullifier_place(txs, i, a);
    lemma_nullifier_place(txs, j, b);
    lemma_nullifier_starts_grow(txs, i, j);
}

/// A block is only connected where none of its nullifiers is in the index
/// and none occurs twice in it; the index then grows by exactly the
/// nullifiers of the block.
pub proof fn connected_nullifiers_are_fresh(s: DbView, b: BlockView, owned: Seq<Option<NoteView>>)
    requires
        connect_spec(s, b, owned) is Ok,
    ensures
        all_fresh(s.nullifiers, b.nullifiers()),
        connect_spec(s, b, owned)->Ok_0.state.nullifiers == s.nullifiers + b.nullifiers(),
{
}

/// A staged transparent output that is submitted and mined becomes an
/// unspent output. Stage an output of value `v`, submit with whatever bundle
/// the provider builds, mine with whatever notes it finds; where mining
/// succeeds, the newest unspent output has value `v`, a block was added, and
/// nothing is left pending or staged.
pub proof fn created_utxo_is_mined(
    s: DbView,
    v: u64,
    bundle: Option<(Seq<ActionView>, i64)>,
    owned: Seq<Option<NoteView>>,
)
    requires
        bundle_fits(bundle),
        s.inputs.len() <= u64::MAX,
        s.outputs.len() < u64::MAX,
        mine_spec(submit_spec(staged(s, Staging::CreateUtxo(v)), bundle), owned) is Ok,
    ensures
        ({
            let end = mine_spec(
                submit_spec(staged(s, Staging::CreateUtxo(v)), bundle),
                owned,
            )->Ok_0;
            &&& end.utxos.len() > 0
            &&& end.utxos.last().value == v
            &&& end.blocks.len() == s.blocks.len() + 1
            &&& end.mempool_is_empty()
            &&& end.transactions.len() == 0
        }),
{
    let s1 = staged(s, Staging::CreateUtxo(v));
    let t = packaged(s1, bundle);
    let s2 = submit_spec(s1, bundle);
    assert(t.encodable());
    crate::codec::transaction_roundtrip(t);
    assert(s2.transactions.drop_last() =~= s.transactions);
    assert(s2.transactions.last() == enc_transaction(t));
    let earlier = decoded(s.transactions)->Some_0;
    let txs = decoded(s2.transactions)->Some_0;
    assert(txs == earlier.push(t));
    assert(txs.drop_last() =~= earlier);
    assert(txs.last() == t);
    assert(t.outputs.drop_last() =~= s.outputs);
    assert(t.outputs.last() == v);
}

/// A walk ends with a frontier exactly where it began with one or met a
/// commitment.
pub proof fn lemma_walk_frontier(
    frontier: Option<Seq<u8>>,
    found: Seq<WalletNoteView>,
    leaves: Seq<Seq<u8>>,
    owned: Seq<Option<NoteView>>,
)
    requires
        walk(frontier, found, leaves, owned) is Some,
    ensures
        walk(frontier, found, leaves, owned)->Some_0.0 is Some <==> (frontier is Some || leaves.len()
            > 0),
    decreases leaves.len(),
{
    if leaves.len() > 0 {
        let (f, next) = walk_step(frontier, found, leaves[0], owned[0])->Some_0;
        lemma_walk_frontier(Some(f), next, leaves.drop_first(), owned.drop_first());
    }
}

/// A connected block has a frontier exactly where the chain had one before
/// it or the block holds a note commitment.
pub proof fn frontier_present_iff_commitments(
    s: DbView,
    b: BlockView,
    owned: Seq<Option<NoteView>>,
)
    requires
        connect_spec(s, b, owned) is Ok,
    ensures
        connect_spec(s, b, owned)->Ok_0.frontier is Some <==> (s.last_frontier() is Some
            || b.extracted_note_commitments().len() > 0),
{
    lemma_walk_frontier(s.last_frontier(), Seq::empty(), b.extracted_note_commitments(), owned);
}


/// The frontier after a list of leaves, one step for each leaf; `None` where
/// a step fails.
pub open spec fn frontier_after(frontier: Option<Seq<u8>>, leaves: Seq<Seq<u8>>) -> Option<
    Option<Seq<u8>>,
>
    decreases leaves.len(),
{
    if leaves.len() == 0 {
        Some(frontier)
    } else {
        match frontier_step(frontier, leaves[0]) {
            None => None,
            Some(f) => frontier_after(Some(f), leaves.drop_first()),
        }
    }
}

/// A witness after a list of leaves; `None` where it cannot take one of
/// them.
pub open spec fn witness_after(witness: Seq<u8>, leaves: Seq<Seq<u8>>) -> Option<Seq<u8>>
    decreases leaves.len(),
{
    if leaves.len() == 0 {
        Some(witness)
    } else {
        match witness_step(witness, leaves[0]) {
            None => None,
            Some(w) => witness_after(w, leaves.drop_first()),
        }
    }
}

/// How many of the slots hold a note.
pub open spec fn notes_among(owned: Seq<Option<NoteView>>) -> nat
    decreases owned.len(),
{
    if owned.len() == 0 {
        0
    } else {
        notes_among(owned.drop_first()) + if owned[0] is Some {
            1nat
        } else {
            0nat
        }
    }
}

/// Advancing a list of witnesses advances each of them and keeps its note.
pub proof fn lemma_advance_each(found: Seq<WalletNoteView>, leaf: Seq<u8>)
    requires
        advance_witnesses(found, leaf) is Some,
    ensures
        advance_witnesses(found, leaf)->Some_0.len() == found.len(),
        forall|i: int|
            0 <= i < found.len() ==> {
                &&& (#[trigger] advance_witnesses(found, leaf)->Some_0[i]).note == found[i].note
                &&& witness_step(found[i].witness, leaf) == Some(
                    advance_witnesses(found, leaf)->Some_0[i].witness,
                )
            },
    decreases found.len(),
{
    if found.len() > 0 {
        lemma_advance_each(found.drop_last(), leaf);
    }
}

/// What a walk does to the frontier and to the witnesses that it began
/// with: the frontier takes every leaf, and so does each of those witnesses.
pub proof fn lemma_walk_takes_every_leaf(
    frontier: Option<Seq<u8>>,
    found: Seq<WalletNoteView>,
    leaves: Seq<Seq<u8>>,
    owned: Seq<Option<NoteView>>,
)
    requires
        owned.len() == leaves.len(),
        walk(frontier, found, leaves, owned) is Some,
    ensures
        frontier_after(frontier, leaves) == Some(walk(frontier, found, leaves, owned)->Some_0.0),
        walk(frontier, found, leaves, owned)->Some_0.1.len() == found.len() + notes_among(owned),
        forall|i: int|
            0 <= i < found.len() ==> {
                &&& (#[trigger] walk(frontier, found, leaves, owned)->Some_0.1[i]).note
                    == found[i].note
                &&& witness_after(found[i].witness, leaves) == Some(
                    walk(frontier, found, leaves, owned)->Some_0.1[i].witness,
                )
            },
    decreases leaves.len(),
{
    if leaves.len() > 0 {
        let (f, next) = walk_step(frontier, found, leaves[0], owned[0])->Some_0;
        lemma_advance_each(found, leaves[0]);
        lemma_walk_takes_every_leaf(Some(f), next, leaves.drop_first(), owned.drop_first());
        let end = walk(frontier, found, leaves, owned)->Some_0.1;
        assert forall|i: int| 0 <= i < found.len() implies {
            &&& (#[trigger] end[i]).note == found[i].note
            &&& witness_after(found[i].witness, leaves) == Some(end[i].witness)
        } by {
            assert(next[i].note == found[i].note);
            assert(witness_step(found[i].witness, leaves[0]) == Some(next[i].witness));
        }
    }
}

/// Witness and frontier take the same leaves. In a walk over the
/// commitments of a block, the note at commitment `k` gets the witness of the
/// frontier as it stands right after that commitment, and that witness then
/// takes every later commitment of the block, as the frontier does. So the
/// stored witness of every note found in a block and the frontier stored
/// with the block have taken exactly the same leaves.
pub proof fn witness_tracks_frontier(
    frontier: Option<Seq<u8>>,
    found: Seq<WalletNoteView>,
    leaves: Seq<Seq<u8>>,
    owned: Seq<Option<NoteView>>,
    k: int,
)
    requires
        owned.len() == leaves.len(),
        0 <= k < leaves.len(),
        owned[k] is Some,
        walk(frontier, found, leaves, owned) is Some,
    ensures
        ({
            let end = walk(frontier, found, leaves, owned)->Some_0;
            let at = (found.len() + notes_among(owned.take(k))) as int;
            &&& frontier_after(frontier, leaves) == Some(end.0)
            &&& at < end.1.len()
            &&& end.1[at].note == owned[k]->Some_0
            &&& frontier_after(frontier, leaves.take(k + 1)) is Some
            &&& frontier_after(frontier, leaves.take(k + 1))->Some_0 is Some
            &&& witness_of_frontier(frontier_after(frontier, leaves.take(k + 1))->Some_0->Some_0)
                is Some
            &&& witness_after(
                witness_of_frontier(
                    frontier_after(frontier, leaves.take(k + 1))->Some_0->Some_0,
                )->Some_0,
                leaves.skip(k + 1),
            ) == Some(end.1[at].witness)
        }),
    decreases leaves.len(),
{
    let (f, next) = walk_step(frontier, found, leaves[0], owned[0])->Some_0;
    let rest = leaves.drop_first();
    let rest_owned = owned.drop_first();
    lemma_advance_each(found, leaves[0]);
    lemma_walk_takes_every_leaf(frontier, found, leaves, owned);
    lemma_walk_takes_every_leaf(Some(f), next, rest, rest_owned);
    if k == 0 {
        assert(owned.take(0) =~= Seq::<Option<NoteView>>::empty());
        assert(leaves.take(1).drop_first() =~= Seq::<Seq<u8>>::empty());
        assert(leaves.take(1)[0] == leaves[0]);
        assert(frontier_after(Some(f), Seq::<Seq<u8>>::empty()) == Some(Some(f)));
        assert(leaves.skip(1) =~= rest);
        let at = found.len() as int;
        assert(next[at].note == owned[0]->Some_0);
    } else {
        witness_tracks_frontier(Some(f), next, rest, rest_owned, k - 1);
        assert(owned.take(k).drop_first() =~= rest_owned.take(k - 1));
        assert(owned.take(k)[0] == owned[0]);
        assert(leaves.take(k + 1).drop_first() =~= rest.take(k));
        assert(leaves.take(k + 1)[0] == leaves[0]);
        assert(leaves.skip(k + 1) =~= rest.skip(k));
        assert(rest_owned[k - 1] == owned[k]);
    }
}


/// In a connected block, the note of the wallet at commitment `k` is stored
/// with a witness that has taken the same leaves as the frontier of the
/// block: the witness of the frontier right after commitment `k`, advanced
/// by every later commitment of the block.
pub proof fn stored_witness_tracks_block_frontier(
    s: DbView,
    b: BlockView,
    owned: Seq<Option<NoteView>>,
    k: int,
)
    requires
        connect_spec(s, b, owned) is Ok,
        0 <= k < owned.len(),
        owned[k] is Some,
    ensures
        ({
            let connected = connect_spec(s, b, owned)->Ok_0;
            let leaves = b.extracted_note_commitments();
            let at = (s.notes.len() + notes_among(owned.take(k))) as int;
            &&& frontier_after(s.last_frontier(), leaves) == Some(connected.frontier)
            &&& at < connected.state.notes.len()
            &&& connected.state.notes[at].note == owned[k]->Some_0
            &&& frontier_after(s.last_frontier(), leaves.take(k + 1)) is Some
            &&& frontier_after(s.last_frontier(), leaves.take(k + 1))->Some_0 is Some
            &&& witness_of_frontier(
                frontier_after(s.last_frontier(), leaves.take(k + 1))->Some_0->Some_0,
            ) is Some
            &&& witness_after(
                witness_of_frontier(
                    frontier_after(s.last_frontier(), leaves.take(k + 1))->Some_0->Some_0,
                )->Some_0,
                leaves.skip(k + 1),
            ) == Some(connected.state.notes[at].witness)
        }),
{
    witness_tracks_frontier(
        s.last_frontier(),
        Seq::empty(),
        b.extracted_note_commitments(),
        owned,
        k,
    );
}


/// A store without blocks and without nullifiers has its nullifiers
/// accounted for.
pub proof fn empty_store_has_nullifiers_accounted()
    ensures
        nullifiers_accounted(DbView::empty()),
{
}

/// Whatever leaves the blocks and the nullifier index alone, as staging,
/// submitting and clearing do, keeps the nullifiers accounted for.
pub proof fn nullifiers_stay_accounted(s: DbView, t: DbView)
    requires
        nullifiers_accounted(s),
        t.blocks == s.blocks,
        t.nullifiers == s.nullifiers,
    ensures
        nullifiers_accounted(t),
{
}

/// No two unspent outputs have the same id.
pub open spec fn distinct_ids(utxos: Seq<Utxo>) -> bool {
    forall|i: int, j: int| 0 <= i < j < utxos.len() ==> utxos[i].id != utxos[j].id
}

/// Whether an unspent output has the id.
pub open spec fn has_id(utxos: Seq<Utxo>, id: u32) -> bool {
    exists|i: int| 0 <= i < utxos.len() && (#[trigger] utxos[i]).id == id
}

/// No id is above the largest id.
pub proof fn lemma_max_id_bounds(utxos: Seq<Utxo>)
    ensures
        0 <= max_utxo_id(utxos) <= u32::MAX,
        forall|i: int| 0 <= i < utxos.len() ==> (#[trigger] utxos[i]).id <= max_utxo_id(utxos),
    decreases utxos.len(),
{
    if utxos.len() > 0 {
        lemma_max_id_bounds(utxos.drop_last());
        assert forall|i: int| 0 <= i < utxos.len() implies (#[trigger] utxos[i]).id
            <= max_utxo_id(utxos) by {
            if i < utxos.len() - 1 {
                assert(utxos.drop_last()[i] == utxos[i]);
            }
        }
    }
}

/// Removing an output brings in no id.
pub proof fn lemma_without_brings_no_id(utxos: Seq<Utxo>, gone: u32, id: u32)
    requires
        has_id(without_utxo(utxos, gone), id),
    ensures
        has_id(utxos, id),
    decreases utxos.len(),
{
    if utxos.len() > 0 {
        let rest = without_utxo(utxos.drop_last(), gone);
        let w = without_utxo(utxos, gone);
        let k = choose|k: int| 0 <= k < w.len() && (#[trigger] w[k]).id == id;
        if utxos.last().id != gone && k == w.len() - 1 {
            assert(utxos[utxos.len() - 1].id == id);
        } else {
            assert(rest[k].id == id);
            lemma_without_brings_no_id(utxos.drop_last(), gone, id);
            let i = choose|i: int|
                0 <= i < utxos.drop_last().len() && (#[trigger] utxos.drop_last()[i]).id == id;
            assert(utxos[i].id == id);
        }
    }
}

/// Removing an output keeps the ids distinct.
pub proof fn lemma_without_keeps_distinct(utxos: Seq<Utxo>, gone: u32)
    requires
        distinct_ids(utxos),
    ensures
        distinct_ids(without_utxo(utxos, gone)),
    decreases utxos.len(),
{
    if utxos.len() > 0 {
        let front = utxos.drop_last();
        assert(distinct_ids(front)) by {
            assert forall|i: int, j: int| 0 <= i < j < front.len() implies front[i].id
                != front[j].id by {
                assert(utxos[i].id != utxos[j].id);
            }
        }
        lemma_without_keeps_distinct(front, gone);
        let rest = without_utxo(front, gone);
        let w = without_utxo(utxos, gone);
        if utxos.last().id != gone {
            assert forall|i: int, j: int| 0 <= i < j < w.len() implies w[i].id != w[j].id by {
                if j == w.len() - 1 {
                    if w[i].id == w[j].id {
                        assert(rest[i].id == utxos.last().id);
                        assert(has_id(rest, utxos.last().id));
                        lemma_without_brings_no_id(front, gone, utxos.last().id);
                        let m = choose|m: int|
                            0 <= m < front.len() && (#[trigger] front[m]).id == utxos.last().id;
                        assert(utxos[m].id == utxos[utxos.len() - 1].id);
                    }
                } else {
                    assert(rest[i].id != rest[j].id);
                }
            }
        }
    }
}

/// Removing outputs keeps the ids distinct.
pub proof fn lemma_without_all_keeps_distinct(utxos: Seq<Utxo>, ids: Seq<u32>)
    requires
        distinct_ids(utxos),
    ensures
        distinct_ids(without_utxos(utxos, ids)),
    decreases ids.len(),
{
    if ids.len() > 0 {
        lemma_without_all_keeps_distinct(utxos, ids.drop_last());
        lemma_without_keeps_distinct(without_utxos(utxos, ids.drop_last()), ids.last());
    }
}

/// New outputs keep the ids distinct: each gets an id above all others.
pub proof fn lemma_with_keeps_distinct(utxos: Seq<Utxo>, values: Seq<u64>)
    requires
        distinct_ids(utxos),
        with_utxos(utxos, values) is Some,
    ensures
        distinct_ids(with_utxos(utxos, values)->Some_0),
    decreases values.len(),
{
    if values.len() > 0 {
        lemma_with_keeps_distinct(utxos, values.drop_last());
        let before = with_utxos(utxos, values.drop_last())->Some_0;
        let after = with_utxos(utxos, values)->Some_0;
        lemma_max_id_bounds(before);
        assert forall|i: int, j: int| 0 <= i < j < after.len() implies after[i].id
            != after[j].id by {
            if j == after.len() - 1 {
                assert(before[i].id <= max_utxo_id(before));
            } else {
                assert(before[i].id != before[j].id);
            }
        }
    }
}

/// The ids of the unspent outputs stay distinct. Where no two unspent
/// outputs share an id, none do after the transactions of a block.
pub proof fn utxo_ids_stay_distinct(utxos: Seq<Utxo>, txs: Seq<TransactionView>)
    requires
        distinct_ids(utxos),
        utxos_after(utxos, txs) is Some,
    ensures
        distinct_ids(utxos_after(utxos, txs)->Some_0),
    decreases txs.len(),
{
    if txs.len() > 0 {
        utxo_ids_stay_distinct(utxos, txs.drop_last());
        let before = utxos_after(utxos, txs.drop_last())->Some_0;
        lemma_without_all_keeps_distinct(before, txs.last().inputs);
        lemma_with_keeps_distinct(without_utxos(before, txs.last().inputs), txs.last().outputs);
    }
}

/// A conjured output keeps the ids distinct.
pub proof fn conjured_id_is_new(s: DbView, value: u64)
    requires
        distinct_ids(s.utxos),
        max_utxo_id(s.utxos) < u32::MAX,
    ensures
        distinct_ids(s.with_utxo(value).utxos),
{
    lemma_max_id_bounds(s.utxos);
    let after = s.with_utxo(value).utxos;
    assert forall|i: int, j: int| 0 <= i < j < after.len() implies after[i].id != after[j].id by {
        if j == after.len() - 1 {
            assert(s.utxos[i].id <= max_utxo_id(s.utxos));
        } else {
            assert(s.utxos[i].id != s.utxos[j].id);
        }
    }
}


/// A submitted transaction can be read back. Where the bundle fits and the
/// staged transparent rows can be counted, the newest pending body decodes
/// to the transaction that was packaged.
pub proof fn submitted_body_decodes(s: DbView, bundle: Option<(Seq<ActionView>, i64)>)
    requires
        bundle_fits(bundle),
        s.inputs.len() <= u64::MAX,
        s.outputs.len() <= u64::MAX,
    ensures
        submit_spec(s, bundle).transactions.len() == s.transactions.len() + 1,
        parse_transaction(submit_spec(s, bundle).transactions.last(), 0) == Some(
            (packaged(s, bundle), enc_transaction(packaged(s, bundle)).len() as int),
        ),
{
    let t = packaged(s, bundle);
    assert(t.encodable());
    crate::codec::transaction_roundtrip(t);
}


/// A row added behind a table is found only where the table has no row of
/// that id.
pub proof fn lemma_lookup_push(utxos: Seq<Utxo>, row: Utxo, id: u32)
    ensures
        utxo_value(utxos.push(row), id) == match utxo_value(utxos, id) {
            Some(v) => Some(v),
            None => if row.id == id {
                Some(row.value)
            } else {
                None
            },
        },
    decreases utxos.len(),
{
    let longer = utxos.push(row);
    if utxos.len() == 0 {
        assert(longer.drop_first() =~= Seq::<Utxo>::empty());
        assert(utxo_value(longer.drop_first(), id) is None);
    } else {
        assert(longer.drop_first() =~= utxos.drop_first().push(row));
        assert(longer[0] == utxos[0]);
        lemma_lookup_push(utxos.drop_first(), row, id);
    }
}

/// A lookup finds a row of the id, and finds one wherever there is one.
pub proof fn lemma_lookup_finds(utxos: Seq<Utxo>, id: u32)
    ensures
        utxo_value(utxos, id) is Some <==> has_id(utxos, id),
        utxo_value(utxos, id) is Some ==> exists|k: int|
            0 <= k < utxos.len() && (#[trigger] utxos[k]).id == id && utxos[k].value
                == utxo_value(utxos, id)->Some_0,
    decreases utxos.len(),
{
    if utxos.len() > 0 {
        let rest = utxos.drop_first();
        lemma_lookup_finds(rest, id);
        if utxos[0].id == id {
            assert(utxos[0].id == id && utxos[0].value == utxo_value(utxos, id)->Some_0);
        } else {
            if utxo_value(rest, id) is Some {
                let k = choose|k: int|
                    0 <= k < rest.len() && (#[trigger] rest[k]).id == id && rest[k].value
                        == utxo_value(rest, id)->Some_0;
                assert(utxos[k + 1].id == id && utxos[k + 1].value == utxo_value(
                    utxos,
                    id,
                )->Some_0);
            }
            if has_id(utxos, id) {
                let k = choose|k: int| 0 <= k < utxos.len() && (#[trigger] utxos[k]).id == id;
                assert(rest[k - 1].id == id);
            }
        }
    }
}

/// Where the ids are distinct, the lookup of the id of a row gives that
/// row's value.
pub proof fn lemma_lookup_of_row(utxos: Seq<Utxo>, k: int)
    requires
        distinct_ids(utxos),
        0 <= k < utxos.len(),
    ensures
        utxo_value(utxos, utxos[k].id) == Some(utxos[k].value),
{
    let id = utxos[k].id;
    lemma_lookup_finds(utxos, id);
    assert(has_id(utxos, id));
    let j = choose|j: int|
        0 <= j < utxos.len() && (#[trigger] utxos[j]).id == id && utxos[j].value == utxo_value(
            utxos,
            id,
        )->Some_0;
    if j < k {
        assert(utxos[j].id != utxos[k].id);
    } else if k < j {
        assert(utxos[k].id != utxos[j].id);
    }
}

/// The front of a table with distinct ids has distinct ids.
pub proof fn lemma_front_distinct(utxos: Seq<Utxo>)
    requires
        distinct_ids(utxos),
        utxos.len() > 0,
    ensures
        distinct_ids(utxos.drop_last()),
{
    let front = utxos.drop_last();
    assert forall|i: int, j: int| 0 <= i < j < front.len() implies front[i].id != front[j].id by {
        assert(utxos[i].id != utxos[j].id);
    }
}

/// Removing an output leaves the lookup of every other id as it was.
pub proof fn lemma_without_lookup(utxos: Seq<Utxo>, gone: u32, id: u32)
    requires
        gone != id,
    ensures
        utxo_value(without_utxo(utxos, gone), id) == utxo_value(utxos, id),
    decreases utxos.len(),
{
    if utxos.len() > 0 {
        let front = utxos.drop_last();
        let last = utxos.last();
        lemma_without_lookup(front, gone, id);
        assert(utxos =~= front.push(last));
        lemma_lookup_push(front, last, id);
        if last.id != gone {
            lemma_lookup_push(without_utxo(front, gone), last, id);
        }
    }
}

/// Where the ids are distinct, removing an output takes its value, and
/// nothing else, out of the total.
pub proof fn lemma_without_total(utxos: Seq<Utxo>, id: u32)
    requires
        distinct_ids(utxos),
    ensures
        total_utxo_value(without_utxo(utxos, id)) == total_utxo_value(utxos) - match utxo_value(
            utxos,
            id,
        ) {
            Some(v) => v as int,
            None => 0,
        },
    decreases utxos.len(),
{
    if utxos.len() > 0 {
        let front = utxos.drop_last();
        let last = utxos.last();
        lemma_front_distinct(utxos);
        lemma_without_total(front, id);
        assert(utxos =~= front.push(last));
        lemma_lookup_push(front, last, id);
        if last.id == id {
            lemma_lookup_of_row(utxos, utxos.len() - 1);
            lemma_lookup_finds(front, id);
            if has_id(front, id) {
                let k = choose|k: int| 0 <= k < front.len() && (#[trigger] front[k]).id == id;
                assert(utxos[k].id != utxos[utxos.len() - 1].id);
            }
        } else {
            assert(without_utxo(front, id).push(last).drop_last() =~= without_utxo(front, id));
        }
    }
}

/// Where the value of named inputs is defined, each of them is there.
pub proof fn lemma_inputs_present(utxos: Seq<Utxo>, inputs: Seq<u32>)
    requires
        inputs_value(utxos, inputs) is Some,
    ensures
        forall|i: int| 0 <= i < inputs.len() ==> utxo_value(utxos, #[trigger] inputs[i]) is Some,
    decreases inputs.len(),
{
    if inputs.len() > 0 {
        lemma_inputs_present(utxos, inputs.drop_last());
        assert forall|i: int| 0 <= i < inputs.len() implies utxo_value(
            utxos,
            #[trigger] inputs[i],
        ) is Some by {
            if i < inputs.len() - 1 {
                assert(inputs.drop_last()[i] == inputs[i]);
            }
        }
    }
}

/// Consuming inputs that are all there, each once, takes their values out of
/// the total and leaves every other output as it was.
pub proof fn lemma_without_all(utxos: Seq<Utxo>, inputs: Seq<u32>, before: Seq<Utxo>)
    requires
        distinct_ids(utxos),
        inputs.no_duplicates(),
        forall|i: int|
            0 <= i < inputs.len() ==> utxo_value(utxos, #[trigger] inputs[i]) is Some
                && utxo_value(utxos, inputs[i]) == utxo_value(before, inputs[i]),
    ensures
        distinct_ids(without_utxos(utxos, inputs)),
        inputs_value(before, inputs) is Some,
        total_utxo_value(without_utxos(utxos, inputs)) == total_utxo_value(utxos) - inputs_value(
            before,
            inputs,
        )->Some_0,
        forall|id: u32|
            (forall|i: int| 0 <= i < inputs.len() ==> inputs[i] != id) ==> utxo_value(
                without_utxos(utxos, inputs),
                id,
            ) == utxo_value(utxos, id),
    decreases inputs.len(),
{
    if inputs.len() > 0 {
        let front = inputs.drop_last();
        let x = inputs.last();
        assert forall|i: int, j: int| 0 <= i < front.len() && 0 <= j < front.len() && i
            != j implies front[i] != front[j] by {
            assert(inputs[i] != inputs[j]);
        }
        assert forall|i: int| 0 <= i < front.len() implies utxo_value(utxos, #[trigger] front[i])
            is Some && utxo_value(utxos, front[i]) == utxo_value(before, front[i]) by {
            assert(front[i] == inputs[i]);
        }
        lemma_without_all(utxos, front, before);
        let w = without_utxos(utxos, front);
        assert forall|i: int| 0 <= i < front.len() implies front[i] != x by {
            assert(inputs[i] != inputs[inputs.len() - 1]);
        }
        assert(utxo_value(w, x) == utxo_value(utxos, x));
        assert(utxo_value(utxos, inputs[inputs.len() - 1]) is Some);
        lemma_without_total(w, x);
        lemma_without_keeps_distinct(w, x);
        assert forall|id: u32|
            (forall|i: int| 0 <= i < inputs.len() ==> inputs[i] != id) implies utxo_value(
            without_utxos(utxos, inputs),
            id,
        ) == utxo_value(utxos, id) by {
            assert(inputs[inputs.len() - 1] != id);
            assert forall|i: int| 0 <= i < front.len() implies front[i] != id by {
                assert(inputs[i] != id);
            }
            lemma_without_lookup(w, x, id);
        }
    }
}

/// New outputs add their values to the total and leave every output that
/// was there as it was.
pub proof fn lemma_with_all(utxos: Seq<Utxo>, values: Seq<u64>)
    requires
        with_utxos(utxos, values) is Some,
    ensures
        total_utxo_value(with_utxos(utxos, values)->Some_0) == total_utxo_value(utxos)
            + crate::types::sum_u64(values),
        forall|id: u32|
            utxo_value(utxos, id) is Some ==> utxo_value(with_utxos(utxos, values)->Some_0, id)
                == utxo_value(utxos, id),
    decreases values.len(),
{
    if values.len() > 0 {
        lemma_with_all(utxos, values.drop_last());
        let before = with_utxos(utxos, values.drop_last())->Some_0;
        let row = Utxo { id: (max_utxo_id(before) + 1) as u32, value: values.last() };
        assert(before.push(row).drop_last() =~= before);
        assert forall|id: u32| utxo_value(utxos, id) is Some implies utxo_value(
            with_utxos(utxos, values)->Some_0,
            id,
        ) == utxo_value(utxos, id) by {
            lemma_lookup_push(before, row, id);
        }
    }
}

/// Every transaction of a block whose fees are defined validates.
pub proof fn lemma_block_fee_validates(s: DbView, txs: Seq<TransactionView>)
    requires
        block_fee(s, txs) is Ok,
    ensures
        forall|i: int| 0 <= i < txs.len() ==> validation(s, #[trigger] txs[i]) is Ok,
    decreases txs.len(),
{
    if txs.len() > 0 {
        lemma_block_fee_validates(s, txs.drop_last());
        assert forall|i: int| 0 <= i < txs.len() implies validation(s, #[trigger] txs[i])
            is Ok by {
            if i < txs.len() - 1 {
                assert(txs.drop_last()[i] == txs[i]);
            }
        }
    }
}

/// The transparent pool after the transactions of a block, each of whose
/// inputs is there before the block and none of which is consumed twice:
/// its total is the total before, less the inputs, plus the outputs; its ids
/// are distinct; and every output that no transaction consumed is as it was.
pub proof fn lemma_pool_after(before: Seq<Utxo>, txs: Seq<TransactionView>)
    requires
        distinct_ids(before),
        consumed_ids(txs).no_duplicates(),
        forall|i: int| 0 <= i < txs.len() ==> inputs_value(before, (#[trigger] txs[i]).inputs) is Some,
        utxos_after(before, txs) is Some,
    ensures
        distinct_ids(utxos_after(before, txs)->Some_0),
        total_utxo_value(utxos_after(before, txs)->Some_0) == total_utxo_value(before)
            - transparent_in(before, txs) + transparent_out(txs),
        forall|id: u32|
            utxo_value(before, id) is Some && (forall|j: int|
                0 <= j < consumed_ids(txs).len() ==> consumed_ids(txs)[j] != id) ==> utxo_value(
                utxos_after(before, txs)->Some_0,
                id,
            ) == utxo_value(before, id),
    decreases txs.len(),
{
    if txs.len() > 0 {
        let front = txs.drop_last();
        let t = txs.last();
        let all = consumed_ids(txs);
        let earlier = consumed_ids(front);
        assert(all =~= earlier + t.inputs);
        assert forall|i: int, j: int| 0 <= i < earlier.len() && 0 <= j < earlier.len() && i
            != j implies earlier[i] != earlier[j] by {
            assert(all[i] == earlier[i] && all[j] == earlier[j]);
        }
        assert forall|i: int| 0 <= i < front.len() implies inputs_value(
            before,
            (#[trigger] front[i]).inputs,
        ) is Some by {
            assert(front[i] == txs[i]);
        }
        lemma_pool_after(before, front);
        let u = utxos_after(before, front)->Some_0;
        assert(inputs_value(before, txs[txs.len() - 1].inputs) is Some);
        lemma_inputs_present(before, t.inputs);
        assert forall|i: int, j: int| 0 <= i < t.inputs.len() && 0 <= j < t.inputs.len() && i
            != j implies t.inputs[i] != t.inputs[j] by {
            assert(all[earlier.len() + i] == t.inputs[i] && all[earlier.len() + j]
                == t.inputs[j]);
        }
        assert forall|i: int| 0 <= i < t.inputs.len() implies utxo_value(
            u,
            #[trigger] t.inputs[i],
        ) is Some && utxo_value(u, t.inputs[i]) == utxo_value(before, t.inputs[i]) by {
            let id = t.inputs[i];
            assert(all[earlier.len() + i] == id);
            assert forall|j: int| 0 <= j < earlier.len() implies earlier[j] != id by {
                assert(all[j] == earlier[j]);
            }
        }
        lemma_without_all(u, t.inputs, before);
        let w = without_utxos(u, t.inputs);
        lemma_with_all(w, t.outputs);
        lemma_with_keeps_distinct(w, t.outputs);
        let end = utxos_after(before, txs)->Some_0;
        assert forall|id: u32|
            utxo_value(before, id) is Some && (forall|j: int|
                0 <= j < all.len() ==> all[j] != id) implies utxo_value(end, id) == utxo_value(
            before,
            id,
        ) by {
            assert forall|j: int| 0 <= j < earlier.len() implies earlier[j] != id by {
                assert(all[j] == earlier[j]);
            }
            assert forall|i: int| 0 <= i < t.inputs.len() implies t.inputs[i] != id by {
                assert(all[earlier.len() + i] == t.inputs[i]);
            }
            assert(utxo_value(u, id) == utxo_value(before, id));
            assert(utxo_value(w, id) == utxo_value(u, id));
        }
    }
}

/// The value of the transparent pool is conserved. Where no two unspent
/// outputs share an id, a connected block leaves the pool with its total
/// before the block, less the fee of the block, plus the net value that left
/// the shielded pool in it. No unspent output is consumed twice.
pub proof fn pool_value_is_conserved(s: DbView, b: BlockView, owned: Seq<Option<NoteView>>)
    requires
        distinct_ids(s.utxos),
        connect_spec(s, b, owned) is Ok,
    ensures
        total_utxo_value(connect_spec(s, b, owned)->Ok_0.state.utxos) == total_utxo_value(
            s.utxos,
        ) - connect_spec(s, b, owned)->Ok_0.fee + shielded_balance(b.transactions),
        distinct_ids(connect_spec(s, b, owned)->Ok_0.state.utxos),
        consumed_ids(b.transactions).no_duplicates(),
{
    lemma_block_fee_is_net_intake(s, b.transactions);
    lemma_block_fee_validates(s, b.transactions);
    assert forall|i: int| 0 <= i < b.transactions.len() implies inputs_value(
        s.utxos,
        (#[trigger] b.transactions[i]).inputs,
    ) is Some by {
        assert(validation(s, b.transactions[i]) is Ok);
    }
    lemma_pool_after(s.utxos, b.transactions);
}

/// The store that every ledger begins as has no unspent output, so no two
/// share an id.
pub proof fn empty_store_has_distinct_ids()
    ensures
        distinct_ids(DbView::empty().utxos),
{
}

/// No command makes two unspent outputs share an id. Every ledger begins
/// empty, so after any run of commands the ids of the unspent outputs are
/// pairwise different.
pub proof fn commands_keep_ids_distinct(
    before: DbView,
    command: Commands,
    res: Result<Reply, Error>,
    after: DbView,
)
    requires
        distinct_ids(before.utxos),
        executed(before, command, res, after),
    ensures
        distinct_ids(after.utxos),
{
    match command {
        Commands::Mine => {
            if mined(before) is Ok {
                let txs = decoded(before.transactions)->Some_0;
                if txs.len() > 0 {
                    let b = BlockView { transactions: txs };
                    pool_value_is_conserved(before, b, discovered(before, b)->Ok_0);
                }
            }
        },
        Commands::ConjureUtxo { value } => {
            if max_utxo_id(before.utxos) < u32::MAX {
                conjured_id_is_new(before, value);
            }
        },
        _ => {},
    }
}

/// No command lets the nullifier index and the chain part. Every ledger
/// begins empty, so after any run of commands the index holds exactly what
/// the connected transactions revealed, each nullifier once: no note is
/// spent twice.
pub proof fn commands_keep_nullifiers_accounted(
    before: DbView,
    command: Commands,
    res: Result<Reply, Error>,
    after: DbView,
)
    requires
        nullifiers_accounted(before),
        before.transactions.len() <= u64::MAX,
        executed(before, command, res, after),
    ensures
        nullifiers_accounted(after),
{
    match command {
        Commands::Mine => {
            if mined(before) is Ok {
                let txs = decoded(before.transactions)->Some_0;
                if txs.len() > 0 {
                    let b = BlockView { transactions: txs };
                    mining_keeps_nullifiers_accounted(before, discovered(before, b)->Ok_0);
                }
            }
        },
        _ => {
            nullifiers_stay_accounted(before, after);
        },
    }
}

/// The store that every ledger begins as has handed out no address.
pub proof fn empty_store_has_no_address()
    ensures
        DbView::empty().addresses.no_duplicates(),
{
}

/// No command hands out an address that was handed out before. Every ledger
/// begins empty, so after any run of commands the addresses of the wallet
/// are pairwise different.
pub proof fn commands_keep_addresses_distinct(
    before: DbView,
    command: Commands,
    res: Result<Reply, Error>,
    after: DbView,
)
    requires
        before.addresses.no_duplicates(),
        executed(before, command, res, after),
    ensures
        after.addresses.no_duplicates(),
{
    match command {
        Commands::Mine => {
            if mined(before) is Ok {
                let txs = decoded(before.transactions)->Some_0;
                if txs.len() > 0 {
                    let b = BlockView { transactions: txs };
                    lemma_connect_keeps_addresses(before, b, discovered(before, b)->Ok_0);
                }
            }
        },
        _ => {},
    }
}

/// Connecting a block hands out no address.
pub proof fn lemma_connect_keeps_addresses(s: DbView, b: BlockView, owned: Seq<Option<NoteView>>)
    requires
        connect_spec(s, b, owned) is Ok,
    ensures
        connect_spec(s, b, owned)->Ok_0.state.addresses == s.addresses,
{
}

/// Two addresses that the wallet hands out one after the other are those
/// of its key at the two indices after the number of addresses handed out
/// before; they are recorded in that order, and they differ.
pub proof fn consecutive_addresses_differ(s: DbView)
    requires
        after_addresses(s, 2) is Some,
    ensures
        ({
            let first = after_addresses(s, 1)->Some_0;
            let second = after_addresses(s, 2)->Some_0;
            let fvk = viewing_key_of(s.wallet_seed->Some_0)->Some_0;
            let m = s.addresses.len();
            &&& first.addresses == s.addresses.push(first.addresses.last())
            &&& second.addresses == first.addresses.push(second.addresses.last())
            &&& address_at_index(fvk, (m + 1) as u32) == Some(first.addresses.last())
            &&& address_at_index(fvk, (m + 2) as u32) == Some(second.addresses.last())
            &&& second.addresses.last() != first.addresses.last()
        }),
{
    reveal_with_fuel(after_addresses, 3);
    let first = after_addresses(s, 1)->Some_0;
    let raw = next_address(first)->Ok_0;
    assert(!first.addresses.contains(raw));
    assert(first.addresses[first.addresses.len() - 1] == first.addresses.last());
}

/// Whether a stored witness leads to the root of the frontier of one of the
/// blocks.
pub open spec fn rooted_in(blocks: Seq<BlockRowView>, witness: Seq<u8>) -> bool {
    exists|j: int| 0 <= j < blocks.len() && witness_sound((#[trigger] blocks[j]).frontier, witness)
}

/// Whether the witness of every note of the wallet leads to the root of the
/// frontier of a block of the chain.
pub open spec fn witnesses_rooted(s: DbView) -> bool {
    forall|k: int| 0 <= k < s.notes.len() ==> rooted_in(s.blocks, (#[trigger] s.notes[k]).witness)
}

/// Witness soundness at the moment of connecting. The notes that a
/// connected block adds to the wallet come after the notes that were there,
/// and the stored witness of each of them leads to the root of the frontier
/// after the block, at the full depth of the tree.
pub proof fn found_witnesses_are_sound(s: DbView, b: BlockView, owned: Seq<Option<NoteView>>)
    requires
        connect_spec(s, b, owned) is Ok,
    ensures
        ({
            let c = connect_spec(s, b, owned)->Ok_0;
            &&& c.state.notes.len() >= s.notes.len()
            &&& c.state.notes.take(s.notes.len() as int) == s.notes
            &&& c.state.blocks == s.blocks
            &&& forall|k: int|
                s.notes.len() <= k < c.state.notes.len() ==> witness_sound(
                    c.frontier,
                    (#[trigger] c.state.notes[k]).witness,
                )
        }),
{
    let c = connect_spec(s, b, owned)->Ok_0;
    let found = walk(s.last_frontier(), Seq::empty(), b.extracted_note_commitments(), owned)->Some_0.1;
    assert(c.state.notes == s.notes + found);
    assert(c.state.notes.take(s.notes.len() as int) =~= s.notes);
    assert forall|k: int| s.notes.len() <= k < c.state.notes.len() implies witness_sound(
        c.frontier,
        (#[trigger] c.state.notes[k]).witness,
    ) by {
        assert(c.state.notes[k] == found[k - s.notes.len()]);
    }
}

/// A witness that leads to the root of a block's frontier still does when
/// a block is added.
pub proof fn lemma_rooted_in_longer(blocks: Seq<BlockRowView>, row: BlockRowView, witness: Seq<u8>)
    requires
        rooted_in(blocks, witness),
    ensures
        rooted_in(blocks.push(row), witness),
{
    let j = choose|j: int| 0 <= j < blocks.len() && witness_sound((#[trigger] blocks[j]).frontier, witness);
    assert(blocks.push(row)[j] == blocks[j]);
}

/// Mining keeps the witnesses sound: the notes that were there keep their
/// witnesses, which lead to the roots of earlier blocks, and each new note
/// has a witness that leads to the root of the frontier of the new block.
pub proof fn mining_keeps_witnesses_rooted(s: DbView, owned: Seq<Option<NoteView>>)
    requires
        witnesses_rooted(s),
        mine_spec(s, owned) is Ok,
    ensures
        witnesses_rooted(mine_spec(s, owned)->Ok_0),
{
    let txs = decoded(s.transactions)->Some_0;
    if txs.len() > 0 {
        let b = BlockView { transactions: txs };
        let c = connect_spec(s, b, owned)->Ok_0;
        let next = mine_spec(s, owned)->Ok_0;
        found_witnesses_are_sound(s, b, owned);
        let row = next.blocks.last();
        assert(next.blocks == s.blocks.push(row));
        assert(row.frontier == c.frontier);
        assert(next.notes == c.state.notes);
        assert forall|k: int| 0 <= k < next.notes.len() implies rooted_in(
            next.blocks,
            (#[trigger] next.notes[k]).witness,
        ) by {
            if k < s.notes.len() {
                assert(next.notes[k] == c.state.notes.take(s.notes.len() as int)[k]);
                assert(rooted_in(s.blocks, s.notes[k].witness));
                lemma_rooted_in_longer(s.blocks, row, s.notes[k].witness);
            } else {
                assert(witness_sound(c.frontier, c.state.notes[k].witness));
                assert(next.blocks[next.blocks.len() - 1] == row);
            }
        }
    }
}

/// A store without notes has its witnesses sound.
pub proof fn empty_store_has_witnesses_rooted()
    ensures
        witnesses_rooted(DbView::empty()),
{
}

/// Witness soundness. No command leaves the wallet with a note whose stored
/// witness leads elsewhere than to the root of the frontier of a block of
/// the chain. Every ledger begins empty, so this holds after any run of
/// commands: the root of every stored witness is the root of the frontier
/// that was stored with the block in which the note was found.
pub proof fn commands_keep_witnesses_rooted(
    before: DbView,
    command: Commands,
    res: Result<Reply, Error>,
    after: DbView,
)
    requires
        witnesses_rooted(before),
        executed(before, command, res, after),
    ensures
        witnesses_rooted(after),
{
    match command {
        Commands::Mine => {
            if mined(before) is Ok {
                let txs = decoded(before.transactions)->Some_0;
                if txs.len() > 0 {
                    let b = BlockView { transactions: txs };
                    mining_keeps_witnesses_rooted(before, discovered(before, b)->Ok_0);
                }
            }
        },
        _ => {
            assert(after.notes == before.notes);
            assert(after.blocks == before.blocks);
        },
    }
}

/// The fee of a transaction with a built bundle. Where the transaction that
/// the staged transparent rows and a bundle built from a request make is
/// valid, its fee is what its transparent inputs hold, plus the value of the
/// notes that the bundle spends, less the value of the notes and of the
/// transparent outputs that it creates.
pub proof fn fee_of_a_built_transaction(
    staged: DbView,
    request: BundleRequestView,
    bundle: (Seq<ActionView>, i64),
    s: DbView,
)
    requires
        built_from(request, bundle),
        validation(s, packaged(staged, Some(bundle))) is Ok,
    ensures
        inputs_value(s.utxos, staged.inputs) is Some,
        validation(s, packaged(staged, Some(bundle)))->Ok_0 == inputs_value(
            s.utxos,
            staged.inputs,
        )->Some_0 + spends_value(request.spends) - outputs_value(request.outputs)
            - crate::types::sum_u64(staged.outputs),
{
}

} // verus!
