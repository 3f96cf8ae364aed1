//! Mining: the pending transactions become a block, the block is connected,
//! stored with its frontier and fee, and the pending transactions are
//! cleared; all of it or none of it.

use vstd::prelude::*;
use crate::codec::{enc_block, parse_transaction};
use crate::chain::anchor_of;
use crate::connect::{Connected, connect_spec, owned_views, transparent_steps};
use crate::db::{BlockRow, BlockRowView, Db, DbView, blob_views, block_row_views};
use crate::error::{Error, ErrorKind};
use crate::provider::{
    ProviderAction, bytes_view, decrypt_owned, found_views, incoming_key, indices_grow,
    provider_action, wire_actions,
};
use crate::wallet::{WALLET_SCOPE, decrypted_notes, wallet_key};
use crate::types::{
    Block, BlockView, Note, NoteView, Transaction, TransactionView, commitments_of,
    transaction_views,
};

verus! {

/// The transactions that a list of stored bodies decodes to; `None` where one
/// of them does not decode.
pub open spec fn decoded(bodies: Seq<Seq<u8>>) -> Option<Seq<TransactionView>>
    decreases bodies.len(),
{
    if bodies.len() == 0 {
        Some(Seq::empty())
    } else {
        match (decoded(bodies.drop_last()), parse_transaction(bodies.last(), 0)) {
            (Some(txs), Some((tx, _))) => Some(txs.push(tx)),
            _ => None,
        }
    }
}

/// Mining on the mathematical model.
///
/// Without pending transactions nothing changes. Otherwise the pending
/// transactions, in order, are the block; it is connected, a row with its
/// fee, its frontier and its body is added, and the pending transactions are
/// cleared.
pub open spec fn mine_spec(s: DbView, owned: Seq<Option<crate::types::NoteView>>) -> Result<
    DbView,
    ErrorKind,
> {
    match decoded(s.transactions) {
        None => Err(ErrorKind::Serialization),
        Some(txs) => if txs.len() == 0 {
            Ok(s)
        } else {
            let b = BlockView { transactions: txs };
            match connect_spec(s, b, owned) {
                Err(kind) => Err(kind),
                Ok(c) => Ok(
                    DbView {
                        blocks: c.state.blocks.push(
                            BlockRowView { fee: c.fee, frontier: c.frontier, body: enc_block(b) },
                        ),
                        transactions: Seq::empty(),
                        ..c.state
                    },
                ),
            }
        },
    }
}

/// Where one of the first bodies does not decode, the list does not.
pub proof fn lemma_decoded_prefix(bodies: Seq<Seq<u8>>, n: int)
    requires
        0 <= n <= bodies.len(),
        decoded(bodies.take(n)) is None,
    ensures
        decoded(bodies) is None,
    decreases bodies.len() - n,
{
    if n == bodies.len() {
        assert(bodies.take(n) =~= bodies);
    } else {
        assert(bodies.take(n + 1).drop_last() =~= bodies.take(n));
        lemma_decoded_prefix(bodies, n + 1);
    }
}

/// A list of bodies decodes to as many transactions as it has bodies.
pub proof fn lemma_decoded_len(bodies: Seq<Seq<u8>>)
    ensures
        decoded(bodies) is Some ==> decoded(bodies)->Some_0.len() == bodies.len(),
    decreases bodies.len(),
{
    if bodies.len() > 0 {
        lemma_decoded_len(bodies.drop_last());
    }
}

/// The number of note commitments of a list of transactions is the number of
/// their actions.
pub open spec fn action_count(txs: Seq<TransactionView>) -> nat
    decreases txs.len(),
{
    if txs.len() == 0 {
        0
    } else {
        action_count(txs.drop_last()) + txs.last().actions.len()
    }
}

pub proof fn lemma_commitment_count(txs: Seq<TransactionView>)
    ensures
        commitments_of(txs).len() == action_count(txs),
    decreases txs.len(),
{
    if txs.len() > 0 {
        lemma_commitment_count(txs.drop_last());
    }
}

/// The shielded part of a transaction in the provider's form: its actions,
/// its value balance, and the anchor that it is read against.
pub struct ShieldedBundle {
    pub actions: Vec<ProviderAction>,
    pub value_balance: i64,
    pub anchor: [u8; 32],
}

impl Transaction {
    /// The bundle of the transaction against an anchor: the actions of the
    /// transaction, in their order, in the provider's form, with its value
    /// balance and the anchor. There is none where the transaction has no
    /// action, or where the provider does not accept one of its actions.
    pub fn to_bundle(&self, anchor: [u8; 32]) -> (res: Option<ShieldedBundle>)
        ensures
            res is Some <==> self@.actions.len() > 0 && crate::chain::actions_decode(self@),
            res is Some ==> {
                &&& wire_actions(res->Some_0.actions@) == self@.actions
                &&& res->Some_0.value_balance == self@.value_balance_orchard
                &&& res->Some_0.anchor == anchor
            },
    {
        if self.actions.len() == 0 {
            return None;
        }
        let mut actions: Vec<ProviderAction> = Vec::new();
        let mut j: usize = 0;
        assert(wire_actions(actions@) =~= self@.actions.take(0));
        while j < self.actions.len()
            invariant
                0 <= j <= self.actions@.len(),
                actions@.len() == j,
                wire_actions(actions@) == self@.actions.take(j as int),
                forall|k: int|
                    0 <= k < j ==> crate::provider::action_decodes(
                        #[trigger] self@.actions[k],
                    ),
            decreases self.actions@.len() - j,
        {
            assert(self@.actions[j as int] == self.actions@[j as int]@);
            match provider_action(&self.actions[j]) {
                Some(a) => {
                    let ghost before = actions@;
                    actions.push(a);
                    assert(wire_actions(actions@) =~= wire_actions(before).push(
                        self@.actions[j as int],
                    ));
                    assert(wire_actions(actions@) =~= self@.actions.take(j + 1));
                },
                None => {
                    return None;
                },
            }
            j += 1;
        }
        assert(self@.actions.take(j as int) =~= self@.actions);
        Some(ShieldedBundle { actions, value_balance: self.value_balance_orchard, anchor })
    }
}

/// The indices of `found` lie below `n` and grow from item to item.
pub open spec fn indices_in_order(found: Seq<(usize, Note)>, n: int) -> bool {
    &&& forall|k: int| 0 <= k < found.len() ==> (#[trigger] found[k]).0 < n
    &&& forall|k: int, l: int| 0 <= k < l < found.len() ==> found[k].0 < found[l].0
}

/// Spreads found notes over `n` slots, each into the slot of its index.
fn spread_notes(found: &Vec<(usize, Note)>, n: usize) -> (res: Option<Vec<Option<Note>>>)
    ensures
        match res {
            Some(slots) => {
                &&& indices_in_order(found@, n as int)
                &&& slots@.len() == n
                &&& forall|k: int|
                    0 <= k < found@.len() ==> slots@[(#[trigger] found@[k]).0 as int] == Some(
                        found@[k].1,
                    )
                &&& forall|i: int|
                    0 <= i < n && (forall|k: int| 0 <= k < found@.len() ==> found@[k].0 != i)
                        ==> (#[trigger] slots@[i]) is None
            },
            None => !indices_in_order(found@, n as int),
        },
{
    let mut slots: Vec<Option<Note>> = Vec::new();
    let mut i: usize = 0;
    while i < n
        invariant
            0 <= i <= n,
            slots@.len() == i,
            forall|j: int| 0 <= j < i ==> (#[trigger] slots@[j]) is None,
        decreases n - i,
    {
        slots.push(None);
        i += 1;
    }
    let mut k: usize = 0;
    while k < found.len()
        invariant
            0 <= k <= found@.len(),
            slots@.len() == n,
            indices_in_order(found@.take(k as int), n as int),
            forall|j: int| 0 <= j < k ==> (#[trigger] found@[j]).0 < n,
            forall|j: int|
                0 <= j < k ==> slots@[(#[trigger] found@[j]).0 as int] == Some(found@[j].1),
            forall|i: int|
                0 <= i < n && (forall|j: int| 0 <= j < k ==> found@[j].0 != i) ==> (
                #[trigger] slots@[i]) is None,
        decreases found@.len() - k,
    {
        let (at, note) = found[k];
        if at >= n || (k > 0 && found[k - 1].0 >= at) {
            proof {
                if indices_in_order(found@, n as int) {
                    assert(found@[k as int].0 < n);
                    if k > 0 {
                        assert(found@[k - 1].0 < found@[k as int].0);
                    }
                }
            }
            return None;
        }
        proof {
            let next = found@.take(k + 1);
            assert forall|a: int, b: int| 0 <= a < b < next.len() implies next[a].0
                < next[b].0 by {
                if b < k {
                    assert(found@.take(k as int)[a].0 < found@.take(k as int)[b].0);
                } else if a < k - 1 {
                    assert(found@.take(k as int)[a].0 < found@.take(k as int)[k - 1].0);
                }
            }
            assert forall|a: int| 0 <= a < next.len() implies (#[trigger] next[a]).0 < n by {
                if a < k {
                    assert(found@.take(k as int)[a].0 < n);
                }
            }
            assert forall|j: int| 0 <= j < k implies found@[j].0 != at by {
                assert(found@.take(k + 1)[j].0 < found@.take(k + 1)[k as int].0);
            }
        }
        let ghost before = slots@;
        slots[at] = Some(note);
        k += 1;
        proof {
            assert forall|j: int| 0 <= j < k implies slots@[(#[trigger] found@[j]).0 as int]
                == Some(found@[j].1) by {
                if j < k - 1 {
                    assert(found@[j].0 != at);
                    assert(before[found@[j].0 as int] == Some(found@[j].1));
                }
            }
            assert forall|i: int|
                0 <= i < n && (forall|j: int| 0 <= j < k ==> found@[j].0 != i) implies (
            #[trigger] slots@[i]) is None by {
                assert(found@[k - 1].0 != i);
                assert(before[i] is None);
            }
        }
    }
    assert(found@.take(k as int) =~= found@);
    Some(slots)
}

/// The note that the found items name for action `i`: that of the first
/// item with that index.
pub open spec fn slot_at(found: Seq<(usize, NoteView)>, i: int) -> Option<NoteView>
    decreases found.len(),
{
    if found.len() == 0 {
        None
    } else if found[0].0 == i {
        Some(found[0].1)
    } else {
        slot_at(found.drop_first(), i)
    }
}

/// The found notes spread over the `n` actions of a transaction: slot `i`
/// holds the note found at action `i`, if there is one. `None` where the
/// indices are not below `n` and growing.
pub open spec fn aligned(found: Seq<(usize, NoteView)>, n: nat) -> Option<Seq<Option<NoteView>>> {
    if indices_grow(found, n as int) {
        Some(Seq::new(n, |i: int| slot_at(found, i)))
    } else {
        None
    }
}

/// The slots of one transaction: none for a transaction without actions;
/// else what the wallet's key decrypts in its bundle, spread over its
/// actions.
pub open spec fn slots_of_transaction(tx: TransactionView, anchor: Seq<u8>, fvk: Seq<u8>) -> Result<
    Seq<Option<NoteView>>,
    ErrorKind,
> {
    if tx.actions.len() == 0 {
        Ok(Seq::empty())
    } else if !crate::chain::actions_decode(tx) {
        Err(ErrorKind::Crypto)
    } else {
        match decrypted_notes(tx.actions, tx.value_balance_orchard, anchor, fvk) {
            None => Err(ErrorKind::Crypto),
            Some(found) => match aligned(found, tx.actions.len()) {
                None => Err(ErrorKind::Crypto),
                Some(slots) => Ok(slots),
            },
        }
    }
}

/// The slots of a list of transactions, one transaction after the other.
pub open spec fn slots_of(txs: Seq<TransactionView>, anchor: Seq<u8>, fvk: Seq<u8>) -> Result<
    Seq<Option<NoteView>>,
    ErrorKind,
>
    decreases txs.len(),
{
    if txs.len() == 0 {
        Ok(Seq::empty())
    } else {
        match slots_of(txs.drop_last(), anchor, fvk) {
            Err(kind) => Err(kind),
            Ok(slots) => match slots_of_transaction(txs.last(), anchor, fvk) {
                Err(kind) => Err(kind),
                Ok(more) => Ok(slots + more),
            },
        }
    }
}

/// Which note commitments of a block belong to notes of the wallet: one
/// slot for each commitment, in chain order. A block without actions has no
/// slots, and neither key nor anchor is read for it. Else the key of the
/// wallet is read, then the anchor, then the bundles are decrypted.
pub open spec fn discovered(s: DbView, b: BlockView) -> Result<Seq<Option<NoteView>>, ErrorKind> {
    if action_count(b.transactions) == 0 {
        Ok(Seq::empty())
    } else {
        match wallet_key(s) {
            Err(kind) => Err(kind),
            Ok(fvk) => match anchor_of(s.anchor_frontier()) {
                None => Err(ErrorKind::Serialization),
                Some(anchor) => slots_of(b.transactions, anchor, fvk),
            },
        }
    }
}

/// Connecting a block on the mathematical model, discovery included: the
/// transparent steps are tried first, then the notes of the wallet are
/// discovered, then the block is connected with them.
pub open spec fn connect_block_spec(s: DbView, b: BlockView) -> Result<Connected, ErrorKind> {
    match transparent_steps(s, b) {
        Err(kind) => Err(kind),
        Ok(()) => match discovered(s, b) {
            Err(kind) => Err(kind),
            Ok(slots) => connect_spec(s, b, slots),
        },
    }
}

/// Mining on the mathematical model, discovery included.
pub open spec fn mined(s: DbView) -> Result<DbView, ErrorKind> {
    match decoded(s.transactions) {
        None => Err(ErrorKind::Serialization),
        Some(txs) => if txs.len() == 0 {
            Ok(s)
        } else {
            let b = BlockView { transactions: txs };
            match transparent_steps(s, b) {
                Err(kind) => Err(kind),
                Ok(()) => match discovered(s, b) {
                    Err(kind) => Err(kind),
                    Ok(slots) => mine_spec(s, slots),
                },
            }
        },
    }
}

/// Where the indices grow, the slot of the index of an item holds its note.
pub proof fn lemma_slot_of_item(found: Seq<(usize, NoteView)>, k: int)
    requires
        0 <= k < found.len(),
        forall|a: int, b: int| 0 <= a < b < found.len() ==> found[a].0 < found[b].0,
    ensures
        slot_at(found, found[k].0 as int) == Some(found[k].1),
    decreases found.len(),
{
    if k > 0 {
        let rest = found.drop_first();
        assert(found[0].0 < found[k].0);
        assert forall|a: int, b: int| 0 <= a < b < rest.len() implies rest[a].0 < rest[b].0 by {
            assert(found[a + 1].0 < found[b + 1].0);
        }
        lemma_slot_of_item(rest, k - 1);
    }
}

/// The slot of an index that no item has is empty.
pub proof fn lemma_slot_of_none(found: Seq<(usize, NoteView)>, i: int)
    requires
        forall|k: int| 0 <= k < found.len() ==> (#[trigger] found[k]).0 != i,
    ensures
        slot_at(found, i) is None,
    decreases found.len(),
{
    if found.len() > 0 {
        let rest = found.drop_first();
        assert(found[0].0 != i);
        assert forall|k: int| 0 <= k < rest.len() implies (#[trigger] rest[k]).0 != i by {
            assert(found[k + 1].0 != i);
        }
        lemma_slot_of_none(rest, i);
    }
}

/// The slots of transactions are as many as their actions.
pub proof fn lemma_slots_len(txs: Seq<TransactionView>, anchor: Seq<u8>, fvk: Seq<u8>)
    ensures
        slots_of(txs, anchor, fvk) is Ok ==> slots_of(txs, anchor, fvk)->Ok_0.len()
            == action_count(txs),
    decreases txs.len(),
{
    if txs.len() > 0 {
        lemma_slots_len(txs.drop_last(), anchor, fvk);
    }
}

/// A failure among the first transactions is the failure of all.
pub proof fn lemma_slots_prefix(txs: Seq<TransactionView>, anchor: Seq<u8>, fvk: Seq<u8>, n: int)
    requires
        0 <= n <= txs.len(),
        slots_of(txs.take(n), anchor, fvk) is Err,
    ensures
        slots_of(txs, anchor, fvk) == slots_of(txs.take(n), anchor, fvk),
    decreases txs.len() - n,
{
    if n == txs.len() {
        assert(txs.take(n) =~= txs);
    } else {
        assert(txs.take(n + 1).drop_last() =~= txs.take(n));
        lemma_slots_prefix(txs, anchor, fvk, n + 1);
    }
}

/// What discovery gives has a slot for each note commitment of the block.
pub proof fn lemma_discovered_len(s: DbView, b: BlockView)
    ensures
        discovered(s, b) is Ok ==> discovered(s, b)->Ok_0.len()
            == b.extracted_note_commitments().len(),
{
    lemma_commitment_count(b.transactions);
    if action_count(b.transactions) > 0 && discovered(s, b) is Ok {
        lemma_slots_len(
            b.transactions,
            anchor_of(s.anchor_frontier())->Some_0,
            wallet_key(s)->Ok_0,
        );
    }
}

/// Spreads the notes that the provider found over the actions of a
/// transaction: slot `i` holds the note found at action `i`, if there is one.
/// `None` where the indices are not below `n` and growing.
pub fn align_notes(found: &Vec<(usize, Note)>, n: usize) -> (res: Option<Vec<Option<Note>>>)
    ensures
        match res {
            Some(slots) => aligned(found_views(found@), n as nat) == Some(owned_views(slots@)),
            None => aligned(found_views(found@), n as nat) is None,
        },
{
    let ghost views = found_views(found@);
    proof {
        assert(indices_grow(views, n as int) == indices_in_order(found@, n as int)) by {
            if indices_in_order(found@, n as int) {
                assert forall|k: int| 0 <= k < views.len() implies (#[trigger] views[k]).0
                    < n by {
                    assert(found@[k].0 < n);
                }
                assert forall|k: int, l: int| 0 <= k < l < views.len() implies views[k].0
                    < views[l].0 by {
                    assert(found@[k].0 < found@[l].0);
                }
            }
            if indices_grow(views, n as int) {
                assert forall|k: int| 0 <= k < found@.len() implies (#[trigger] found@[k]).0
                    < n by {
                    assert(views[k].0 < n);
                }
                assert forall|k: int, l: int| 0 <= k < l < found@.len() implies found@[k].0
                    < found@[l].0 by {
                    assert(views[k].0 < views[l].0);
                }
            }
        }
    }
    match spread_notes(found, n) {
        Some(slots) => {
            proof {
                let wanted = Seq::new(n as nat, |i: int| slot_at(views, i));
                assert forall|i: int| 0 <= i < n implies owned_views(slots@)[i] == wanted[i] by {
                    if exists|k: int| 0 <= k < found@.len() && found@[k].0 == i {
                        let k = choose|k: int| 0 <= k < found@.len() && found@[k].0 == i;
                        assert(views[k].0 == i);
                        lemma_slot_of_item(views, k);
                        assert(slots@[found@[k].0 as int] == Some(found@[k].1));
                    } else {
                        assert forall|k: int| 0 <= k < views.len() implies (
                        #[trigger] views[k]).0 != i by {
                            assert(found@[k].0 != i);
                        }
                        lemma_slot_of_none(views, i);
                        assert(slots@[i] is None);
                    }
                }
                assert(owned_views(slots@) =~= wanted);
            }
            Some(slots)
        },
        None => None,
    }
}

impl Db {
    /// The pending transactions, decoded.
    pub fn get_transactions(&self) -> (res: Result<Vec<Transaction>, Error>)
        ensures
            match decoded(self@.transactions) {
                Some(txs) => res is Ok && transaction_views(res->Ok_0@) == txs,
                None => res is Err && res->Err_0.kind() == ErrorKind::Serialization,
            },
    {
        let ghost bodies = self@.transactions;
        let mut txs: Vec<Transaction> = Vec::new();
        let mut i: usize = 0;
        assert(transaction_views(txs@) =~= Seq::empty());
        while i < self.transactions.len()
            invariant
                0 <= i <= self.transactions@.len(),
                bodies == self@.transactions,
                decoded(bodies.take(i as int)) == Some(transaction_views(txs@)),
            decreases self.transactions@.len() - i,
        {
            proof {
                assert(bodies.take(i + 1).drop_last() =~= bodies.take(i as int));
                assert(bodies.take(i + 1).last() == self.transactions@[i as int]@);
            }
            match Transaction::from_body(self.transactions[i].as_slice()) {
                Some(tx) => {
                    let ghost before = txs@;
                    let ghost tv = tx@;
                    txs.push(tx);
                    assert(transaction_views(txs@) =~= transaction_views(before).push(tv));
                },
                None => {
                    proof {
                        lemma_decoded_prefix(bodies, i + 1);
                    }
                    return Err(Error::serialization_error("a pending transaction does not decode"));
                },
            }
            i += 1;
        }
        assert(bodies.take(i as int) =~= bodies);
        Ok(txs)
    }

    /// Adds the row of a connected block.
    pub fn store_block(&mut self, frontier: Option<Vec<u8>>, fee: u64, block: &Block)
        ensures
            final(self)@ == (DbView {
                blocks: old(self)@.blocks.push(
                    BlockRowView { fee, frontier: bytes_view(frontier), body: enc_block(block@) },
                ),
                ..old(self)@
            }),
    {
        let ghost before = self.blocks@;
        let row = BlockRow { fee, frontier, body: block.to_body() };
        let ghost row_view = row@;
        self.blocks.push(row);
        assert(block_row_views(self.blocks@) =~= block_row_views(before).push(row_view));
    }

    /// Drops the pending transactions.
    pub fn clear_transactions(&mut self)
        ensures
            final(self)@ == (DbView { transactions: Seq::empty(), ..old(self)@ }),
    {
        self.transactions = Vec::new();
        assert(blob_views(self.transactions@) =~= Seq::empty());
    }

    /// Asks the provider which note commitments of a block belong to notes
    /// of the wallet: one slot for each commitment, in chain order.
    ///
    /// A block without actions has no slots, and the provider is not asked.
    /// Else every bundle is rebuilt against the anchor and decrypted under the
    /// key of the wallet, and what is found is spread over the actions.
    pub fn discover_notes(&self, block: &Block) -> (res: Result<Vec<Option<Note>>, Error>)
        ensures
            match discovered(self@, block@) {
                Ok(slots) => res is Ok && owned_views(res->Ok_0@) == slots,
                Err(kind) => res is Err && res->Err_0.kind() == kind,
            },
            res is Ok ==> res->Ok_0@.len() == block@.extracted_note_commitments().len(),
    {
        let ghost txs = block@.transactions;
        proof {
            lemma_discovered_len(self@, block@);
            lemma_commitment_count(txs);
        }
        let mut slots: Vec<Option<Note>> = Vec::new();
        if block.extracted_note_commitments().len() == 0 {
            assert(owned_views(slots@) =~= Seq::empty());
            return Ok(slots);
        }
        let fvk = match self.get_fvk() {
            Ok(k) => k,
            Err(e) => {
                return Err(e);
            },
        };
        let anchor = match self.get_bundle_anchor() {
            Ok(a) => a,
            Err(e) => {
                return Err(e);
            },
        };
        let mut i: usize = 0;
        assert(owned_views(slots@) =~= Seq::empty());
        while i < block.transactions.len()
            invariant
                0 <= i <= block.transactions@.len(),
                txs == block@.transactions,
                action_count(txs) > 0,
                wallet_key(self@) == Ok::<Seq<u8>, ErrorKind>(fvk@),
                anchor_of(self@.anchor_frontier()) == Some(anchor@),
                slots_of(txs.take(i as int), anchor@, fvk@) == Ok::<
                    Seq<Option<NoteView>>,
                    ErrorKind,
                >(owned_views(slots@)),
            decreases block.transactions@.len() - i,
        {
            let tx = &block.transactions[i];
            proof {
                assert(txs.take(i + 1).drop_last() =~= txs.take(i as int));
                assert(txs.take(i + 1).last() == block.transactions@[i as int]@);
                assert(tx@.actions.len() == tx.actions@.len());
            }
            if tx.actions.len() > 0 {
                let bundle = match tx.to_bundle(anchor) {
                    Some(b) => b,
                    None => {
                        proof {
                            lemma_slots_prefix(txs, anchor@, fvk@, i + 1);
                        }
                        return Err(Error::crypto_error("the provider does not accept the bundle"));
                    },
                };
                let ivk = match incoming_key(&fvk, WALLET_SCOPE) {
                    Some(k) => k,
                    None => {
                        proof {
                            lemma_slots_prefix(txs, anchor@, fvk@, i + 1);
                        }
                        return Err(Error::crypto_error("the wallet's key reads no notes"));
                    },
                };
                let found = match decrypt_owned(
                    bundle.actions,
                    bundle.value_balance,
                    &bundle.anchor,
                    &ivk,
                ) {
                    Some(f) => f,
                    None => {
                        proof {
                            lemma_slots_prefix(txs, anchor@, fvk@, i + 1);
                        }
                        return Err(Error::crypto_error("the provider could not read the bundle"));
                    },
                };
                let mut more = match align_notes(&found, tx.actions.len()) {
                    Some(m) => m,
                    None => {
                        proof {
                            lemma_slots_prefix(txs, anchor@, fvk@, i + 1);
                        }
                        return Err(Error::crypto_error("the provider named no action of the bundle"));
                    },
                };
                let ghost before = slots@;
                let ghost added = more@;
                slots.append(&mut more);
                assert(owned_views(slots@) =~= owned_views(before) + owned_views(added));
            } else {
                assert(owned_views(slots@) + Seq::<Option<NoteView>>::empty() =~= owned_views(
                    slots@,
                ));
            }
            i += 1;
        }
        assert(txs.take(i as int) =~= txs);
        Ok(slots)
    }

    /// The notes of a block that belong to the wallet, in chain order: the
    /// notes that discovery finds, without the empty slots.
    pub fn get_notes(&self, block: &Block) -> (res: Result<Vec<Note>, Error>)
        ensures
            match discovered(self@, block@) {
                Ok(slots) => res is Ok && note_list(res->Ok_0@) == present(slots),
                Err(kind) => res is Err && res->Err_0.kind() == kind,
            },
            res is Ok ==> res->Ok_0@.len() <= block@.extracted_note_commitments().len(),
    {
        let slots = match self.discover_notes(block) {
            Ok(s) => s,
            Err(e) => {
                return Err(e);
            },
        };
        let notes = present_notes(&slots);
        proof {
            lemma_present_len(owned_views(slots@));
        }
        Ok(notes)
    }

    /// Connects a block: tries the transparent steps, asks the provider
    /// which notes of the block belong to the wallet, then connects the block
    /// with them. A failure leaves the store as it was.
    pub fn connect_block(&mut self, block: &Block) -> (res: Result<(Option<Vec<u8>>, u64), Error>)
        ensures
            match connect_block_spec(old(self)@, block@) {
                Ok(connected) => res is Ok && final(self)@ == connected.state && bytes_view(
                    res->Ok_0.0,
                ) == connected.frontier && res->Ok_0.1 == connected.fee,
                Err(kind) => res is Err && res->Err_0.kind() == kind && final(self)@ == old(self)@,
            },
    {
        match self.check_transparent(block) {
            Ok(()) => {},
            Err(e) => {
                return Err(e);
            },
        }
        let owned = match self.discover_notes(block) {
            Ok(o) => o,
            Err(e) => {
                return Err(e);
            },
        };
        self.connect_block_with(block, &owned)
    }

    /// Mines the pending transactions into a block, given which note
    /// commitments of that block belong to notes of the wallet.
    pub fn mine_with(&mut self, owned: &Vec<Option<Note>>) -> (res: Result<(), Error>)
        ensures
            match mine_spec(old(self)@, owned_views(owned@)) {
                Ok(next) => res is Ok && final(self)@ == next,
                Err(kind) => res is Err && res->Err_0.kind() == kind && final(self)@ == old(self)@,
            },
    {
        let transactions = match self.get_transactions() {
            Ok(t) => t,
            Err(e) => {
                return Err(e);
            },
        };
        if transactions.len() == 0 {
            return Ok(());
        }
        let block = Block { transactions };
        let (frontier, fee) = match self.connect_block_with(&block, owned) {
            Ok(r) => r,
            Err(e) => {
                return Err(e);
            },
        };
        self.store_block(frontier, fee, &block);
        self.clear_transactions();
        Ok(())
    }

    /// Mines the pending transactions into a block.
    ///
    /// Without pending transactions nothing happens. Otherwise they are the
    /// block: the transparent steps are tried, the provider is asked which
    /// notes of the block belong to the wallet, the block is connected and
    /// stored, and the pending transactions are cleared. A failure leaves the
    /// store as it was.
    pub fn mine(&mut self) -> (res: Result<(), Error>)
        ensures
            match mined(old(self)@) {
                Ok(next) => res is Ok && final(self)@ == next,
                Err(kind) => res is Err && res->Err_0.kind() == kind && final(self)@ == old(self)@,
            },
    {
        let transactions = match self.get_transactions() {
            Ok(t) => t,
            Err(e) => {
                return Err(e);
            },
        };
        if transactions.len() == 0 {
            return Ok(());
        }
        let block = Block { transactions };
        match self.check_transparent(&block) {
            Ok(()) => {},
            Err(e) => {
                return Err(e);
            },
        }
        let owned = match self.discover_notes(&block) {
            Ok(o) => o,
            Err(e) => {
                return Err(e);
            },
        };
        let (frontier, fee) = match self.connect_block_with(&block, &owned) {
            Ok(r) => r,
            Err(e) => {
                return Err(e);
            },
        };
        self.store_block(frontier, fee, &block);
        self.clear_transactions();
        Ok(())
    }
}

/// The views of a list of notes.
pub open spec fn note_list(notes: Seq<Note>) -> Seq<NoteView> {
    notes.map_values(|n: Note| n@)
}

/// The notes that the slots hold, in the order of the slots.
pub open spec fn present(slots: Seq<Option<NoteView>>) -> Seq<NoteView>
    decreases slots.len(),
{
    if slots.len() == 0 {
        Seq::empty()
    } else {
        match slots.last() {
            Some(note) => present(slots.drop_last()).push(note),
            None => present(slots.drop_last()),
        }
    }
}

/// Slots hold at most as many notes as there are slots.
pub proof fn lemma_present_len(slots: Seq<Option<NoteView>>)
    ensures
        present(slots).len() <= slots.len(),
    decreases slots.len(),
{
    if slots.len() > 0 {
        lemma_present_len(slots.drop_last());
    }
}

/// The notes that the slots hold, in the order of the slots.
pub fn present_notes(slots: &Vec<Option<Note>>) -> (notes: Vec<Note>)
    ensures
        note_list(notes@) == present(owned_views(slots@)),
{
    let ghost all = owned_views(slots@);
    let mut notes: Vec<Note> = Vec::new();
    let mut i: usize = 0;
    assert(note_list(notes@) =~= present(all.take(0)));
    while i < slots.len()
        invariant
            0 <= i <= slots@.len(),
            all == owned_views(slots@),
            note_list(notes@) == present(all.take(i as int)),
        decreases slots@.len() - i,
    {
        proof {
            assert(all.take(i + 1).drop_last() =~= all.take(i as int));
            assert(all.take(i + 1).last() == all[i as int]);
        }
        match slots[i] {
            Some(n) => {
                let ghost before = notes@;
                notes.push(n);
                assert(note_list(notes@) =~= note_list(before).push(n@));
            },
            None => {},
        }
        i += 1;
    }
    assert(all.take(i as int) =~= all);
    notes
}

} // verus!
