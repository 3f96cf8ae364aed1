//! Connecting a block: fees, the transparent pool, the walk over the block's
//! note commitments that extends the frontier and the witnesses of the
//! wallet's new notes, and the nullifier index.
//!
//! Each step is a function from plain values to plain values with its own
//! meaning in the mathematical model; [`connect_spec`] puts them in order, and
//! [`Db::connect_block_with`] does what it says or leaves the store untouched.

use vstd::prelude::*;
use crate::chain::{any_spent, is_spent, same_hash, validation};
use crate::db::{
    Db, DbView, Utxo, WalletNote, WalletNoteView, max_utxo_id, note_row_views, without_utxo,
};
use crate::error::{Error, ErrorKind};
use crate::provider::{
    bytes_view, frontier_append, frontier_first, frontier_of_leaf, frontier_root,
    frontier_root_of, frontier_with_leaf, witness_append, witness_of_frontier, witness_root,
    witness_root_of, witness_start, witness_with_leaf,
};
use crate::witness::{check_stored_witness, stored_witness_ok};
use crate::types::{
    Block, BlockView, Note, NoteView, Transaction, TransactionView, hash_views, output_values,
};

verus! {

/// The sum of the fees of the transactions, each validated against `s`; the
/// kind of the first failure where one of them fails.
pub open spec fn block_fee(s: DbView, txs: Seq<TransactionView>) -> Result<int, ErrorKind>
    decreases txs.len(),
{
    if txs.len() == 0 {
        Ok(0)
    } else {
        match block_fee(s, txs.drop_last()) {
            Err(kind) => Err(kind),
            Ok(sum) => match validation(s, txs.last()) {
                Err(kind) => Err(kind),
                Ok(fee) => Ok(sum + fee),
            },
        }
    }
}

/// The unspent outputs without those that `ids` names.
pub open spec fn without_utxos(utxos: Seq<Utxo>, ids: Seq<u32>) -> Seq<Utxo>
    decreases ids.len(),
{
    if ids.len() == 0 {
        utxos
    } else {
        without_utxo(without_utxos(utxos, ids.drop_last()), ids.last())
    }
}

/// The unspent outputs with one more for each value, each under the id after
/// the largest one in use; `None` where the ids are used up.
pub open spec fn with_utxos(utxos: Seq<Utxo>, values: Seq<u64>) -> Option<Seq<Utxo>>
    decreases values.len(),
{
    if values.len() == 0 {
        Some(utxos)
    } else {
        match with_utxos(utxos, values.drop_last()) {
            None => None,
            Some(u) => if max_utxo_id(u) < u32::MAX {
                Some(u.push(Utxo { id: (max_utxo_id(u) + 1) as u32, value: values.last() }))
            } else {
                None
            },
        }
    }
}

/// The unspent outputs after a transaction: its inputs consumed, then its
/// outputs created.
pub open spec fn utxos_after_tx(utxos: Seq<Utxo>, tx: TransactionView) -> Option<Seq<Utxo>> {
    with_utxos(without_utxos(utxos, tx.inputs), tx.outputs)
}

/// The unspent outputs after the transactions, in order.
pub open spec fn utxos_after(utxos: Seq<Utxo>, txs: Seq<TransactionView>) -> Option<Seq<Utxo>>
    decreases txs.len(),
{
    if txs.len() == 0 {
        Some(utxos)
    } else {
        match utxos_after(utxos, txs.drop_last()) {
            None => None,
            Some(u) => utxos_after_tx(u, txs.last()),
        }
    }
}

/// A stored witness after one more leaf; `None` where the bytes hold no
/// witness that the tree code may work on, or the witness cannot take the
/// leaf.
pub open spec fn witness_step(witness: Seq<u8>, leaf: Seq<u8>) -> Option<Seq<u8>> {
    if stored_witness_ok(witness) {
        witness_with_leaf(witness, leaf)
    } else {
        None
    }
}

/// The ids of the unspent outputs that the transactions consume, in order.
pub open spec fn consumed_ids(txs: Seq<TransactionView>) -> Seq<u32>
    decreases txs.len(),
{
    if txs.len() == 0 {
        Seq::empty()
    } else {
        consumed_ids(txs.drop_last()) + txs.last().inputs
    }
}

/// Every witness of `found` advanced by one leaf; `None` where one of them
/// cannot take it.
pub open spec fn advance_witnesses(found: Seq<WalletNoteView>, leaf: Seq<u8>) -> Option<
    Seq<WalletNoteView>,
>
    decreases found.len(),
{
    if found.len() == 0 {
        Some(found)
    } else {
        match (
            advance_witnesses(found.drop_last(), leaf),
            witness_step(found.last().witness, leaf),
        ) {
            (Some(rest), Some(w)) => Some(
                rest.push(WalletNoteView { note: found.last().note, witness: w }),
            ),
            _ => None,
        }
    }
}

/// The frontier after one more leaf: the first frontier where there was
/// none.
pub open spec fn frontier_step(frontier: Option<Seq<u8>>, leaf: Seq<u8>) -> Option<Seq<u8>> {
    match frontier {
        None => frontier_of_leaf(leaf),
        Some(f) => frontier_with_leaf(f, leaf),
    }
}

/// One step of the walk: the leaf extends the frontier and every witness
/// found so far; where the leaf is the commitment of a note of the wallet,
/// that note gets a witness of its own from the frontier at that moment.
pub open spec fn walk_step(
    frontier: Option<Seq<u8>>,
    found: Seq<WalletNoteView>,
    leaf: Seq<u8>,
    owned: Option<NoteView>,
) -> Option<(Seq<u8>, Seq<WalletNoteView>)> {
    match (frontier_step(frontier, leaf), advance_witnesses(found, leaf)) {
        (Some(f), Some(advanced)) => match owned {
            None => Some((f, advanced)),
            Some(note) => match witness_of_frontier(f) {
                Some(w) => Some((f, advanced.push(WalletNoteView { note, witness: w }))),
                None => None,
            },
        },
        _ => None,
    }
}

/// The walk over the commitments of a block, in chain order: the frontier
/// and the wallet's new notes with their witnesses at the end of it.
pub open spec fn walk(
    frontier: Option<Seq<u8>>,
    found: Seq<WalletNoteView>,
    leaves: Seq<Seq<u8>>,
    owned: Seq<Option<NoteView>>,
) -> Option<(Option<Seq<u8>>, Seq<WalletNoteView>)>
    recommends
        owned.len() == leaves.len(),
    decreases leaves.len(),
{
    if leaves.len() == 0 {
        Some((frontier, found))
    } else {
        match walk_step(frontier, found, leaves[0], owned[0]) {
            None => None,
            Some((f, next)) => walk(Some(f), next, leaves.drop_first(), owned.drop_first()),
        }
    }
}

/// The root that a stored witness leads to; `None` where the bytes hold no
/// witness that the tree code may work on.
pub open spec fn witness_root_at(witness: Seq<u8>) -> Option<Seq<u8>> {
    if stored_witness_ok(witness) {
        witness_root_of(witness)
    } else {
        None
    }
}

/// Whether a stored witness leads to the root of a frontier.
pub open spec fn witness_sound(frontier: Option<Seq<u8>>, witness: Seq<u8>) -> bool {
    match frontier {
        Some(f) => frontier_root_of(f) is Some && witness_root_at(witness) == frontier_root_of(f),
        None => false,
    }
}

/// Whether the witness of every note leads to the root of the frontier.
pub open spec fn witnesses_sound(frontier: Option<Seq<u8>>, found: Seq<WalletNoteView>) -> bool {
    forall|i: int| 0 <= i < found.len() ==> witness_sound(frontier, (#[trigger] found[i]).witness)
}

/// None of `revealed` is in `index`, and none occurs twice.
pub open spec fn all_fresh(index: Seq<Seq<u8>>, revealed: Seq<Seq<u8>>) -> bool {
    &&& !any_spent(index, revealed)
    &&& revealed.no_duplicates()
}

/// What connecting a block yields.
pub struct Connected {
    /// The store after the block.
    pub state: DbView,
    /// The frontier after the block's commitments.
    pub frontier: Option<Seq<u8>>,
    /// The sum of the fees of the block's transactions.
    pub fee: u64,
}

/// The views of a list of notes that may be absent.
pub open spec fn owned_views(owned: Seq<Option<Note>>) -> Seq<Option<NoteView>> {
    owned.map_values(
        |o: Option<Note>|
            match o {
                Some(n) => Some(n@),
                None => None,
            },
    )
}

/// The connect protocol on the mathematical model.
///
/// `owned` says, for each note commitment of the block in chain order,
/// whether it is the commitment of a note of the wallet, and which. Every
/// transaction is validated against the state before the block, and no
/// unspent output may be consumed twice in the block; then the transparent
/// pool is updated, the commitments are walked, the witness of every note
/// found is held against the root of the frontier at the end of the walk,
/// and the nullifiers are committed. The first step that fails gives its
/// kind.
pub open spec fn connect_spec(s: DbView, b: BlockView, owned: Seq<Option<NoteView>>) -> Result<
    Connected,
    ErrorKind,
> {
    if owned.len() != b.extracted_note_commitments().len() {
        Err(ErrorKind::Crypto)
    } else {
        match block_fee(s, b.transactions) {
            Err(kind) => Err(kind),
            Ok(fee) => if !consumed_ids(b.transactions).no_duplicates() {
                Err(ErrorKind::State)
            } else if fee > u64::MAX {
                Err(ErrorKind::InvalidBlock)
            } else {
                match utxos_after(s.utxos, b.transactions) {
                    None => Err(ErrorKind::State),
                    Some(utxos) => match walk(
                        s.last_frontier(),
                        Seq::empty(),
                        b.extracted_note_commitments(),
                        owned,
                    ) {
                        None => Err(ErrorKind::MerkleTree),
                        Some((frontier, found)) => if !witnesses_sound(frontier, found) {
                            Err(ErrorKind::MerkleTree)
                        } else if !all_fresh(s.nullifiers, b.nullifiers()) {
                            Err(ErrorKind::Nullifier)
                        } else {
                            Ok(
                                Connected {
                                    state: DbView {
                                        utxos,
                                        notes: s.notes + found,
                                        nullifiers: s.nullifiers + b.nullifiers(),
                                        ..s
                                    },
                                    frontier,
                                    fee: fee as u64,
                                },
                            )
                        },
                    },
                }
            },
        }
    }
}

/// The transparent steps of the connect protocol on their own: every
/// transaction validates, no unspent output is consumed twice, the fees fit,
/// and the ids do not run out. Gives the kind of the first failure.
pub open spec fn transparent_steps(s: DbView, b: BlockView) -> Result<(), ErrorKind> {
    match block_fee(s, b.transactions) {
        Err(kind) => Err(kind),
        Ok(fee) => if !consumed_ids(b.transactions).no_duplicates() {
            Err(ErrorKind::State)
        } else if fee > u64::MAX {
            Err(ErrorKind::InvalidBlock)
        } else if utxos_after(s.utxos, b.transactions) is None {
            Err(ErrorKind::State)
        } else {
            Ok(())
        },
    }
}

/// A failure among the first transactions of a block is the failure of the
/// block.
pub proof fn lemma_block_fee_prefix(s: DbView, txs: Seq<TransactionView>, n: int)
    requires
        0 <= n <= txs.len(),
        block_fee(s, txs.take(n)) is Err,
    ensures
        block_fee(s, txs) == block_fee(s, txs.take(n)),
    decreases txs.len() - n,
{
    if n == txs.len() {
        assert(txs.take(n) =~= txs);
    } else {
        assert(txs.take(n + 1).drop_last() =~= txs.take(n));
        lemma_block_fee_prefix(s, txs, n + 1);
    }
}

/// Where the ids run out among the first transactions of a block, they run
/// out for the block.
pub proof fn lemma_utxos_after_prefix(utxos: Seq<Utxo>, txs: Seq<TransactionView>, n: int)
    requires
        0 <= n <= txs.len(),
        utxos_after(utxos, txs.take(n)) is None,
    ensures
        utxos_after(utxos, txs) is None,
    decreases txs.len() - n,
{
    if n == txs.len() {
        assert(txs.take(n) =~= txs);
    } else {
        assert(txs.take(n + 1).drop_last() =~= txs.take(n));
        lemma_utxos_after_prefix(utxos, txs, n + 1);
    }
}

/// Where the ids run out among the first outputs, they run out for all.
pub proof fn lemma_with_utxos_prefix(utxos: Seq<Utxo>, values: Seq<u64>, n: int)
    requires
        0 <= n <= values.len(),
        with_utxos(utxos, values.take(n)) is None,
    ensures
        with_utxos(utxos, values) is None,
    decreases values.len() - n,
{
    if n == values.len() {
        assert(values.take(n) =~= values);
    } else {
        assert(values.take(n + 1).drop_last() =~= values.take(n));
        lemma_with_utxos_prefix(utxos, values, n + 1);
    }
}

/// Where one of the first witnesses cannot take a leaf, the list cannot.
pub proof fn lemma_advance_prefix(found: Seq<WalletNoteView>, leaf: Seq<u8>, n: int)
    requires
        0 <= n <= found.len(),
        advance_witnesses(found.take(n), leaf) is None,
    ensures
        advance_witnesses(found, leaf) is None,
    decreases found.len() - n,
{
    if n == found.len() {
        assert(found.take(n) =~= found);
    } else {
        assert(found.take(n + 1).drop_last() =~= found.take(n));
        lemma_advance_prefix(found, leaf, n + 1);
    }
}

/// The largest id in use among `utxos`; zero where there is none.
pub fn largest_id(utxos: &Vec<Utxo>) -> (id: u32)
    ensures
        id == max_utxo_id(utxos@),
{
    let mut id: u32 = 0;
    let mut i: usize = 0;
    while i < utxos.len()
        invariant
            0 <= i <= utxos@.len(),
            id == max_utxo_id(utxos@.take(i as int)),
        decreases utxos@.len() - i,
    {
        if utxos[i].id > id {
            id = utxos[i].id;
        }
        i += 1;
        assert(utxos@.take(i as int).drop_last() =~= utxos@.take(i - 1));
    }
    assert(utxos@.take(i as int) =~= utxos@);
    id
}

/// The rows of `utxos` whose id is not `id`.
pub fn remove_utxo(utxos: &Vec<Utxo>, id: u32) -> (res: Vec<Utxo>)
    ensures
        res@ == without_utxo(utxos@, id),
{
    let mut res: Vec<Utxo> = Vec::new();
    let mut i: usize = 0;
    while i < utxos.len()
        invariant
            0 <= i <= utxos@.len(),
            res@ == without_utxo(utxos@.take(i as int), id),
        decreases utxos@.len() - i,
    {
        if utxos[i].id != id {
            res.push(utxos[i]);
        }
        i += 1;
        assert(utxos@.take(i as int).drop_last() =~= utxos@.take(i - 1));
    }
    assert(utxos@.take(i as int) =~= utxos@);
    res
}

/// The unspent outputs after a transaction.
pub fn apply_transaction(utxos: Vec<Utxo>, tx: &Transaction) -> (res: Option<Vec<Utxo>>)
    ensures
        match res {
            Some(u) => utxos_after_tx(utxos@, tx@) == Some(u@),
            None => utxos_after_tx(utxos@, tx@) is None,
        },
{
    let mut cur = utxos;
    let mut i: usize = 0;
    while i < tx.inputs.len()
        invariant
            0 <= i <= tx.inputs@.len(),
            cur@ == without_utxos(utxos@, tx.inputs@.take(i as int)),
        decreases tx.inputs@.len() - i,
    {
        cur = remove_utxo(&cur, tx.inputs[i]);
        i += 1;
        assert(tx.inputs@.take(i as int).drop_last() =~= tx.inputs@.take(i - 1));
    }
    assert(tx.inputs@.take(i as int) =~= tx.inputs@);
    let ghost base = cur@;
    let ghost values = tx@.outputs;
    let mut j: usize = 0;
    while j < tx.outputs.len()
        invariant
            0 <= j <= tx.outputs@.len(),
            values == output_values(tx.outputs@),
            base == without_utxos(utxos@, tx@.inputs),
            with_utxos(base, values.take(j as int)) == Some(cur@),
        decreases tx.outputs@.len() - j,
    {
        let last = largest_id(&cur);
        proof {
            assert(values.take(j + 1).drop_last() =~= values.take(j as int));
            assert(values.take(j + 1).last() == tx.outputs@[j as int].value);
        }
        if last == u32::MAX {
            proof {
                lemma_with_utxos_prefix(base, values, j + 1);
            }
            return None;
        }
        cur.push(Utxo { id: last + 1, value: tx.outputs[j].value });
        j += 1;
    }
    assert(values.take(j as int) =~= values);
    Some(cur)
}

/// A copy of a table of unspent outputs.
pub fn copy_utxos(utxos: &Vec<Utxo>) -> (res: Vec<Utxo>)
    ensures
        res@ == utxos@,
{
    let mut res: Vec<Utxo> = Vec::new();
    let mut i: usize = 0;
    while i < utxos.len()
        invariant
            0 <= i <= utxos@.len(),
            res@ == utxos@.take(i as int),
        decreases utxos@.len() - i,
    {
        res.push(utxos[i]);
        i += 1;
        assert(res@ =~= utxos@.take(i as int));
    }
    assert(utxos@.take(i as int) =~= utxos@);
    res
}

/// The unspent outputs after the transactions of a block, in order.
pub fn apply_block(utxos: &Vec<Utxo>, block: &Block) -> (res: Option<Vec<Utxo>>)
    ensures
        match res {
            Some(u) => utxos_after(utxos@, block@.transactions) == Some(u@),
            None => utxos_after(utxos@, block@.transactions) is None,
        },
{
    let ghost txs = block@.transactions;
    let mut cur = copy_utxos(utxos);
    let mut i: usize = 0;
    while i < block.transactions.len()
        invariant
            0 <= i <= block.transactions@.len(),
            txs == block@.transactions,
            utxos_after(utxos@, txs.take(i as int)) == Some(cur@),
        decreases block.transactions@.len() - i,
    {
        proof {
            assert(txs.take(i + 1).drop_last() =~= txs.take(i as int));
            assert(txs.take(i + 1).last() == block.transactions@[i as int]@);
        }
        match apply_transaction(cur, &block.transactions[i]) {
            Some(next) => {
                cur = next;
            },
            None => {
                proof {
                    lemma_utxos_after_prefix(utxos@, txs, i + 1);
                }
                return None;
            },
        }
        i += 1;
    }
    assert(txs.take(i as int) =~= txs);
    Some(cur)
}

/// Every witness of `found` advanced by one leaf.
pub fn advance_all(found: &Vec<WalletNote>, leaf: &[u8; 32]) -> (res: Option<Vec<WalletNote>>)
    ensures
        match res {
            Some(next) => advance_witnesses(note_row_views(found@), leaf@) == Some(
                note_row_views(next@),
            ),
            None => advance_witnesses(note_row_views(found@), leaf@) is None,
        },
{
    let ghost rows = note_row_views(found@);
    let mut next: Vec<WalletNote> = Vec::new();
    let mut i: usize = 0;
    assert(rows.take(0) =~= note_row_views(next@));
    while i < found.len()
        invariant
            0 <= i <= found@.len(),
            rows == note_row_views(found@),
            advance_witnesses(rows.take(i as int), leaf@) == Some(note_row_views(next@)),
        decreases found@.len() - i,
    {
        proof {
            assert(rows.take(i + 1).drop_last() =~= rows.take(i as int));
            assert(rows.take(i + 1).last() == found@[i as int]@);
        }
        if !check_stored_witness(found[i].witness.as_slice()) {
            proof {
                lemma_advance_prefix(rows, leaf@, i + 1);
            }
            return None;
        }
        match witness_append(&found[i].witness, leaf) {
            Some(witness) => {
                let ghost before = next@;
                let row = WalletNote { note: found[i].note, witness };
                let ghost row_view = row@;
                next.push(row);
                assert(note_row_views(next@) =~= note_row_views(before).push(row_view));
            },
            None => {
                proof {
                    lemma_advance_prefix(rows, leaf@, i + 1);
                }
                return None;
            },
        }
        i += 1;
    }
    assert(rows.take(i as int) =~= rows);
    Some(next)
}

/// The view of a frontier that may be absent.
pub open spec fn frontier_view(frontier: Option<&Vec<u8>>) -> Option<Seq<u8>> {
    match frontier {
        Some(f) => Some(f@),
        None => None,
    }
}

/// A copy of a byte string.
pub fn copy_bytes(bytes: &Vec<u8>) -> (res: Vec<u8>)
    ensures
        res@ == bytes@,
{
    let mut res: Vec<u8> = Vec::new();
    crate::wire::put_raw(&mut res, bytes.as_slice());
    assert(res@ =~= bytes@);
    res
}

/// Walks the commitments of a block: extends the frontier by each of them
/// and keeps a witness for each note of the wallet.
fn walk_commitments(
    start: Option<&Vec<u8>>,
    leaves: &Vec<[u8; 32]>,
    owned: &Vec<Option<Note>>,
) -> (res: Option<(Option<Vec<u8>>, Vec<WalletNote>)>)
    requires
        owned@.len() == leaves@.len(),
    ensures
        match res {
            Some((frontier, found)) => walk(
                frontier_view(start),
                Seq::empty(),
                hash_views(leaves@),
                owned_views(owned@),
            ) == Some((bytes_view(frontier), note_row_views(found@))),
            None => walk(
                frontier_view(start),
                Seq::empty(),
                hash_views(leaves@),
                owned_views(owned@),
            ) is None,
        },
{
    let ghost ls = hash_views(leaves@);
    let ghost os = owned_views(owned@);
    let mut frontier: Option<Vec<u8>> = match start {
        Some(f) => Some(copy_bytes(f)),
        None => None,
    };
    let mut found: Vec<WalletNote> = Vec::new();
    let mut i: usize = 0;
    proof {
        assert(ls.skip(0) =~= ls);
        assert(os.skip(0) =~= os);
        assert(note_row_views(found@) =~= Seq::empty());
    }
    while i < leaves.len()
        invariant
            0 <= i <= leaves@.len(),
            owned@.len() == leaves@.len(),
            ls == hash_views(leaves@),
            os == owned_views(owned@),
            walk(frontier_view(start), Seq::empty(), ls, os) == walk(
                bytes_view(frontier),
                note_row_views(found@),
                ls.skip(i as int),
                os.skip(i as int),
            ),
        decreases leaves@.len() - i,
    {
        proof {
            assert(ls.skip(i as int).drop_first() =~= ls.skip(i + 1));
            assert(os.skip(i as int).drop_first() =~= os.skip(i + 1));
            assert(ls.skip(i as int)[0] == leaves@[i as int]@);
            assert(os.skip(i as int)[0] == owned_views(owned@)[i as int]);
        }
        let leaf = &leaves[i];
        let stepped = match &frontier {
            Some(f) => frontier_append(f, leaf),
            None => frontier_first(leaf),
        };
        let next_frontier = match stepped {
            Some(f) => f,
            None => {
                return None;
            },
        };
        let mut next_found = match advance_all(&found, leaf) {
            Some(n) => n,
            None => {
                return None;
            },
        };
        match &owned[i] {
            Some(note) => {
                match witness_start(&next_frontier) {
                    Some(witness) => {
                        let ghost before = next_found@;
                        let row = WalletNote { note: *note, witness };
                        let ghost row_view = row@;
                        next_found.push(row);
                        assert(note_row_views(next_found@) =~= note_row_views(before).push(
                            row_view,
                        ));
                    },
                    None => {
                        return None;
                    },
                }
            },
            None => {},
        }
        frontier = Some(next_frontier);
        found = next_found;
        i += 1;
    }
    Some((frontier, found))
}

/// Whether no id occurs twice.
pub fn all_different(ids: &Vec<u32>) -> (ok: bool)
    ensures
        ok == ids@.no_duplicates(),
{
    let mut i: usize = 0;
    while i < ids.len()
        invariant
            0 <= i <= ids@.len(),
            forall|a: int, b: int| 0 <= a < b < i ==> ids@[a] != ids@[b],
        decreases ids@.len() - i,
    {
        let mut j: usize = 0;
        while j < i
            invariant
                0 <= j <= i < ids@.len(),
                forall|a: int| 0 <= a < j ==> ids@[a] != ids@[i as int],
            decreases i - j,
        {
            if ids[j] == ids[i] {
                return false;
            }
            j += 1;
        }
        i += 1;
    }
    assert forall|a: int, b: int| 0 <= a < ids@.len() && 0 <= b < ids@.len() && a != b implies ids@[a]
        != ids@[b] by {
        if a < b {
            assert(ids@[a] != ids@[b]);
        } else {
            assert(ids@[b] != ids@[a]);
        }
    }
    true
}

/// The ids of the unspent outputs that the transactions of a block consume,
/// in order.
pub fn inputs_of(block: &Block) -> (ids: Vec<u32>)
    ensures
        ids@ == consumed_ids(block@.transactions),
{
    let ghost txs = block@.transactions;
    let mut ids: Vec<u32> = Vec::new();
    let mut i: usize = 0;
    assert(ids@ =~= consumed_ids(txs.take(0)));
    while i < block.transactions.len()
        invariant
            0 <= i <= block.transactions@.len(),
            txs == block@.transactions,
            ids@ == consumed_ids(txs.take(i as int)),
        decreases block.transactions@.len() - i,
    {
        proof {
            assert(txs.take(i + 1).drop_last() =~= txs.take(i as int));
            assert(txs.take(i + 1).last() == block.transactions@[i as int]@);
        }
        let tx = &block.transactions[i];
        let mut j: usize = 0;
        let ghost base = ids@;
        assert(ids@ =~= base + tx.inputs@.take(0));
        while j < tx.inputs.len()
            invariant
                0 <= j <= tx.inputs@.len(),
                ids@ == base + tx.inputs@.take(j as int),
            decreases tx.inputs@.len() - j,
        {
            ids.push(tx.inputs[j]);
            j += 1;
            assert(ids@ =~= base + tx.inputs@.take(j as int));
        }
        assert(tx.inputs@.take(j as int) =~= tx.inputs@);
        i += 1;
    }
    assert(txs.take(i as int) =~= txs);
    ids
}

/// Whether `hashes` holds `h`.
pub fn contains_hash(hashes: &Vec<[u8; 32]>, h: &[u8; 32]) -> (found: bool)
    ensures
        found == is_spent(hash_views(hashes@), h@),
{
    let mut i: usize = 0;
    while i < hashes.len()
        invariant
            0 <= i <= hashes@.len(),
            forall|k: int| 0 <= k < i ==> hash_views(hashes@)[k] != h@,
        decreases hashes@.len() - i,
    {
        if same_hash(&hashes[i], h) {
            assert(hash_views(hashes@)[i as int] == h@);
            return true;
        }
        i += 1;
    }
    false
}

/// Whether the witness of every note leads to the root of the frontier.
pub fn all_sound(frontier: &Option<Vec<u8>>, found: &Vec<WalletNote>) -> (ok: bool)
    ensures
        ok == witnesses_sound(bytes_view(*frontier), note_row_views(found@)),
{
    if found.len() == 0 {
        return true;
    }
    assert(note_row_views(found@)[0] == found@[0]@);
    let root = match frontier {
        Some(f) => match frontier_root(f) {
            Some(root) => root,
            None => {
                return false;
            },
        },
        None => {
            return false;
        },
    };
    let mut i: usize = 0;
    while i < found.len()
        invariant
            0 <= i <= found@.len(),
            *frontier is Some,
            frontier_root_of(frontier->Some_0@) == Some(root@),
            forall|k: int|
                0 <= k < i ==> witness_sound(
                    bytes_view(*frontier),
                    (#[trigger] note_row_views(found@)[k]).witness,
                ),
        decreases found@.len() - i,
    {
        assert(note_row_views(found@)[i as int] == found@[i as int]@);
        let witness = &found[i].witness;
        if !check_stored_witness(witness.as_slice()) {
            return false;
        }
        match witness_root(witness) {
            Some(r) => {
                if !same_hash(&r, &root) {
                    return false;
                }
            },
            None => {
                return false;
            },
        }
        i += 1;
    }
    true
}

/// The index with the revealed nullifiers added; `None` where one of them is
/// in the index already or occurs twice.
pub fn commit_nullifiers(index: &Vec<[u8; 32]>, revealed: &Vec<[u8; 32]>) -> (res: Option<
    Vec<[u8; 32]>,
>)
    ensures
        match res {
            Some(next) => all_fresh(hash_views(index@), hash_views(revealed@)) && hash_views(
                next@,
            ) == hash_views(index@) + hash_views(revealed@),
            None => !all_fresh(hash_views(index@), hash_views(revealed@)),
        },
{
    let ghost old_index = hash_views(index@);
    let ghost rs = hash_views(revealed@);
    let mut next: Vec<[u8; 32]> = Vec::new();
    crate::types::extend_hashes(&mut next, index);
    assert(next@ =~= index@);
    let mut i: usize = 0;
    assert(hash_views(next@) =~= old_index + rs.take(0));
    while i < revealed.len()
        invariant
            0 <= i <= revealed@.len(),
            old_index == hash_views(index@),
            rs == hash_views(revealed@),
            hash_views(next@) == old_index + rs.take(i as int),
            forall|k: int| 0 <= k < i ==> !is_spent(old_index, #[trigger] rs[k]),
            forall|k: int, l: int| 0 <= k < l < i ==> rs[k] != rs[l],
        decreases revealed@.len() - i,
    {
        let ghost before = hash_views(next@);
        if contains_hash(&next, &revealed[i]) {
            proof {
                let h = rs[i as int];
                let at = choose|k: int| 0 <= k < before.len() && before[k] == h;
                if at < old_index.len() {
                    assert(old_index[at] == h);
                    assert(is_spent(old_index, rs[i as int]));
                    assert(any_spent(old_index, rs));
                } else {
                    let k = at - old_index.len();
                    assert(rs.take(i as int)[k] == h);
                    assert(rs[k] == rs[i as int] && k != i);
                    assert(!rs.no_duplicates());
                }
            }
            return None;
        }
        proof {
            assert forall|k: int| 0 <= k < i implies rs[k] != rs[i as int] by {
                assert(before[old_index.len() + k] == rs.take(i as int)[k]);
            }
            if is_spent(old_index, rs[i as int]) {
                let at = choose|k: int| 0 <= k < old_index.len() && old_index[k] == rs[i as int];
                assert(before[at] == rs[i as int]);
            }
        }
        next.push(revealed[i]);
        i += 1;
        assert(hash_views(next@) =~= before.push(rs[i - 1]));
        assert(hash_views(next@) =~= old_index + rs.take(i as int));
    }
    proof {
        assert(rs.take(i as int) =~= rs);
        assert(!any_spent(old_index, rs));
        assert(rs.no_duplicates()) by {
            assert forall|k: int, l: int| 0 <= k < rs.len() && 0 <= l < rs.len() && k != l implies rs[k]
                != rs[l] by {
                if k < l {
                    assert(rs[k] != rs[l]);
                } else {
                    assert(rs[l] != rs[k]);
                }
            }
        }
    }
    Some(next)
}

impl Db {
    /// The sum of the fees of the transactions of a block, each validated
    /// against the store as it stands.
    pub fn validate_block(&self, block: &Block) -> (res: Result<u128, Error>)
        ensures
            match block_fee(self@, block@.transactions) {
                Ok(sum) => res is Ok && res->Ok_0 == sum,
                Err(kind) => res is Err && res->Err_0.kind() == kind,
            },
    {
        let ghost txs = block@.transactions;
        let mut sum: u128 = 0;
        let mut i: usize = 0;
        while i < block.transactions.len()
            invariant
                0 <= i <= block.transactions@.len(),
                txs == block@.transactions,
                block_fee(self@, txs.take(i as int)) == Ok::<int, ErrorKind>(sum as int),
                sum <= i * u64::MAX,
            decreases block.transactions@.len() - i,
        {
            proof {
                assert(txs.take(i + 1).drop_last() =~= txs.take(i as int));
                assert(txs.take(i + 1).last() == block.transactions@[i as int]@);
                assert((i + 1) * u64::MAX == i * u64::MAX + u64::MAX) by (nonlinear_arith);
                assert(i * u64::MAX <= usize::MAX * u64::MAX) by (nonlinear_arith)
                    requires
                        i <= usize::MAX,
                ;
            }
            match self.validate_transaction(&block.transactions[i]) {
                Ok(fee) => {
                    sum = sum + fee as u128;
                },
                Err(e) => {
                    proof {
                        lemma_block_fee_prefix(self@, txs, i + 1);
                    }
                    return Err(e);
                },
            }
            i += 1;
        }
        assert(txs.take(i as int) =~= txs);
        Ok(sum)
    }

    /// Tries the transparent steps of the connect protocol on a block and
    /// changes nothing.
    pub fn check_transparent(&self, block: &Block) -> (res: Result<(), Error>)
        ensures
            match transparent_steps(self@, block@) {
                Ok(()) => res is Ok,
                Err(kind) => res is Err && res->Err_0.kind() == kind,
            },
    {
        let sum = match self.validate_block(block) {
            Ok(sum) => sum,
            Err(e) => {
                return Err(e);
            },
        };
        if !all_different(&inputs_of(block)) {
            return Err(Error::state_error("an unspent output is consumed twice"));
        }
        if sum > u64::MAX as u128 {
            return Err(Error::invalid_block("the fees of the block do not fit in 64 bits"));
        }
        match apply_block(&self.utxos, block) {
            Some(_) => Ok(()),
            None => Err(Error::state_error("the ids of unspent outputs are used up")),
        }
    }

    /// Connects a block, given which of its note commitments belong to notes
    /// of the wallet.
    ///
    /// On success the transparent pool, the wallet's notes and the nullifier
    /// index are those after the block, and the result is the frontier after
    /// the block and the sum of the fees. On failure the store is as it was.
    pub fn connect_block_with(&mut self, block: &Block, owned: &Vec<Option<Note>>) -> (res: Result<
        (Option<Vec<u8>>, u64),
        Error,
    >)
        ensures
            match connect_spec(old(self)@, block@, owned_views(owned@)) {
                Ok(connected) => res is Ok && final(self)@ == connected.state && bytes_view(
                    res->Ok_0.0,
                ) == connected.frontier && res->Ok_0.1 == connected.fee,
                Err(kind) => res is Err && res->Err_0.kind() == kind && final(self)@ == old(self)@,
            },
    {
        let leaves = block.extracted_note_commitments();
        if owned.len() != leaves.len() {
            return Err(Error::crypto_error("the discovered notes do not match the block"));
        }
        let sum = match self.validate_block(block) {
            Ok(sum) => sum,
            Err(e) => {
                return Err(e);
            },
        };
        if !all_different(&inputs_of(block)) {
            return Err(Error::state_error("an unspent output is consumed twice"));
        }
        if sum > u64::MAX as u128 {
            return Err(Error::invalid_block("the fees of the block do not fit in 64 bits"));
        }
        let utxos = match apply_block(&self.utxos, block) {
            Some(u) => u,
            None => {
                return Err(Error::state_error("the ids of unspent outputs are used up"));
            },
        };
        let (frontier, mut found) = match walk_commitments(
            self.get_last_frontier(),
            &leaves,
            owned,
        ) {
            Some(w) => w,
            None => {
                return Err(Error::merkle_tree_error("the note commitment tree cannot be extended"));
            },
        };
        if !all_sound(&frontier, &found) {
            return Err(Error::merkle_tree_error("a witness does not lead to the root of the tree"));
        }
        let revealed = block.nullifiers();
        let nullifiers = match commit_nullifiers(&self.nullifiers, &revealed) {
            Some(n) => n,
            None => {
                return Err(Error::nullifier_error("nullifier exists, note is already spent"));
            },
        };
        let ghost found_views = note_row_views(found@);
        let ghost before_notes = self.notes@;
        self.utxos = utxos;
        self.notes.append(&mut found);
        self.nullifiers = nullifiers;
        proof {
            assert(note_row_views(self.notes@) =~= note_row_views(before_notes) + found_views);
        }
        Ok((frontier, sum as u64))
    }
}

} // verus!
