use incrementalmerkletree::frontier::{CommitmentTree, Frontier};
use incrementalmerkletree::witness::IncrementalWitness;
use incrementalmerkletree::Position;
use orchard::note::ExtractedNoteCommitment;
use orchard::tree::{MerkleHashOrchard, MerklePath};
use orchard::Anchor;
use zcash_sidechain::db::{BlockRow, Db, ShieldedOutput, Utxo};
use zcash_sidechain::error::Error;
use zcash_sidechain::mine::present_notes;
use zcash_sidechain::types::{Action, Block, Note, Output, Transaction};

type TreeParts = (Option<MerkleHashOrchard>, Option<MerkleHashOrchard>, Vec<Option<MerkleHashOrchard>>);

fn frontier_of(blob: &[u8]) -> Frontier<MerkleHashOrchard, 32> {
    let (position, leaf, ommers): (u64, MerkleHashOrchard, Vec<MerkleHashOrchard>) =
        bincode::deserialize(blob).expect("a stored frontier");
    Frontier::from_parts(Position::from(position), leaf, ommers).expect("a frontier")
}

fn frontier_root(blob: &[u8]) -> [u8; 32] {
    frontier_of(blob).root().to_bytes()
}

fn frontier_position(blob: &[u8]) -> u64 {
    let (position, _, _): (u64, MerkleHashOrchard, Vec<MerkleHashOrchard>) =
        bincode::deserialize(blob).expect("a stored frontier");
    position
}

fn witness_of(blob: &[u8]) -> IncrementalWitness<MerkleHashOrchard, 32> {
    let (tree, filled, cursor): (TreeParts, Vec<MerkleHashOrchard>, Option<TreeParts>) =
        bincode::deserialize(blob).expect("a stored witness");
    let tree = CommitmentTree::from_parts(tree.0, tree.1, tree.2).expect("a tree");
    let cursor = cursor.map(|c| CommitmentTree::from_parts(c.0, c.1, c.2).expect("a tree"));
    IncrementalWitness::from_parts(tree, filled, cursor).expect("a witness")
}

fn empty_anchor() -> [u8; 32] {
    Anchor::empty_tree().to_bytes()
}

/// Mines one block that moves a conjured output of `value` to a new output.
fn mine_transparent_block(db: &mut Db, value: u64) {
    db.conjure_utxo(value).unwrap();
    let id = db.get_utxos().last().unwrap().0;
    db.spend_utxo(id).unwrap();
    db.create_utxo(value);
    db.submit_transaction().unwrap();
    db.mine().unwrap();
}

/// Mines one block that shields `value` out of a conjured output of
/// `value + fee`.
fn mine_shielding_block(db: &mut Db, value: u64, fee: u64) {
    db.conjure_utxo(value + fee).unwrap();
    let id = db.get_utxos().last().unwrap().0;
    db.spend_utxo(id).unwrap();
    db.create_note(None, value).unwrap();
    db.submit_transaction().unwrap();
    db.mine().unwrap();
}

fn real_actions() -> (Vec<Action>, i64) {
    let mut db = Db::new();
    db.create_note(None, 5).unwrap();
    db.submit_transaction().unwrap();
    let tx = Transaction::from_body(&db.transactions[0]).unwrap();
    (tx.actions, tx.value_balance_orchard)
}

fn garbage_action() -> Action {
    Action {
        nf: [0xff; 32],
        rk: [0xff; 32],
        cmx: [0xff; 32],
        epk_bytes: [0xff; 32],
        enc_ciphertext: vec![0; 580],
        out_ciphertext: vec![0; 80],
        cv_net: [0xff; 32],
    }
}

fn transparent(inputs: Vec<u32>, outputs: Vec<u64>) -> Transaction {
    Transaction {
        inputs,
        outputs: outputs.into_iter().map(|value| Output { value }).collect(),
        actions: vec![],
        value_balance_orchard: 0,
    }
}

#[test]
fn genesis_is_empty() {
    let mut db = Db::new();
    db.mine().unwrap();
    assert!(db.blocks.is_empty());
    assert_eq!(db.get_total_transparent_value().unwrap(), 0);
    assert_eq!(db.get_total_shielded_value().unwrap(), 0);
    assert!(db.get_utxos().is_empty());
    assert!(db.get_wallet_notes().unwrap().is_empty());
    let empty = Db::empty();
    assert!(empty.wallet_seed.is_none());
    assert!(empty.utxos.is_empty() && empty.transactions.is_empty());
}

#[test]
fn conjure_and_spend() {
    let mut db = Db::new();
    db.conjure_utxo(100).unwrap();
    db.mine().unwrap();
    assert!(db.blocks.is_empty());
    db.spend_utxo(1).unwrap();
    db.create_utxo(70);
    assert_eq!(db.get_inputs(), vec![1]);
    assert_eq!(db.get_outputs(), vec![Output { value: 70 }]);
    db.submit_transaction().unwrap();
    assert!(db.get_inputs().is_empty() && db.get_outputs().is_empty());
    assert_eq!(db.transactions.len(), 1);
    db.mine().unwrap();
    assert_eq!(db.blocks.len(), 1);
    assert_eq!(db.blocks[0].fee, 30);
    assert!(db.blocks[0].frontier.is_none());
    assert!(db.transactions.is_empty());
    assert_eq!(db.get_total_transparent_value().unwrap(), 70);
    assert_eq!(db.get_utxos(), vec![(1, 70)]);
    assert_eq!(db.get_total_shielded_value().unwrap(), 0);
    let stored = Block::from_body(&db.blocks[0].body).unwrap();
    assert_eq!(stored.transactions.len(), 1);
    assert_eq!(stored.transactions[0].inputs, vec![1]);
    assert_eq!(stored.transactions[0].outputs, vec![Output { value: 70 }]);
}

#[test]
fn created_utxo_is_mined() {
    for v in [0u64, 1, 55, 1 << 40] {
        let mut db = Db::new();
        db.conjure_utxo(v).unwrap();
        db.spend_utxo(1).unwrap();
        db.create_utxo(v);
        db.submit_transaction().unwrap();
        db.mine().unwrap();
        assert!(db.get_utxos().iter().any(|u| u.1 == v));
        assert_eq!(db.get_utxos().last().unwrap().1, v);
    }
}

#[test]
fn an_output_that_nothing_funds_is_refused() {
    let mut db = Db::new();
    db.create_utxo(1);
    db.submit_transaction().unwrap();
    match db.mine() {
        Err(Error::InvalidTransaction(_)) => {}
        other => panic!("{:?}", other),
    }
    assert!(db.blocks.is_empty());
    assert!(db.utxos.is_empty());
    assert_eq!(db.transactions.len(), 1);
}

#[test]
fn shield() {
    let mut db = Db::new();
    db.conjure_utxo(100).unwrap();
    db.mine().unwrap();
    db.spend_utxo(1).unwrap();
    db.create_note(None, 90).unwrap();
    assert_eq!(db.addresses.len(), 1);
    assert_eq!(db.get_shielded_outputs().len(), 1);
    assert_eq!(db.get_shielded_outputs()[0].value, 90);
    assert_eq!(db.get_shielded_outputs()[0].recipient, db.addresses[0]);
    db.submit_transaction().unwrap();
    assert!(db.get_shielded_outputs().is_empty());
    db.mine().unwrap();

    assert_eq!(db.blocks.len(), 1);
    assert_eq!(db.blocks[0].fee, 10);
    assert_eq!(db.get_total_transparent_value().unwrap(), 0);
    assert_eq!(db.get_total_shielded_value().unwrap(), 90);
    let notes = db.get_wallet_notes().unwrap();
    assert_eq!(notes.len(), 1);
    assert_eq!(notes[0].0, 1);
    assert_eq!(notes[0].1.value, 90);
    assert_eq!(notes[0].1.recipient, db.addresses[0]);

    let frontier = db.blocks[0].frontier.clone().expect("a frontier");
    let stored = Block::from_body(&db.blocks[0].body).unwrap();
    let commitments = stored.extracted_note_commitments();
    assert!(!commitments.is_empty());
    assert_eq!(frontier_position(&frontier), commitments.len() as u64 - 1);
    assert_eq!(db.nullifiers, stored.nullifiers());

    let witness = witness_of(&db.notes[0].witness);
    assert_eq!(notes[0].2.filled.len(), witness.filled().len());
    assert_eq!(notes[0].2.tree.left, witness.tree().left().map(|h| h.to_bytes()));
    assert_eq!(notes[0].2.cursor.is_some(), witness.cursor().is_some());
    assert_eq!(witness.root().to_bytes(), frontier_root(&frontier));

    let (note, position, path) = db.get_note(1).unwrap();
    assert_eq!(note.value, 90);
    assert_eq!(path.len(), 32);
    let cmx = ExtractedNoteCommitment::from_bytes(&commitments[position as usize]).unwrap();
    let elems: Vec<MerkleHashOrchard> =
        path.iter().map(|h| MerkleHashOrchard::from_bytes(h).unwrap()).collect();
    let elems: [MerkleHashOrchard; 32] = elems.try_into().unwrap();
    let root = MerklePath::from_parts(position, elems).root(cmx);
    assert_eq!(root.to_bytes(), frontier_root(&frontier));

    let rebuilt = orchard::Note::from_parts(
        orchard::Address::from_raw_address_bytes(&note.recipient).unwrap(),
        orchard::value::NoteValue::from_raw(note.value),
        orchard::note::Rho::from_bytes(&note.rho).unwrap(),
        orchard::note::RandomSeed::from_bytes(
            note.rseed,
            &orchard::note::Rho::from_bytes(&note.rho).unwrap(),
        )
        .unwrap(),
        orchard::NoteVersion::V2,
    )
    .unwrap();
    assert_eq!(ExtractedNoteCommitment::from(rebuilt.commitment()).to_bytes(), commitments[position as usize]);
}

#[test]
fn discovered_notes_line_up_with_the_commitments() {
    let mut db = Db::new();
    db.conjure_utxo(100).unwrap();
    db.spend_utxo(1).unwrap();
    db.create_note(None, 60).unwrap();
    db.create_note(None, 30).unwrap();
    db.submit_transaction().unwrap();
    let block = Block { transactions: db.get_transactions().unwrap() };
    let slots = db.discover_notes(&block).unwrap();
    assert_eq!(slots.len(), block.extracted_note_commitments().len());
    let mut values: Vec<u64> = slots.iter().flatten().map(|n| n.value).collect();
    values.sort();
    assert_eq!(values, vec![30, 60]);
    let notes = db.get_notes(&block).unwrap();
    assert_eq!(notes.len(), 2);

    db.mine().unwrap();
    assert_eq!(db.get_total_shielded_value().unwrap(), 90);
    assert_eq!(db.blocks[0].fee, 10);
    let frontier = db.blocks[0].frontier.clone().unwrap();
    let listed = db.get_wallet_notes().unwrap();
    assert_eq!(listed.len(), 2);
    for (id, _, witness) in listed.iter() {
        let stored = &db.notes[*id as usize - 1].witness;
        assert_eq!(witness_of(stored).root().to_bytes(), frontier_root(&frontier));
        assert!(witness.is_well_formed());
        assert!(witness.tree.left.is_some());
    }
    let first = witness_of(&db.notes[0].witness).witnessed_position();
    let second = witness_of(&db.notes[1].witness).witnessed_position();
    assert!(u64::from(first) < u64::from(second));
    let commitments = block.extracted_note_commitments();
    for row in &db.notes {
        let (position, _) = witness_of(&row.witness)
            .path()
            .map(|p| (u64::from(p.position()), ()))
            .unwrap();
        let slot = slots[position as usize].expect("the slot of the note");
        assert_eq!(slot.value, row.note.value);
        assert_eq!(slot.rho, row.note.rho);
        assert!(commitments.len() > position as usize);
    }

    let strangers = Db::new();
    let slots = strangers.discover_notes(&block).unwrap();
    assert_eq!(slots.len(), commitments.len());
    assert!(slots.iter().all(|s| s.is_none()));
}

#[test]
fn double_spend_rejected() {
    let mut db = Db::new();
    mine_shielding_block(&mut db, 90, 10);
    for _ in 0..3 {
        mine_transparent_block(&mut db, 5);
    }
    assert_eq!(db.blocks.len(), 4);
    assert_eq!(db.get_wallet_notes().unwrap().len(), 1);

    let before_utxos = db.get_utxos();
    for _ in 0..2 {
        db.spend_note(1).unwrap();
        db.create_utxo(90);
        db.submit_transaction().unwrap();
    }
    assert_eq!(db.transactions.len(), 2);
    let first = Transaction::from_body(&db.transactions[0]).unwrap();
    let second = Transaction::from_body(&db.transactions[1]).unwrap();
    assert_eq!(first.value_balance_orchard, 90);
    assert!(first.nullifiers().iter().any(|nf| second.nullifiers().contains(nf)));

    match db.mine() {
        Err(Error::Nullifier(_)) => {}
        other => panic!("{:?}", other),
    }
    assert_eq!(db.blocks.len(), 4);
    assert_eq!(db.get_utxos(), before_utxos);
    assert_eq!(db.transactions.len(), 2);
    assert!(db.get_inputs().is_empty() && db.get_shielded_inputs().is_empty());
    assert_eq!(db.nullifiers.len(), 2);

    db.transactions.pop();
    db.mine().unwrap();
    assert_eq!(db.blocks.len(), 5);
    assert_eq!(db.blocks[4].fee, 0);
    assert_eq!(db.get_utxos().last().unwrap().1, 90);
    assert_eq!(db.nullifiers.len(), 4);

    db.spend_note(1).unwrap();
    db.create_utxo(90);
    match db.submit_transaction() {
        Ok(()) => match db.mine() {
            Err(Error::Nullifier(_)) => {}
            other => panic!("{:?}", other),
        },
        Err(Error::Crypto(_)) => {}
        Err(other) => panic!("{:?}", other),
    }
    assert_eq!(db.blocks.len(), 5);
}

#[test]
fn anchor_lag() {
    let mut db = Db::new();
    assert_eq!(db.get_bundle_anchor().unwrap(), empty_anchor());
    for i in 0..5u64 {
        if i < 4 {
            assert_eq!(db.get_bundle_anchor().unwrap(), empty_anchor());
        }
        mine_shielding_block(&mut db, 10 + i, 0);
    }
    assert_eq!(db.blocks.len(), 5);
    let roots: Vec<[u8; 32]> =
        db.blocks.iter().map(|b| frontier_root(b.frontier.as_ref().unwrap())).collect();
    for i in 0..4 {
        assert_ne!(roots[i], roots[i + 1]);
    }
    let positions: Vec<u64> =
        db.blocks.iter().map(|b| frontier_position(b.frontier.as_ref().unwrap())).collect();
    for i in 0..4 {
        assert!(positions[i] < positions[i + 1]);
    }
    assert_eq!(db.get_bundle_anchor().unwrap(), roots[1]);
    assert_ne!(db.get_bundle_anchor().unwrap(), roots[4]);

    db.create_note(None, 0).unwrap();
    db.submit_transaction().unwrap();
    let pending = Transaction::from_body(&db.transactions[0]).unwrap();
    assert!(!pending.actions.is_empty());
    db.mine().unwrap();
    assert_eq!(db.get_bundle_anchor().unwrap(), roots[2]);
}

#[test]
fn anchor_of_a_short_chain_is_the_empty_tree() {
    let mut db = Db::new();
    for _ in 0..3 {
        mine_shielding_block(&mut db, 1, 0);
        assert_eq!(db.get_bundle_anchor().unwrap(), empty_anchor());
    }
    mine_transparent_block(&mut db, 1);
    let first = frontier_root(db.blocks[0].frontier.as_ref().unwrap());
    assert_eq!(db.get_bundle_anchor().unwrap(), first);
    assert_eq!(db.blocks[3].frontier, db.blocks[2].frontier);
    assert_eq!(db.get_last_frontier(), db.blocks[3].frontier.as_ref());
}

#[test]
fn anchor_of_a_chain_without_commitments_is_the_empty_tree() {
    let mut db = Db::new();
    for _ in 0..5 {
        mine_transparent_block(&mut db, 3);
    }
    assert_eq!(db.blocks.len(), 5);
    assert!(db.blocks.iter().all(|b| b.frontier.is_none()));
    assert!(db.get_last_frontier().is_none());
    assert_eq!(db.get_bundle_anchor().unwrap(), empty_anchor());
}

#[test]
fn mnemonic_stability() {
    let mut db = Db::new();
    let phrase = db.get_mnemonic().unwrap();
    assert_eq!(phrase.split_whitespace().count(), 12);
    assert_eq!(db.get_mnemonic().unwrap(), phrase);

    let a1 = db.get_new_address().unwrap();
    let a2 = db.get_new_address().unwrap();

    let mut restarted = Db::empty();
    restarted.wallet_seed = db.wallet_seed.clone();
    restarted.addresses = db.addresses.clone();
    restarted.bootstrap();
    assert_eq!(restarted.get_mnemonic().unwrap(), phrase);
    let a3 = restarted.get_new_address().unwrap();
    assert_ne!(a1, a2);
    assert_ne!(a2, a3);
    assert_ne!(a1, a3);
    assert_eq!(restarted.addresses, vec![a1, a2, a3]);

    let other = Db::new();
    assert_ne!(other.get_mnemonic().unwrap(), phrase);
}

#[test]
fn addresses_are_those_of_the_seed_at_growing_indices() {
    let mut db = Db::new();
    let phrase = db.get_mnemonic().unwrap();
    let mnemonic = bip39::Mnemonic::from_phrase(&phrase, bip39::Language::English).unwrap();
    let seed = bip39::Seed::new(&mnemonic, "");
    let sk = orchard::keys::SpendingKey::from_zip32_seed(seed.as_bytes(), 0, zip32::AccountId::ZERO).unwrap();
    let fvk = orchard::keys::FullViewingKey::from(&sk);
    assert_eq!(db.get_fvk().unwrap(), fvk.to_bytes());
    for index in 1u32..=4 {
        let raw = db.get_new_address().unwrap();
        let expected = fvk.address_at(index, zip32::Scope::External).to_raw_address_bytes();
        assert_eq!(raw, expected);
        assert_eq!(db.addresses.len(), index as usize);
        assert_eq!(db.addresses[index as usize - 1], expected);
    }
    let mut all = db.addresses.clone();
    all.sort();
    all.dedup();
    assert_eq!(all.len(), 4);
}

#[test]
fn bootstrap_gives_a_seed_only_where_there_is_none() {
    let mut db = Db::empty();
    assert!(matches!(db.get_mnemonic(), Err(Error::State(_))));
    assert!(matches!(db.get_fvk(), Err(Error::State(_))));
    assert!(matches!(db.get_new_address(), Err(Error::State(_))));
    db.bootstrap();
    let phrase = db.get_mnemonic().unwrap();
    db.bootstrap();
    assert_eq!(db.get_mnemonic().unwrap(), phrase);

    db.wallet_seed = Some("twelve words that are no mnemonic at all for any wallet ever".to_string());
    assert!(matches!(db.get_mnemonic(), Err(Error::Crypto(_))));
    assert!(matches!(db.get_fvk(), Err(Error::Crypto(_))));
    assert!(matches!(db.get_new_address(), Err(Error::Crypto(_))));
    assert!(db.addresses.is_empty());
    db.bootstrap();
    assert_eq!(
        db.wallet_seed.as_deref(),
        Some("twelve words that are no mnemonic at all for any wallet ever")
    );
    assert!(matches!(db.get_mnemonic(), Err(Error::Crypto(_))));

    db.generate_seed();
    let replaced = db.get_mnemonic().unwrap();
    assert_eq!(replaced.split_whitespace().count(), 12);
    db.generate_seed();
    assert_ne!(db.get_mnemonic().unwrap(), replaced);
}

#[test]
fn clear_restores_the_mempool() {
    let mut db = Db::new();
    db.conjure_utxo(10).unwrap();
    mine_shielding_block(&mut db, 7, 0);
    let utxos = db.get_utxos();
    let blocks = db.blocks.len();
    db.create_utxo(4);
    db.spend_utxo(1).unwrap();
    db.create_note(None, 3).unwrap();
    db.spend_note(1).unwrap();
    db.create_utxo(9);
    assert_eq!(db.get_outputs().len(), 2);
    assert_eq!(db.get_inputs(), vec![1]);
    assert_eq!(db.get_shielded_inputs(), vec![1]);
    assert_eq!(db.get_shielded_outputs().len(), 1);
    db.clear_transaction();
    assert!(db.get_inputs().is_empty());
    assert!(db.get_outputs().is_empty());
    assert!(db.get_shielded_inputs().is_empty());
    assert!(db.get_shielded_outputs().is_empty());
    assert_eq!(db.get_utxos(), utxos);
    assert_eq!(db.blocks.len(), blocks);
    assert!(db.transactions.is_empty());
}

#[test]
fn staging_refuses_what_does_not_exist() {
    let mut db = Db::new();
    assert!(matches!(db.spend_utxo(1), Err(Error::State(_))));
    assert!(matches!(db.spend_note(1), Err(Error::State(_))));
    assert!(matches!(db.spend_note(0), Err(Error::State(_))));
    assert!(matches!(db.get_utxo_value(3), Err(Error::State(_))));
    assert!(matches!(db.get_note(1), Err(Error::State(_))));
    assert!(matches!(db.get_note(0), Err(Error::State(_))));
    assert!(db.get_inputs().is_empty() && db.get_shielded_inputs().is_empty());
    db.conjure_utxo(8).unwrap();
    db.conjure_utxo(9).unwrap();
    assert_eq!(db.get_utxos(), vec![(1, 8), (2, 9)]);
    assert_eq!(db.get_utxo_value(2).unwrap(), 9);
    assert_eq!(db.last_utxo_id(), 2);
    db.spend_utxo(2).unwrap();
    assert!(matches!(db.spend_utxo(3), Err(Error::State(_))));
    assert_eq!(db.get_inputs(), vec![2]);
}

#[test]
fn recipients_are_checked() {
    let mut db = Db::new();
    let own = db.get_new_address().unwrap();
    let text = Db::encode_address(&own);
    assert_eq!(text, bs58::encode(own).with_check().into_string());
    assert_eq!(Db::parse_recipient(&text).unwrap(), own);
    db.create_note(Some(text.clone()), 12).unwrap();
    assert_eq!(db.get_shielded_outputs().len(), 1);
    assert_eq!(db.get_shielded_outputs()[0].recipient, own);
    assert_eq!(db.get_shielded_outputs()[0].value, 12);
    assert_eq!(db.addresses.len(), 1);

    let mut broken = text.clone();
    let last = broken.pop().unwrap();
    broken.push(if last == '1' { '2' } else { '1' });
    let short = bs58::encode([1u8; 10]).with_check().into_string();
    let unchecked = bs58::encode(own).into_string();
    let no_address = bs58::encode([0xffu8; 43]).with_check().into_string();
    for bad in [broken.as_str(), short.as_str(), unchecked.as_str(), no_address.as_str(), "", "0OIl"] {
        assert!(matches!(db.create_note(Some(bad.to_string()), 1), Err(Error::InvalidAddress(_))), "{}", bad);
        assert!(matches!(Db::parse_recipient(bad), Err(Error::InvalidAddress(_))));
    }
    assert_eq!(db.get_shielded_outputs().len(), 1);
}

#[test]
fn validation_gives_each_failure_its_kind() {
    let mut db = Db::new();
    db.conjure_utxo(100).unwrap();
    assert_eq!(db.validate_transaction(&transparent(vec![1], vec![30, 30])).unwrap(), 40);
    assert!(matches!(db.validate_transaction(&transparent(vec![1, 1], vec![])), Err(Error::State(_))));
    assert_eq!(db.validate_transaction(&transparent(vec![], vec![])).unwrap(), 0);
    assert!(matches!(
        db.validate_transaction(&transparent(vec![1], vec![101])),
        Err(Error::InvalidTransaction(_))
    ));
    assert!(matches!(db.validate_transaction(&transparent(vec![2], vec![])), Err(Error::State(_))));

    let mut with_balance = transparent(vec![1], vec![50]);
    with_balance.value_balance_orchard = -50;
    assert_eq!(db.validate_transaction(&with_balance).unwrap(), 0);
    with_balance.value_balance_orchard = -51;
    assert!(matches!(db.validate_transaction(&with_balance), Err(Error::InvalidTransaction(_))));
    with_balance.value_balance_orchard = 7;
    assert_eq!(db.validate_transaction(&with_balance).unwrap(), 57);
    with_balance.value_balance_orchard = i64::MIN;
    assert!(matches!(db.validate_transaction(&with_balance), Err(Error::InvalidTransaction(_))));
    with_balance.value_balance_orchard = i64::MAX;
    assert_eq!(db.validate_transaction(&with_balance).unwrap(), 50 + i64::MAX as u64);

    db.conjure_utxo(u64::MAX).unwrap();
    assert_eq!(db.validate_transaction(&transparent(vec![2], vec![])).unwrap(), u64::MAX);
    assert!(matches!(
        db.validate_transaction(&transparent(vec![1, 2], vec![])),
        Err(Error::InvalidTransaction(_))
    ));
    assert_eq!(db.validate_transaction(&transparent(vec![1, 2], vec![100])).unwrap(), u64::MAX);

    let mut bad = transparent(vec![1], vec![]);
    bad.actions.push(garbage_action());
    assert!(!Db::actions_decode(&bad));
    assert!(matches!(db.validate_transaction(&bad), Err(Error::Crypto(_))));
    db.nullifiers.push([0xff; 32]);
    assert!(db.nullifier_exists(&[0xff; 32]));
    assert!(!db.nullifier_exists(&[0xfe; 32]));
    assert!(matches!(db.validate_transaction(&bad), Err(Error::Nullifier(_))));

    let (actions, balance) = real_actions();
    let mut widths = transparent(vec![1], vec![]);
    widths.value_balance_orchard = balance;
    widths.actions = actions;
    assert!(Db::actions_decode(&widths));
    assert_eq!(db.validate_transaction(&widths).unwrap(), 95);
    widths.actions[0].enc_ciphertext.push(0);
    assert!(!Db::actions_decode(&widths));
    assert!(matches!(db.validate_transaction(&widths), Err(Error::Crypto(_))));
    widths.actions[0].enc_ciphertext.pop();
    widths.actions[0].out_ciphertext.pop();
    assert!(matches!(db.validate_transaction(&widths), Err(Error::Crypto(_))));
}

#[test]
fn connecting_gives_each_failure_its_kind_and_changes_nothing() {
    let mut db = Db::new();
    db.conjure_utxo(u64::MAX).unwrap();
    db.conjure_utxo(u64::MAX).unwrap();

    let block = Block { transactions: vec![transparent(vec![1], vec![]), transparent(vec![2], vec![])] };
    assert_eq!(db.validate_block(&block).unwrap(), 2 * (u64::MAX as u128));
    assert!(matches!(db.connect_block_with(&block, &vec![]), Err(Error::InvalidBlock(_))));
    assert!(matches!(db.connect_block(&block), Err(Error::InvalidBlock(_))));
    assert_eq!(db.get_utxos().len(), 2);

    let block = Block { transactions: vec![transparent(vec![1], vec![5])] };
    let extra: Vec<Option<Note>> = vec![None];
    assert!(matches!(db.connect_block_with(&block, &extra), Err(Error::Crypto(_))));

    let block = Block { transactions: vec![transparent(vec![1], vec![5]), transparent(vec![9], vec![])] };
    assert!(matches!(db.connect_block_with(&block, &vec![]), Err(Error::State(_))));
    assert_eq!(db.get_utxos().len(), 2);

    db.utxos.push(Utxo { id: u32::MAX, value: 1 });
    assert!(matches!(db.conjure_utxo(1), Err(Error::State(_))));
    let block = Block { transactions: vec![transparent(vec![1], vec![5])] };
    assert!(matches!(db.connect_block_with(&block, &vec![]), Err(Error::State(_))));
    assert_eq!(db.get_utxos().len(), 3);
    let block = Block { transactions: vec![transparent(vec![u32::MAX], vec![1])] };
    let (frontier, fee) = db.connect_block_with(&block, &vec![]).unwrap();
    assert!(frontier.is_none());
    assert_eq!(fee, 0);
    assert_eq!(db.get_utxos(), vec![(1, u64::MAX), (2, u64::MAX), (3, 1)]);

    let (actions, balance) = real_actions();
    let count = actions.len();
    let shielded = Transaction { inputs: vec![3], outputs: vec![], actions, value_balance_orchard: balance };
    assert_eq!(balance, -5);
    let block = Block { transactions: vec![shielded] };
    assert!(matches!(db.connect_block_with(&block, &vec![]), Err(Error::Crypto(_))));
    assert!(matches!(db.connect_block_with(&block, &vec![None; count]), Err(Error::InvalidTransaction(_))));
    db.conjure_utxo(5).unwrap();
    let id = db.get_utxos().last().unwrap().0;
    let mut block = block;
    block.transactions[0].inputs = vec![id];

    db.blocks.push(BlockRow { fee: 0, frontier: Some(vec![1, 2, 3]), body: vec![0; 8] });
    assert!(matches!(db.connect_block_with(&block, &vec![None; count]), Err(Error::MerkleTree(_))));
    db.blocks.pop();

    db.conjure_utxo(5).unwrap();
    let other = db.get_utxos().last().unwrap().0;
    let twice = Block {
        transactions: vec![
            Transaction {
                inputs: vec![id],
                outputs: vec![],
                actions: block.transactions[0].actions.iter().map(copy_action).collect(),
                value_balance_orchard: balance,
            },
            Transaction {
                inputs: vec![other],
                outputs: vec![],
                actions: block.transactions[0].actions.iter().map(copy_action).collect(),
                value_balance_orchard: balance,
            },
        ],
    };
    let before = db.get_utxos();
    assert!(matches!(db.connect_block_with(&twice, &vec![None; 2 * count]), Err(Error::Nullifier(_))));
    assert_eq!(db.get_utxos(), before);
    assert!(db.nullifiers.is_empty() && db.notes.is_empty());

    let note = Note { recipient: [1; 43], value: 5, rho: [2; 32], rseed: [3; 32] };
    let mut owned: Vec<Option<Note>> = vec![None; count];
    owned[0] = Some(note);
    let (frontier, fee) = db.connect_block_with(&block, &owned).unwrap();
    assert_eq!(fee, 0);
    let frontier = frontier.expect("a frontier");
    assert_eq!(frontier_position(&frontier), count as u64 - 1);
    assert_eq!(db.nullifiers, block.nullifiers());
    assert_eq!(db.notes.len(), 1);
    assert_eq!(db.notes[0].note.value, 5);
    assert_eq!(witness_of(&db.notes[0].witness).root().to_bytes(), frontier_root(&frontier));
    assert_eq!(u64::from(witness_of(&db.notes[0].witness).witnessed_position()), 0);
    assert!(db.blocks.is_empty());
    db.store_block(Some(frontier.clone()), fee, &block);
    assert_eq!(db.blocks.len(), 1);
    assert_eq!(db.blocks[0].body, block.to_body());
    assert_eq!(db.blocks[0].frontier, Some(frontier));
    assert!(matches!(db.connect_block_with(&block, &owned), Err(Error::Nullifier(_))));
}

fn copy_action(a: &Action) -> Action {
    Action {
        nf: a.nf,
        rk: a.rk,
        cmx: a.cmx,
        epk_bytes: a.epk_bytes,
        enc_ciphertext: a.enc_ciphertext.clone(),
        out_ciphertext: a.out_ciphertext.clone(),
        cv_net: a.cv_net,
    }
}

#[test]
fn the_frontier_grows_leaf_by_leaf() {
    let (actions, balance) = real_actions();
    let leaves: Vec<MerkleHashOrchard> =
        actions.iter().map(|a| MerkleHashOrchard::from_bytes(&a.cmx).unwrap()).collect();
    let mut db = Db::new();
    db.conjure_utxo(5).unwrap();
    let block = Block {
        transactions: vec![Transaction { inputs: vec![1], outputs: vec![], actions, value_balance_orchard: balance }],
    };
    let owned: Vec<Option<Note>> = vec![None; leaves.len()];
    let (frontier, _) = db.connect_block_with(&block, &owned).unwrap();
    let mut expected: Frontier<MerkleHashOrchard, 32> = Frontier::empty();
    for leaf in &leaves {
        assert!(expected.append(*leaf));
    }
    let frontier = frontier.unwrap();
    assert_eq!(frontier_of(&frontier), expected);
    assert_eq!(frontier_root(&frontier), expected.root().to_bytes());
}

#[test]
fn stored_bytes_that_do_not_decode_are_reported() {
    let mut db = Db::new();
    db.transactions.push(vec![1, 2, 3]);
    assert!(matches!(db.get_transactions(), Err(Error::Serialization(_))));
    assert!(matches!(db.mine(), Err(Error::Serialization(_))));
    assert!(matches!(db.mine_with(&vec![]), Err(Error::Serialization(_))));
    assert_eq!(db.transactions.len(), 1);
    db.clear_transactions();
    assert!(db.transactions.is_empty());

    for _ in 0..4 {
        db.blocks.push(BlockRow { fee: 0, frontier: Some(vec![9; 5]), body: vec![0; 8] });
    }
    assert!(matches!(db.get_bundle_anchor(), Err(Error::Serialization(_))));
    db.create_utxo(0);
    assert!(matches!(db.submit_transaction(), Err(Error::Serialization(_))));
    assert_eq!(db.get_outputs().len(), 1);
    db.blocks.clear();

    db.store_note(&Note { recipient: [1; 43], value: 4, rho: [2; 32], rseed: [3; 32] }, &vec![7; 9]);
    assert!(matches!(db.get_wallet_notes(), Err(Error::Serialization(_))));
    assert_eq!(db.get_total_shielded_value().unwrap(), 4);
    assert!(matches!(db.get_note(1), Err(Error::Serialization(_))));
    db.spend_note(1).unwrap();
    assert!(matches!(db.submit_transaction(), Err(Error::Serialization(_))));
    assert_eq!(db.get_shielded_inputs(), vec![1]);
    assert!(db.transactions.is_empty());
}

#[test]
fn totals_that_do_not_fit_are_reported() {
    let mut db = Db::new();
    db.conjure_utxo(u64::MAX).unwrap();
    assert_eq!(db.get_total_transparent_value().unwrap(), u64::MAX);
    db.conjure_utxo(1).unwrap();
    assert!(matches!(db.get_total_transparent_value(), Err(Error::State(_))));
    let note = |value| Note { recipient: [1; 43], value, rho: [2; 32], rseed: [3; 32] };
    db.store_note(&note(u64::MAX - 1), &vec![]);
    db.store_note(&note(1), &vec![]);
    assert_eq!(db.get_total_shielded_value().unwrap(), u64::MAX);
    db.store_note(&note(1), &vec![]);
    assert!(matches!(db.get_total_shielded_value(), Err(Error::State(_))));
}

#[test]
fn submitting_packages_what_is_staged() {
    let mut db = Db::new();
    db.conjure_utxo(9).unwrap();
    db.spend_utxo(1).unwrap();
    db.create_utxo(4);
    db.create_utxo(5);
    db.submit_with(None);
    let tx = Transaction::from_body(&db.transactions[0]).unwrap();
    assert_eq!(tx.inputs, vec![1]);
    assert_eq!(tx.outputs, vec![Output { value: 4 }, Output { value: 5 }]);
    assert!(tx.actions.is_empty());
    assert_eq!(tx.value_balance_orchard, 0);
    assert!(db.get_inputs().is_empty() && db.get_outputs().is_empty());

    db.create_utxo(1);
    db.shielded_outputs.push(ShieldedOutput { recipient: [0; 43], value: 3 });
    db.submit_with(Some((vec![garbage_action()], -3)));
    assert_eq!(db.transactions.len(), 2);
    let tx = Transaction::from_body(&db.transactions[1]).unwrap();
    assert_eq!(tx.outputs, vec![Output { value: 1 }]);
    assert_eq!(tx.actions.len(), 1);
    assert_eq!(tx.actions[0].nf, [0xff; 32]);
    assert_eq!(tx.value_balance_orchard, -3);
    assert!(db.get_shielded_outputs().is_empty());

    let made = Transaction::from_bundle(vec![7], vec![Output { value: 2 }], None);
    assert_eq!(made.inputs, vec![7]);
    assert_eq!(made.value_balance_orchard, 0);
    let made = Transaction::from_bundle(vec![], vec![], Some((vec![garbage_action()], 11)));
    assert_eq!(made.actions.len(), 1);
    assert_eq!(made.value_balance_orchard, 11);
}

#[test]
fn a_refused_output_leaves_the_mempool() {
    let mut db = Db::new();
    db.conjure_utxo(9).unwrap();
    db.spend_utxo(1).unwrap();
    db.create_utxo(2);
    db.shielded_outputs.push(ShieldedOutput { recipient: [0xff; 43], value: 3 });
    assert!(matches!(db.bundle_request(), Err(Error::InvalidAddress(_))));
    assert!(matches!(db.submit_transaction(), Err(Error::InvalidAddress(_))));
    assert_eq!(db.get_shielded_outputs().len(), 1);
    assert_eq!(db.get_inputs(), vec![1]);
    assert_eq!(db.get_outputs().len(), 1);
    assert!(db.transactions.is_empty());

    // A good recipient before the bad one changes nothing.
    let mut db = Db::new();
    db.create_note(None, 4).unwrap();
    db.shielded_outputs.push(ShieldedOutput { recipient: [0xff; 43], value: 3 });
    assert!(matches!(db.submit_transaction(), Err(Error::InvalidAddress(_))));
    assert_eq!(db.get_shielded_outputs().len(), 2);
    assert!(db.transactions.is_empty());
}

#[test]
fn mining_with_given_notes() {
    let mut db = Db::new();
    db.conjure_utxo(20).unwrap();
    db.spend_utxo(1).unwrap();
    db.create_utxo(15);
    db.submit_transaction().unwrap();
    let hidden: Vec<Option<Note>> = vec![None];
    assert!(matches!(db.mine_with(&hidden), Err(Error::Crypto(_))));
    assert!(db.blocks.is_empty());
    db.mine_with(&vec![]).unwrap();
    assert_eq!(db.blocks.len(), 1);
    assert_eq!(db.blocks[0].fee, 5);
    assert!(db.transactions.is_empty());
    db.mine_with(&hidden).unwrap();
    assert_eq!(db.blocks.len(), 1);
}

#[test]
fn a_bundle_needs_actions_that_the_provider_accepts() {
    let (actions, balance) = real_actions();
    let count = actions.len();
    let mut tx = Transaction { inputs: vec![], outputs: vec![], actions, value_balance_orchard: balance };
    let bundle = tx.to_bundle([7; 32]).expect("a bundle");
    assert_eq!(bundle.actions.len(), count);
    assert_eq!(bundle.value_balance, balance);
    assert_eq!(bundle.anchor, [7; 32]);

    tx.actions.push(garbage_action());
    assert!(tx.to_bundle([7; 32]).is_none());
    assert!(transparent(vec![1], vec![2]).to_bundle(empty_anchor()).is_none());
}

#[test]
fn the_notes_of_slots_come_in_the_order_of_the_slots() {
    let note = |value| Note { recipient: [1; 43], value, rho: [2; 32], rseed: [3; 32] };
    let slots = vec![None, Some(note(7)), None, None, Some(note(3)), Some(note(9))];
    let values: Vec<u64> = present_notes(&slots).iter().map(|n| n.value).collect();
    assert_eq!(values, vec![7, 3, 9]);
    assert!(present_notes(&vec![None, None]).is_empty());
    assert!(present_notes(&vec![]).is_empty());

    let db = Db::new();
    let none = Block { transactions: vec![transparent(vec![1], vec![2])] };
    assert!(db.get_notes(&none).unwrap().is_empty());
}

#[test]
fn an_output_is_not_spent_twice_in_a_block() {
    let mut db = Db::new();
    db.conjure_utxo(100).unwrap();
    let twice = Block { transactions: vec![transparent(vec![1], vec![]), transparent(vec![1], vec![])] };
    assert!(matches!(db.check_transparent(&twice), Err(Error::State(_))));
    assert!(matches!(db.connect_block_with(&twice, &vec![]), Err(Error::State(_))));
    assert!(matches!(db.connect_block(&twice), Err(Error::State(_))));
    assert_eq!(db.get_utxos(), vec![(1, 100)]);
    let in_one = Block { transactions: vec![transparent(vec![1, 1], vec![])] };
    assert!(matches!(db.connect_block(&in_one), Err(Error::State(_))));
    assert_eq!(db.get_utxos(), vec![(1, 100)]);

    db.transactions.push(transparent(vec![1], vec![60]).to_body());
    db.transactions.push(transparent(vec![1], vec![60]).to_body());
    assert!(matches!(db.mine(), Err(Error::State(_))));
    assert!(db.blocks.is_empty());
    assert_eq!(db.transactions.len(), 2);
    db.transactions.pop();
    db.mine().unwrap();
    assert_eq!(db.blocks[0].fee, 40);
    assert_eq!(db.get_utxos(), vec![(1, 60)]);
    assert_eq!(db.get_total_transparent_value().unwrap(), 60);
}

type StoredTree = (Option<[u8; 32]>, Option<[u8; 32]>, Vec<Option<[u8; 32]>>);

fn stored_witness(tree: StoredTree, filled: Vec<[u8; 32]>, cursor: Option<StoredTree>) -> Vec<u8> {
    bincode::serialize(&(tree, filled, cursor)).unwrap()
}

#[test]
fn stored_witnesses_that_would_stop_the_tree_code_are_reported() {
    let leaf = [0u8; 32];
    let note = Note { recipient: [1; 43], value: 4, rho: [2; 32], rseed: [3; 32] };
    let many_filled = stored_witness((Some(leaf), None, vec![]), vec![leaf; 256], None);
    let full_cursor = stored_witness(
        (Some(leaf), Some(leaf), vec![]),
        vec![],
        Some((Some(leaf), Some(leaf), vec![Some(leaf); 31])),
    );
    let cursor_at_the_leaves = stored_witness((Some(leaf), None, vec![]), vec![], Some((Some(leaf), None, vec![])));
    let no_left = stored_witness((None, None, vec![]), vec![leaf], None);
    let bad_tag = {
        let mut bytes = stored_witness((Some(leaf), None, vec![]), vec![], None);
        bytes[0] = 2;
        bytes
    };
    let cursor_above_the_tree = stored_witness(
        (Some(leaf), Some(leaf), vec![Some(leaf)]),
        vec![leaf; 32],
        Some((Some(leaf), None, vec![])),
    );
    let cursor_at_the_root = stored_witness(
        (Some(leaf), Some(leaf), vec![]),
        vec![leaf; 31],
        Some((Some(leaf), None, vec![])),
    );
    let tall_tree = stored_witness((Some(leaf), None, vec![None; 32]), vec![], None);
    let blobs = [
        many_filled,
        full_cursor,
        cursor_at_the_leaves,
        cursor_above_the_tree,
        cursor_at_the_root,
        tall_tree,
        no_left,
        bad_tag,
        vec![],
        vec![1],
    ];
    for blob in blobs.iter() {
        assert!(!zcash_sidechain::witness::check_stored_witness(blob));
        let mut db = Db::new();
        db.store_note(&note, blob);
        assert!(matches!(db.get_note(1), Err(Error::Serialization(_))));
        db.shielded_inputs.push(1);
        assert!(matches!(db.bundle_request(), Err(Error::Serialization(_))));
        assert!(matches!(db.submit_transaction(), Err(Error::Serialization(_))));
        assert!(db.transactions.is_empty());
        assert_eq!(db.get_shielded_inputs(), vec![1]);
    }

    let good = stored_witness((Some(leaf), Some(leaf), vec![None, Some(leaf)]), vec![leaf], Some((Some(leaf), None, vec![])));
    assert!(zcash_sidechain::witness::check_stored_witness(&good));
    let read = zcash_sidechain::witness::Witness::from_stored(&good).unwrap();
    assert_eq!(read.tree.left, Some(leaf));
    assert_eq!(read.tree.parents, vec![None, Some(leaf)]);
    assert_eq!(read.filled, vec![leaf]);
    let cursor = read.cursor.as_ref().unwrap();
    assert_eq!((cursor.left, cursor.right, cursor.parents.len()), (Some(leaf), None, 0));
    assert!(read.is_well_formed());
    let mut db = Db::new();
    db.store_note(&note, &good);
    let (_, position, path) = db.get_note(1).unwrap();
    assert_eq!(position, 5);
    assert_eq!(path.len(), 32);

    let highest_cursor = stored_witness(
        (Some(leaf), Some(leaf), vec![]),
        vec![leaf; 30],
        Some((Some(leaf), None, vec![])),
    );
    let read = zcash_sidechain::witness::Witness::from_stored(&highest_cursor).unwrap();
    assert!(read.is_well_formed());
    let mut db = Db::new();
    db.store_note(&note, &highest_cursor);
    let (_, position, path) = db.get_note(1).unwrap();
    assert_eq!(position, 1);
    assert_eq!(path.len(), 32);
}

#[test]
fn what_a_bundle_is_built_from() {
    let mut db = Db::new();
    mine_shielding_block(&mut db, 90, 10);
    db.spend_note(1).unwrap();
    db.create_note(None, 40).unwrap();
    db.create_note(None, 50).unwrap();
    let request = db.bundle_request().unwrap();
    assert_eq!(request.anchor, db.get_bundle_anchor().unwrap());
    assert_eq!(request.spends.len(), 1);
    assert_eq!(request.spends[0].fvk, db.get_fvk().unwrap());
    assert_eq!(request.spends[0].note.value, 90);
    let (_, position, path) = db.get_note(1).unwrap();
    assert_eq!(request.spends[0].position, position);
    assert_eq!(request.spends[0].path, path);
    assert_eq!(request.outputs.len(), 2);
    assert_eq!((request.outputs[0].value, request.outputs[1].value), (40, 50));
    assert_eq!(request.outputs[0].recipient, db.addresses[1]);

    db.shielded_inputs.push(7);
    assert!(matches!(db.bundle_request(), Err(Error::State(_))));
    assert!(matches!(db.submit_transaction(), Err(Error::State(_))));
    assert!(db.transactions.is_empty());
    assert_eq!(db.get_shielded_inputs(), vec![1, 7]);
    assert_eq!(db.get_shielded_outputs().len(), 2);
    db.shielded_inputs.pop();
    db.wallet_seed = None;
    assert!(matches!(db.submit_transaction(), Err(Error::State(_))));
    assert!(db.transactions.is_empty());
}

#[test]
fn a_submitted_bundle_spends_and_creates_what_was_staged() {
    let mut db = Db::new();
    mine_shielding_block(&mut db, 90, 10);
    for _ in 0..3 {
        mine_transparent_block(&mut db, 5);
    }
    db.spend_note(1).unwrap();
    db.create_note(None, 60).unwrap();
    db.submit_transaction().unwrap();
    let tx = Transaction::from_body(&db.transactions[0]).unwrap();
    assert_eq!(tx.value_balance_orchard, 30);
    assert_eq!(tx.actions.len(), 2);
    assert!(tx.actions.iter().all(|a| a.enc_ciphertext.len() == 580 && a.out_ciphertext.len() == 80));
    db.mine().unwrap();
    assert_eq!(db.blocks.last().unwrap().fee, 30);
    assert_eq!(db.get_wallet_notes().unwrap().len(), 2);
    assert_eq!(db.get_wallet_notes().unwrap()[1].1.value, 60);
}

#[test]
fn a_bundle_has_an_action_for_each_output_and_two_at_least() {
    let mut db = Db::new();
    db.conjure_utxo(100).unwrap();
    db.mine().unwrap();
    db.spend_utxo(1).unwrap();
    for value in [10u64, 20, 30] {
        db.create_note(None, value).unwrap();
    }
    db.submit_transaction().unwrap();
    let tx = Transaction::from_body(&db.transactions[0]).unwrap();
    assert_eq!(tx.actions.len(), 3);
    assert_eq!(tx.value_balance_orchard, -60);
    db.mine().unwrap();
    assert_eq!(db.blocks.last().unwrap().fee, 40);
    assert_eq!(db.get_total_shielded_value().unwrap(), 60);

    db.create_note(None, 0).unwrap();
    db.submit_transaction().unwrap();
    let tx = Transaction::from_body(&db.transactions[0]).unwrap();
    assert_eq!(tx.actions.len(), 2);
    assert_eq!(tx.value_balance_orchard, 0);
}

#[test]
fn the_wallet_reads_with_its_own_key_only() {
    let mut db = Db::new();
    mine_shielding_block(&mut db, 90, 10);
    let block = Block::from_body(&db.blocks[0].body).unwrap();
    assert_eq!(db.get_notes(&block).unwrap().len(), 1);
    let other = Db::new();
    assert_ne!(other.get_fvk().unwrap(), db.get_fvk().unwrap());
    assert!(other.get_notes(&block).unwrap().is_empty());
}

#[test]
fn a_witness_is_held_against_the_root_of_its_frontier() {
    let mut db = Db::new();
    mine_shielding_block(&mut db, 90, 10);
    let frontier = db.blocks[0].frontier.clone();
    assert!(frontier.is_some());
    assert!(zcash_sidechain::connect::all_sound(&frontier, &db.notes));
    assert!(zcash_sidechain::connect::all_sound(&None, &vec![]));
    assert!(!zcash_sidechain::connect::all_sound(&None, &db.notes));

    let mut other = Db::new();
    mine_shielding_block(&mut other, 50, 1);
    let elsewhere = other.blocks[0].frontier.clone();
    assert!(!zcash_sidechain::connect::all_sound(&elsewhere, &db.notes));
    assert!(!zcash_sidechain::connect::all_sound(&Some(vec![1, 2, 3]), &db.notes));

    let mut broken = db.notes.clone();
    broken[0].witness = vec![7; 9];
    assert!(!zcash_sidechain::connect::all_sound(&frontier, &broken));

    // A second block: the first note keeps the witness of its block, the
    // second gets one that leads to the root of the second frontier.
    mine_shielding_block(&mut db, 20, 2);
    assert_eq!(db.notes.len(), 2);
    let second = db.blocks[1].frontier.clone();
    assert!(zcash_sidechain::connect::all_sound(&frontier, &db.notes[..1].to_vec()));
    assert!(zcash_sidechain::connect::all_sound(&second, &db.notes[1..].to_vec()));
    assert!(!zcash_sidechain::connect::all_sound(&second, &db.notes[..1].to_vec()));
}

#[test]
fn no_address_is_handed_out_twice() {
    let mut wallet = Db::new();
    let first = wallet.get_new_address().unwrap();
    let second = wallet.get_new_address().unwrap();
    assert_ne!(first, second);
    assert_eq!(wallet.addresses, vec![first, second]);
    assert!(zcash_sidechain::wallet::handed_out(&wallet.addresses, &second));
    assert!(!zcash_sidechain::wallet::handed_out(&wallet.addresses, &[0; 43]));

    // A store that already lists the address of the next index.
    let mut other = Db::empty();
    other.wallet_seed = wallet.wallet_seed.clone();
    other.addresses.push(second);
    assert!(matches!(other.get_new_address(), Err(Error::Crypto(_))));
    assert_eq!(other.addresses, vec![second]);
    assert!(matches!(other.create_note(None, 5), Err(Error::Crypto(_))));
    assert!(other.get_shielded_outputs().is_empty());
}
