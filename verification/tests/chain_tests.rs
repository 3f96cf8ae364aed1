use blake2::{Blake2b512, Digest};
use zcash_sidechain::address::{Address, AddressType, KeyPair};
use zcash_sidechain::block::Block;
use zcash_sidechain::database::{BlockRecord, Database, NullifierRecord, TransactionRecord};
use zcash_sidechain::error::Error;
use zcash_sidechain::merkle::{MerklePath, MerkleTreeManager};
use zcash_sidechain::nullifier::NullifierSet;
use zcash_sidechain::transaction::{
    ShieldedNote, Transaction, TransactionType, TransparentInput, TransparentOutput,
};
use zcash_sidechain::ChainState;

fn create_test_db() -> Result<Database, Error> {
    let db = Database::new("chain.db3")?;
    db.initialize()?;
    Ok(db)
}

fn digest(data: &[u8]) -> Vec<u8> {
    Blake2b512::digest(data).to_vec()
}

fn note(seed: u8) -> ShieldedNote {
    ShieldedNote {
        commitment: vec![seed; 32],
        ephemeral_key: vec![seed; 32],
        amount: vec![seed; 32],
        memo: None,
    }
}

fn transparent_address(seed: u8) -> Address {
    Address { address_type: AddressType::Transparent, data: vec![seed; 64] }
}

fn shielded_address(seed: u8) -> Address {
    Address { address_type: AddressType::Shielded, data: vec![seed; 64] }
}

fn block_row(height: i64, seed: u8) -> BlockRecord {
    BlockRecord {
        height,
        hash: vec![seed; 32],
        parent_hash: vec![0u8; 32],
        timestamp: 0,
        merkle_root: vec![0u8; 32],
        active: true,
    }
}

fn transaction_row(height: i64, seed: u8) -> TransactionRecord {
    TransactionRecord {
        tx_hash: vec![seed; 32],
        block_height: height,
        tx_type: TransactionType::Transparent,
        raw_data: vec![0u8; 32],
        proof_data: None,
    }
}

#[test]
fn test_key_pair_generation() -> Result<(), Error> {
    let t_keys = KeyPair::generate(AddressType::Transparent)?;
    assert_eq!(t_keys.key_type, AddressType::Transparent);
    assert_eq!(t_keys.private_key.len(), 32);
    assert!(!t_keys.public_key.is_empty());

    let z_keys = KeyPair::generate(AddressType::Shielded)?;
    assert_eq!(z_keys.key_type, AddressType::Shielded);
    assert_eq!(z_keys.private_key.len(), 32);
    assert!(!z_keys.public_key.is_empty());

    Ok(())
}

#[test]
fn test_address_creation() -> Result<(), Error> {
    let key_pair = KeyPair::generate(AddressType::Transparent)?;
    let address = Address::from_key_pair(&key_pair)?;
    assert_eq!(address.address_type, AddressType::Transparent);
    assert!(!address.data.is_empty());

    let addr_str = address.to_string();
    assert!(addr_str.starts_with("t1"));

    let parsed = Address::from_string(&addr_str)?;
    assert_eq!(parsed.address_type, address.address_type);
    assert_eq!(parsed.data, address.data);

    Ok(())
}

#[test]
fn test_invalid_address_parsing() {
    assert!(Address::from_string("invalid").is_err());
    assert!(Address::from_string("x1abcd").is_err());
    assert!(Address::from_string("t1").is_err());
    assert!(Address::from_string("t1invalid_hex").is_err());
}

#[test]
fn key_pairs_are_fresh_and_public_key_is_the_digest() {
    let a = KeyPair::generate(AddressType::Transparent).unwrap();
    let b = KeyPair::generate(AddressType::Transparent).unwrap();
    assert_ne!(a.private_key, b.private_key);
    assert_ne!(a.private_key, vec![0u8; 32]);
    assert_eq!(a.public_key, digest(&a.private_key));
    assert_eq!(a.public_key.len(), 64);
}

#[test]
fn address_is_the_digest_of_key_and_prefix() {
    let key = KeyPair { key_type: AddressType::Shielded, private_key: vec![1; 32], public_key: vec![2; 64] };
    let address = Address::from_key_pair(&key).unwrap();
    let mut material = vec![2u8; 64];
    material.extend_from_slice(b"z1");
    assert_eq!(address.data, digest(&material));
    assert_eq!(address.address_type, AddressType::Shielded);

    let key = KeyPair { key_type: AddressType::Transparent, private_key: vec![1; 32], public_key: vec![2; 64] };
    let address = Address::from_key_pair(&key).unwrap();
    let mut material = vec![2u8; 64];
    material.extend_from_slice(b"t1");
    assert_eq!(address.data, digest(&material));
}

#[test]
fn address_text_is_prefix_and_hex() {
    let address = Address { address_type: AddressType::Transparent, data: vec![0x00, 0xab, 0xff] };
    assert_eq!(address.to_string(), "t100abff");
    let address = Address { address_type: AddressType::Shielded, data: vec![0x12] };
    assert_eq!(address.to_string(), "z112");

    let parsed = Address::from_string("z1C0ffee").unwrap();
    assert_eq!(parsed.address_type, AddressType::Shielded);
    assert_eq!(parsed.data, vec![0xc0, 0xff, 0xee]);
    let copy = parsed.duplicate();
    assert_eq!(copy.data, parsed.data);
    assert_eq!(copy.address_type, parsed.address_type);
}

#[test]
fn address_parsing_reports_invalid_address() {
    for text in ["", "t", "t1", "z1", "x1abcd", "t1abc", "t1zz", "T1ab", "\u{e9}\u{e9}"] {
        match Address::from_string(text) {
            Err(Error::InvalidAddress(_)) => {}
            other => panic!("{:?} for {:?}", other, text),
        }
    }
}

#[test]
fn type_names() {
    assert_eq!(AddressType::Transparent.to_string(), "t-addr");
    assert_eq!(AddressType::Shielded.to_string(), "z-addr");
    assert_eq!(TransactionType::Deposit.to_string(), "deposit");
    assert_eq!(TransactionType::Transparent.to_string(), "transparent");
    assert_eq!(TransactionType::Shield.to_string(), "shield");
    assert_eq!(TransactionType::ShieldToShield.to_string(), "shield_to_shield");
    assert_eq!(TransactionType::Deshield.to_string(), "deshield");
}

#[test]
fn test_block_creation_and_validation() -> Result<(), Error> {
    let mut db = create_test_db()?;

    let genesis = Block::new(0, vec![0; 32], db.get_current_timestamp(), Vec::new())?;
    assert!(genesis.validate(&db)?);
    genesis.connect(&mut db)?;

    let block = Block::new(1, genesis.hash.clone(), db.get_current_timestamp(), Vec::new())?;
    assert!(block.validate(&db)?);

    Ok(())
}

#[test]
fn test_block_connection_and_disconnection() -> Result<(), Error> {
    let mut db = create_test_db()?;

    let genesis = Block::new(0, vec![0; 32], db.get_current_timestamp(), Vec::new())?;
    genesis.connect(&mut db)?;

    let block1 = Block::new(1, genesis.hash.clone(), db.get_current_timestamp(), Vec::new())?;
    block1.connect(&mut db)?;

    assert_eq!(db.get_chain_height()?, 1);

    block1.disconnect(&mut db)?;

    assert_eq!(db.get_chain_height()?, 0);

    Ok(())
}

#[test]
fn test_database_initialization() -> Result<(), Error> {
    let db = create_test_db()?;
    let height = db.get_chain_height()?;
    assert_eq!(height, -1);
    Ok(())
}

#[test]
fn test_nullifier_operations() -> Result<(), Error> {
    let mut db = create_test_db()?;
    let nullifier = vec![1u8; 32];

    assert!(!db.has_nullifier(&nullifier)?);

    db.blocks.push(BlockRecord {
        height: 0,
        hash: vec![0u8; 32],
        parent_hash: vec![0u8; 32],
        timestamp: db.get_current_timestamp(),
        merkle_root: vec![0u8; 32],
        active: true,
    });
    db.transactions.push(transaction_row(0, 0));
    db.nullifier_set.push(NullifierRecord {
        nullifier: nullifier.clone(),
        block_height: 0,
        tx_hash: vec![0u8; 32],
    });

    assert!(db.has_nullifier(&nullifier)?);

    Ok(())
}

#[test]
fn test_chain_state_initialization() -> Result<(), Error> {
    let chain_state = ChainState::initialize("chain.db3")?;
    assert_eq!(chain_state.database().get_chain_height()?, -1);
    assert_eq!(chain_state.database().path, "chain.db3");
    assert!(chain_state.database().merkle_tree.is_empty());
    let other = ChainState::new(Database::new("other.db3")?);
    assert!(other.database().blocks.is_empty());
    Ok(())
}

#[test]
fn test_nullifier_set_operations() -> Result<(), Error> {
    let mut db = create_test_db()?;
    let mut nullifier_set = NullifierSet::new();

    db.blocks.push(block_row(0, 0));
    db.transactions.push(transaction_row(0, 0));

    nullifier_set.initialize(&db)?;

    let nullifier1 = vec![1u8; 32];
    nullifier_set.add(&mut db, nullifier1.clone(), 0, &vec![0u8; 32])?;
    assert!(nullifier_set.contains(&nullifier1));

    let result = nullifier_set.add(&mut db, nullifier1.clone(), 0, &vec![0u8; 32]);
    assert!(result.is_err());

    nullifier_set.remove(&mut db, &nullifier1)?;
    assert!(!nullifier_set.contains(&nullifier1));

    Ok(())
}

#[test]
fn test_nullifier_set_revert() -> Result<(), Error> {
    let mut db = create_test_db()?;
    let mut nullifier_set = NullifierSet::new();

    for i in 0..2 {
        db.blocks.push(block_row(i, i as u8));
        db.transactions.push(transaction_row(i, i as u8));
    }

    nullifier_set.initialize(&db)?;

    let nullifier1 = vec![1u8; 32];
    let nullifier2 = vec![2u8; 32];

    nullifier_set.add(&mut db, nullifier1.clone(), 0, &vec![0u8; 32])?;
    nullifier_set.add(&mut db, nullifier2.clone(), 1, &vec![0u8; 32])?;

    assert!(nullifier_set.contains(&nullifier1));
    assert!(nullifier_set.contains(&nullifier2));

    nullifier_set.revert(&mut db, 1)?;

    assert!(nullifier_set.contains(&nullifier1));
    assert!(!nullifier_set.contains(&nullifier2));

    Ok(())
}

#[test]
fn nullifier_set_follows_the_store() -> Result<(), Error> {
    let mut db = create_test_db()?;
    let mut set = NullifierSet::new();
    assert!(!set.contains(&[1u8; 32]));
    set.add(&mut db, vec![1u8; 32], 0, &[9u8; 4])?;
    set.add(&mut db, vec![2u8; 32], 1, &[9u8; 4])?;
    set.add(&mut db, vec![3u8; 32], 2, &[8u8; 4])?;
    assert_eq!(db.nullifier_set.len(), 3);
    assert_eq!(db.nullifier_set[1].nullifier, vec![2u8; 32]);
    assert_eq!(db.nullifier_set[1].block_height, 1);
    assert_eq!(db.nullifier_set[1].tx_hash, vec![9u8; 4]);
    match set.add(&mut db, vec![2u8; 32], 5, &[7u8; 4]) {
        Err(Error::Nullifier(_)) => {}
        other => panic!("{:?}", other),
    }
    assert_eq!(db.nullifier_set.len(), 3);

    assert_eq!(set.get_block_nullifiers(&db, 1)?, vec![vec![2u8; 32]]);
    assert!(set.get_block_nullifiers(&db, 7)?.is_empty());

    let mut fresh = NullifierSet::new();
    fresh.initialize(&db)?;
    assert!(fresh.contains(&[1u8; 32]) && fresh.contains(&[2u8; 32]) && fresh.contains(&[3u8; 32]));
    assert!(!fresh.contains(&[4u8; 32]));

    set.revert(&mut db, 1)?;
    assert_eq!(db.nullifier_set.len(), 1);
    assert!(set.contains(&[1u8; 32]));
    assert!(!set.contains(&[2u8; 32]));
    assert!(!set.contains(&[3u8; 32]));
    for nf in [[1u8; 32], [2u8; 32], [3u8; 32]] {
        assert_eq!(set.contains(&nf), db.has_nullifier(&nf)?);
    }
    set.reload(&db)?;
    assert!(set.contains(&[1u8; 32]));
    assert!(!set.contains(&[3u8; 32]));

    set.remove(&mut db, &[1u8; 32])?;
    assert!(db.nullifier_set.is_empty());
    assert!(!db.has_nullifier(&[1u8; 32])?);
    Ok(())
}

#[test]
fn test_deposit_transaction() -> Result<(), Error> {
    let db = create_test_db()?;

    let key_pair = KeyPair::generate(AddressType::Transparent)?;
    let address = Address::from_key_pair(&key_pair)?;

    let tx = Transaction::new_deposit(address, 1000)?;

    assert!(tx.validate(&db)?);

    Ok(())
}

#[test]
fn test_transaction_connection() -> Result<(), Error> {
    let mut db = create_test_db()?;

    let key_pair = KeyPair::generate(AddressType::Transparent)?;
    let address = Address::from_key_pair(&key_pair)?;
    let tx = Transaction::new_deposit(address, 1000)?;

    db.blocks.push(BlockRecord {
        height: 0,
        hash: vec![0u8; 32],
        parent_hash: vec![0u8; 32],
        timestamp: db.get_current_timestamp(),
        merkle_root: vec![0u8; 32],
        active: true,
    });

    tx.connect(&mut db, 0)?;

    Ok(())
}

#[test]
fn constructors_refuse_shielded_addresses() {
    assert!(matches!(
        Transaction::new_deposit(shielded_address(1), 5),
        Err(Error::InvalidTransaction(_))
    ));
    let input = |a: Address| TransparentInput { output_id: vec![1], address: a, amount: 5, signature: vec![] };
    assert!(matches!(
        Transaction::new_transparent(vec![input(shielded_address(1))], vec![]),
        Err(Error::InvalidTransaction(_))
    ));
    assert!(matches!(
        Transaction::new_transparent(
            vec![input(transparent_address(1))],
            vec![TransparentOutput { address: shielded_address(2), amount: 5 }]
        ),
        Err(Error::InvalidTransaction(_))
    ));
    assert!(matches!(
        Transaction::new_shield(input(shielded_address(1)), note(1)),
        Err(Error::InvalidTransaction(_))
    ));
    assert!(matches!(
        Transaction::new_deshield(
            note(1),
            TransparentOutput { address: shielded_address(2), amount: 5 },
            vec![1],
            vec![2]
        ),
        Err(Error::InvalidTransaction(_))
    ));
}

#[test]
fn constructors_fill_the_fields_of_their_kind() {
    let tx = Transaction::new_deposit(transparent_address(1), 1000).unwrap();
    assert_eq!(tx.tx_type, TransactionType::Deposit);
    assert_eq!(tx.transparent_outputs.len(), 1);
    assert_eq!(tx.transparent_outputs[0].amount, 1000);
    assert!(tx.transparent_inputs.is_empty() && tx.shielded_inputs.is_empty());
    assert!(tx.shielded_outputs.is_empty() && tx.nullifiers.is_empty() && tx.proof.is_none());
    assert!(tx.get_nullifiers().is_empty());

    let tx = Transaction::new_shield_to_shield(note(1), note(2), vec![7; 32], vec![8; 4]).unwrap();
    assert_eq!(tx.tx_type, TransactionType::ShieldToShield);
    assert_eq!(tx.shielded_inputs[0].commitment, vec![1; 32]);
    assert_eq!(tx.shielded_outputs[0].commitment, vec![2; 32]);
    assert_eq!(tx.get_nullifiers().to_vec(), vec![vec![7u8; 32]]);
    assert_eq!(tx.proof, Some(vec![8; 4]));

    let tx = Transaction::new_deshield(
        note(1),
        TransparentOutput { address: transparent_address(3), amount: 300 },
        vec![4; 32],
        vec![5; 32],
    )
    .unwrap();
    assert_eq!(tx.tx_type, TransactionType::Deshield);
    assert_eq!(tx.transparent_outputs[0].amount, 300);
    assert_eq!(tx.nullifiers, vec![vec![4u8; 32]]);

    let input = TransparentInput { output_id: vec![9], address: transparent_address(1), amount: 5, signature: vec![1] };
    let tx = Transaction::new_shield(input, note(6)).unwrap();
    assert_eq!(tx.tx_type, TransactionType::Shield);
    assert_eq!(tx.transparent_inputs[0].output_id, vec![9]);
    assert_eq!(tx.shielded_outputs[0].commitment, vec![6; 32]);
    assert!(tx.proof.is_none());
}

#[test]
fn validation_follows_the_rules_of_each_kind() -> Result<(), Error> {
    let mut db = create_test_db()?;
    let deposit = Transaction::new_deposit(transparent_address(1), 1000)?;
    deposit.connect(&mut db, 0)?;
    let hash = deposit.calculate_hash()?;
    let output_id = digest(&hash);
    assert_eq!(db.transparent_outputs.len(), 1);
    assert_eq!(db.transparent_outputs[0].output_id, output_id);
    assert!(db.has_unspent_output(&output_id));
    assert!(!db.has_unspent_output(&[1, 2, 3]));

    let input = |id: Vec<u8>, amount: u64| TransparentInput {
        output_id: id,
        address: transparent_address(1),
        amount,
        signature: vec![],
    };
    let output = |amount: u64| TransparentOutput { address: transparent_address(2), amount };

    let good = Transaction::new_transparent(vec![input(output_id.clone(), 1000)], vec![output(400), output(600)])?;
    assert!(good.validate(&db)?);
    let unbalanced = Transaction::new_transparent(vec![input(output_id.clone(), 1000)], vec![output(500)])?;
    assert!(!unbalanced.validate(&db)?);
    let unknown = Transaction::new_transparent(vec![input(vec![1, 2, 3], 1000)], vec![output(1000)])?;
    assert!(!unknown.validate(&db)?);
    let large = Transaction::new_transparent(
        vec![input(output_id.clone(), u64::MAX), input(output_id.clone(), 2)],
        vec![output(1)],
    )?;
    assert!(!large.validate(&db)?);

    let shield = Transaction::new_shield(input(output_id.clone(), 1000), note(1))?;
    assert!(shield.validate(&db)?);
    let mut empty_proof = Transaction::new_shield(input(output_id.clone(), 1000), note(1))?;
    empty_proof.proof = Some(vec![]);
    assert!(!empty_proof.validate(&db)?);
    let shield_unknown = Transaction::new_shield(input(vec![4], 1000), note(1))?;
    assert!(!shield_unknown.validate(&db)?);

    let transfer = Transaction::new_shield_to_shield(note(1), note(2), vec![2; 32], vec![3; 32])?;
    assert!(transfer.validate(&db)?);
    let no_proof = Transaction::new_shield_to_shield(note(1), note(2), vec![2; 32], vec![])?;
    assert!(!no_proof.validate(&db)?);

    let deshield = Transaction::new_deshield(note(1), output(300), vec![4; 32], vec![5; 32])?;
    assert!(deshield.validate(&db)?);
    let mut two = Transaction::new_deshield(note(1), output(300), vec![4; 32], vec![5; 32])?;
    two.nullifiers.push(vec![6; 32]);
    assert!(!two.validate(&db)?);

    let mut odd = Transaction::new_deposit(transparent_address(1), 5)?;
    odd.transparent_outputs.push(output(1));
    assert!(!odd.validate(&db)?);
    Ok(())
}

#[test]
fn transaction_hash_is_the_digest_of_its_bytes() -> Result<(), Error> {
    let tx = Transaction::new_shield_to_shield(note(1), note(2), vec![7; 2], vec![8; 3])?;
    let raw = tx.raw_data();
    assert_eq!(tx.calculate_hash()?, digest(&raw));
    let mut expected: Vec<u8> = vec![3];
    expected.extend_from_slice(&[0u8; 8]);
    expected.extend_from_slice(&[0u8; 8]);
    for seed in [1u8, 2u8] {
        expected.extend_from_slice(&[1, 0, 0, 0, 0, 0, 0, 0]);
        for _ in 0..3 {
            expected.extend_from_slice(&[32, 0, 0, 0, 0, 0, 0, 0]);
            expected.extend_from_slice(&[seed; 32]);
        }
        expected.push(0);
    }
    expected.extend_from_slice(&[1, 0, 0, 0, 0, 0, 0, 0]);
    expected.extend_from_slice(&[2, 0, 0, 0, 0, 0, 0, 0, 7, 7]);
    expected.push(1);
    expected.extend_from_slice(&[3, 0, 0, 0, 0, 0, 0, 0, 8, 8, 8]);
    assert_eq!(raw, expected);

    let deposit = Transaction::new_deposit(transparent_address(5), 258)?;
    let mut expected: Vec<u8> = vec![0];
    expected.extend_from_slice(&[0u8; 8]);
    expected.extend_from_slice(&[1, 0, 0, 0, 0, 0, 0, 0]);
    expected.push(0);
    expected.extend_from_slice(&[64, 0, 0, 0, 0, 0, 0, 0]);
    expected.extend_from_slice(&[5u8; 64]);
    expected.extend_from_slice(&[2, 1, 0, 0, 0, 0, 0, 0]);
    expected.extend_from_slice(&[0u8; 8]);
    expected.extend_from_slice(&[0u8; 8]);
    expected.extend_from_slice(&[0u8; 8]);
    expected.push(0);
    assert_eq!(deposit.raw_data(), expected);
    Ok(())
}

#[test]
fn connecting_and_disconnecting_a_transaction() -> Result<(), Error> {
    let mut db = create_test_db()?;
    let other = Transaction::new_deposit(transparent_address(9), 1)?;
    other.connect(&mut db, 0)?;

    let mut tx = Transaction::new_deshield(
        note(1),
        TransparentOutput { address: transparent_address(3), amount: 300 },
        vec![4; 32],
        vec![5; 32],
    )?;
    tx.shielded_outputs.push(note(7));
    tx.shielded_outputs.push(note(8));
    tx.connect(&mut db, 3)?;
    let hash = tx.calculate_hash()?;

    assert_eq!(db.transactions.len(), 2);
    assert_eq!(db.transactions[1].tx_hash, hash);
    assert_eq!(db.transactions[1].block_height, 3);
    assert_eq!(db.transactions[1].tx_type, TransactionType::Deshield);
    assert_eq!(db.transactions[1].raw_data, tx.raw_data());
    assert_eq!(db.transactions[1].proof_data, Some(vec![5; 32]));
    assert_eq!(db.transparent_outputs.len(), 2);
    assert_eq!(db.transparent_outputs[1].output_id, digest(&hash));
    assert_eq!(db.transparent_outputs[1].amount, 300);
    assert!(!db.transparent_outputs[1].spent);
    assert_eq!(db.shielded_notes.len(), 2);
    assert_eq!(db.shielded_notes[0].merkle_position, 0);
    assert_eq!(db.shielded_notes[1].merkle_position, 1);
    assert_eq!(db.shielded_notes[1].note.commitment, vec![8; 32]);
    assert_eq!(db.shielded_notes[1].block_height, 3);
    assert_eq!(db.nullifier_set.len(), 1);
    assert_eq!(db.nullifier_set[0].nullifier, vec![4; 32]);
    assert!(db.has_nullifier(&[4; 32])?);

    tx.disconnect(&mut db)?;
    assert_eq!(db.transactions.len(), 1);
    assert_eq!(db.transactions[0].tx_hash, other.calculate_hash()?);
    assert_eq!(db.transparent_outputs.len(), 1);
    assert!(db.shielded_notes.is_empty());
    assert!(db.nullifier_set.is_empty());
    Ok(())
}

#[test]
fn block_header_and_root() -> Result<(), Error> {
    let empty = Block::new(0, vec![0; 32], 17, Vec::new())?;
    assert_eq!(empty.merkle_root, vec![0u8; 32]);
    let mut header = Vec::new();
    header.extend_from_slice(&0i64.to_le_bytes());
    header.extend_from_slice(&[0u8; 32]);
    header.extend_from_slice(&17i64.to_le_bytes());
    header.extend_from_slice(&[0u8; 32]);
    assert_eq!(empty.hash, digest(&header));
    assert_eq!(empty.calculate_hash()?, empty.hash);

    let txs = || -> Vec<Transaction> {
        vec![
            Transaction::new_deposit(transparent_address(1), 1).unwrap(),
            Transaction::new_deposit(transparent_address(2), 2).unwrap(),
            Transaction::new_deposit(transparent_address(3), 3).unwrap(),
        ]
    };
    let hashes: Vec<Vec<u8>> = txs().iter().map(|t| t.calculate_hash().unwrap()).collect();
    let pair = |a: &Vec<u8>, b: &Vec<u8>| {
        let mut m = a.clone();
        m.extend_from_slice(b);
        digest(&m)
    };
    let expected = pair(&pair(&hashes[0], &hashes[1]), &pair(&hashes[2], &hashes[2]));
    assert_eq!(Block::calculate_merkle_root(&txs())?, expected);

    let one = vec![Transaction::new_deposit(transparent_address(1), 1)?];
    assert_eq!(Block::calculate_merkle_root(&one)?, hashes[0]);

    let block = Block::new(-5, vec![9; 3], -1, txs())?;
    let mut header = Vec::new();
    header.extend_from_slice(&(-5i64).to_le_bytes());
    header.extend_from_slice(&[9u8; 3]);
    header.extend_from_slice(&(-1i64).to_le_bytes());
    header.extend_from_slice(&expected);
    assert_eq!(block.hash, digest(&header));
    Ok(())
}

#[test]
fn block_validation_rules() -> Result<(), Error> {
    let mut db = create_test_db()?;
    let genesis = Block::new(0, vec![0; 32], 1, Vec::new())?;
    genesis.connect(&mut db)?;
    assert_eq!(db.blocks.len(), 1);
    assert!(db.has_block(&genesis.hash, 0));
    assert!(!db.has_block(&genesis.hash, 1));

    let orphan = Block::new(1, vec![1; 32], 2, Vec::new())?;
    assert!(!orphan.validate(&db)?);
    let too_high = Block::new(2, genesis.hash.clone(), 2, Vec::new())?;
    assert!(!too_high.validate(&db)?);

    let mut forged = Block::new(1, genesis.hash.clone(), 2, Vec::new())?;
    forged.hash[0] ^= 1;
    assert!(!forged.validate(&db)?);
    let mut wrong_root = Block::new(1, genesis.hash.clone(), 2, Vec::new())?;
    wrong_root.merkle_root = vec![1; 32];
    wrong_root.hash = wrong_root.calculate_hash()?;
    assert!(!wrong_root.validate(&db)?);

    let spend = |nf: u8| Transaction::new_shield_to_shield(note(1), note(2), vec![nf; 32], vec![3; 32]).unwrap();
    let fine = Block::new(1, genesis.hash.clone(), 2, vec![spend(1), spend(2)])?;
    assert!(fine.validate(&db)?);
    let twice = Block::new(1, genesis.hash.clone(), 2, vec![spend(1), spend(2), spend(1)])?;
    assert!(!twice.validate(&db)?);
    let invalid_tx = Block::new(
        1,
        genesis.hash.clone(),
        2,
        vec![Transaction::new_shield_to_shield(note(1), note(2), vec![1; 32], vec![]).unwrap()],
    )?;
    assert!(!invalid_tx.validate(&db)?);

    fine.connect(&mut db)?;
    assert_eq!(db.get_chain_height()?, 1);
    assert_eq!(db.nullifier_set.len(), 2);
    assert_eq!(db.transactions.len(), 2);
    assert_eq!(db.shielded_notes.len(), 2);
    let again = Block::new(2, fine.hash.clone(), 3, vec![spend(2)])?;
    assert!(!again.validate(&db)?);
    let next = Block::new(2, fine.hash.clone(), 3, vec![spend(3)])?;
    assert!(next.validate(&db)?);

    fine.disconnect(&mut db)?;
    assert_eq!(db.get_chain_height()?, 0);
    assert!(db.nullifier_set.is_empty());
    assert!(db.transactions.is_empty());
    assert!(db.shielded_notes.is_empty());
    assert_eq!(db.blocks.len(), 2);
    assert!(db.blocks[0].active);
    assert!(!db.blocks[1].active);
    Ok(())
}

#[test]
fn chain_height_is_the_greatest_active_height() -> Result<(), Error> {
    let mut db = create_test_db()?;
    db.blocks.push(block_row(5, 1));
    db.blocks.push(block_row(2, 2));
    assert_eq!(db.get_chain_height()?, 5);
    db.blocks[0].active = false;
    assert_eq!(db.get_chain_height()?, 2);
    db.blocks[1].active = false;
    assert_eq!(db.get_chain_height()?, -1);
    db.blocks.push(block_row(-7, 3));
    assert_eq!(db.get_chain_height()?, -7);
    assert!(db.get_current_timestamp() > 1_600_000_000);
    Ok(())
}

#[test]
fn merkle_paths_lead_to_their_root() -> Result<(), Error> {
    let manager = MerkleTreeManager::new();
    let leaf = vec![1u8; 32];
    let s0 = vec![2u8; 32];
    let s1 = vec![3u8; 32];
    let cat = |a: &[u8], b: &[u8]| {
        let mut m = a.to_vec();
        m.extend_from_slice(b);
        digest(&m)
    };
    assert_eq!(manager.combine_hashes(&leaf, &s0), cat(&leaf, &s0));

    let path = MerklePath { authentication_path: vec![s0.clone(), s1.clone()], position: 0 };
    let root = cat(&cat(&leaf, &s0), &s1);
    assert!(manager.verify_path(&leaf, &path, &root)?);
    assert!(!manager.verify_path(&s0, &path, &root)?);

    let path = MerklePath { authentication_path: vec![s0.clone(), s1.clone()], position: 1 };
    let root = cat(&cat(&s0, &leaf), &s1);
    assert!(manager.verify_path(&leaf, &path, &root)?);

    let path = MerklePath { authentication_path: vec![s0.clone(), s1.clone()], position: 2 };
    let root = cat(&s1, &cat(&leaf, &s0));
    assert!(manager.verify_path(&leaf, &path, &root)?);

    let path = MerklePath { authentication_path: vec![s0.clone(), s1.clone()], position: 3 };
    let root = cat(&s1, &cat(&s0, &leaf));
    assert!(manager.verify_path(&leaf, &path, &root)?);
    assert!(!manager.verify_path(&leaf, &path, &leaf)?);

    let none = MerklePath { authentication_path: vec![], position: 9 };
    assert!(manager.verify_path(&leaf, &none, &leaf)?);
    Ok(())
}

#[test]
fn test_merkle_tree_initialization() -> Result<(), Error> {
    let mut db = create_test_db()?;
    let tree = MerkleTreeManager::new();

    tree.initialize(&mut db)?;
    let root = tree.get_root(&db)?;
    assert_eq!(root.len(), 32);

    Ok(())
}

#[test]
fn test_merkle_tree_revert() -> Result<(), Error> {
    let mut db = create_test_db()?;
    let mut tree = MerkleTreeManager::new();

    tree.initialize(&mut db)?;

    let commitment1 = vec![1u8; 32];
    tree.append(&mut db, 1, &commitment1)?;

    let commitment2 = vec![2u8; 32];
    tree.append(&mut db, 2, &commitment2)?;

    let root_before = tree.get_root(&db)?;

    tree.revert(&mut db, 2)?;

    let root_after = tree.get_root(&db)?;
    assert_ne!(root_before, root_after);

    Ok(())
}

#[test]
fn appended_leaves_get_their_paths() -> Result<(), Error> {
    let mut db = create_test_db()?;
    let mut tree = MerkleTreeManager::new();
    assert!(matches!(tree.get_root(&db), Err(Error::MerkleTree(_))));
    assert!(tree.get_node(&db, 0, 0)?.is_none());
    tree.initialize(&mut db)?;
    assert_eq!(tree.get_root(&db)?, vec![0u8; 32]);
    assert_eq!(db.merkle_tree.len(), 1);
    assert_eq!(db.merkle_tree[0].height, 32);

    let cat = |a: &[u8], b: &[u8]| {
        let mut m = a.to_vec();
        m.extend_from_slice(b);
        digest(&m)
    };
    let zeros = vec![0u8; 32];
    let c1 = vec![1u8; 32];
    let c2 = vec![2u8; 32];

    let path1 = tree.append(&mut db, 1, &c1)?;
    assert_eq!(path1.position, 0);
    assert_eq!(path1.authentication_path, vec![zeros.clone(); 32]);
    assert_eq!(db.merkle_tree.len(), 1 + 33);
    let mut root1 = c1.clone();
    for _ in 0..32 {
        root1 = cat(&root1, &zeros);
    }
    assert_eq!(tree.get_root(&db)?, root1);
    assert!(tree.verify_path(&c1, &path1, &root1)?);
    let leaf = tree.get_node(&db, 0, 0)?.expect("the leaf");
    assert_eq!((leaf.height, leaf.position, leaf.hash), (0, 0, c1.clone()));
    let above = tree.get_node(&db, 1, 0)?.expect("its parent");
    assert_eq!(above.hash, cat(&c1, &zeros));
    assert!(tree.get_node(&db, 0, 1)?.is_none());

    let path2 = tree.append(&mut db, 2, &c2)?;
    assert_eq!(path2.position, 1);
    assert_eq!(path2.authentication_path[0], c1);
    assert_eq!(path2.authentication_path[1..].to_vec(), vec![zeros.clone(); 31]);
    let mut root2 = cat(&c1, &c2);
    for _ in 0..31 {
        root2 = cat(&root2, &zeros);
    }
    assert_eq!(tree.get_root(&db)?, root2);
    assert!(tree.verify_path(&c2, &path2, &root2)?);
    assert!(!tree.verify_path(&c1, &path1, &root2)?);
    assert_eq!(tree.get_node(&db, 1, 0)?.expect("the newest row").hash, cat(&c1, &c2));

    tree.revert(&mut db, 2)?;
    assert_eq!(tree.get_root(&db)?, root1);
    assert!(tree.get_node(&db, 0, 1)?.is_none());
    assert_eq!(db.merkle_tree.iter().filter(|r| r.active).count(), 34);
    let path3 = tree.append(&mut db, 2, &c2)?;
    assert_eq!(path3.position, 1);
    tree.revert(&mut db, 0)?;
    assert!(matches!(tree.get_root(&db), Err(Error::MerkleTree(_))));
    let path4 = tree.append(&mut db, 0, &c1)?;
    assert_eq!(path4.position, 0);
    Ok(())
}

#[test]
fn test_merkle_tree_append() -> Result<(), Error> {
    let mut db = create_test_db()?;
    let mut tree = MerkleTreeManager::new();

    tree.initialize(&mut db)?;

    let commitment1 = vec![1u8; 32];
    let path1 = tree.append(&mut db, 0, &commitment1)?;
    assert_eq!(path1.position, 0);
    assert_eq!(path1.authentication_path.len(), 32);

    let commitment2 = vec![2u8; 32];
    let path2 = tree.append(&mut db, 0, &commitment2)?;
    assert_eq!(path2.position, 1);
    assert_eq!(path2.authentication_path.len(), 32);
    assert_eq!(path2.authentication_path[0], commitment1);

    let root = tree.get_root(&db)?;
    assert_eq!(root.len(), 64);
    let roots: Vec<Vec<u8>> = db
        .merkle_tree
        .iter()
        .filter(|r| r.height == 32 && r.position == 0)
        .map(|r| r.hash.clone())
        .collect();
    assert_eq!(roots.len(), 3);
    assert_eq!(root, roots[2]);
    assert!(tree.verify_path(&commitment2, &path2, &root)?);
    // The first path was handed out when the tree held one leaf: it leads
    // to the root of that tree.
    assert!(tree.verify_path(&commitment1, &path1, &roots[1])?);
    assert!(!tree.verify_path(&commitment1, &path1, &root)?);
    assert_ne!(roots[1], roots[2]);

    Ok(())
}

#[test]
fn block_and_hash_lengths() -> Result<(), Error> {
    let b = Block::new(0, vec![0u8; 32], 0, Vec::new())?;
    assert_eq!(b.height, 0);
    assert_eq!(b.parent_hash, vec![0u8; 32]);
    assert_eq!(b.timestamp, 0);
    assert!(b.transactions.is_empty());
    assert_eq!(b.merkle_root, vec![0u8; 32]);
    assert_eq!(b.hash.len(), 64);
    assert_eq!(b.hash, b.calculate_hash()?);
    let tx = Transaction::new_deposit(transparent_address(1), 5)?;
    assert_eq!(tx.calculate_hash()?.len(), 64);
    Ok(())
}

#[test]
fn constructors_say_why_they_refuse() {
    let input = |a: Address| TransparentInput { output_id: vec![1], address: a, amount: 5, signature: vec![] };
    let message = |r: Result<Transaction, Error>| match r {
        Err(Error::InvalidTransaction(m)) => m,
        other => panic!("{:?}", other),
    };
    assert_eq!(
        message(Transaction::new_deposit(Address { address_type: AddressType::Shielded, data: vec![] }, 1000)),
        "Deposit must be to transparent address"
    );
    assert_eq!(
        message(Transaction::new_transparent(vec![input(shielded_address(1))], vec![TransparentOutput { address: shielded_address(2), amount: 5 }])),
        "All inputs must be transparent"
    );
    assert_eq!(
        message(Transaction::new_transparent(vec![input(transparent_address(1))], vec![TransparentOutput { address: shielded_address(2), amount: 5 }])),
        "All outputs must be transparent"
    );
    assert_eq!(message(Transaction::new_shield(input(shielded_address(1)), note(1))), "Shield input must be transparent");
    assert_eq!(
        message(Transaction::new_deshield(note(1), TransparentOutput { address: shielded_address(2), amount: 5 }, vec![1], vec![2])),
        "Deshield output must be transparent"
    );
}

#[test]
fn a_third_leaf_meets_the_first_two_as_one_node() -> Result<(), Error> {
    let mut db = create_test_db()?;
    let mut tree = MerkleTreeManager::new();
    tree.initialize(&mut db)?;
    let cat = |a: &[u8], b: &[u8]| {
        let mut m = a.to_vec();
        m.extend_from_slice(b);
        digest(&m)
    };
    let zeros = vec![0u8; 32];
    let (c1, c2, c3) = (vec![1u8; 32], vec![2u8; 32], vec![3u8; 32]);
    tree.append(&mut db, 1, &c1)?;
    tree.append(&mut db, 1, &c2)?;
    let path3 = tree.append(&mut db, 1, &c3)?;
    assert_eq!(path3.position, 2);
    assert_eq!(path3.authentication_path[0], zeros);
    assert_eq!(path3.authentication_path[1], cat(&c1, &c2));
    let mut root = cat(&cat(&c1, &c2), &cat(&c3, &zeros));
    for _ in 0..30 {
        root = cat(&root, &zeros);
    }
    assert_eq!(tree.get_root(&db)?, root);
    assert!(tree.verify_path(&c3, &path3, &root)?);
    assert_eq!(tree.get_node(&db, 1, 0)?.expect("the node").hash, cat(&c1, &c2));
    assert_eq!(tree.get_node(&db, 1, 1)?.expect("the node").hash, cat(&c3, &zeros));
    Ok(())
}
