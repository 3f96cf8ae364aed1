use zcash_sidechain::types::{Action, Block, Output, Transaction};

fn sample_action(seed: u8) -> Action {
    Action {
        nf: [seed; 32],
        rk: [seed.wrapping_add(1); 32],
        cmx: [seed.wrapping_add(2); 32],
        epk_bytes: [seed.wrapping_add(3); 32],
        enc_ciphertext: vec![seed.wrapping_add(4); 580],
        out_ciphertext: vec![seed.wrapping_add(5); 80],
        cv_net: [seed.wrapping_add(6); 32],
    }
}

fn sample_transaction(seed: u8, balance: i64) -> Transaction {
    Transaction {
        inputs: vec![1, 2, u32::MAX],
        outputs: vec![Output { value: 70 }, Output { value: u64::MAX }],
        actions: vec![sample_action(seed), sample_action(seed.wrapping_add(9))],
        value_balance_orchard: balance,
    }
}

type ActionTuple = ([u8; 32], [u8; 32], [u8; 32], [u8; 32], Vec<u8>, Vec<u8>, [u8; 32]);
type TransactionTuple = (Vec<u32>, Vec<u64>, Vec<ActionTuple>, i64);

fn as_tuple(tx: &Transaction) -> TransactionTuple {
    (
        tx.inputs.clone(),
        tx.outputs.iter().map(|o| o.value).collect(),
        tx.actions
            .iter()
            .map(|a| {
                (
                    a.nf,
                    a.rk,
                    a.cmx,
                    a.epk_bytes,
                    a.enc_ciphertext.clone(),
                    a.out_ciphertext.clone(),
                    a.cv_net,
                )
            })
            .collect(),
        tx.value_balance_orchard,
    )
}

fn same_action(a: &Action, b: &Action) -> bool {
    a.nf == b.nf
        && a.rk == b.rk
        && a.cmx == b.cmx
        && a.epk_bytes == b.epk_bytes
        && a.enc_ciphertext == b.enc_ciphertext
        && a.out_ciphertext == b.out_ciphertext
        && a.cv_net == b.cv_net
}

fn same_transaction(a: &Transaction, b: &Transaction) -> bool {
    a.inputs == b.inputs
        && a.outputs == b.outputs
        && a.value_balance_orchard == b.value_balance_orchard
        && a.actions.len() == b.actions.len()
        && a.actions.iter().zip(b.actions.iter()).all(|(x, y)| same_action(x, y))
}

#[test]
fn empty_transaction_has_the_expected_bytes() {
    let tx = Transaction { inputs: vec![], outputs: vec![], actions: vec![], value_balance_orchard: 0 };
    assert_eq!(tx.to_body(), vec![0u8; 32]);
}

#[test]
fn small_transaction_has_the_expected_bytes() {
    let tx = Transaction {
        inputs: vec![1],
        outputs: vec![Output { value: 70 }],
        actions: vec![],
        value_balance_orchard: -2,
    };
    let mut expected: Vec<u8> = Vec::new();
    expected.extend_from_slice(&[1, 0, 0, 0, 0, 0, 0, 0]);
    expected.extend_from_slice(&[1, 0, 0, 0]);
    expected.extend_from_slice(&[1, 0, 0, 0, 0, 0, 0, 0]);
    expected.extend_from_slice(&[70, 0, 0, 0, 0, 0, 0, 0]);
    expected.extend_from_slice(&[0, 0, 0, 0, 0, 0, 0, 0]);
    expected.extend_from_slice(&[0xfe, 0xff, 0xff, 0xff, 0xff, 0xff, 0xff, 0xff]);
    assert_eq!(tx.to_body(), expected);
}

#[test]
fn transaction_bytes_are_those_of_bincode() {
    for balance in [0i64, 1, -1, 90, -90, i64::MAX, i64::MIN] {
        let tx = sample_transaction(7, balance);
        let expected = bincode::serialize(&as_tuple(&tx)).unwrap();
        assert_eq!(tx.to_body(), expected);
    }
}

#[test]
fn block_bytes_are_those_of_bincode() {
    let block = Block { transactions: vec![sample_transaction(1, -5), sample_transaction(40, 6)] };
    let tuples: Vec<TransactionTuple> = block.transactions.iter().map(as_tuple).collect();
    assert_eq!(block.to_body(), bincode::serialize(&tuples).unwrap());
}

#[test]
fn transaction_round_trip_is_the_identity() {
    for balance in [0i64, -1, i64::MAX, i64::MIN] {
        let tx = sample_transaction(3, balance);
        let back = Transaction::from_body(&tx.to_body()).expect("decodes");
        assert!(same_transaction(&tx, &back));
    }
}

#[test]
fn block_body_round_trip_is_the_identity() {
    let block = Block {
        transactions: vec![
            sample_transaction(1, -5),
            Transaction { inputs: vec![], outputs: vec![], actions: vec![], value_balance_orchard: 0 },
            sample_transaction(100, 77),
        ],
    };
    let bytes = block.to_body();
    let back = Block::from_body(&bytes).expect("decodes");
    assert_eq!(back.transactions.len(), 3);
    for (a, b) in block.transactions.iter().zip(back.transactions.iter()) {
        assert!(same_transaction(a, b));
    }
    assert_eq!(back.to_body(), bytes);
}

#[test]
fn empty_block_round_trip() {
    let block = Block { transactions: vec![] };
    let bytes = block.to_body();
    assert_eq!(bytes, vec![0u8; 8]);
    let back = Block::from_body(&bytes).expect("decodes");
    assert!(back.transactions.is_empty());
}

#[test]
fn bytes_written_by_bincode_decode() {
    let tx = sample_transaction(9, -3);
    let bytes = bincode::serialize(&as_tuple(&tx)).unwrap();
    let back = Transaction::from_body(&bytes).expect("decodes");
    assert!(same_transaction(&tx, &back));
}

#[test]
fn truncated_bytes_do_not_decode() {
    let tx = sample_transaction(3, 5);
    let bytes = tx.to_body();
    for cut in [0usize, 1, 7, 8, 20, bytes.len() / 2, bytes.len() - 1] {
        assert!(Transaction::from_body(&bytes[..cut]).is_none(), "cut at {}", cut);
    }
    let block = Block { transactions: vec![sample_transaction(3, 5)] };
    let bytes = block.to_body();
    assert!(Block::from_body(&bytes[..bytes.len() - 1]).is_none());
    assert!(Block::from_body(&[]).is_none());
}

#[test]
fn a_length_that_promises_too_much_does_not_decode() {
    let mut bytes = vec![0xffu8; 8];
    bytes.extend_from_slice(&[0u8; 64]);
    assert!(Transaction::from_body(&bytes).is_none());
    assert!(Block::from_body(&bytes).is_none());
}

#[test]
fn bytes_behind_a_value_are_ignored() {
    let tx = sample_transaction(3, 5);
    let mut bytes = tx.to_body();
    bytes.extend_from_slice(&[1, 2, 3]);
    let back = Transaction::from_body(&bytes).expect("decodes");
    assert!(same_transaction(&tx, &back));
}

#[test]
fn nullifiers_and_commitments_come_in_chain_order() {
    let block = Block { transactions: vec![sample_transaction(1, 0), sample_transaction(50, 0)] };
    assert_eq!(block.nullifiers(), vec![[1u8; 32], [10u8; 32], [50u8; 32], [59u8; 32]]);
    assert_eq!(
        block.extracted_note_commitments(),
        vec![[3u8; 32], [12u8; 32], [52u8; 32], [61u8; 32]]
    );
    assert_eq!(block.transactions[1].nullifiers(), vec![[50u8; 32], [59u8; 32]]);
    assert_eq!(block.transactions[0].extracted_note_commitments(), vec![[3u8; 32], [12u8; 32]]);
    let none = Block { transactions: vec![] };
    assert!(none.nullifiers().is_empty());
    assert!(none.extracted_note_commitments().is_empty());
}

#[test]
fn hexadecimal_text_is_written_in_lower_case_and_read_in_either() {
    assert_eq!(zcash_sidechain::primitives::hex_encode(&[]), "");
    assert_eq!(zcash_sidechain::primitives::hex_encode(&[0x00, 0x0f, 0xa5, 0xff]), "000fa5ff");
    assert_eq!(zcash_sidechain::primitives::hex_decode("000fA5Ff"), Some(vec![0, 15, 165, 255]));
    assert_eq!(zcash_sidechain::primitives::hex_decode(""), Some(vec![]));
    assert_eq!(zcash_sidechain::primitives::hex_decode("abc"), None);
    assert_eq!(zcash_sidechain::primitives::hex_decode("zz"), None);
    assert_eq!(zcash_sidechain::primitives::hex_decode("0g"), None);
    assert_eq!(zcash_sidechain::primitives::hex_decode("g0"), None);
    assert_eq!(zcash_sidechain::primitives::hex_decode("\u{e9}a"), None);
    for byte in 0..=255u8 {
        let text = zcash_sidechain::primitives::hex_encode(&[7, byte]);
        assert_eq!(text, hex::encode([7, byte]));
        assert_eq!(zcash_sidechain::primitives::hex_decode(&text), Some(vec![7, byte]));
        let upper = hex::encode_upper([byte, 9]);
        assert_eq!(zcash_sidechain::primitives::hex_decode(&upper), Some(vec![byte, 9]));
    }
}
