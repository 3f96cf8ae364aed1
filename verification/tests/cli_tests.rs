use zcash_sidechain::cli::{Cli, Commands, Reply};
use zcash_sidechain::db::Db;
use zcash_sidechain::error::Error;

fn run(db: &mut Db, command: Commands) -> Reply {
    db.execute(command).expect("the command succeeds")
}

#[test]
fn commands_of_a_transparent_transfer() {
    let mut db = Db::new();
    let line = Cli { command: Commands::ConjureUtxo { value: 100 } };
    assert!(matches!(run(&mut db, line.command), Reply::Done));
    assert!(matches!(run(&mut db, Commands::Mine), Reply::Done));
    assert!(matches!(run(&mut db, Commands::SpendUtxo { utxo_id: 1 }), Reply::Done));
    assert!(matches!(run(&mut db, Commands::CreateUtxo { value: 70 }), Reply::Done));
    match run(&mut db, Commands::Wallet) {
        Reply::Wallet(report) => {
            assert_eq!(report.inputs, vec![1]);
            assert_eq!(report.outputs.len(), 1);
            assert_eq!(report.outputs[0].value, 70);
            assert!(report.shielded_inputs.is_empty());
            assert!(report.shielded_outputs.is_empty());
            assert_eq!(report.transparent_total, 100);
            assert_eq!(report.shielded_total, 0);
        }
        other => panic!("{:?}", other),
    }
    assert!(matches!(run(&mut db, Commands::SubmitTxn), Reply::Done));
    assert!(matches!(run(&mut db, Commands::Mine), Reply::Done));
    match run(&mut db, Commands::ValuePools) {
        Reply::Pools(transparent, shielded) => {
            assert_eq!(transparent, 70);
            assert_eq!(shielded, 0);
        }
        other => panic!("{:?}", other),
    }
    match run(&mut db, Commands::GetUtxos) {
        Reply::Utxos(utxos, notes) => {
            assert_eq!(utxos, vec![(1, 70)]);
            assert!(notes.is_empty());
        }
        other => panic!("{:?}", other),
    }
    assert_eq!(db.blocks.len(), 1);
    assert_eq!(db.blocks[0].fee, 30);
}

#[test]
fn commands_of_shielding() {
    let mut db = Db::new();
    run(&mut db, Commands::ConjureUtxo { value: 100 });
    run(&mut db, Commands::SpendUtxo { utxo_id: 1 });
    run(&mut db, Commands::CreateNote { value: 90, recipient: None });
    run(&mut db, Commands::SubmitTxn);
    run(&mut db, Commands::Mine);
    match run(&mut db, Commands::ValuePools) {
        Reply::Pools(transparent, shielded) => {
            assert_eq!((transparent, shielded), (0, 90));
        }
        other => panic!("{:?}", other),
    }
    match run(&mut db, Commands::GetUtxos) {
        Reply::Utxos(utxos, notes) => {
            assert!(utxos.is_empty());
            assert_eq!(notes, vec![(1, 90)]);
        }
        other => panic!("{:?}", other),
    }
    assert!(matches!(run(&mut db, Commands::SpendNote { note_id: 1 }), Reply::Done));
    assert_eq!(db.get_shielded_inputs(), vec![1]);
    assert!(matches!(run(&mut db, Commands::ClearTxn), Reply::Done));
    assert!(db.get_shielded_inputs().is_empty());
}

#[test]
fn commands_of_the_wallet() {
    let mut db = Db::new();
    let phrase = match run(&mut db, Commands::GetMnemonic) {
        Reply::Mnemonic(phrase) => phrase,
        other => panic!("{:?}", other),
    };
    assert_eq!(phrase.split_whitespace().count(), 12);
    assert_eq!(Some(phrase), db.wallet_seed.clone());

    let (raw, text) = match run(&mut db, Commands::GetNewAddress) {
        Reply::Address(raw, text) => (raw, text),
        other => panic!("{:?}", other),
    };
    assert_eq!(db.addresses, vec![raw]);
    assert_eq!(text, bs58::encode(raw).with_check().into_string());
    let (second, _) = match run(&mut db, Commands::GetNewAddress) {
        Reply::Address(raw, text) => (raw, text),
        other => panic!("{:?}", other),
    };
    assert_ne!(raw, second);

    run(&mut db, Commands::CreateNote { value: 5, recipient: Some(text) });
    assert_eq!(db.get_shielded_outputs().len(), 1);
    assert_eq!(db.get_shielded_outputs()[0].recipient, raw);
    assert_eq!(db.addresses.len(), 2);
}

#[test]
fn commands_that_are_refused_change_nothing() {
    let mut db = Db::new();
    assert!(matches!(db.execute(Commands::SpendUtxo { utxo_id: 1 }), Err(Error::State(_))));
    assert!(matches!(db.execute(Commands::SpendNote { note_id: 1 }), Err(Error::State(_))));
    assert!(matches!(
        db.execute(Commands::CreateNote { value: 1, recipient: Some("nonsense".to_string()) }),
        Err(Error::InvalidAddress(_))
    ));
    assert!(db.get_inputs().is_empty());
    assert!(db.get_shielded_inputs().is_empty());
    assert!(db.get_shielded_outputs().is_empty());

    run(&mut db, Commands::CreateUtxo { value: 1 });
    run(&mut db, Commands::SubmitTxn);
    assert!(matches!(db.execute(Commands::Mine), Err(Error::InvalidTransaction(_))));
    assert!(db.blocks.is_empty());
    assert_eq!(db.transactions.len(), 1);

    let mut bare = Db::empty();
    assert!(matches!(bare.execute(Commands::GetMnemonic), Err(Error::State(_))));
    assert!(matches!(bare.execute(Commands::GetNewAddress), Err(Error::State(_))));
    assert!(matches!(
        bare.execute(Commands::CreateNote { value: 1, recipient: None }),
        Err(Error::State(_))
    ));
    bare.conjure_utxo(u64::MAX).unwrap();
    bare.conjure_utxo(1).unwrap();
    assert!(matches!(bare.execute(Commands::ValuePools), Err(Error::State(_))));
    assert!(matches!(bare.execute(Commands::Wallet), Err(Error::State(_))));
    assert_eq!(bare.value_pools().is_err(), true);
}

#[test]
fn a_listing_reports_a_witness_that_does_not_decode() {
    let mut db = Db::new();
    let note = zcash_sidechain::types::Note { recipient: [1; 43], value: 4, rho: [2; 32], rseed: [3; 32] };
    db.store_note(&note, &vec![7; 9]);
    assert!(matches!(db.execute(Commands::GetUtxos), Err(Error::Serialization(_))));
    assert_eq!(db.notes.len(), 1);
}
