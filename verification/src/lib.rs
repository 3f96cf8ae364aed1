//! State-management core of a hybrid transparent/shielded value-transfer ledger.
//!
//! The ledger keeps two value pools side by side: a transparent set of unspent
//! outputs and a shielded pool of notes behind a note-commitment tree and a
//! nullifier set. Every state transition is a function on plain values with a
//! contract; the shielded cryptography is reached through a small number of
//! trusted declarations, each documented where it stands.
//!
//! The crate has two parts.
//!
//! The ledger proper: [`db`] holds the store and the mempool workspace,
//! [`wallet`] the seed, the addresses and the submission of what is staged,
//! [`chain`] the anchor and the validation of a transaction, [`connect`] the
//! protocol that connects a block, [`mine`] the step from pending
//! transactions to a stored block, and [`cli`] the commands. [`types`],
//! [`codec`] and [`wire`] give the transactions and blocks and their stored
//! bytes, [`provider`] is the boundary to the shielded cryptography, and
//! [`laws`] states what holds of the whole.
//!
//! The block-and-hash chain, a second and plainer way to keep the two pools:
//! [`address`], [`transaction`], [`block`], [`nullifier`] and [`merkle`] over
//! the store of [`database`], with [`encoding`] and [`tx_rows`] for the bytes
//! and the rows of a transaction, and [`primitives`] for digests, hexadecimal
//! text, entropy and the clock.

pub mod address;
pub mod block;
pub mod chain;
pub mod cli;
pub mod codec;
pub mod connect;
pub mod database;
pub mod db;
pub mod encoding;
pub mod error;
pub mod laws;
pub mod merkle;
pub mod mine;
pub mod nullifier;
pub mod primitives;
pub mod provider;
pub mod transaction;
pub mod tx_rows;
pub mod types;
pub mod wallet;
pub mod wire;
pub mod witness;

use vstd::prelude::*;

verus! {

/// A 32-byte digest.
pub type Hash = [u8; 32];

/// The manager of the state of the block-and-hash chain.
pub struct ChainState {
    db: database::Database,
}

impl ChainState {
    /// The store that the state is kept in.
    pub closed spec fn store(&self) -> database::DatabaseView {
        self.db@
    }

    /// A chain state over a store.
    pub fn new(db: database::Database) -> (state: ChainState)
        ensures
            state.store() == db@,
    {
        ChainState { db }
    }

    /// A chain state over a new store with empty tables, to be kept at
    /// `db_path`.
    pub fn initialize(db_path: &str) -> (res: Result<ChainState, error::Error>)
        ensures
            res is Ok,
            res->Ok_0.store() == database::DatabaseView::empty(db_path@),
    {
        let db = match database::Database::new(db_path) {
            Ok(db) => db,
            Err(e) => {
                return Err(e);
            },
        };
        match db.initialize() {
            Ok(()) => {},
            Err(e) => {
                return Err(e);
            },
        }
        Ok(ChainState::new(db))
    }

    /// The store that the state is kept in.
    pub fn database(&self) -> (db: &database::Database)
        ensures
            db@ == self.store(),
    {
        &self.db
    }
}

} // verus!
