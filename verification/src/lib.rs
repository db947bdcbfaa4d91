//! An authenticated account ledger.
//!
//! The ledger assigns account identifiers to public keys, stores a balance
//! for each account, and says at every change which leaf of a binary Merkle
//! tree has to be written anew, so that the tree's root commits to the whole
//! set of accounts.
//!
//! - `record`: accounts' records and their canonical encoding.
//! - `directory`: identifiers, public keys and stored records.
//! - `commitment`: the shape of the commitment tree and the writes into it.
//! - `model`: the ledger as a mathematical value, and the laws that hold of it.
//! - `ledger`: the ledger state and its operations.

pub mod commitment;
pub mod directory;
pub mod ledger;
pub mod model;
pub mod record;

pub use commitment::{LeafUpdate, LeafWindow, MerkleConfig, TwoToOneWindow};
pub use directory::AccountDirectory;
pub use ledger::{AccountError, State};
pub use model::{Call, LedgerView};
pub use record::{
    AccountId, AccountInformation, AccountPublicKey, Amount, BALANCE_SIZE, PUBLIC_KEY_SIZE,
    RECORD_SIZE,
};
