//! Transaction location index, transaction retrieval and conflict detection
//! for a ledger of committed blocks.

pub mod admission;
pub mod bytes;
pub mod conflicts;
pub mod error;
pub mod ledger;
pub mod location;
pub mod transaction;

pub use error::LedgerError;
pub use location::TransactionLocation;
pub use transaction::Transaction;
pub use ledger::{Block, Ledger};
