use vstd::prelude::*;

verus! {

/// Failures of the ledger's read and admission paths.
#[derive(Debug, PartialEq, Eq)]
pub enum LedgerError {
    /// Bytes were requested for a transaction that the ledger does not hold;
    /// carries the identifier, hex-encoded.
    InvalidTransactionId(String),
    /// Stored state breaks a ledger invariant: a malformed location record,
    /// a location naming a missing block, or a position past the block's end.
    Corruption,
    /// A serial number does not have the ledger's fixed-size representation.
    MalformedSerialNumber,
    /// A commitment does not have the ledger's fixed-size representation.
    MalformedCommitment,
}

} // verus!
