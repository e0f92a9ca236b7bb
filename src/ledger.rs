use vstd::prelude::*;

use crate::bytes::{bytes_equal, copy_bytes, encode_hex, hex_lower};
use crate::error::LedgerError;
use crate::location::{decode_location, TransactionLocation};
use crate::transaction::{Transaction, TransactionModel};

verus! {

/// A committed block: its hash and its ordered transactions.
#[derive(Debug)]
pub struct Block {
    pub hash: [u8; 32],
    pub transactions: Vec<Transaction>,
}

/// A ledger: the location column (transaction identifier to stored location
/// record), the committed blocks, and the serial numbers and commitments
/// recorded so far.
#[derive(Debug)]
pub struct Ledger {
    pub locations: Vec<(Vec<u8>, Vec<u8>)>,
    pub blocks: Vec<Block>,
    pub serial_numbers: Vec<[u8; 32]>,
    pub commitments: Vec<[u8; 32]>,
}

/// The value of a [`Ledger`]. Lookups by key take the first entry with that
/// key.
pub struct LedgerModel {
    pub locations: Seq<(Seq<u8>, Seq<u8>)>,
    pub blocks: Seq<(Seq<u8>, Seq<TransactionModel>)>,
    pub serial_numbers: Seq<Seq<u8>>,
    pub commitments: Seq<Seq<u8>>,
}

pub open spec fn block_model(b: Block) -> (Seq<u8>, Seq<TransactionModel>) {
    (b.hash@, b.transactions@.map_values(|t: Transaction| t@))
}

/// The byte strings of a list of fixed-size values.
pub open spec fn fixed_values_model(v: Seq<[u8; 32]>) -> Seq<Seq<u8>> {
    v.map_values(|a: [u8; 32]| a@)
}

impl View for Ledger {
    type V = LedgerModel;

    open spec fn view(&self) -> LedgerModel {
        LedgerModel {
            locations: self.locations@.map_values(
                |e: (Vec<u8>, Vec<u8>)| (e.0@, e.1@),
            ),
            blocks: self.blocks@.map_values(|b: Block| block_model(b)),
            serial_numbers: fixed_values_model(self.serial_numbers@),
            commitments: fixed_values_model(self.commitments@),
        }
    }
}

/// Entry `i` is the first entry under `key`.
pub open spec fn is_first_entry<V>(entries: Seq<(Seq<u8>, V)>, key: Seq<u8>, i: int) -> bool {
    &&& 0 <= i < entries.len()
    &&& entries[i].0 == key
    &&& forall|j: int| 0 <= j < i ==> entries[j].0 != key
}

/// The value of the first entry under `key`, if any entry has that key.
pub open spec fn first_entry<V>(entries: Seq<(Seq<u8>, V)>, key: Seq<u8>) -> Option<V> {
    if exists|i: int| is_first_entry(entries, key, i) {
        Some(entries[choose|i: int| is_first_entry(entries, key, i)].1)
    } else {
        None
    }
}

/// Only one entry is the first under a key.
pub proof fn lemma_first_entry_at<V>(entries: Seq<(Seq<u8>, V)>, key: Seq<u8>, i: int)
    requires
        is_first_entry(entries, key, i),
    ensures
        first_entry(entries, key) == Some(entries[i].1),
{
    let c = choose|j: int| is_first_entry(entries, key, j);
    assert(is_first_entry(entries, key, c));
    if c < i {
        assert(entries[c].0 != key);
    } else if i < c {
        assert(entries[i].0 != key);
    }
}

/// What looking up a transaction's location gives: nothing where the
/// identifier has no entry, a corruption fault where its record is malformed.
pub open spec fn location_outcome(m: LedgerModel, id: Seq<u8>) -> Result<
    Option<(Seq<u8>, u32)>,
    LedgerError,
> {
    match first_entry(m.locations, id) {
        None => Ok(None),
        Some(record) => match decode_location(record) {
            Some(loc) => Ok(Some(loc)),
            None => Err(LedgerError::Corruption),
        },
    }
}

/// What fetching a transaction gives: the transaction at its recorded
/// position, nothing where it has no location, and a corruption fault where
/// the location is malformed, names a missing block, or points past the
/// block's end.
pub open spec fn fetch_outcome(m: LedgerModel, id: Seq<u8>) -> Result<
    Option<TransactionModel>,
    LedgerError,
> {
    match location_outcome(m, id) {
        Err(e) => Err(e),
        Ok(None) => Ok(None),
        Ok(Some(loc)) => match first_entry(m.blocks, loc.0) {
            None => Err(LedgerError::Corruption),
            Some(txs) => if (loc.1 as int) < txs.len() {
                Ok(Some(txs[loc.1 as int]))
            } else {
                Err(LedgerError::Corruption)
            },
        },
    }
}

impl Ledger {
    /// An empty ledger.
    pub fn new() -> (r: Ledger)
        ensures
            r@.locations.len() == 0,
            r@.blocks.len() == 0,
            r@.serial_numbers.len() == 0,
            r@.commitments.len() == 0,
    {
        Ledger {
            locations: Vec::new(),
            blocks: Vec::new(),
            serial_numbers: Vec::new(),
            commitments: Vec::new(),
        }
    }

    /// Position of the first location entry under `id`.
    pub(crate) fn find_location(&self, id: &[u8]) -> (r: Option<usize>)
        ensures
            r is None ==> forall|i: int|
                0 <= i < self@.locations.len() ==> #[trigger] self@.locations[i].0 != id@,
            r matches Some(i) ==> is_first_entry(self@.locations, id@, i as int),
    {
        let mut i: usize = 0;
        while i < self.locations.len()
            invariant
                i <= self.locations@.len(),
                forall|j: int| 0 <= j < i ==> #[trigger] self@.locations[j].0 != id@,
            decreases self.locations@.len() - i,
        {
            if bytes_equal(self.locations[i].0.as_slice(), id) {
                return Some(i);
            }
            i = i + 1;
        }
        None
    }

    /// Position of the first block with hash `hash`.
    pub(crate) fn find_block(&self, hash: &[u8]) -> (r: Option<usize>)
        ensures
            r is None ==> forall|i: int|
                0 <= i < self@.blocks.len() ==> #[trigger] self@.blocks[i].0 != hash@,
            r matches Some(i) ==> is_first_entry(self@.blocks, hash@, i as int),
    {
        let mut i: usize = 0;
        while i < self.blocks.len()
            invariant
                i <= self.blocks@.len(),
                forall|j: int| 0 <= j < i ==> #[trigger] self@.blocks[j].0 != hash@,
            decreases self.blocks@.len() - i,
        {
            if bytes_equal(self.blocks[i].hash.as_slice(), hash) {
                return Some(i);
            }
            i = i + 1;
        }
        None
    }

    /// The location of the transaction `transaction_id`, or `None` where the
    /// ledger holds no location for it.
    pub fn get_transaction_location(&self, transaction_id: &[u8]) -> (r: Result<
        Option<TransactionLocation>,
        LedgerError,
    >)
        ensures
            match location_outcome(self@, transaction_id@) {
                Ok(Some(loc)) => r matches Ok(Some(l)) && l@ == loc,
                Ok(None) => r matches Ok(None),
                Err(e) => r matches Err(e2) && e2 == e,
            },
    {
        match self.find_location(transaction_id) {
            None => {
                assert(!exists|i: int| is_first_entry(self@.locations, transaction_id@, i));
                Ok(None)
            },
            Some(i) => {
                proof {
                    lemma_first_entry_at(self@.locations, transaction_id@, i as int);
                }
                match TransactionLocation::read_le(self.locations[i].1.as_slice()) {
                    Some(loc) => Ok(Some(loc)),
                    None => Err(LedgerError::Corruption),
                }
            },
        }
    }

    /// The transaction `transaction_id`, or `None` where the ledger holds no
    /// location for it.
    pub fn get_transaction(&self, transaction_id: &[u8]) -> (r: Result<
        Option<Transaction>,
        LedgerError,
    >)
        ensures
            match fetch_outcome(self@, transaction_id@) {
                Ok(Some(t)) => r matches Ok(Some(tx)) && tx@ == t,
                Ok(None) => r matches Ok(None),
                Err(e) => r matches Err(e2) && e2 == e,
            },
    {
        match self.get_transaction_location(transaction_id)? {
            None => Ok(None),
            Some(loc) => {
                match self.find_block(loc.block_hash.as_slice()) {
                    None => {
                        assert(!exists|i: int| is_first_entry(self@.blocks, loc@.0, i));
                        Err(LedgerError::Corruption)
                    },
                    Some(b) => {
                        proof {
                            lemma_first_entry_at(self@.blocks, loc@.0, b as int);
                        }
                        let transactions = &self.blocks[b].transactions;
                        let index = loc.index as usize;
                        if index < transactions.len() {
                            Ok(Some(transactions[index].clone()))
                        } else {
                            Err(LedgerError::Corruption)
                        }
                    },
                }
            },
        }
    }

    /// The canonical encoding of the transaction `transaction_id`; fails with
    /// `InvalidTransactionId`, carrying the hex-encoded identifier, where the
    /// ledger does not hold it.
    pub fn get_transaction_bytes(&self, transaction_id: &[u8]) -> (r: Result<Vec<u8>, LedgerError>)
        ensures
            match fetch_outcome(self@, transaction_id@) {
                Ok(Some(t)) => r matches Ok(b) && b@ == t.encoding,
                Ok(None) => r matches Err(LedgerError::InvalidTransactionId(s)) && s@ == hex_lower(
                    transaction_id@,
                ),
                Err(e) => r matches Err(e2) && e2 == e,
            },
    {
        match self.get_transaction(transaction_id)? {
            Some(transaction) => Ok(copy_bytes(transaction.encoding.as_slice())),
            None => Err(LedgerError::InvalidTransactionId(encode_hex(transaction_id))),
        }
    }
}

} // verus!
