use vstd::prelude::*;

use crate::bytes::copy_bytes;

verus! {

/// A transaction as the ledger sees it: its identifier, the serial numbers it
/// spends, the commitments it creates, each in canonical little-endian
/// encoding, and the transaction's own canonical encoding.
#[derive(Debug)]
pub struct Transaction {
    pub id: Vec<u8>,
    pub serial_numbers: Vec<Vec<u8>>,
    pub commitments: Vec<Vec<u8>>,
    pub encoding: Vec<u8>,
}

/// The value of a [`Transaction`].
pub struct TransactionModel {
    pub id: Seq<u8>,
    pub serial_numbers: Seq<Seq<u8>>,
    pub commitments: Seq<Seq<u8>>,
    pub encoding: Seq<u8>,
}

impl View for Transaction {
    type V = TransactionModel;

    open spec fn view(&self) -> TransactionModel {
        TransactionModel {
            id: self.id@,
            serial_numbers: self.serial_numbers.deep_view(),
            commitments: self.commitments.deep_view(),
            encoding: self.encoding@,
        }
    }
}

/// Copies a list of byte strings.
pub fn copy_byte_strings(v: &Vec<Vec<u8>>) -> (r: Vec<Vec<u8>>)
    ensures
        r.deep_view() == v.deep_view(),
{
    let mut r: Vec<Vec<u8>> = Vec::new();
    let mut i: usize = 0;
    while i < v.len()
        invariant
            i <= v@.len(),
            r@.len() == i,
            forall|k: int| 0 <= k < i ==> #[trigger] r@[k]@ == v@[k]@,
        decreases v@.len() - i,
    {
        r.push(copy_bytes(v[i].as_slice()));
        i = i + 1;
    }
    assert(r.deep_view() =~= v.deep_view());
    r
}

impl Transaction {
    /// A transaction record from its parts.
    pub fn new(
        id: Vec<u8>,
        serial_numbers: Vec<Vec<u8>>,
        commitments: Vec<Vec<u8>>,
        encoding: Vec<u8>,
    ) -> (r: Transaction)
        ensures
            r@ == (TransactionModel {
                id: id@,
                serial_numbers: serial_numbers.deep_view(),
                commitments: commitments.deep_view(),
                encoding: encoding@,
            }),
    {
        Transaction { id, serial_numbers, commitments, encoding }
    }
}

impl Clone for Transaction {
    fn clone(&self) -> (r: Transaction)
        ensures
            r@ == self@,
    {
        Transaction {
            id: copy_bytes(self.id.as_slice()),
            serial_numbers: copy_byte_strings(&self.serial_numbers),
            commitments: copy_byte_strings(&self.commitments),
            encoding: copy_bytes(self.encoding.as_slice()),
        }
    }
}

} // verus!
