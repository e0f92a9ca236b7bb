use vstd::prelude::*;

use crate::bytes::bytes_equal;
use crate::error::LedgerError;
use crate::ledger::{fixed_values_model, Ledger, LedgerModel};
use crate::transaction::{Transaction, TransactionModel};

verus! {

/// Length of the ledger's representation of a serial number or commitment.
pub const VALUE_LEN: usize = 32;

/// Some value occurs twice in `s`.
pub open spec fn has_repeat(s: Seq<Seq<u8>>) -> bool {
    exists|i: int, j: int| 0 <= i < j < s.len() && s[i] == s[j]
}

/// Scans `values` in order and stops at the first one that is malformed
/// (`Err(malformed)`) or already recorded (`Ok(true)`); `Ok(false)` where
/// none is.
pub open spec fn scan_recorded(
    values: Seq<Seq<u8>>,
    recorded: Seq<Seq<u8>>,
    malformed: LedgerError,
) -> Result<bool, LedgerError>
    decreases values.len(),
{
    if values.len() == 0 {
        Ok(false)
    } else if values[0].len() != VALUE_LEN {
        Err(malformed)
    } else if recorded.contains(values[0]) {
        Ok(true)
    } else {
        scan_recorded(values.drop_first(), recorded, malformed)
    }
}

/// Whether a transaction conflicts with itself or with the ledger, checked in
/// order: a repeated serial number, a repeated commitment, then each serial
/// number against those recorded, then each commitment against those
/// recorded.
pub open spec fn conflict_outcome(m: LedgerModel, t: TransactionModel) -> Result<bool, LedgerError> {
    if has_repeat(t.serial_numbers) || has_repeat(t.commitments) {
        Ok(true)
    } else {
        match scan_recorded(t.serial_numbers, m.serial_numbers, LedgerError::MalformedSerialNumber) {
            Ok(false) => scan_recorded(
                t.commitments,
                m.commitments,
                LedgerError::MalformedCommitment,
            ),
            other => other,
        }
    }
}

/// Every value is well-formed and none is recorded.
pub open spec fn all_fresh(values: Seq<Seq<u8>>, recorded: Seq<Seq<u8>>) -> bool {
    forall|k: int|
        0 <= k < values.len() ==> (#[trigger] values[k]).len() == VALUE_LEN && !recorded.contains(
            values[k],
        )
}

/// The scan finds nothing exactly when every value is well-formed and none is
/// recorded.
pub proof fn lemma_scan_clear(values: Seq<Seq<u8>>, recorded: Seq<Seq<u8>>, malformed: LedgerError)
    ensures
        scan_recorded(values, recorded, malformed) == Ok::<bool, LedgerError>(false) <==> all_fresh(
            values,
            recorded,
        ),
    decreases values.len(),
{
    if values.len() > 0 {
        let rest = values.drop_first();
        lemma_scan_clear(rest, recorded, malformed);
        assert forall|k: int| 0 <= k < rest.len() implies rest[k] == values[k + 1] by {}
        if all_fresh(values, recorded) {
            assert(values[0].len() == VALUE_LEN);
            assert forall|k: int| 0 <= k < rest.len() implies (#[trigger] rest[k]).len() == VALUE_LEN
                && !recorded.contains(rest[k]) by {
                assert(values[k + 1] == rest[k]);
            }
        }
        if scan_recorded(values, recorded, malformed) == Ok::<bool, LedgerError>(false) {
            assert forall|k: int| 0 <= k < values.len() implies (#[trigger] values[k]).len()
                == VALUE_LEN && !recorded.contains(values[k]) by {
                if k > 0 {
                    assert(rest[k - 1] == values[k]);
                }
            }
        }
    }
}

/// A transaction is admissible exactly when it repeats no serial number and
/// no commitment, and each of its serial numbers and commitments is
/// well-formed and not yet recorded in the ledger.
pub proof fn lemma_no_conflict_exactly(m: LedgerModel, t: TransactionModel)
    ensures
        conflict_outcome(m, t) == Ok::<bool, LedgerError>(false) <==> {
            &&& !has_repeat(t.serial_numbers)
            &&& !has_repeat(t.commitments)
            &&& all_fresh(t.serial_numbers, m.serial_numbers)
            &&& all_fresh(t.commitments, m.commitments)
        },
{
    lemma_scan_clear(t.serial_numbers, m.serial_numbers, LedgerError::MalformedSerialNumber);
    lemma_scan_clear(t.commitments, m.commitments, LedgerError::MalformedCommitment);
}

/// Relies on snarkvm_utilities::has_duplicates: true exactly when two items
/// that the iterator yields are equal.
#[verifier::external_body]
fn has_duplicates(values: &Vec<Vec<u8>>) -> (r: bool)
    ensures
        r == has_repeat(values.deep_view()),
{
    snarkvm_utilities::has_duplicates(values.iter())
}

/// Converts an encoded value to the ledger's fixed-size representation;
/// `None` where its length differs.
pub fn to_fixed(v: &[u8]) -> (r: Option<[u8; 32]>)
    ensures
        r is None <==> v@.len() != VALUE_LEN,
        r matches Some(a) ==> a@ == v@,
{
    if v.len() != VALUE_LEN {
        return None;
    }
    let mut a: [u8; 32] = [0u8; 32];
    let mut i: usize = 0;
    while i < VALUE_LEN
        invariant
            v@.len() == VALUE_LEN,
            i <= VALUE_LEN,
            forall|k: int| 0 <= k < i ==> a@[k] == v@[k],
        decreases VALUE_LEN - i,
    {
        a[i] = v[i];
        i = i + 1;
    }
    assert(a@ =~= v@);
    Some(a)
}

/// Whether `v` is among the recorded values.
pub fn is_recorded(recorded: &Vec<[u8; 32]>, v: &[u8; 32]) -> (r: bool)
    ensures
        r == fixed_values_model(recorded@).contains(v@),
{
    let ghost model = fixed_values_model(recorded@);
    let mut i: usize = 0;
    while i < recorded.len()
        invariant
            i <= recorded@.len(),
            model == fixed_values_model(recorded@),
            forall|j: int| 0 <= j < i ==> #[trigger] model[j] != v@,
        decreases recorded@.len() - i,
    {
        if bytes_equal(recorded[i].as_slice(), v.as_slice()) {
            assert(model[i as int] == v@);
            return true;
        }
        i = i + 1;
    }
    false
}

fn scan(values: &Vec<Vec<u8>>, recorded: &Vec<[u8; 32]>, malformed: LedgerError) -> (r: Result<
    bool,
    LedgerError,
>)
    ensures
        r == scan_recorded(values.deep_view(), fixed_values_model(recorded@), malformed),
{
    let ghost vals = values.deep_view();
    let ghost rec = fixed_values_model(recorded@);
    assert(vals.subrange(0, vals.len() as int) =~= vals);
    let mut i: usize = 0;
    while i < values.len()
        invariant
            i <= values@.len(),
            vals == values.deep_view(),
            rec == fixed_values_model(recorded@),
            scan_recorded(vals, rec, malformed) == scan_recorded(
                vals.subrange(i as int, vals.len() as int),
                rec,
                malformed,
            ),
        decreases values@.len() - i,
    {
        let ghost rest = vals.subrange(i as int, vals.len() as int);
        assert(rest.drop_first() =~= vals.subrange(i + 1, vals.len() as int));
        assert(rest[0] == values@[i as int]@);
        match to_fixed(values[i].as_slice()) {
            None => {
                return Err(malformed);
            },
            Some(key) => {
                if is_recorded(recorded, &key) {
                    return Ok(true);
                }
            },
        }
        i = i + 1;
    }
    assert(vals.subrange(i as int, vals.len() as int).len() == 0);
    Ok(false)
}

impl Ledger {
    /// Whether `transaction` conflicts with itself or with the ledger: it
    /// repeats a serial number or a commitment, or one of them is already
    /// recorded. Fails where a serial number or commitment that the check
    /// reaches is malformed.
    pub fn transaction_conflicts(&self, transaction: &Transaction) -> (r: Result<bool, LedgerError>)
        ensures
            r == conflict_outcome(self@, transaction@),
    {
        if has_duplicates(&transaction.serial_numbers) {
            return Ok(true);
        }
        if has_duplicates(&transaction.commitments) {
            return Ok(true);
        }
        match scan(&transaction.serial_numbers, &self.serial_numbers, LedgerError::MalformedSerialNumber) {
            Ok(false) => {},
            other => {
                return other;
            },
        }
        scan(&transaction.commitments, &self.commitments, LedgerError::MalformedCommitment)
    }
}

} // verus!
