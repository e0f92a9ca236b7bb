use vstd::prelude::*;

use crate::bytes::copy_bytes;
use crate::conflicts::{conflict_outcome, lemma_no_conflict_exactly, to_fixed, VALUE_LEN};
use crate::error::LedgerError;
use crate::ledger::{
    block_model, fixed_values_model, is_first_entry, Block, Ledger, LedgerModel, lemma_first_entry_at,
    fetch_outcome,
};
use crate::location::{lemma_location_round_trip, location_record, TransactionLocation};
use crate::transaction::{Transaction, TransactionModel};

verus! {

/// The ledger holds a location entry under `id`.
pub open spec fn is_indexed(m: LedgerModel, id: Seq<u8>) -> bool {
    exists|i: int| 0 <= i < m.locations.len() && #[trigger] m.locations[i].0 == id
}

/// Why a candidate is not admitted: its identifier is already indexed, or it
/// conflicts with the ledger or with itself, or it is malformed.
pub open spec fn turned_away(m: LedgerModel, t: TransactionModel) -> bool {
    is_indexed(m, t.id) || conflict_outcome(m, t) != Ok::<bool, LedgerError>(false)
}

/// Some value occurs in both lists.
pub open spec fn shares_value(a: Seq<Seq<u8>>, b: Seq<Seq<u8>>) -> bool {
    exists|i: int, j: int| 0 <= i < a.len() && 0 <= j < b.len() && a[i] == b[j]
}

/// Each value of `values` is among `recorded`.
pub open spec fn all_recorded(values: Seq<Seq<u8>>, recorded: Seq<Seq<u8>>) -> bool {
    forall|k: int| 0 <= k < values.len() ==> recorded.contains(#[trigger] values[k])
}

/// `m2` extends `m`: the location column and the recorded values only grow,
/// and the blocks stay.
pub open spec fn extends(m: LedgerModel, m2: LedgerModel) -> bool {
    &&& m.locations.len() <= m2.locations.len()
    &&& m2.locations.subrange(0, m.locations.len() as int) == m.locations
    &&& m2.blocks == m.blocks
    &&& forall|v: Seq<u8>| m.serial_numbers.contains(v) ==> m2.serial_numbers.contains(v)
    &&& forall|v: Seq<u8>| m.commitments.contains(v) ==> m2.commitments.contains(v)
}

/// A candidate turned away stays turned away as the ledger grows.
pub proof fn lemma_turned_away_grows(m: LedgerModel, m2: LedgerModel, t: TransactionModel)
    requires
        extends(m, m2),
        turned_away(m, t),
    ensures
        turned_away(m2, t),
{
    if is_indexed(m, t.id) {
        let i = choose|i: int| 0 <= i < m.locations.len() && #[trigger] m.locations[i].0 == t.id;
        assert(m2.locations.subrange(0, m.locations.len() as int)[i] == m2.locations[i]);
        assert(m2.locations[i].0 == t.id);
    } else {
        lemma_no_conflict_exactly(m, t);
        lemma_no_conflict_exactly(m2, t);
    }
}

/// A transaction one of whose serial numbers or commitments is recorded in
/// the ledger is never admissible.
pub proof fn lemma_recorded_value_conflicts(m: LedgerModel, t: TransactionModel)
    requires
        shares_value(t.serial_numbers, m.serial_numbers) || shares_value(
            t.commitments,
            m.commitments,
        ),
    ensures
        conflict_outcome(m, t) != Ok::<bool, LedgerError>(false),
{
    lemma_no_conflict_exactly(m, t);
    if shares_value(t.serial_numbers, m.serial_numbers) {
        let (i, j) = choose|i: int, j: int|
            0 <= i < t.serial_numbers.len() && 0 <= j < m.serial_numbers.len()
                && t.serial_numbers[i] == m.serial_numbers[j];
        assert(m.serial_numbers.contains(t.serial_numbers[i]));
    } else {
        let (i, j) = choose|i: int, j: int|
            0 <= i < t.commitments.len() && 0 <= j < m.commitments.len() && t.commitments[i]
                == m.commitments[j];
        assert(m.commitments.contains(t.commitments[i]));
    }
}

/// Of two transactions that share a serial number, once the first is
/// committed and its serial numbers are recorded, the second never passes the
/// conflict check.
pub proof fn lemma_shared_serial_number_excludes(
    m: LedgerModel,
    first: TransactionModel,
    second: TransactionModel,
)
    requires
        all_recorded(first.serial_numbers, m.serial_numbers),
        shares_value(first.serial_numbers, second.serial_numbers),
    ensures
        conflict_outcome(m, second) != Ok::<bool, LedgerError>(false),
{
    let (x, y) = choose|x: int, y: int|
        0 <= x < first.serial_numbers.len() && 0 <= y < second.serial_numbers.len()
            && first.serial_numbers[x] == second.serial_numbers[y];
    assert(m.serial_numbers.contains(first.serial_numbers[x]));
    let j = choose|j: int| 0 <= j < m.serial_numbers.len() && m.serial_numbers[j] == first.serial_numbers[x];
    assert(shares_value(second.serial_numbers, m.serial_numbers)) by {
        assert(second.serial_numbers[y] == m.serial_numbers[j]);
    }
    lemma_recorded_value_conflicts(m, second);
}

/// Appends the fixed-size representations of well-formed values.
fn record_values(recorded: &mut Vec<[u8; 32]>, values: &Vec<Vec<u8>>)
    requires
        forall|k: int| 0 <= k < values@.len() ==> (#[trigger] values@[k])@.len() == VALUE_LEN,
    ensures
        fixed_values_model(final(recorded)@) == fixed_values_model(old(recorded)@)
            + values.deep_view(),
{
    let ghost start = fixed_values_model(recorded@);
    let mut i: usize = 0;
    while i < values.len()
        invariant
            i <= values@.len(),
            forall|k: int| 0 <= k < values@.len() ==> (#[trigger] values@[k])@.len() == VALUE_LEN,
            fixed_values_model(recorded@) == start + values.deep_view().subrange(0, i as int),
        decreases values@.len() - i,
    {
        let ghost before = recorded@;
        match to_fixed(values[i].as_slice()) {
            Some(a) => {
                recorded.push(a);
                assert(values.deep_view()[i as int] =~= values@[i as int]@);
                assert(fixed_values_model(recorded@) =~= fixed_values_model(before).push(a@));
                assert(values.deep_view().subrange(0, i + 1) =~= values.deep_view().subrange(
                    0,
                    i as int,
                ).push(values@[i as int]@));
            },
            None => {
                assert(values@[i as int]@.len() == VALUE_LEN);
            },
        }
        i = i + 1;
    }
    assert(values.deep_view().subrange(0, i as int) =~= values.deep_view());
}

/// Fetching by an identifier whose transaction the ledger holds gives the
/// same result once the location column and the blocks have grown at their
/// ends.
proof fn lemma_fetch_preserved(m: LedgerModel, m2: LedgerModel, id: Seq<u8>)
    requires
        m.locations.len() <= m2.locations.len(),
        m2.locations.subrange(0, m.locations.len() as int) == m.locations,
        m.blocks.len() <= m2.blocks.len(),
        m2.blocks.subrange(0, m.blocks.len() as int) == m.blocks,
        fetch_outcome(m, id) matches Ok(Some(_)),
    ensures
        fetch_outcome(m2, id) == fetch_outcome(m, id),
{
    let i = choose|i: int| is_first_entry(m.locations, id, i);
    assert forall|j: int| 0 <= j <= i implies m2.locations[j] == m.locations[j] by {
        assert(m2.locations.subrange(0, m.locations.len() as int)[j] == m2.locations[j]);
    }
    assert(is_first_entry(m2.locations, id, i));
    lemma_first_entry_at(m.locations, id, i);
    lemma_first_entry_at(m2.locations, id, i);
    let loc = crate::location::decode_location(m.locations[i].1).unwrap();
    let b = choose|b: int| is_first_entry(m.blocks, loc.0, b);
    assert forall|j: int| 0 <= j <= b implies m2.blocks[j] == m.blocks[j] by {
        assert(m2.blocks.subrange(0, m.blocks.len() as int)[j] == m2.blocks[j]);
    }
    assert(is_first_entry(m2.blocks, loc.0, b));
    lemma_first_entry_at(m.blocks, loc.0, b);
    lemma_first_entry_at(m2.blocks, loc.0, b);
}

impl Ledger {
    /// Admits the candidates of a new block in order, as one round. A
    /// candidate is admitted where its identifier is not yet indexed and it
    /// does not conflict with the ledger as the candidates before it left it;
    /// an admitted candidate has its serial numbers and commitments recorded,
    /// its location indexed, and takes the next position in the block.
    /// Returns which candidates were admitted; `None`, with the ledger
    /// unchanged, where a block with this hash is already committed.
    pub fn admit_block(&mut self, block_hash: [u8; 32], candidates: &Vec<Transaction>) -> (r: Option<
        Vec<bool>,
    >)
        requires
            candidates@.len() <= u32::MAX,
        ensures
            r is None <==> exists|b: int|
                0 <= b < old(self)@.blocks.len() && #[trigger] old(self)@.blocks[b].0 == block_hash@,
            r is None ==> final(self)@ == old(self)@,
            r matches Some(admitted) ==> {
                &&& admitted@.len() == candidates@.len()
                &&& forall|k: int|
                    0 <= k < candidates@.len() && #[trigger] admitted@[k] ==> fetch_outcome(
                        final(self)@,
                        candidates@[k]@.id,
                    ) == Ok::<Option<TransactionModel>, LedgerError>(Some(candidates@[k]@))
                &&& forall|k: int|
                    0 <= k < candidates@.len() && #[trigger] admitted@[k] ==> all_recorded(
                        candidates@[k]@.serial_numbers,
                        final(self)@.serial_numbers,
                    ) && all_recorded(candidates@[k]@.commitments, final(self)@.commitments)
                &&& forall|k1: int, k2: int|
                    0 <= k1 < k2 < candidates@.len() && #[trigger] admitted@[k1]
                        && #[trigger] admitted@[k2] ==> !shares_value(
                        candidates@[k1]@.serial_numbers,
                        candidates@[k2]@.serial_numbers,
                    ) && !shares_value(candidates@[k1]@.commitments, candidates@[k2]@.commitments)
                &&& forall|k: int|
                    0 <= k < candidates@.len() && !(#[trigger] admitted@[k]) ==> turned_away(
                        final(self)@,
                        candidates@[k]@,
                    )
                &&& forall|id: Seq<u8>|
                    (#[trigger] fetch_outcome(old(self)@, id) matches Ok(Some(_))) ==> fetch_outcome(
                        final(self)@,
                        id,
                    ) == fetch_outcome(old(self)@, id)
            },
    {
        match self.find_block(block_hash.as_slice()) {
            Some(_) => {
                return None;
            },
            None => {},
        }
        let ghost o = self@;
        assert(o.locations.subrange(0, o.locations.len() as int) =~= o.locations);
        let ghost mut slot: Seq<int> = Seq::empty();
        let mut admitted: Vec<bool> = Vec::new();
        let mut txs: Vec<Transaction> = Vec::new();
        let mut i: usize = 0;
        while i < candidates.len()
            invariant
                i <= candidates@.len(),
                candidates@.len() <= u32::MAX,
                admitted@.len() == i,
                slot.len() == i,
                txs@.len() <= i,
                forall|b: int| 0 <= b < o.blocks.len() ==> #[trigger] o.blocks[b].0 != block_hash@,
                extends(o, self@),
                self@.locations.len() == o.locations.len() + txs@.len(),
                forall|p: int|
                    0 <= p < txs@.len() ==> #[trigger] self@.locations[o.locations.len() + p] == (
                    txs@[p]@.id,
                    location_record((block_hash@, p as u32)),
                ),
                forall|p: int, j: int|
                    0 <= p < txs@.len() && 0 <= j < o.locations.len() + p ==> #[trigger] self@.locations[j].0
                        != #[trigger] txs@[p]@.id,
                forall|k: int|
                    0 <= k < i && #[trigger] admitted@[k] ==> 0 <= slot[k] < txs@.len() && txs@[slot[k]]@
                        == candidates@[k]@,
                forall|k: int|
                    0 <= k < i && #[trigger] admitted@[k] ==> all_recorded(
                        candidates@[k]@.serial_numbers,
                        self@.serial_numbers,
                    ) && all_recorded(candidates@[k]@.commitments, self@.commitments),
                forall|k1: int, k2: int|
                    0 <= k1 < k2 < i && #[trigger] admitted@[k1] && #[trigger] admitted@[k2] ==> !shares_value(
                        candidates@[k1]@.serial_numbers,
                        candidates@[k2]@.serial_numbers,
                    ) && !shares_value(candidates@[k1]@.commitments, candidates@[k2]@.commitments),
                forall|k: int|
                    0 <= k < i && !(#[trigger] admitted@[k]) ==> turned_away(self@, candidates@[k]@),
            decreases candidates@.len() - i,
        {
            let ghost m = self@;
            let candidate = &candidates[i];
            let mut accept = false;
            if self.find_location(candidate.id.as_slice()).is_none() {
                match self.transaction_conflicts(candidate) {
                    Ok(false) => {
                        accept = true;
                    },
                    _ => {},
                }
            }
            if accept {
                proof {
                    lemma_no_conflict_exactly(m, candidate@);
                }
                let position = txs.len() as u32;
                let location = TransactionLocation { block_hash, index: position };
                self.locations.push((copy_bytes(candidate.id.as_slice()), location.to_bytes_le()));
                assert forall|k: int| 0 <= k < candidate.serial_numbers@.len() implies (
                #[trigger] candidate.serial_numbers@[k])@.len() == VALUE_LEN by {
                    assert(candidate@.serial_numbers[k].len() == VALUE_LEN);
                }
                assert forall|k: int| 0 <= k < candidate.commitments@.len() implies (
                #[trigger] candidate.commitments@[k])@.len() == VALUE_LEN by {
                    assert(candidate@.commitments[k].len() == VALUE_LEN);
                }
                record_values(&mut self.serial_numbers, &candidate.serial_numbers);
                record_values(&mut self.commitments, &candidate.commitments);
                txs.push(candidate.clone());
                admitted.push(true);
                proof {
                    slot = slot.push(txs@.len() - 1);
                    let m2 = self@;
                    assert(m2.locations == m.locations.push((candidate@.id, location_record((block_hash@, position)))));
                    assert(m2.serial_numbers == m.serial_numbers + candidate@.serial_numbers);
                    assert(m2.commitments == m.commitments + candidate@.commitments);
                    assert forall|v: Seq<u8>| m.serial_numbers.contains(v) implies m2.serial_numbers.contains(v) by {
                        let j = choose|j: int| 0 <= j < m.serial_numbers.len() && m.serial_numbers[j] == v;
                        assert(m2.serial_numbers[j] == v);
                    }
                    assert forall|v: Seq<u8>| m.commitments.contains(v) implies m2.commitments.contains(v) by {
                        let j = choose|j: int| 0 <= j < m.commitments.len() && m.commitments[j] == v;
                        assert(m2.commitments[j] == v);
                    }
                    assert(m2.locations.subrange(0, m.locations.len() as int) =~= m.locations);
                    assert(extends(m, m2));
                    assert(m2.locations.subrange(0, o.locations.len() as int) =~= o.locations);
                    assert(extends(o, m2));
                    let c = candidate@;
                    assert forall|k: int| 0 <= k < c.serial_numbers.len() implies m2.serial_numbers.contains(#[trigger] c.serial_numbers[k]) by {
                        assert(m2.serial_numbers[m.serial_numbers.len() + k] == c.serial_numbers[k]);
                    }
                    assert forall|k: int| 0 <= k < c.commitments.len() implies m2.commitments.contains(#[trigger] c.commitments[k]) by {
                        assert(m2.commitments[m.commitments.len() + k] == c.commitments[k]);
                    }
                    assert forall|k: int| 0 <= k < i + 1 && !(#[trigger] admitted@[k]) implies turned_away(m2, candidates@[k]@) by {
                        lemma_turned_away_grows(m, m2, candidates@[k]@);
                    }
                    assert forall|k1: int, k2: int|
                        0 <= k1 < k2 < i + 1 && #[trigger] admitted@[k1] && #[trigger] admitted@[k2] implies !shares_value(
                            candidates@[k1]@.serial_numbers,
                            candidates@[k2]@.serial_numbers,
                        ) && !shares_value(candidates@[k1]@.commitments, candidates@[k2]@.commitments) by {
                        if k2 == i {
                            let a = candidates@[k1]@;
                            assert(all_recorded(a.serial_numbers, m.serial_numbers));
                            assert(all_recorded(a.commitments, m.commitments));
                            if shares_value(a.serial_numbers, c.serial_numbers) {
                                let (x, y) = choose|x: int, y: int| 0 <= x < a.serial_numbers.len() && 0 <= y < c.serial_numbers.len() && a.serial_numbers[x] == c.serial_numbers[y];
                                assert(m.serial_numbers.contains(a.serial_numbers[x]));
                                assert(c.serial_numbers[y].len() == VALUE_LEN && !m.serial_numbers.contains(c.serial_numbers[y]));
                            }
                            if shares_value(a.commitments, c.commitments) {
                                let (x, y) = choose|x: int, y: int| 0 <= x < a.commitments.len() && 0 <= y < c.commitments.len() && a.commitments[x] == c.commitments[y];
                                assert(m.commitments.contains(a.commitments[x]));
                                assert(c.commitments[y].len() == VALUE_LEN && !m.commitments.contains(c.commitments[y]));
                            }
                        }
                    }
                    assert forall|k: int| 0 <= k < i + 1 && #[trigger] admitted@[k] implies all_recorded(
                        candidates@[k]@.serial_numbers,
                        m2.serial_numbers,
                    ) && all_recorded(candidates@[k]@.commitments, m2.commitments) by {
                        if k < i {
                            let a = candidates@[k]@;
                            assert forall|x: int| 0 <= x < a.serial_numbers.len() implies m2.serial_numbers.contains(#[trigger] a.serial_numbers[x]) by {
                                assert(m.serial_numbers.contains(a.serial_numbers[x]));
                            }
                            assert forall|x: int| 0 <= x < a.commitments.len() implies m2.commitments.contains(#[trigger] a.commitments[x]) by {
                                assert(m.commitments.contains(a.commitments[x]));
                            }
                        }
                    }
                }
            } else {
                admitted.push(false);
                proof {
                    slot = slot.push(0);
                    assert(turned_away(m, candidate@));
                }
            }
            i = i + 1;
        }
        let ghost before_block = self@;
        self.blocks.push(Block { hash: block_hash, transactions: txs });
        proof {
            let f = self@;
            assert(f.blocks == o.blocks.push(block_model(self.blocks@[o.blocks.len() as int])));
            assert(f.blocks.subrange(0, o.blocks.len() as int) =~= o.blocks);
            assert(f.locations.subrange(0, o.locations.len() as int) =~= o.locations);
            assert forall|id: Seq<u8>| (#[trigger] fetch_outcome(o, id) matches Ok(Some(_))) implies fetch_outcome(f, id) == fetch_outcome(o, id) by {
                lemma_fetch_preserved(o, f, id);
            }
            let nb = o.blocks.len() as int;
            assert(is_first_entry(f.blocks, block_hash@, nb));
            lemma_first_entry_at(f.blocks, block_hash@, nb);
            assert forall|k: int| 0 <= k < candidates@.len() && #[trigger] admitted@[k] implies fetch_outcome(f, candidates@[k]@.id) == Ok::<Option<TransactionModel>, LedgerError>(Some(candidates@[k]@)) by {
                let p = slot[k];
                let id = candidates@[k]@.id;
                assert(is_first_entry(f.locations, id, o.locations.len() + p));
                lemma_first_entry_at(f.locations, id, o.locations.len() + p);
                lemma_location_round_trip((block_hash@, p as u32));
            }
            assert forall|k: int| 0 <= k < candidates@.len() && !(#[trigger] admitted@[k]) implies turned_away(f, candidates@[k]@) by {
                assert(turned_away(before_block, candidates@[k]@));
            }
        }
        Some(admitted)
    }
}

} // verus!
