use snarkos_storage::{Block, Ledger, LedgerError, Transaction, TransactionLocation};

fn value(tag: u8) -> Vec<u8> {
    vec![tag; 32]
}

fn tx(id: u8, serial_numbers: Vec<Vec<u8>>, commitments: Vec<Vec<u8>>) -> Transaction {
    Transaction::new(vec![id, id], serial_numbers, commitments, vec![0xee, id])
}

fn ledger_with(serial_numbers: Vec<u8>, commitments: Vec<u8>) -> Ledger {
    let mut ledger = Ledger::new();
    let carrier = tx(
        200,
        serial_numbers.into_iter().map(value).collect(),
        commitments.into_iter().map(value).collect(),
    );
    assert_eq!(ledger.admit_block([9u8; 32], &vec![carrier]), Some(vec![true]));
    ledger
}

#[test]
fn committed_transaction_is_fetched_by_its_location() {
    let mut ledger = Ledger::new();
    let a = tx(1, vec![value(1)], vec![value(2)]);
    let b = tx(2, vec![value(3)], vec![value(4)]);
    assert_eq!(ledger.admit_block([7u8; 32], &vec![a.clone(), b.clone()]), Some(vec![true, true]));

    let loc = ledger.get_transaction_location(&b.id).unwrap().unwrap();
    assert_eq!(loc, TransactionLocation { block_hash: [7u8; 32], index: 1 });
    let fetched = ledger.get_transaction(&b.id).unwrap().unwrap();
    assert_eq!(fetched.id, b.id);
    assert_eq!(fetched.serial_numbers, b.serial_numbers);
    assert_eq!(fetched.commitments, b.commitments);
    assert_eq!(fetched.encoding, b.encoding);
    assert_eq!(ledger.get_transaction_bytes(&a.id), Ok(vec![0xee, 1]));
}

#[test]
fn unknown_id_has_no_location() {
    let ledger = Ledger::new();
    assert_eq!(ledger.get_transaction_location(&[1, 2, 3]), Ok(None));
    assert!(matches!(ledger.get_transaction(&[1, 2, 3]), Ok(None)));
}

#[test]
fn bytes_of_unknown_id_fail_with_hex_id() {
    let ledger = Ledger::new();
    assert_eq!(
        ledger.get_transaction_bytes(&[0x0a, 0xff, 0x00]),
        Err(LedgerError::InvalidTransactionId("0aff00".to_string()))
    );
}

#[test]
fn malformed_location_record_is_corruption() {
    let ledger = Ledger {
        locations: vec![(vec![5], vec![1, 2, 3])],
        blocks: vec![],
        serial_numbers: vec![],
        commitments: vec![],
    };
    assert_eq!(ledger.get_transaction_location(&[5]), Err(LedgerError::Corruption));
    assert_eq!(ledger.get_transaction_bytes(&[5]), Err(LedgerError::Corruption));
}

#[test]
fn location_of_missing_block_is_corruption() {
    let loc = TransactionLocation { block_hash: [3u8; 32], index: 0 };
    let ledger = Ledger {
        locations: vec![(vec![5], loc.to_bytes_le())],
        blocks: vec![],
        serial_numbers: vec![],
        commitments: vec![],
    };
    assert_eq!(ledger.get_transaction_location(&[5]), Ok(Some(loc)));
    assert!(matches!(ledger.get_transaction(&[5]), Err(LedgerError::Corruption)));
}

#[test]
fn location_past_block_end_is_corruption() {
    let loc = TransactionLocation { block_hash: [3u8; 32], index: 1 };
    let ledger = Ledger {
        locations: vec![(vec![5], loc.to_bytes_le())],
        blocks: vec![Block { hash: [3u8; 32], transactions: vec![tx(5, vec![], vec![])] }],
        serial_numbers: vec![],
        commitments: vec![],
    };
    assert!(matches!(ledger.get_transaction(&[5]), Err(LedgerError::Corruption)));
}

#[test]
fn location_record_layout() {
    let loc = TransactionLocation { block_hash: [0xab; 32], index: 0x0102_0304 };
    let bytes = loc.to_bytes_le();
    assert_eq!(bytes.len(), 36);
    assert_eq!(&bytes[..32], &[0xab; 32][..]);
    assert_eq!(&bytes[32..], &[4, 3, 2, 1][..]);
    assert_eq!(TransactionLocation::read_le(&bytes), Some(loc));
    assert_eq!(TransactionLocation::read_le(&bytes[..35]), None);
    let mut longer = bytes.clone();
    longer.push(0);
    assert_eq!(TransactionLocation::read_le(&longer), None);
}

#[test]
fn repeated_serial_number_conflicts() {
    let ledger = Ledger::new();
    let t = tx(1, vec![value(1), value(1)], vec![value(2)]);
    assert_eq!(ledger.transaction_conflicts(&t), Ok(true));
}

#[test]
fn repeated_commitment_conflicts() {
    let ledger = Ledger::new();
    let t = tx(1, vec![value(1)], vec![value(2), value(2)]);
    assert_eq!(ledger.transaction_conflicts(&t), Ok(true));
}

#[test]
fn recorded_serial_number_conflicts() {
    let ledger = ledger_with(vec![1], vec![]);
    let t = tx(1, vec![value(5), value(1)], vec![value(2)]);
    assert_eq!(ledger.transaction_conflicts(&t), Ok(true));
}

#[test]
fn recorded_commitment_conflicts() {
    let ledger = ledger_with(vec![], vec![2]);
    let t = tx(1, vec![value(5)], vec![value(3), value(2)]);
    assert_eq!(ledger.transaction_conflicts(&t), Ok(true));
}

#[test]
fn fresh_transaction_does_not_conflict() {
    let ledger = ledger_with(vec![1], vec![2]);
    let t = tx(1, vec![value(3), value(4)], vec![value(5), value(6)]);
    assert_eq!(ledger.transaction_conflicts(&t), Ok(false));
    let empty = tx(2, vec![], vec![]);
    assert_eq!(ledger.transaction_conflicts(&empty), Ok(false));
}

#[test]
fn malformed_serial_number_is_rejected() {
    let ledger = Ledger::new();
    let t = tx(1, vec![vec![1, 2, 3]], vec![value(2)]);
    assert_eq!(ledger.transaction_conflicts(&t), Err(LedgerError::MalformedSerialNumber));
}

#[test]
fn malformed_commitment_is_rejected() {
    let ledger = Ledger::new();
    let t = tx(1, vec![value(1)], vec![vec![0u8; 33]]);
    assert_eq!(ledger.transaction_conflicts(&t), Err(LedgerError::MalformedCommitment));
}

#[test]
fn checks_stop_at_first_finding() {
    let ledger = ledger_with(vec![1], vec![]);
    let recorded_first = tx(1, vec![value(1), vec![9]], vec![]);
    assert_eq!(ledger.transaction_conflicts(&recorded_first), Ok(true));
    let malformed_first = tx(2, vec![vec![9], value(1)], vec![]);
    assert_eq!(ledger.transaction_conflicts(&malformed_first), Err(LedgerError::MalformedSerialNumber));
    let repeated_malformed = tx(3, vec![vec![9], vec![9]], vec![]);
    assert_eq!(ledger.transaction_conflicts(&repeated_malformed), Ok(true));
}

#[test]
fn round_admits_one_of_two_sharing_a_serial_number() {
    let mut ledger = Ledger::new();
    let first = tx(1, vec![value(1), value(2)], vec![value(10)]);
    let second = tx(2, vec![value(3), value(1)], vec![value(11)]);
    let third = tx(3, vec![value(4)], vec![value(12)]);
    let admitted = ledger.admit_block([1u8; 32], &vec![first.clone(), second.clone(), third.clone()]);
    assert_eq!(admitted, Some(vec![true, false, true]));
    assert_eq!(ledger.transaction_conflicts(&second), Ok(true));
    assert!(matches!(ledger.get_transaction(&second.id), Ok(None)));
    let loc = ledger.get_transaction_location(&third.id).unwrap().unwrap();
    assert_eq!(loc.index, 1);
}

#[test]
fn round_on_committed_block_hash_is_refused() {
    let mut ledger = ledger_with(vec![1], vec![]);
    assert_eq!(ledger.admit_block([9u8; 32], &vec![tx(1, vec![value(5)], vec![])]), None);
    assert!(matches!(ledger.get_transaction(&[1, 1]), Ok(None)));
}

#[test]
fn indexed_id_is_not_admitted_again() {
    let mut ledger = Ledger::new();
    let a = tx(1, vec![], vec![]);
    assert_eq!(ledger.admit_block([1u8; 32], &vec![a.clone(), a.clone()]), Some(vec![true, false]));
    assert_eq!(ledger.admit_block([2u8; 32], &vec![a.clone()]), Some(vec![false]));
    let loc = ledger.get_transaction_location(&a.id).unwrap().unwrap();
    assert_eq!(loc.block_hash, [1u8; 32]);
}
