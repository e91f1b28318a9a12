//! Completion and assembly of the ordered-chunk accumulator.

use pspdrp::reassembly::ReassemblyBuffer;

#[test]
fn completion_requires_every_index() {
    let mut b = ReassemblyBuffer::new(3);
    assert!(!b.insert(2, vec![7, 8, 9]));
    assert!(!b.insert(0, vec![1, 2, 3]));
    assert!(!b.is_complete());
    assert!(b.insert(1, vec![4, 5, 6]));
    assert!(b.is_complete());
    assert_eq!(b.assemble(), vec![1, 2, 3, 4, 5, 6, 7, 8, 9]);
}

#[test]
fn duplicate_insert_does_not_double_count() {
    let mut b = ReassemblyBuffer::new(3);
    assert!(!b.insert(0, vec![1]));
    assert!(!b.insert(0, vec![9]));
    assert!(!b.insert(0, vec![1]));
    assert!(!b.is_complete());
    assert_eq!(b.received_count, 1);
    // The repeated index keeps the latest data.
    assert!(!b.insert(1, vec![2]));
    assert!(b.insert(2, vec![3]));
    assert_eq!(b.assemble(), vec![1, 2, 3]);
}

#[test]
fn out_of_range_index_is_ignored() {
    let mut b = ReassemblyBuffer::new(2);
    assert!(!b.insert(2, vec![1]));
    assert!(!b.insert(60000, vec![1]));
    assert_eq!(b.received_count, 0);
    assert!(!b.is_complete());
}

#[test]
fn zero_chunk_transfer_is_complete_at_once() {
    let b = ReassemblyBuffer::new(0);
    assert!(b.is_complete());
    assert_eq!(b.assemble(), Vec::<u8>::new());
}

#[test]
fn incomplete_assembly_skips_missing_slots() {
    let mut b = ReassemblyBuffer::new(3);
    b.insert(0, vec![1, 1]);
    b.insert(2, vec![3, 3]);
    assert!(!b.is_complete());
    assert_eq!(b.assemble(), vec![1, 1, 3, 3]);
}
