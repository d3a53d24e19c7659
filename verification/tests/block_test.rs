use simpledb_rust::block::BlockId;
use std::collections::HashSet;

#[test]
fn accessors_give_back_what_was_given() {
    let block = BlockId::new("testfile", 2);
    assert_eq!(block.filename(), "testfile");
    assert_eq!(block.number(), 2);
}

#[test]
fn display_form() {
    assert_eq!(BlockId::new("testfile", 2).to_string(), "[file testfile, block 2]");
    assert_eq!(BlockId::new("a.tbl", 0).to_string(), "[file a.tbl, block 0]");
    assert_eq!(BlockId::new("", 10).to_string(), "[file , block 10]");
    assert_eq!(BlockId::new("f", 1234567890).to_string(), "[file f, block 1234567890]");
    assert_eq!(BlockId::new("f", i32::MAX).to_string(), "[file f, block 2147483647]");
}

#[test]
fn equal_by_name_and_number() {
    assert!(BlockId::new("f", 1) == BlockId::new("f", 1));
    assert!(BlockId::new("f", 1) != BlockId::new("f", 2));
    assert!(BlockId::new("f", 1) != BlockId::new("g", 1));
}

#[test]
fn clone_is_equal() {
    let block = BlockId::new("testfile", 7);
    let copy = block.clone();
    assert!(copy == block);
    assert_eq!(copy.filename(), "testfile");
    assert_eq!(copy.number(), 7);
}

#[test]
fn usable_as_a_hash_key() {
    let mut seen = HashSet::new();
    assert!(seen.insert(BlockId::new("f", 1)));
    assert!(!seen.insert(BlockId::new("f", 1)));
    assert!(seen.insert(BlockId::new("f", 2)));
    assert!(seen.contains(&BlockId::new("f", 2)));
    assert!(!seen.contains(&BlockId::new("g", 2)));
}
