use blockfile::block_id::BlockId;
use std::collections::HashMap;

#[test]
fn equal_iff_both_fields_match() {
    let a = BlockId { filename: String::from("data"), number: 3 };
    let b = BlockId { filename: String::from("data"), number: 3 };
    let other_number = BlockId { filename: String::from("data"), number: 4 };
    let other_file = BlockId { filename: String::from("log"), number: 3 };
    assert_eq!(a, b);
    assert_ne!(a, other_number);
    assert_ne!(a, other_file);
}

#[test]
fn keys_a_map_by_value() {
    let mut pool: HashMap<BlockId, u32> = HashMap::new();
    pool.insert(BlockId { filename: String::from("data"), number: 0 }, 7);
    pool.insert(BlockId { filename: String::from("data"), number: 1 }, 8);
    let probe = BlockId { filename: String::from("data"), number: 0 };
    assert_eq!(pool.get(&probe), Some(&7));
    assert_eq!(pool.len(), 2);
}

#[test]
fn clone_keeps_both_fields() {
    let a = BlockId { filename: String::from("data"), number: 9 };
    let c = a.clone();
    assert_eq!(a, c);
    assert_eq!(c.filename, "data");
    assert_eq!(c.number, 9);
}

#[test]
fn negative_numbers_are_representable() {
    let a = BlockId { filename: String::from("data"), number: -1 };
    let b = BlockId { filename: String::from("data"), number: -1 };
    assert_eq!(a, b);
}
