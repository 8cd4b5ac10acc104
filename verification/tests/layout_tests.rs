use blockfile::layout::{block_offset, file_block_count, is_temp_name, plan_append};
use blockfile::page::Page;

#[test]
fn block_offset_is_number_times_size() {
    assert_eq!(block_offset(0, 400), 0);
    assert_eq!(block_offset(1, 400), 400);
    assert_eq!(block_offset(3, 400), 1200);
    assert_eq!(block_offset(2, 1), 2);
}

#[test]
fn block_count_floors_partial_blocks() {
    assert_eq!(file_block_count(0, 400), 0);
    assert_eq!(file_block_count(399, 400), 0);
    assert_eq!(file_block_count(400, 400), 1);
    assert_eq!(file_block_count(1000, 400), 2);
    assert_eq!(file_block_count(1200, 400), 3);
}

#[test]
fn append_on_fresh_file_takes_block_zero() {
    let (bid, pos) = plan_append("data", 0, 128);
    assert_eq!(bid.filename, "data");
    assert_eq!(bid.number, 0);
    assert_eq!(pos, 0);
    // the zero fill written at that position is a whole zeroed block
    let zeros = Page::new(128);
    assert!(zeros.contents().iter().all(|&b| b == 0));
    assert_eq!(zeros.size(), 128);
}

#[test]
fn sequential_appends_take_consecutive_numbers() {
    let bs: u64 = 100;
    let mut size: u64 = 0;
    for expected in 0..5i32 {
        let (bid, pos) = plan_append("data", size, bs);
        assert_eq!(bid.number, expected);
        assert_eq!(pos, expected as u64 * bs);
        // the append writes one zero block at the end, growing the file
        size = pos + bs;
        assert_eq!(file_block_count(size, bs), (expected + 1) as u64);
    }
}

#[test]
fn append_ignores_trailing_partial_block() {
    // 250 bytes at block size 100: two complete blocks, so the next
    // append allocates block 2 at offset 200, overlapping the tail
    let (bid, pos) = plan_append("data", 250, 100);
    assert_eq!(bid.number, 2);
    assert_eq!(pos, 200);
}

#[test]
fn temp_prefix_detection() {
    assert!(is_temp_name("tempA"));
    assert!(is_temp_name("temp"));
    assert!(is_temp_name("temporary_sort_run_3"));
    assert!(!is_temp_name("keepB"));
    assert!(!is_temp_name("tem"));
    assert!(!is_temp_name(""));
    assert!(!is_temp_name("Temp"));
    assert!(!is_temp_name("my_temp"));
}
