use local_source::win_sparse::{
    apply_sparseness, enumerate_allocated_ranges, is_sparse_file, punch_hole, RangeReply,
    RangeScan, ERROR_MORE_DATA,
};

fn answer(ok: bool, last_error: u32, told: &[(i64, i64)]) -> RangeReply {
    let mut records = vec![(0i64, 0i64); 256];
    records[..told.len()].copy_from_slice(told);
    RangeReply {
        ok,
        last_error,
        records,
        bytes_returned: 16 * told.len() as u32,
    }
}

#[test]
fn is_sparse_file_distinguishes_flagged_from_plain() {
    assert!(!is_sparse_file(0x20));
    assert!(is_sparse_file(0x20 | 0x200));
}

#[test]
fn enumerate_allocated_ranges_finds_punched_holes() {
    let file_size: u64 = 1024 * 1024;
    let mut scan = RangeScan::new(file_size);
    assert_eq!(scan.query(), Some((0, 1024 * 1024)));
    scan.reply(&answer(true, 0, &[(0, 262144), (524288, 524288)])).unwrap();
    assert_eq!(scan.query(), None);
    assert_eq!(
        enumerate_allocated_ranges(scan),
        vec![(0, 262144), (524288, 524288)]
    );
}

#[test]
fn enumerate_returns_empty_for_a_zero_byte_file() {
    let scan = RangeScan::new(0);
    assert_eq!(scan.query(), None);
    assert!(enumerate_allocated_ranges(scan).is_empty());
}

#[test]
fn scan_goes_on_where_the_buffer_ended_and_joins_what_it_split() {
    let mut scan = RangeScan::new(1000);
    scan.reply(&answer(false, ERROR_MORE_DATA, &[(0, 10), (20, 30)])).unwrap();
    assert_eq!(scan.query(), Some((50, 950)));
    scan.reply(&answer(false, ERROR_MORE_DATA, &[(50, 50), (200, 1)])).unwrap();
    assert_eq!(scan.query(), Some((201, 799)));
    scan.reply(&answer(true, 0, &[])).unwrap();
    assert_eq!(scan.query(), None);
    assert_eq!(
        enumerate_allocated_ranges(scan),
        vec![(0, 10), (20, 80), (200, 1)]
    );
}

#[test]
fn scan_sorts_what_comes_out_of_order() {
    let mut scan = RangeScan::new(1000);
    scan.reply(&answer(true, 0, &[(100, 10), (0, 5), (5, 5)])).unwrap();
    assert_eq!(enumerate_allocated_ranges(scan), vec![(0, 10), (100, 10)]);
}

#[test]
fn scan_hands_errors_back() {
    let mut scan = RangeScan::new(1000);
    assert_eq!(scan.reply(&answer(false, 5, &[(0, 5)])), Err(5));
    assert_eq!(scan.query(), Some((0, 1000)));
    assert!(enumerate_allocated_ranges(scan).is_empty());
}

#[test]
fn apply_sparseness_round_trips_a_known_extent_layout() {
    // Allocated only at [0, 64 KB) + [512 KB, 64 KB): punches at [64 KB, 512 KB) and
    // [576 KB, 1 MB).
    let file_size: u64 = 1024 * 1024;
    assert_eq!(
        apply_sparseness(&[[0, 65536], [524288, 65536]], file_size),
        vec![(65536, 524288), (589824, 1048576)]
    );
}

#[test]
fn holes_do_not_depend_on_the_order_of_the_extents() {
    assert_eq!(
        apply_sparseness(&[[60, 10], [0, 10], [5, 20]], 100),
        vec![(25, 60), (70, 100)]
    );
}

#[test]
fn holes_stay_below_the_size() {
    assert_eq!(apply_sparseness(&[[150, 10]], 100), vec![(0, 100)]);
    assert_eq!(apply_sparseness(&[[0, 100]], 100), vec![]);
    assert_eq!(apply_sparseness(&[[-10, 15]], 20), vec![(5, 20)]);
    assert_eq!(apply_sparseness(&[], 7), vec![(0, 7)]);
    assert_eq!(apply_sparseness(&[], 0), vec![]);
}

#[test]
fn an_empty_hole_is_not_punched() {
    assert_eq!(punch_hole(3, 3), None);
    assert_eq!(punch_hole(4, 3), None);
    assert_eq!(punch_hole(3, 4), Some((3, 4)));
}
