use norm::MatchedRanges;

fn ranges() -> MatchedRanges {
    MatchedRanges::default()
}

#[test]
fn matched_ranges_insert_same_start_increasing_end() {
    let mut ranges = ranges();
    ranges.insert(0..1);
    ranges.insert(0..2);
    ranges.insert(0..3);
    assert_eq!(ranges.as_slice(), [0..3]);
    ranges.insert(0..2);
    assert_eq!(ranges.as_slice(), [0..3]);
}

#[test]
fn matched_ranges_insert_consecutive_1() {
    let mut ranges = ranges();
    ranges.insert(0..1);
    ranges.insert(1..2);
    ranges.insert(2..3);
    assert_eq!(ranges.as_slice(), [0..3]);
}

#[test]
fn matched_ranges_insert_consecutive_2() {
    let mut ranges = ranges();
    ranges.insert(2..3);
    ranges.insert(1..2);
    ranges.insert(0..1);
    assert_eq!(ranges.as_slice(), [0..3]);
}

#[test]
fn matched_ranges_insert_fill_gap() {
    let mut ranges = ranges();
    ranges.insert(0..1);
    ranges.insert(2..3);
    assert_eq!(ranges.as_slice(), [0..1, 2..3]);
    ranges.insert(1..2);
    assert_eq!(ranges.as_slice(), [0..3]);
}

#[test]
fn matched_ranges_insert_extend_end() {
    let mut ranges = ranges();
    ranges.insert(0..2);
    ranges.insert(4..6);
    ranges.insert(1..3);
    assert_eq!(ranges.as_slice(), [0..3, 4..6]);
}

#[test]
fn matched_ranges_insert_extend_start() {
    let mut ranges = ranges();
    ranges.insert(0..2);
    ranges.insert(4..6);
    ranges.insert(3..5);
    assert_eq!(ranges.as_slice(), [0..2, 3..6]);
}

#[test]
fn matched_ranges_insert_in_gap() {
    let mut ranges = ranges();
    ranges.insert(0..4);
    ranges.insert(6..8);
    ranges.insert(10..14);
    assert_eq!(ranges.as_slice(), [0..4, 6..8, 10..14]);
}

#[test]
fn matched_ranges_insert_smaller_1() {
    let mut ranges = ranges();
    ranges.insert(3..8);
    ranges.insert(4..7);
    assert_eq!(ranges.as_slice(), [3..8]);
    ranges.insert(5..6);
    assert_eq!(ranges.as_slice(), [3..8]);
}

#[test]
fn matched_ranges_insert_smaller_2() {
    let mut ranges = ranges();
    ranges.insert(1..2);
    ranges.insert(3..8);
    ranges.insert(4..7);
    assert_eq!(ranges.as_slice(), [1..2, 3..8]);
    ranges.insert(5..6);
    assert_eq!(ranges.as_slice(), [1..2, 3..8]);
}

#[test]
fn matched_ranges_insert_smaller_3() {
    let mut ranges = ranges();
    ranges.insert(10..11);
    ranges.insert(3..8);
    ranges.insert(4..7);
    assert_eq!(ranges.as_slice(), [3..8, 10..11]);
    ranges.insert(5..6);
    assert_eq!(ranges.as_slice(), [3..8, 10..11]);
}

#[test]
fn matched_ranges_insert_smaller_4() {
    let mut ranges = ranges();
    ranges.insert(1..2);
    ranges.insert(10..11);
    ranges.insert(3..8);
    ranges.insert(4..7);
    assert_eq!(ranges.as_slice(), [1..2, 3..8, 10..11]);
    ranges.insert(5..6);
    assert_eq!(ranges.as_slice(), [1..2, 3..8, 10..11]);
}

#[test]
fn matched_ranges_insert_swallowing_an_earlier_range() {
    let mut ranges = ranges();
    ranges.insert(1..3);
    ranges.insert(0..4);
    assert_eq!(ranges.as_slice(), [0..4]);
}

#[test]
fn matched_ranges_insert_swallowing_several_ranges() {
    let mut ranges = ranges();
    ranges.insert(1..2);
    ranges.insert(4..5);
    ranges.insert(7..8);
    ranges.insert(12..13);
    ranges.insert(0..10);
    assert_eq!(ranges.as_slice(), [0..10, 12..13]);
    ranges.insert(11..12);
    assert_eq!(ranges.as_slice(), [0..10, 11..13]);
    ranges.insert(3..11);
    assert_eq!(ranges.as_slice(), [0..13]);
}
