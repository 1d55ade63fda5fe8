use babyshark::search::{find_all_subslice_positions, find_next_subslice_from, find_prev_subslice_before, find_subslice};

#[test]
fn finds_subslice() {
    assert_eq!(find_subslice(b"hello world", b"world"), Some(6));
    assert_eq!(find_subslice(b"aaaa", b"aa"), Some(0));
    assert_eq!(find_subslice(b"abcd", b""), Some(0));
    assert_eq!(find_subslice(b"abcd", b"zzz"), None);
}

#[test]
fn finds_next_from() {
    assert_eq!(find_next_subslice_from(b"aaaa", b"aa", 0), Some(0));
    assert_eq!(find_next_subslice_from(b"aaaa", b"aa", 1), Some(1));
    assert_eq!(find_next_subslice_from(b"aaaa", b"aa", 3), None);
    assert_eq!(find_next_subslice_from(b"abcd", b"", 2), Some(2));
    assert_eq!(find_next_subslice_from(b"abcd", b"", 999), Some(4));
}

#[test]
fn finds_prev_before() {
    assert_eq!(find_prev_subslice_before(b"aaaa", b"aa", 4), Some(2));
    assert_eq!(find_prev_subslice_before(b"aaaa", b"aa", 3), Some(1));
    assert_eq!(find_prev_subslice_before(b"aaaa", b"aa", 1), None);
    assert_eq!(find_prev_subslice_before(b"abcd", b"", 2), Some(2));
    assert_eq!(find_prev_subslice_before(b"abcd", b"", 999), Some(4));
}

#[test]
fn find_subslice_basic() {
    assert_eq!(find_subslice(b"abcabc", b"cab"), Some(2));
}

#[test]
fn next_prev_helpers() {
    let h = b"aaaa";
    let n = b"aa";
    assert_eq!(find_next_subslice_from(h, n, 0), Some(0));
    assert_eq!(find_next_subslice_from(h, n, 1), Some(1));
    assert_eq!(find_next_subslice_from(h, n, 3), None);
    assert_eq!(find_prev_subslice_before(h, n, 4), Some(2));
    assert_eq!(find_prev_subslice_before(h, n, 2), Some(0));
}

#[test]
fn find_all_positions_do_not_overlap_and_respect_cap() {
    assert_eq!(find_all_subslice_positions(b"aaaa", b"aa", 10), vec![0, 2]);
    assert_eq!(find_all_subslice_positions(b"abab", b"ab", 1), vec![0]);
    assert!(find_all_subslice_positions(b"abab", b"", 10).is_empty());
    assert!(find_all_subslice_positions(b"abab", b"zz", 10).is_empty());
}

#[test]
fn needle_longer_than_haystack_is_not_found() {
    assert_eq!(find_subslice(b"ab", b"abc"), None);
    assert_eq!(find_prev_subslice_before(b"ab", b"abc", 2), None);
}
