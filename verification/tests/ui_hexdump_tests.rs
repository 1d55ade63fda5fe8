use babyshark::hexdump::{
    byte_in_any_range, bytes_to_pretty_lines, first_match_and_scroll, fmt_hexdump_offset, match_cap_suffix, match_ordinal,
    next_match_and_scroll, prev_match_and_scroll, scroll_for_match_pos, HexSpan, HexStyle, HEXDUMP_OFFSET_LUT_MAX,
    HEXDUMP_OFFSET_TOO_LARGE, STREAM_MATCH_HIGHLIGHT_CAP,
};
use babyshark::search::find_all_subslice_positions;

fn spans_with<'a>(line: &'a [HexSpan], text: &str) -> Vec<&'a HexSpan> {
    line.iter().filter(|s| s.text == text).collect()
}

#[test]
fn ui_hexdump_highlights_current_match() {
    let lines = bytes_to_pretty_lines(b"abcd", &[], Some((1, 2)));
    assert_eq!(lines.len(), 1);
    let hex_b = spans_with(&lines[0], "62");
    assert_eq!(hex_b[0].style, HexStyle::Current);
    let ascii_b = spans_with(&lines[0], "b");
    assert_eq!(ascii_b[0].style, HexStyle::Current);
    let hex_a = spans_with(&lines[0], "61");
    assert_ne!(hex_a[0].style, HexStyle::Current);
}

#[test]
fn ui_hexdump_uses_space_padding_for_short_final_line() {
    let lines = bytes_to_pretty_lines(b"a", &[], None);
    assert_eq!(lines.len(), 1);
    assert!(lines[0].iter().any(|s| s.text == "  "));
    assert!(!lines[0].iter().any(|s| s.text == ".."));
}

#[test]
fn ui_hexdump_highlights_all_matches_and_distinguishes_current() {
    let ranges = vec![(0usize, 2usize), (4usize, 6usize)];
    let lines = bytes_to_pretty_lines(b"abxxab", &ranges, Some((0, 2)));
    assert_eq!(lines.len(), 1);
    let a_hex = spans_with(&lines[0], "61");
    assert_eq!(a_hex.len(), 2);
    assert_eq!(a_hex[0].style, HexStyle::Current);
    assert_eq!(a_hex[1].style, HexStyle::AnyMatch);
    let a_ascii = spans_with(&lines[0], "a");
    assert_eq!(a_ascii.len(), 2);
    assert_eq!(a_ascii[0].style, HexStyle::Current);
    assert_eq!(a_ascii[1].style, HexStyle::AnyMatch);
}

#[test]
fn ui_stream_next_prev_match_helpers_wrap_and_compute_scroll() {
    let bytes = b"abxxab";
    let needle = b"ab";
    let (pos, scroll) = next_match_and_scroll(bytes, needle, Some(4)).unwrap();
    assert_eq!(pos, 0);
    assert_eq!(scroll, 0);
    let (pos, scroll) = prev_match_and_scroll(bytes, needle, Some(0)).unwrap();
    assert_eq!(pos, 4);
    assert_eq!(scroll, 0);
    let mut big = vec![b'x'; 40];
    big[32] = b'a';
    big[33] = b'b';
    let (pos, scroll) = first_match_and_scroll(&big, needle).unwrap();
    assert_eq!(pos, 32);
    assert_eq!(scroll, 2);
}

#[test]
fn ui_match_ordinal_finds_current_match_index() {
    let positions = vec![0usize, 4usize, 10usize];
    assert_eq!(match_ordinal(&positions, Some(0)), Some(0));
    assert_eq!(match_ordinal(&positions, Some(4)), Some(1));
    assert_eq!(match_ordinal(&positions, Some(10)), Some(2));
    assert_eq!(match_ordinal(&positions, Some(1)), None);
    assert_eq!(match_ordinal(&positions, None), None);
}

#[test]
fn ui_highlight_lookup_binary_search_requires_sorted_ranges() {
    let ranges_unsorted = vec![(4usize, 6usize), (0usize, 2usize)];
    let line_unsorted = bytes_to_pretty_lines(b"abxxab", &ranges_unsorted, None);
    let a_hex_unsorted = spans_with(&line_unsorted[0], "61");
    assert_eq!(a_hex_unsorted.len(), 2);
    let highlighted_unsorted = a_hex_unsorted.iter().filter(|s| s.style == HexStyle::AnyMatch).count();
    assert_eq!(highlighted_unsorted, 1);

    let mut ranges_sorted = ranges_unsorted.clone();
    ranges_sorted.sort_unstable();
    let line_sorted = bytes_to_pretty_lines(b"abxxab", &ranges_sorted, None);
    let a_hex_sorted = spans_with(&line_sorted[0], "61");
    assert_eq!(a_hex_sorted.len(), 2);
    let highlighted_sorted = a_hex_sorted.iter().filter(|s| s.style == HexStyle::AnyMatch).count();
    assert_eq!(highlighted_sorted, 2);
}

#[test]
fn ui_highlight_all_matches_cap_affects_collected_positions() {
    let n = 300usize;
    let bytes = b"ab".repeat(n);
    let needle = b"ab";
    let small_cap = (STREAM_MATCH_HIGHLIGHT_CAP / 10).max(1);
    let small = find_all_subslice_positions(&bytes, needle, small_cap);
    let big = find_all_subslice_positions(&bytes, needle, STREAM_MATCH_HIGHLIGHT_CAP);
    assert_eq!(small.len(), small_cap.min(300));
    assert_eq!(big.len(), n);
}

#[test]
fn ui_ascii_column_shows_tab_and_newline_glyphs() {
    let lines = bytes_to_pretty_lines(b"a\tb\n", &[], None);
    assert_eq!(lines.len(), 1);
    assert!(lines[0].iter().any(|s| s.text == "⇥"));
    assert!(lines[0].iter().any(|s| s.text == "⏎"));
}

#[test]
fn ui_hexdump_offset_is_right_aligned_no_leading_zeroes() {
    let lines = bytes_to_pretty_lines(b"a", &[], None);
    let offset = &lines[0][0].text;
    assert!(offset.ends_with("  "));
    assert!(offset.contains("0x     0"));
    assert!(!offset.contains("00000000"));
}

#[test]
fn ui_stream_title_uses_1_based_index_when_matches_exist() {
    let match_positions = vec![10usize, 20usize];
    let total = match_positions.len();
    let cur = match_ordinal(&match_positions, None).map(|i| i + 1).unwrap_or(0);
    let cur_disp = if total == 0 { 0 } else { cur.max(1) };
    assert_eq!(cur_disp, 1);
}

#[test]
fn ui_fmt_hexdump_offset_is_fixed_width_with_prefix() {
    let s = fmt_hexdump_offset(0);
    assert!(s.starts_with("0x"));
    assert!(s.ends_with("  "));
    assert_eq!(s.len(), 10);
    assert!(s.contains('0'));
}

#[test]
fn ui_scroll_for_match_pos_returns_containing_row() {
    assert_eq!(scroll_for_match_pos(0), 0);
    assert_eq!(scroll_for_match_pos(15), 0);
    assert_eq!(scroll_for_match_pos(16), 1);
    assert_eq!(scroll_for_match_pos(31), 1);
    assert_eq!(scroll_for_match_pos(32), 2);
}

#[test]
fn ui_fmt_hexdump_offset_uses_placeholder_for_huge_offsets() {
    assert_eq!(fmt_hexdump_offset(0x1_0000), HEXDUMP_OFFSET_TOO_LARGE);
}

#[test]
fn ui_fmt_hexdump_offset_at_lut_max_is_not_placeholder() {
    let s = fmt_hexdump_offset(HEXDUMP_OFFSET_LUT_MAX);
    assert_ne!(s, HEXDUMP_OFFSET_TOO_LARGE);
    assert!(s.starts_with("0x"));
}

#[test]
fn ui_byte_in_any_range_works_for_simple_ranges() {
    let ranges = vec![(0usize, 2usize), (4usize, 6usize)];
    assert!(byte_in_any_range(0, &ranges));
    assert!(byte_in_any_range(1, &ranges));
    assert!(!byte_in_any_range(2, &ranges));
    assert!(!byte_in_any_range(3, &ranges));
    assert!(byte_in_any_range(4, &ranges));
    assert!(byte_in_any_range(5, &ranges));
    assert!(!byte_in_any_range(6, &ranges));
}

#[test]
fn ui_stream_title_appends_plus_when_match_count_is_capped() {
    assert_eq!(match_cap_suffix(STREAM_MATCH_HIGHLIGHT_CAP), "+");
}

#[test]
fn ui_match_cap_suffix_is_empty_below_cap() {
    assert_eq!(match_cap_suffix(STREAM_MATCH_HIGHLIGHT_CAP - 1), "");
}

#[test]
fn ui_search_modal_match_count_format_appends_plus_when_capped() {
    let match_count = STREAM_MATCH_HIGHLIGHT_CAP;
    let s = format!("{match_count}{}", match_cap_suffix(match_count));
    assert!(s.ends_with('+'));
}

#[test]
fn ui_first_match_and_scroll_returns_scroll_row_for_match() {
    let mut bytes = vec![b'x'; 40];
    bytes[32] = b'a';
    bytes[33] = b'b';
    let (pos, scroll) = first_match_and_scroll(&bytes, b"ab").unwrap();
    assert_eq!(pos, 32);
    assert_eq!(scroll, 2);
}

#[test]
fn ui_next_prev_match_helpers_compute_scroll_for_later_rows() {
    let mut bytes = vec![b'x'; 40];
    bytes[32] = b'a';
    bytes[33] = b'b';
    let (pos, scroll) = next_match_and_scroll(&bytes, b"ab", None).unwrap();
    assert_eq!(pos, 32);
    assert_eq!(scroll, 2);
    let (pos, scroll) = prev_match_and_scroll(&bytes, b"ab", None).unwrap();
    assert_eq!(pos, 32);
    assert_eq!(scroll, 2);
}

#[test]
fn ui_match_styles_distinguish_current_from_other_matches() {
    let lines = bytes_to_pretty_lines(b"zz zz", &[(0, 2), (3, 5)], Some((3, 2)));
    let z = spans_with(&lines[0], "7A");
    let current: Vec<HexStyle> = z.iter().filter(|s| s.style == HexStyle::Current).map(|s| s.style).collect();
    let other: Vec<HexStyle> = z.iter().filter(|s| s.style == HexStyle::AnyMatch).map(|s| s.style).collect();
    assert_eq!(current.len(), 2);
    assert_eq!(other.len(), 2);
    assert_ne!(current[0], other[0]);
}
