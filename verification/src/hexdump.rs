//! The stream view's hexdump: offset column, hex bytes, ASCII column, match
//! highlighting and the search helpers that move between matches.
use vstd::prelude::*;
use crate::search::{
    find_next_subslice_from, find_prev_subslice_before, find_subslice, first_match_from,
    last_match_ending_by, min_nat,
};
use crate::text::{hex_digit_upper, hex_seq, push_hex, str_of_chars};

verus! {

pub const HEXDUMP_OFFSET_LUT_MAX: usize = 0xFFFF;
/// Shown when an offset is too large for the fixed-width offset column.
pub const HEXDUMP_OFFSET_TOO_LARGE: &'static str = "0x??????  ";
pub const HEXDUMP_COLS: usize = 16;
pub const HEXDUMP_GROUP: usize = 8;
pub const HEXDUMP_GUTTER: &'static str = "  | ";
pub const HEXDUMP_GUTTER_END: &'static str = " |";
pub const HEXDUMP_SPLIT: &'static str = "  ";
pub const UI_ONE_SPACE: &'static str = " ";
pub const UI_SPACER: &'static str = "  ";
pub const STREAM_MATCH_HIGHLIGHT_CAP: usize = 2000;

/// ASCII graphic characters and the space.
pub open spec fn shows_as_itself(b: u8) -> bool {
    0x20 <= b && b <= 0x7e
}

/// The ASCII-column glyph of a byte: `⏎` for a newline, `⇥` for a tab, the
/// character itself when it is printable, `.` otherwise.
pub open spec fn ascii_glyph(b: u8) -> Seq<char> {
    if b == 10 {
        "⏎"@
    } else if b == 9 {
        "⇥"@
    } else if shows_as_itself(b) {
        seq![b as char]
    } else {
        "."@
    }
}

pub fn ascii_cell(b: u8) -> (r: String)
    ensures
        r@ == ascii_glyph(b),
{
    if b == 10 {
        "⏎".to_owned()
    } else if b == 9 {
        "⇥".to_owned()
    } else if 0x20 <= b && b <= 0x7e {
        let mut v: Vec<char> = Vec::new();
        v.push(b as char);
        str_of_chars(&v)
    } else {
        ".".to_owned()
    }
}

/// Newlines, tabs, and the characters that show as themselves.
pub fn byte_is_printable(b: u8) -> (r: bool)
    ensures
        r == (b == 10 || b == 9 || shows_as_itself(b)),
{
    b == 10 || b == 9 || (0x20 <= b && b <= 0x7e)
}

/// Right-align `s` in `w` columns with spaces.
pub open spec fn pad_left(s: Seq<char>, w: nat) -> Seq<char> {
    if s.len() >= w {
        s
    } else {
        Seq::new((w - s.len()) as nat, |i: int| ' ') + s
    }
}

/// `0x` and the offset in lower-case hex right-aligned in six columns, then two spaces.
pub open spec fn offset_text(offset: nat) -> Seq<char> {
    "0x"@ + pad_left(hex_seq(offset), 6) + "  "@
}

pub fn fmt_hexdump_offset_owned(offset: usize) -> (r: String)
    ensures
        r@ == offset_text(offset as nat),
{
    let mut h: Vec<char> = Vec::new();
    push_hex(&mut h, offset as u64);
    let mut v: Vec<char> = Vec::new();
    crate::text::push_str(&mut v, "0x");
    let ghost v0 = v@;
    let mut k: usize = h.len();
    while k < 6
        invariant
            h.len() <= k <= 6 || (k == h.len() && k >= 6),
            v@ == v0 + Seq::new((k - h.len()) as nat, |i: int| ' '),
        decreases 6 - k,
    {
        v.push(' ');
        k = k + 1;
        assert(v@ =~= v0 + Seq::new((k - h.len()) as nat, |i: int| ' '));
    }
    crate::text::push_all(&mut v, h.as_slice());
    crate::text::push_str(&mut v, "  ");
    proof {
        if h@.len() >= 6 {
            assert(Seq::new(0nat, |i: int| ' ') =~= Seq::<char>::empty());
        }
    }
    assert(v@ =~= offset_text(offset as nat));
    str_of_chars(&v)
}

/// The offset column: the formatted offset up to `HEXDUMP_OFFSET_LUT_MAX`, the
/// fixed-width placeholder beyond.
pub fn fmt_hexdump_offset(offset: usize) -> (r: String)
    ensures
        r@ == (if offset <= HEXDUMP_OFFSET_LUT_MAX { offset_text(offset as nat) } else { HEXDUMP_OFFSET_TOO_LARGE@ }),
{
    if offset <= HEXDUMP_OFFSET_LUT_MAX {
        fmt_hexdump_offset_owned(offset)
    } else {
        HEXDUMP_OFFSET_TOO_LARGE.to_owned()
    }
}

/// Two upper-case hex digits.
pub open spec fn hex_byte_text(b: u8) -> Seq<char> {
    seq![hex_digit_upper((b / 16) as nat), hex_digit_upper((b % 16) as nat)]
}

pub fn hex_byte_upper(b: u8) -> (r: String)
    ensures
        r@ == hex_byte_text(b),
{
    let mut v: Vec<char> = Vec::new();
    let hi = b / 16;
    let lo = b % 16;
    v.push(if hi < 10 { (48u8 + hi) as char } else { (55u8 + hi) as char });
    v.push(if lo < 10 { (48u8 + lo) as char } else { (55u8 + lo) as char });
    assert(v@ =~= hex_byte_text(b));
    str_of_chars(&v)
}

/// `+` once the match count reaches the highlight cap, to say there may be more.
pub fn match_cap_suffix(count: usize) -> (r: &'static str)
    ensures
        r@ == (if count >= STREAM_MATCH_HIGHLIGHT_CAP { "+"@ } else { ""@ }),
{
    if count >= STREAM_MATCH_HIGHLIGHT_CAP {
        "+"
    } else {
        ""
    }
}

/// Position of the current match among the match positions (the first equal one).
pub fn match_ordinal(match_positions: &[usize], current: Option<usize>) -> (r: Option<usize>)
    ensures
        match current {
            None => r is None,
            Some(c) => match r {
                Some(i) => i < match_positions@.len() && match_positions@[i as int] == c
                    && forall|j: int| 0 <= j < i ==> match_positions@[j] != c,
                None => forall|j: int| 0 <= j < match_positions@.len() ==> match_positions@[j] != c,
            },
        },
{
    let cur = match current {
        Some(c) => c,
        None => return None,
    };
    let mut i: usize = 0;
    while i < match_positions.len()
        invariant
            i <= match_positions@.len(),
            current == Some(cur),
            forall|j: int| 0 <= j < i ==> match_positions@[j] != cur,
        decreases match_positions@.len() - i,
    {
        if match_positions[i] == cur {
            return Some(i);
        }
        i = i + 1;
    }
    None
}

/// The 16-byte row that holds byte `pos` (as a 16-bit scroll offset, wrapping).
pub fn scroll_for_match_pos(pos: usize) -> (r: u16)
    ensures
        r == ((pos / 16) % 65536) as u16,
{
    ((pos / 16) % 65536) as u16
}

pub open spec fn ranges_sorted(ranges: Seq<(usize, usize)>) -> bool {
    &&& forall|i: int| 0 <= i < ranges.len() ==> (#[trigger] ranges[i]).0 <= ranges[i].1
    &&& forall|i: int, j: int| 0 <= i < j < ranges.len() ==> (#[trigger] ranges[i]).1 <= (#[trigger] ranges[j]).0
}

pub open spec fn in_range(abs: usize, r: (usize, usize)) -> bool {
    r.0 <= abs && abs < r.1
}

/// The binary search over the ranges `base..base+size`: halve toward the range
/// that could hold `abs` (left when `abs` lies before the middle range), then
/// test the one range left.
pub open spec fn range_search(ranges: Seq<(usize, usize)>, abs: usize, base: nat, size: nat) -> bool
    decreases size,
{
    if size == 0 {
        false
    } else if size == 1 {
        in_range(abs, ranges[base as int])
    } else {
        let half = size / 2;
        let mid = base + half;
        if abs < ranges[mid as int].0 {
            range_search(ranges, abs, base, (size - half) as nat)
        } else {
            range_search(ranges, abs, mid, (size - half) as nat)
        }
    }
}

/// Whether byte `abs` lies in one of the half-open ranges, by binary search
/// (exact when the ranges are ordered and disjoint).
pub fn byte_in_any_range(abs: usize, ranges: &[(usize, usize)]) -> (r: bool)
    ensures
        r == range_search(ranges@, abs, 0, ranges@.len()),
{
    let mut size: usize = ranges.len();
    if size == 0 {
        return false;
    }
    let mut base: usize = 0;
    while size > 1
        invariant
            size >= 1,
            base + size <= ranges@.len(),
            ranges@.len() == ranges.len(),
            range_search(ranges@, abs, 0, ranges@.len()) == range_search(ranges@, abs, base as nat, size as nat),
        decreases size,
    {
        let half = size / 2;
        let mid = base + half;
        let (s, e) = ranges[mid];
        if !(abs < s) {
            base = mid;
        }
        size = size - half;
    }
    let (s, e) = ranges[base];
    !(abs < s) && !(abs >= e)
}

/// On ordered, disjoint ranges the binary search finds exactly the bytes that
/// lie in some range; on any ranges, a hit lies in a range.
pub proof fn lemma_range_search_exact(ranges: Seq<(usize, usize)>, abs: usize)
    ensures
        range_search(ranges, abs, 0, ranges.len()) ==> exists|i: int| 0 <= i < ranges.len() && in_range(abs, #[trigger] ranges[i]),
        ranges_sorted(ranges) ==> (range_search(ranges, abs, 0, ranges.len()) <==> exists|i: int| 0 <= i < ranges.len() && in_range(abs, #[trigger] ranges[i])),
{
    lemma_range_search_sound(ranges, abs, 0, ranges.len());
    if ranges_sorted(ranges) {
        assert forall|i: int| 0 <= i < ranges.len() && in_range(abs, #[trigger] ranges[i]) implies range_search(ranges, abs, 0, ranges.len()) by {
            lemma_range_search_complete(ranges, abs, 0, ranges.len(), i);
        }
    }
}

proof fn lemma_range_search_sound(ranges: Seq<(usize, usize)>, abs: usize, base: nat, size: nat)
    requires
        base + size <= ranges.len(),
    ensures
        range_search(ranges, abs, base, size) ==> exists|i: int| 0 <= i < ranges.len() && in_range(abs, #[trigger] ranges[i]),
    decreases size,
{
    if size == 1 {
        if range_search(ranges, abs, base, size) {
            assert(in_range(abs, ranges[base as int]));
        }
    } else if size > 1 {
        let half = size / 2;
        let mid = base + half;
        lemma_range_search_sound(ranges, abs, base, (size - half) as nat);
        lemma_range_search_sound(ranges, abs, mid, (size - half) as nat);
    }
}

proof fn lemma_range_search_complete(ranges: Seq<(usize, usize)>, abs: usize, base: nat, size: nat, i: int)
    requires
        ranges_sorted(ranges),
        base + size <= ranges.len(),
        base <= i < base + size,
        in_range(abs, ranges[i]),
    ensures
        range_search(ranges, abs, base, size),
    decreases size,
{
    if size > 1 {
        let half = size / 2;
        let mid = base + half;
        if abs < ranges[mid as int].0 {
            if i >= mid {
                if i > mid {
                    assert(ranges[mid as int].1 <= ranges[i].0);
                }
            }
            lemma_range_search_complete(ranges, abs, base, (size - half) as nat, i);
        } else {
            if i < mid {
                assert(ranges[i].1 <= ranges[mid as int].0);
            }
            lemma_range_search_complete(ranges, abs, mid, (size - half) as nat, i);
        }
    }
}

/// The first match of `needle` and the row to scroll to; nothing for an empty needle.
pub fn first_match_and_scroll(bytes: &[u8], needle: &[u8]) -> (r: Option<(usize, u16)>)
    ensures
        needle@.len() == 0 ==> r is None,
        needle@.len() > 0 ==> match first_match_from(bytes@, needle@, 0) {
            Some(p) => r == Some((p as usize, ((p / 16) % 65536) as u16)),
            None => r is None,
        },
{
    if needle.len() == 0 {
        return None;
    }
    match find_subslice(bytes, needle) {
        Some(pos) => Some((pos, scroll_for_match_pos(pos))),
        None => None,
    }
}

/// Where the next search starts: just past the last match, or at the beginning.
pub open spec fn next_start(last: Option<usize>, needle_len: nat) -> nat {
    match last {
        Some(p) => p as nat + needle_len,
        None => 0,
    }
}

/// The next match after the last one (wrapping to the first) and its row.
pub fn next_match_and_scroll(bytes: &[u8], needle: &[u8], last_match: Option<usize>) -> (r: Option<(usize, u16)>)
    requires
        last_match matches Some(p) ==> p + needle@.len() <= usize::MAX,
    ensures
        needle@.len() == 0 ==> r is None,
        needle@.len() > 0 ==> match first_match_from(bytes@, needle@, min_nat(next_start(last_match, needle@.len()), bytes@.len())) {
            Some(p) => r == Some((p as usize, ((p / 16) % 65536) as u16)),
            None => match first_match_from(bytes@, needle@, 0) {
                Some(q) => r == Some((q as usize, ((q / 16) % 65536) as u16)),
                None => r is None,
            },
        },
{
    if needle.len() == 0 {
        return None;
    }
    let start: usize = match last_match {
        Some(p) => p + needle.len(),
        None => 0,
    };
    let found = match find_next_subslice_from(bytes, needle, start) {
        Some(p) => Some(p),
        None => {
            assert(min_nat(0, bytes@.len()) == 0);
            find_next_subslice_from(bytes, needle, 0)
        },
    };
    match found {
        Some(pos) => Some((pos, scroll_for_match_pos(pos))),
        None => None,
    }
}

/// Where the previous search ends: a match found there starts before the last
/// match (ends by `p + needle_len - 1`); with no last match, the whole buffer.
pub open spec fn prev_end(last: Option<usize>, needle_len: nat, len: nat) -> nat {
    match last {
        Some(p) => if p + needle_len >= 1 {
            (p + needle_len - 1) as nat
        } else {
            0
        },
        None => len,
    }
}

/// The last match that starts before the last one (wrapping to the last match
/// of all) and its row.
pub fn prev_match_and_scroll(bytes: &[u8], needle: &[u8], last_match: Option<usize>) -> (r: Option<(usize, u16)>)
    ensures
        needle@.len() == 0 ==> r is None,
        needle@.len() > 0 ==> match last_match_ending_by(bytes@, needle@, min_nat(prev_end(last_match, needle@.len(), bytes@.len()), bytes@.len())) {
            Some(p) => r == Some((p as usize, ((p / 16) % 65536) as u16)),
            None => match last_match_ending_by(bytes@, needle@, bytes@.len()) {
                Some(q) => r == Some((q as usize, ((q / 16) % 65536) as u16)),
                None => r is None,
            },
        },
{
    if needle.len() == 0 {
        return None;
    }
    let n: usize = bytes.len();
    let end: usize = match last_match {
        Some(p) => {
            let e: usize = p.saturating_add(needle.len() - 1);
            assert(e as nat == min_nat((p + needle@.len() - 1) as nat, usize::MAX as nat));
            e
        },
        None => n,
    };
    assert(min_nat(end as nat, bytes@.len()) == min_nat(prev_end(last_match, needle@.len(), bytes@.len()), bytes@.len()));
    let found = match find_prev_subslice_before(bytes, needle, end) {
        Some(p) => Some(p),
        None => {
            assert(min_nat(bytes@.len(), bytes@.len()) == bytes@.len());
            find_prev_subslice_before(bytes, needle, bytes.len())
        },
    };
    match found {
        Some(pos) => Some((pos, scroll_for_match_pos(pos))),
        None => None,
    }
}

// ------------------------------------------------------------ rendering

/// How a hexdump cell is drawn: dimmed chrome, muted bytes, readable text,
/// unstyled separators, the current match, or another match.
#[derive(Debug, Clone, Copy, PartialEq, Eq, Structural)]
pub enum HexStyle {
    Dim,
    Muted,
    Text,
    Plain,
    Current,
    AnyMatch,
}

pub struct HexSpan {
    pub text: String,
    pub style: HexStyle,
}

pub open spec fn span_view(s: HexSpan) -> (Seq<char>, HexStyle) {
    (s.text@, s.style)
}

pub open spec fn spans_view(v: Seq<HexSpan>) -> Seq<(Seq<char>, HexStyle)> {
    v.map_values(|s: HexSpan| span_view(s))
}

pub open spec fn lines_view(v: Seq<Vec<HexSpan>>) -> Seq<Seq<(Seq<char>, HexStyle)>> {
    v.map_values(|l: Vec<HexSpan>| spans_view(l@))
}

/// Highlight of byte `abs`: the current match, another match, or `base`.
pub open spec fn cell_style(abs: usize, ranges: Seq<(usize, usize)>, cur: (usize, usize), base: HexStyle) -> HexStyle {
    if cur.0 <= abs && abs < cur.1 {
        HexStyle::Current
    } else if range_search(ranges, abs, 0, ranges.len()) {
        HexStyle::AnyMatch
    } else {
        base
    }
}

/// The spacing before hex column `i`: none first, a wider gap at the middle.
pub open spec fn hex_sep(i: nat) -> Seq<(Seq<char>, HexStyle)> {
    if i == 0 {
        Seq::empty()
    } else if i == 8 {
        seq![("  "@, HexStyle::Plain)]
    } else {
        seq![(" "@, HexStyle::Plain)]
    }
}

/// Hex columns `0..n` of the row at `off`.
pub open spec fn hex_cols(bytes: Seq<u8>, off: nat, ranges: Seq<(usize, usize)>, cur: (usize, usize), n: nat) -> Seq<(Seq<char>, HexStyle)>
    decreases n,
{
    if n == 0 {
        Seq::empty()
    } else {
        let i = (n - 1) as nat;
        let abs = off + i;
        hex_cols(bytes, off, ranges, cur, i) + hex_sep(i) + if abs < bytes.len() {
            seq![(hex_byte_text(bytes[abs as int]), cell_style(abs as usize, ranges, cur, HexStyle::Muted))]
        } else {
            seq![("  "@, HexStyle::Dim)]
        }
    }
}

/// ASCII columns `0..n` of the row at `off`.
pub open spec fn ascii_cols(bytes: Seq<u8>, off: nat, ranges: Seq<(usize, usize)>, cur: (usize, usize), n: nat) -> Seq<(Seq<char>, HexStyle)>
    decreases n,
{
    if n == 0 {
        Seq::empty()
    } else {
        let i = (n - 1) as nat;
        let abs = off + i;
        ascii_cols(bytes, off, ranges, cur, i) + if abs < bytes.len() {
            let b = bytes[abs as int];
            seq![(ascii_glyph(b), cell_style(abs as usize, ranges, cur, if b == 10 || b == 9 || shows_as_itself(b) { HexStyle::Text } else { HexStyle::Muted }))]
        } else {
            seq![(" "@, HexStyle::Plain)]
        }
    }
}

/// One hexdump row: offset, sixteen hex cells, gutter, sixteen ASCII cells, gutter.
pub open spec fn row_spans(bytes: Seq<u8>, off: nat, ranges: Seq<(usize, usize)>, cur: (usize, usize)) -> Seq<(Seq<char>, HexStyle)> {
    seq![(if off <= HEXDUMP_OFFSET_LUT_MAX { offset_text(off) } else { HEXDUMP_OFFSET_TOO_LARGE@ }, HexStyle::Dim)]
        + hex_cols(bytes, off, ranges, cur, 16) + seq![("  | "@, HexStyle::Dim)] + ascii_cols(bytes, off, ranges, cur, 16)
        + seq![(" |"@, HexStyle::Dim)]
}

/// The current match as a byte range (start, start + length, saturating), or an
/// empty range at the very end.
pub open spec fn current_range(m: Option<(usize, usize)>) -> (usize, usize) {
    match m {
        Some((s, len)) => (s, if s + len > usize::MAX { usize::MAX } else { (s + len) as usize }),
        None => (usize::MAX, usize::MAX),
    }
}

pub open spec fn pretty_rows(bytes: Seq<u8>, ranges: Seq<(usize, usize)>, cur: (usize, usize), n: nat) -> Seq<Seq<(Seq<char>, HexStyle)>>
    decreases n,
{
    if n == 0 {
        Seq::empty()
    } else {
        pretty_rows(bytes, ranges, cur, (n - 1) as nat).push(row_spans(bytes, ((n - 1) * 16) as nat, ranges, cur))
    }
}

fn push_span(v: &mut Vec<HexSpan>, text: String, style: HexStyle)
    ensures
        spans_view(final(v)@) == spans_view(old(v)@).push((text@, style)),
{
    let ghost before = v@;
    v.push(HexSpan { text, style });
    assert(spans_view(v@) =~= spans_view(before).push((text@, style)));
}

fn cell_style_exec(abs: usize, ranges: &[(usize, usize)], cur: (usize, usize), base: HexStyle) -> (st: HexStyle)
    ensures
        st == cell_style(abs, ranges@, cur, base),
{
    if cur.0 <= abs && abs < cur.1 {
        HexStyle::Current
    } else if byte_in_any_range(abs, ranges) {
        HexStyle::AnyMatch
    } else {
        base
    }
}

fn push_row(v: &mut Vec<HexSpan>, bytes: &[u8], off: usize, ranges: &[(usize, usize)], cur: (usize, usize))
    requires
        off + 16 <= usize::MAX,
    ensures
        spans_view(final(v)@) == spans_view(old(v)@) + row_spans(bytes@, off as nat, ranges@, cur),
{
    let ghost v0 = spans_view(v@);
    push_span(v, fmt_hexdump_offset(off), HexStyle::Dim);
    let ghost v1 = spans_view(v@);
    let mut i: usize = 0;
    while i < 16
        invariant
            i <= 16,
            off + 16 <= usize::MAX,
            spans_view(v@) == v1 + hex_cols(bytes@, off as nat, ranges@, cur, i as nat),
        decreases 16 - i,
    {
        let ghost before = spans_view(v@);
        if i == 8 {
            push_span(v, "  ".to_owned(), HexStyle::Plain);
        } else if i != 0 {
            push_span(v, " ".to_owned(), HexStyle::Plain);
        }
        assert(spans_view(v@) =~= before + hex_sep(i as nat));
        let ghost mid = spans_view(v@);
        let abs = off + i;
        if abs < bytes.len() {
            let st = cell_style_exec(abs, ranges, cur, HexStyle::Muted);
            push_span(v, hex_byte_upper(bytes[abs]), st);
        } else {
            push_span(v, "  ".to_owned(), HexStyle::Dim);
        }
        i = i + 1;
        assert(spans_view(v@) =~= v1 + hex_cols(bytes@, off as nat, ranges@, cur, i as nat));
    }
    push_span(v, "  | ".to_owned(), HexStyle::Dim);
    let ghost v2 = spans_view(v@);
    let mut i: usize = 0;
    while i < 16
        invariant
            i <= 16,
            off + 16 <= usize::MAX,
            spans_view(v@) == v2 + ascii_cols(bytes@, off as nat, ranges@, cur, i as nat),
        decreases 16 - i,
    {
        let abs = off + i;
        if abs < bytes.len() {
            let b = bytes[abs];
            let base = if byte_is_printable(b) { HexStyle::Text } else { HexStyle::Muted };
            let st = cell_style_exec(abs, ranges, cur, base);
            push_span(v, ascii_cell(b), st);
        } else {
            push_span(v, " ".to_owned(), HexStyle::Plain);
        }
        i = i + 1;
        assert(spans_view(v@) =~= v2 + ascii_cols(bytes@, off as nat, ranges@, cur, i as nat));
    }
    push_span(v, " |".to_owned(), HexStyle::Dim);
    assert(spans_view(v@) =~= v0 + row_spans(bytes@, off as nat, ranges@, cur));
}

/// The hexdump rows of `bytes`, 16 bytes a row, with every byte in `match_ranges`
/// highlighted and the current match highlighted apart.
pub fn bytes_to_pretty_lines(bytes: &[u8], match_ranges: &[(usize, usize)], current_match: Option<(usize, usize)>) -> (lines: Vec<Vec<HexSpan>>)
    requires
        bytes@.len() + 32 <= usize::MAX,
    ensures
        lines_view(lines@) == pretty_rows(bytes@, match_ranges@, current_range(current_match), ((bytes@.len() + 15) / 16) as nat),
{
    let cur: (usize, usize) = match current_match {
        Some((s, len)) => (s, s.saturating_add(len)),
        None => (usize::MAX, usize::MAX),
    };
    assert(cur == current_range(current_match));
    let mut lines: Vec<Vec<HexSpan>> = Vec::new();
    let mut offset: usize = 0;
    let mut k: usize = 0;
    while offset < bytes.len()
        invariant
            offset == k * 16,
            offset <= bytes@.len() + 15,
            bytes@.len() + 32 <= usize::MAX,
            lines_view(lines@) == pretty_rows(bytes@, match_ranges@, cur, k as nat),
            k <= (bytes@.len() + 15) / 16,
            offset < bytes@.len() ==> k < (bytes@.len() + 15) / 16,
            offset >= bytes@.len() ==> k == (bytes@.len() + 15) / 16,
        decreases bytes@.len() + 16 - offset,
    {
        let mut spans: Vec<HexSpan> = Vec::new();
        push_row(&mut spans, bytes, offset, match_ranges, cur);
        assert(spans_view(spans@) =~= Seq::<(Seq<char>, HexStyle)>::empty() + row_spans(bytes@, offset as nat, match_ranges@, cur));
        let ghost before = lines@;
        lines.push(spans);
        assert(lines_view(lines@) =~= lines_view(before).push(spans_view(spans@)));
        offset = offset + 16;
        k = k + 1;
    }
    lines
}

} // verus!
