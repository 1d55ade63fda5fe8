//! Character-sequence helpers: the library keeps text as `Vec<char>` while it
//! computes and turns it into `String` at its edges.
use vstd::prelude::*;
use vstd::utf8::*;

verus! {

/// Unicode `White_Space`, the set that `char::is_whitespace` and `str::trim` use.
pub open spec fn is_unicode_whitespace(c: char) -> bool {
    let u = c as u32;
    ||| 0x09 <= u <= 0x0d
    ||| u == 0x20
    ||| u == 0x85
    ||| u == 0xa0
    ||| u == 0x1680
    ||| 0x2000 <= u <= 0x200a
    ||| u == 0x2028
    ||| u == 0x2029
    ||| u == 0x202f
    ||| u == 0x205f
    ||| u == 0x3000
}

pub open spec fn trim_start_seq(s: Seq<char>) -> Seq<char>
    decreases s.len(),
{
    if s.len() > 0 && is_unicode_whitespace(s[0]) {
        trim_start_seq(s.drop_first())
    } else {
        s
    }
}

pub open spec fn trim_end_seq(s: Seq<char>) -> Seq<char>
    decreases s.len(),
{
    if s.len() > 0 && is_unicode_whitespace(s.last()) {
        trim_end_seq(s.drop_last())
    } else {
        s
    }
}

/// `str::trim`: leading and trailing white space removed.
pub open spec fn trim_seq(s: Seq<char>) -> Seq<char> {
    trim_end_seq(trim_start_seq(s))
}

pub open spec fn ascii_lower(c: char) -> char {
    if 'A' <= c && c <= 'Z' {
        ((c as u32) + 32) as char
    } else {
        c
    }
}

pub open spec fn ascii_lower_seq(s: Seq<char>) -> Seq<char> {
    s.map_values(|c: char| ascii_lower(c))
}

pub open spec fn is_ascii_seq(s: Seq<char>) -> bool {
    forall|i: int| 0 <= i < s.len() ==> (s[i] as u32) < 128
}

pub open spec fn occurs_at_seq(s: Seq<char>, p: Seq<char>, i: int) -> bool {
    &&& 0 <= i
    &&& i + p.len() <= s.len()
    &&& forall|k: int| 0 <= k < p.len() ==> s[i + k] == p[k]
}

pub open spec fn starts_with_seq(s: Seq<char>, p: Seq<char>) -> bool {
    occurs_at_seq(s, p, 0)
}

pub open spec fn ends_with_seq(s: Seq<char>, p: Seq<char>) -> bool {
    p.len() <= s.len() && occurs_at_seq(s, p, s.len() - p.len())
}

/// An occurrence in a suffix is an occurrence in the whole, shifted.
pub proof fn lemma_occurs_in_suffix(s: Seq<char>, p: Seq<char>, start: int, j: int)
    requires
        0 <= start <= s.len(),
    ensures
        occurs_at_seq(s.subrange(start, s.len() as int), p, j) <==> (0 <= j && occurs_at_seq(
            s,
            p,
            start + j,
        )),
{
    let rest = s.subrange(start, s.len() as int);
    if occurs_at_seq(rest, p, j) {
        assert forall|k: int| 0 <= k < p.len() implies s[start + j + k] == p[k] by {
            assert(rest[j + k] == s[start + j + k]);
        }
    }
    if 0 <= j && occurs_at_seq(s, p, start + j) {
        assert forall|k: int| 0 <= k < p.len() implies rest[j + k] == p[k] by {
            assert(rest[j + k] == s[start + j + k]);
        }
    }
}

pub open spec fn contains_seq(s: Seq<char>, p: Seq<char>) -> bool {
    exists|i: int| occurs_at_seq(s, p, i)
}

pub open spec fn digit_char(d: nat) -> char {
    ((48 + d) as u32) as char
}

/// Decimal digits of `n`, most significant first, without leading zeros.
pub open spec fn dec_seq(n: nat) -> Seq<char>
    decreases n,
{
    if n < 10 {
        seq![digit_char(n)]
    } else {
        dec_seq(n / 10).push(digit_char(n % 10))
    }
}

pub open spec fn hex_digit_lower(d: nat) -> char {
    if d < 10 {
        digit_char(d)
    } else {
        ((87 + d) as u32) as char
    }
}

pub open spec fn hex_digit_upper(d: nat) -> char {
    if d < 10 {
        digit_char(d)
    } else {
        ((55 + d) as u32) as char
    }
}

/// Lower-case hexadecimal digits of `n`, most significant first, without leading zeros.
pub open spec fn hex_seq(n: nat) -> Seq<char>
    decreases n,
{
    if n < 16 {
        seq![hex_digit_lower(n)]
    } else {
        hex_seq(n / 16).push(hex_digit_lower(n % 16))
    }
}

/// What `str::to_lowercase` makes of a text: the Unicode lower-case mapping.
pub uninterp spec fn unicode_lowercase(s: Seq<char>) -> Seq<char>;

/// What `String::from_utf8_lossy` makes of bytes: invalid sequences become U+FFFD.
pub uninterp spec fn utf8_lossy(b: Seq<u8>) -> Seq<char>;

/// `String::push`: appends one character.
#[verifier::external_body]
pub(crate) fn string_push(s: &mut String, c: char)
    ensures
        final(s)@ == old(s)@.push(c),
{
    s.push(c);
}

/// `std::str::from_utf8`: succeeds exactly on valid UTF-8 and then decodes it.
#[verifier::external_body]
pub(crate) fn utf8_str(bytes: &[u8]) -> (r: Option<&str>)
    ensures
        r is Some <==> valid_utf8(bytes@),
        r matches Some(t) ==> t@ == decode_utf8(bytes@),
{
    std::str::from_utf8(bytes).ok()
}

/// `str::to_lowercase`: the full Unicode lower-case mapping; on ASCII text it
/// maps `A`..`Z` to `a`..`z` and keeps every other character.
#[verifier::external_body]
pub(crate) fn str_to_lowercase(s: &str) -> (r: String)
    ensures
        r@ == unicode_lowercase(s@),
        is_ascii_seq(s@) ==> r@ == ascii_lower_seq(s@),
{
    s.to_lowercase()
}

/// `String::from_utf8_lossy`: valid UTF-8 is decoded as is.
#[verifier::external_body]
pub(crate) fn bytes_to_text_lossy(bytes: &[u8]) -> (r: String)
    ensures
        r@ == utf8_lossy(bytes@),
        valid_utf8(bytes@) ==> r@ == decode_utf8(bytes@),
{
    String::from_utf8_lossy(bytes).into_owned()
}

/// The characters of `s`.
pub fn chars_of(s: &str) -> (v: Vec<char>)
    ensures
        v@ == s@,
{
    let mut v: Vec<char> = Vec::new();
    for c in it: s.chars()
        invariant
            v@ == it.seq().take(it.index() as int),
            it.seq() == s@,
    {
        v.push(c);
    }
    v
}

/// A `String` holding `v`.
pub fn string_of(v: &[char]) -> (s: String)
    ensures
        s@ == v@,
{
    let mut s = String::new();
    let mut i: usize = 0;
    while i < v.len()
        invariant
            i <= v@.len(),
            s@ == v@.take(i as int),
        decreases v@.len() - i,
    {
        string_push(&mut s, v[i]);
        assert(v@.take(i + 1) =~= v@.take(i as int).push(v@[i as int]));
        i = i + 1;
    }
    assert(v@.take(v@.len() as int) =~= v@);
    s
}

/// Append `t` to `v`.
pub fn push_all(v: &mut Vec<char>, t: &[char])
    ensures
        final(v)@ == old(v)@ + t@,
{
    let mut i: usize = 0;
    while i < t.len()
        invariant
            i <= t@.len(),
            v@ == old(v)@ + t@.take(i as int),
        decreases t@.len() - i,
    {
        v.push(t[i]);
        assert(t@.take(i + 1) =~= t@.take(i as int).push(t@[i as int]));
        i = i + 1;
    }
    assert(t@.take(t@.len() as int) =~= t@);
}

/// Append the characters of `t` to `v`.
pub fn push_str(v: &mut Vec<char>, t: &str)
    ensures
        final(v)@ == old(v)@ + t@,
{
    let cs = chars_of(t);
    push_all(v, &cs);
}

/// The decimal form of `n`.
pub fn push_decimal(v: &mut Vec<char>, n: u64)
    ensures
        final(v)@ == old(v)@ + dec_seq(n as nat),
    decreases n,
{
    if n >= 10 {
        push_decimal(v, n / 10);
    }
    let d: u8 = (n % 10) as u8;
    v.push((48u8 + d) as char);
    proof {
        if n >= 10 {
            assert(dec_seq(n as nat) == dec_seq((n / 10) as nat).push(digit_char((n % 10) as nat)));
        }
    }
}

/// The lower-case hexadecimal form of `n`.
pub fn push_hex(v: &mut Vec<char>, n: u64)
    ensures
        final(v)@ == old(v)@ + hex_seq(n as nat),
    decreases n,
{
    if n >= 16 {
        push_hex(v, n / 16);
    }
    let d: u8 = (n % 16) as u8;
    if d < 10 {
        v.push((48u8 + d) as char);
    } else {
        v.push((87u8 + d) as char);
    }
}

/// `s` with white space removed at both ends.
pub fn trim(s: &[char]) -> (r: Vec<char>)
    ensures
        r@ == trim_seq(s@),
{
    let mut a: usize = 0;
    assert(s@.subrange(0, s@.len() as int) =~= s@);
    while a < s.len() && is_whitespace(s[a])
        invariant
            a <= s@.len(),
            trim_start_seq(s@) == trim_start_seq(s@.subrange(a as int, s@.len() as int)),
        decreases s@.len() - a,
    {
        assert(s@.subrange(a as int, s@.len() as int).drop_first() =~= s@.subrange(
            a + 1,
            s@.len() as int,
        ));
        a = a + 1;
    }
    let ghost front = s@.subrange(a as int, s@.len() as int);
    assert(trim_start_seq(front) == front);
    let mut b: usize = s.len();
    while b > a && is_whitespace(s[b - 1])
        invariant
            a <= b <= s@.len(),
            front == s@.subrange(a as int, s@.len() as int),
            trim_end_seq(front) == trim_end_seq(s@.subrange(a as int, b as int)),
        decreases b,
    {
        assert(s@.subrange(a as int, b as int).drop_last() =~= s@.subrange(
            a as int,
            b - 1,
        ));
        b = b - 1;
    }
    let mut r: Vec<char> = Vec::new();
    let mut i: usize = a;
    while i < b
        invariant
            a <= i <= b,
            b <= s@.len(),
            r@ == s@.subrange(a as int, i as int),
        decreases b - i,
    {
        r.push(s[i]);
        assert(s@.subrange(a as int, i + 1) =~= s@.subrange(a as int, i as int).push(
            s@[i as int],
        ));
        i = i + 1;
    }
    r
}

/// `char::is_whitespace`.
pub fn is_whitespace(c: char) -> (r: bool)
    ensures
        r == is_unicode_whitespace(c),
{
    let u = c as u32;
    (0x09 <= u && u <= 0x0d) || u == 0x20 || u == 0x85 || u == 0xa0 || u == 0x1680 || (0x2000 <= u
        && u <= 0x200a) || u == 0x2028 || u == 0x2029 || u == 0x202f || u == 0x205f || u == 0x3000
}

/// ASCII letters lowered, everything else kept.
pub fn to_ascii_lower(s: &[char]) -> (r: Vec<char>)
    ensures
        r@ == ascii_lower_seq(s@),
{
    let mut r: Vec<char> = Vec::new();
    let mut i: usize = 0;
    while i < s.len()
        invariant
            i <= s@.len(),
            r@ == ascii_lower_seq(s@.take(i as int)),
        decreases s@.len() - i,
    {
        let c = s[i];
        let l = if 'A' <= c && c <= 'Z' {
            (((c as u32) + 32) as u8) as char
        } else {
            c
        };
        r.push(l);
        assert(ascii_lower_seq(s@.take(i + 1)) =~= ascii_lower_seq(s@.take(i as int)).push(
            ascii_lower(c),
        ));
        i = i + 1;
    }
    assert(s@.take(s@.len() as int) =~= s@);
    r
}

/// Whether `p` occurs in `s` at `i`.
pub fn occurs_at(s: &[char], p: &[char], i: usize) -> (r: bool)
    ensures
        r == occurs_at_seq(s@, p@, i as int),
{
    if i > s.len() || p.len() > s.len() - i {
        return false;
    }
    let mut k: usize = 0;
    assert(s@.len() == s.len());
    while k < p.len()
        invariant
            k <= p@.len(),
            i + p@.len() <= s@.len(),
            s@.len() <= usize::MAX,
            forall|m: int| 0 <= m < k ==> s@[i + m] == p@[m],
        decreases p@.len() - k,
    {
        if s[i + k] != p[k] {
            return false;
        }
        k = k + 1;
    }
    true
}

pub fn starts_with(s: &[char], p: &[char]) -> (r: bool)
    ensures
        r == starts_with_seq(s@, p@),
{
    occurs_at(s, p, 0)
}

pub fn ends_with(s: &[char], p: &[char]) -> (r: bool)
    ensures
        r == ends_with_seq(s@, p@),
{
    if p.len() > s.len() {
        return false;
    }
    occurs_at(s, p, s.len() - p.len())
}

pub fn contains(s: &[char], p: &[char]) -> (r: bool)
    ensures
        r == contains_seq(s@, p@),
{
    if p.len() > s.len() {
        return false;
    }
    if p.len() == 0 {
        assert(occurs_at_seq(s@, p@, 0));
        return true;
    }
    let mut i: usize = 0;
    while i <= s.len() - p.len()
        invariant
            0 < p@.len() <= s@.len(),
            s@.len() <= usize::MAX,
            forall|j: int| 0 <= j < i ==> !occurs_at_seq(s@, p@, j),
        decreases s@.len() - p@.len() + 1 - i,
    {
        if occurs_at(s, p, i) {
            return true;
        }
        i = i + 1;
    }
    assert forall|j: int| !occurs_at_seq(s@, p@, j) by {
        if 0 <= j && j < i {
        }
    }
    false
}

pub fn chars_eq(a: &[char], b: &[char]) -> (r: bool)
    ensures
        r == (a@ == b@),
{
    if a.len() != b.len() {
        return false;
    }
    let r = occurs_at(a, b, 0);
    proof {
        if r {
            assert(a@ =~= b@);
        }
    }
    r
}

/// The first occurrence of `p` in `s` at or after `from`.
pub open spec fn first_occ(s: Seq<char>, p: Seq<char>, from: nat) -> Option<nat>
    decreases s.len() - from,
{
    if from + p.len() > s.len() {
        None
    } else if occurs_at_seq(s, p, from as int) {
        Some(from)
    } else {
        first_occ(s, p, from + 1)
    }
}

pub proof fn lemma_first_occ_bound(s: Seq<char>, p: Seq<char>, from: nat)
    ensures
        first_occ(s, p, from) matches Some(i) ==> from <= i && i + p.len() <= s.len()
            && occurs_at_seq(s, p, i as int),
    decreases s.len() - from,
{
    if from + p.len() <= s.len() && !occurs_at_seq(s, p, from as int) {
        lemma_first_occ_bound(s, p, from + 1);
    }
}

pub proof fn lemma_first_occ_skip(s: Seq<char>, p: Seq<char>, from: nat, to: nat)
    requires
        from <= to,
        to + p.len() <= s.len(),
        forall|j: int| from <= j < to ==> !occurs_at_seq(s, p, j),
    ensures
        first_occ(s, p, from) == first_occ(s, p, to),
    decreases to - from,
{
    if from < to {
        lemma_first_occ_skip(s, p, from + 1, to);
    }
}

pub proof fn lemma_first_occ_none(s: Seq<char>, p: Seq<char>, from: nat)
    requires
        forall|j: int| from <= j ==> !occurs_at_seq(s, p, j),
    ensures
        first_occ(s, p, from) is None,
    decreases s.len() - from,
{
    if from + p.len() <= s.len() {
        lemma_first_occ_none(s, p, from + 1);
    }
}

/// `str::split` with a non-empty separator: the pieces between successive
/// non-overlapping occurrences, left to right, empty pieces included.
pub open spec fn split_seq(s: Seq<char>, sep: Seq<char>) -> Seq<Seq<char>>
    decreases s.len(),
{
    if sep.len() == 0 {
        seq![s]
    } else {
        match first_occ(s, sep, 0) {
            None => seq![s],
            Some(i) => {
                proof {
                    lemma_first_occ_bound(s, sep, 0);
                }
                seq![s.subrange(0, i as int)] + split_seq(
                    s.subrange((i + sep.len()) as int, s.len() as int),
                    sep,
                )
            },
        }
    }
}

/// `s` split at each occurrence of the non-empty separator `sep`.
pub fn split(s: &[char], sep: &[char]) -> (r: Vec<Vec<char>>)
    requires
        sep@.len() > 0,
    ensures
        r@.len() == split_seq(s@, sep@).len(),
        forall|k: int| 0 <= k < r@.len() ==> #[trigger] r@[k]@ == split_seq(s@, sep@)[k],
{
    let mut out: Vec<Vec<char>> = Vec::new();
    let mut start: usize = 0;
    let mut i: usize = 0;
    let ghost whole = split_seq(s@, sep@);
    assert(s@.subrange(0, s@.len() as int) =~= s@);
    while i < s.len()
        invariant
            start <= i <= s@.len(),
            sep@.len() > 0,
            whole == split_seq(s@, sep@),
            whole.len() == out@.len() + split_seq(s@.subrange(start as int, s@.len() as int), sep@).len(),
            forall|k: int| 0 <= k < out@.len() ==> #[trigger] out@[k]@ == whole[k],
            forall|k: int|
                0 <= k < split_seq(s@.subrange(start as int, s@.len() as int), sep@).len()
                    ==> whole[out@.len() + k] == #[trigger] split_seq(
                    s@.subrange(start as int, s@.len() as int),
                    sep@,
                )[k],
            forall|j: int|
                start <= j < i ==> !occurs_at_seq(s@, sep@, j),
        decreases s@.len() - i,
    {
        if occurs_at(s, sep, i) {
            let ghost rest = s@.subrange(start as int, s@.len() as int);
            let ghost rest2 = s@.subrange(i + sep@.len(), s@.len() as int);
            proof {
                assert forall|j: int| 0 <= j < i - start implies !occurs_at_seq(rest, sep@, j) by {
                    lemma_occurs_in_suffix(s@, sep@, start as int, j);
                }
                lemma_occurs_in_suffix(s@, sep@, start as int, i - start);
                lemma_first_occ_skip(rest, sep@, 0, (i - start) as nat);
                assert(first_occ(rest, sep@, 0) == Some((i - start) as nat));
                assert(rest.subrange(0, (i - start) as int) =~= s@.subrange(
                    start as int,
                    i as int,
                ));
                assert(rest.subrange((i - start) + sep@.len(), rest.len() as int) =~= rest2);
                assert(split_seq(rest, sep@) =~= seq![s@.subrange(start as int, i as int)]
                    + split_seq(rest2, sep@));
            }
            let mut piece: Vec<char> = Vec::new();
            let mut k: usize = start;
            while k < i
                invariant
                    start <= k <= i,
                    i <= s@.len(),
                    piece@ == s@.subrange(start as int, k as int),
                decreases i - k,
            {
                piece.push(s[k]);
                assert(s@.subrange(start as int, k + 1) =~= s@.subrange(
                    start as int,
                    k as int,
                ).push(s@[k as int]));
                k = k + 1;
            }
            let ghost prev = out@;
            out.push(piece);
            proof {
                assert forall|k: int| 0 <= k < out@.len() implies #[trigger] out@[k]@ == whole[k] by {
                    if k < prev.len() {
                        assert(out@[k] == prev[k]);
                    } else {
                        assert(split_seq(rest, sep@)[0] == s@.subrange(start as int, i as int));
                    }
                }
                assert forall|k: int| 0 <= k < split_seq(rest2, sep@).len() implies whole[out@.len()
                    + k] == #[trigger] split_seq(rest2, sep@)[k] by {
                    assert(split_seq(rest, sep@)[k + 1] == split_seq(rest2, sep@)[k]);
                }
            }
            start = i + sep.len();
            i = start;
        } else {
            i = i + 1;
        }
    }
    let ghost rest = s@.subrange(start as int, s@.len() as int);
    proof {
        assert forall|j: int| 0 <= j implies !occurs_at_seq(rest, sep@, j) by {
            lemma_occurs_in_suffix(s@, sep@, start as int, j);
        }
        lemma_first_occ_none(rest, sep@, 0);
        assert(split_seq(rest, sep@) == seq![rest]);
    }
    let mut piece: Vec<char> = Vec::new();
    let mut k: usize = start;
    while k < s.len()
        invariant
            start <= k <= s@.len(),
            piece@ == s@.subrange(start as int, k as int),
        decreases s@.len() - k,
    {
        piece.push(s[k]);
        assert(s@.subrange(start as int, k + 1) =~= s@.subrange(start as int, k as int).push(
            s@[k as int],
        ));
        k = k + 1;
    }
    let ghost prev = out@;
    out.push(piece);
    proof {
        assert forall|k: int| 0 <= k < out@.len() implies #[trigger] out@[k]@ == whole[k] by {
            if k < prev.len() {
                assert(out@[k] == prev[k]);
            } else {
                assert(split_seq(rest, sep@)[0] == rest);
            }
        }
    }
    out
}

/// Bytes that a character takes in UTF-8.
pub open spec fn char_utf8_len(c: char) -> nat {
    if (c as u32) < 0x80 {
        1
    } else if (c as u32) < 0x800 {
        2
    } else if (c as u32) < 0x10000 {
        3
    } else {
        4
    }
}

/// Bytes that a text takes in UTF-8 (`str::len`).
pub open spec fn utf8_len(s: Seq<char>) -> nat
    decreases s.len(),
{
    if s.len() == 0 {
        0
    } else {
        utf8_len(s.drop_last()) + char_utf8_len(s.last())
    }
}

/// The UTF-8 length of `s`, computed without overflow.
pub fn utf8_len_of(s: &[char]) -> (r: u128)
    ensures
        r == utf8_len(s@),
{
    let mut total: u128 = 0;
    let mut i: usize = 0;
    assert(s@.len() == s.len());
    while i < s.len()
        invariant
            i <= s@.len(),
            s@.len() <= usize::MAX,
            total == utf8_len(s@.take(i as int)),
            total <= 4 * i,
        decreases s@.len() - i,
    {
        let u = s[i] as u32;
        let w: u128 = if u < 0x80 {
            1
        } else if u < 0x800 {
            2
        } else if u < 0x10000 {
            3
        } else {
            4
        };
        assert(s@.take(i + 1).drop_last() =~= s@.take(i as int));
        total = total + w;
        i = i + 1;
    }
    assert(s@.take(s@.len() as int) =~= s@);
    total
}

/// The parts joined with `sep` between them.
pub open spec fn join_seq(parts: Seq<Seq<char>>, sep: Seq<char>) -> Seq<char>
    decreases parts.len(),
{
    if parts.len() == 0 {
        Seq::empty()
    } else if parts.len() == 1 {
        parts[0]
    } else {
        join_seq(parts.drop_last(), sep) + sep + parts.last()
    }
}

/// Join the parts with `sep` between them.
pub fn join_parts(parts: &Vec<Vec<char>>, sep: &str) -> (r: Vec<char>)
    ensures
        r@ == join_seq(parts@.map_values(|p: Vec<char>| p@), sep@),
{
    let ghost ps = parts@.map_values(|p: Vec<char>| p@);
    let mut r: Vec<char> = Vec::new();
    let mut i: usize = 0;
    while i < parts.len()
        invariant
            i <= parts@.len(),
            ps == parts@.map_values(|p: Vec<char>| p@),
            r@ == join_seq(ps.take(i as int), sep@),
        decreases parts@.len() - i,
    {
        assert(ps.take(i + 1).drop_last() =~= ps.take(i as int));
        assert(ps.take(i + 1).last() == parts@[i as int]@);
        if i > 0 {
            push_str(&mut r, sep);
        }
        push_all(&mut r, parts[i].as_slice());
        if i == 0 {
            assert(r@ =~= ps.take(1)[0]);
        }
        i = i + 1;
    }
    assert(ps.take(parts@.len() as int) =~= ps);
    r
}

/// `v` as a list of texts.
pub open spec fn texts(v: Seq<Vec<char>>) -> Seq<Seq<char>> {
    v.map_values(|p: Vec<char>| p@)
}

/// Whether `v` already holds the text `t`.
pub fn holds_text(v: &Vec<Vec<char>>, t: &[char]) -> (r: bool)
    ensures
        r == texts(v@).contains(t@),
{
    let mut i: usize = 0;
    while i < v.len()
        invariant
            i <= v@.len(),
            forall|j: int| 0 <= j < i ==> v@[j]@ != t@,
        decreases v@.len() - i,
    {
        if chars_eq(v[i].as_slice(), t) {
            assert(texts(v@)[i as int] == t@);
            return true;
        }
        i = i + 1;
    }
    assert forall|j: int| 0 <= j < texts(v@).len() implies texts(v@)[j] != t@ by {
        assert(texts(v@)[j] == v@[j]@);
    }
    false
}

/// A copy of `v`.
pub fn chars_of_slice(v: &[char]) -> (r: Vec<char>)
    ensures
        r@ == v@,
{
    let mut r: Vec<char> = Vec::new();
    push_all(&mut r, v);
    assert(r@ =~= v@);
    r
}

// ---------------------------------------------------------------- numbers

/// The value of a digit in base 10 or 16 (either case).
pub open spec fn digit_value(c: char, radix: nat) -> Option<nat> {
    if '0' <= c && c <= '9' {
        Some((c as nat - '0' as nat) as nat)
    } else if radix == 16 && 'a' <= c && c <= 'f' {
        Some((c as nat - 'a' as nat + 10) as nat)
    } else if radix == 16 && 'A' <= c && c <= 'F' {
        Some((c as nat - 'A' as nat + 10) as nat)
    } else {
        None
    }
}

/// The value of a non-empty run of digits.
pub open spec fn digits_value(s: Seq<char>, radix: nat) -> Option<nat>
    decreases s.len(),
{
    if s.len() == 0 {
        None
    } else if s.len() == 1 {
        digit_value(s[0], radix)
    } else {
        match (digits_value(s.drop_last(), radix), digit_value(s.last(), radix)) {
            (Some(a), Some(d)) => Some(if radix == 16 { a * 16 + d } else { a * 10 + d }),
            _ => None,
        }
    }
}

/// `str::parse` (base 10) or `from_str_radix` (base 16) for an unsigned integer
/// type whose largest value is `max`: an optional `+`, then one or more digits,
/// and a value that fits.
pub open spec fn parse_unsigned(s: Seq<char>, radix: nat, max: nat) -> Option<nat> {
    let body = if s.len() > 0 && s[0] == '+' { s.drop_first() } else { s };
    match digits_value(body, radix) {
        Some(v) => if v <= max { Some(v) } else { None },
        None => None,
    }
}

fn digit_of(c: char, radix: u32) -> (r: Option<u32>)
    requires
        radix == 10 || radix == 16,
    ensures
        match r {
            Some(d) => digit_value(c, radix as nat) == Some(d as nat) && d < radix,
            None => digit_value(c, radix as nat) is None,
        },
{
    if '0' <= c && c <= '9' {
        Some((c as u32) - ('0' as u32))
    } else if radix == 16 && 'a' <= c && c <= 'f' {
        Some((c as u32) - ('a' as u32) + 10)
    } else if radix == 16 && 'A' <= c && c <= 'F' {
        Some((c as u32) - ('A' as u32) + 10)
    } else {
        None
    }
}

/// Parse an unsigned integer in base 10 or 16 that must not exceed `max`.
pub fn parse_unsigned_text(s: &[char], radix: u32, max: u64) -> (r: Option<u64>)
    requires
        radix == 10 || radix == 16,
    ensures
        match r {
            Some(v) => parse_unsigned(s@, radix as nat, max as nat) == Some(v as nat),
            None => parse_unsigned(s@, radix as nat, max as nat) is None,
        },
{
    let start: usize = if s.len() > 0 && s[0] == '+' { 1 } else { 0 };
    let ghost body = if s@.len() > 0 && s@[0] == '+' { s@.drop_first() } else { s@ };
    assert(body =~= s@.subrange(start as int, s@.len() as int));
    if start >= s.len() {
        return None;
    }
    let cap: u128 = max as u128 + 1;
    let mut acc: u128 = 0;
    let mut i: usize = start;
    while i < s.len()
        invariant
            start < s@.len(),
            start <= i <= s@.len(),
            radix == 10 || radix == 16,
            body == s@.subrange(start as int, s@.len() as int),
            body == (if s@.len() > 0 && s@[0] == '+' { s@.drop_first() } else { s@ }),
            cap == max as u128 + 1,
            acc <= cap,
            i == start ==> acc == 0,
            i > start ==> (digits_value(s@.subrange(start as int, i as int), radix as nat) matches Some(v) && acc == (if v < cap { v } else { cap as nat })),
        decreases s@.len() - i,
    {
        let d = match digit_of(s[i], radix) {
            Some(d) => d,
            None => {
                proof {
                    assert(body[i - start] == s@[i as int]);
                    lemma_digits_prefix_none(body, (i - start) as nat, radix as nat);
                    assert(body.take(body.len() as int) =~= body);
                    assert(digits_value(body.take(body.len() as int), radix as nat) is None);
                    assert(digits_value(body, radix as nat) is None);
                    assert(body == (if s@.len() > 0 && s@[0] == '+' { s@.drop_first() } else { s@ }));
                    assert(parse_unsigned(s@, radix as nat, max as nat) is None);
                }
                return None;
            },
        };
        let ghost pre = s@.subrange(start as int, i as int);
        let ghost nxt = s@.subrange(start as int, i + 1);
        assert(nxt.drop_last() =~= pre);
        assert(nxt.last() == s@[i as int]);
        assert(acc * (radix as u128) <= 0x1_0000_0000_0000_0000 * 16) by (nonlinear_arith)
            requires acc <= cap, cap <= 0x1_0000_0000_0000_0000, radix <= 16;
        let next = acc * (radix as u128) + d as u128;
        proof {
            if i > start {
                let v = digits_value(pre, radix as nat)->Some_0;
                let w: nat = if radix == 16 { v * 16 + d as nat } else { v * 10 + d as nat };
                assert(digits_value(nxt, radix as nat) == Some(w));
                if v < cap {
                    assert(next == w) by (nonlinear_arith)
                        requires acc == v, next == acc * (radix as u128) + d as u128,
                            w == (if radix == 16 { v * 16 + d as nat } else { v * 10 + d as nat }), radix == 10 || radix == 16;
                } else {
                    assert(w >= cap) by (nonlinear_arith)
                        requires v >= cap, w == (if radix == 16 { v * 16 + d as nat } else { v * 10 + d as nat }), radix == 10 || radix == 16;
                    assert(next >= cap) by (nonlinear_arith)
                        requires acc == cap, next == acc * (radix as u128) + d as u128, radix == 10 || radix == 16;
                }
            } else {
                assert(nxt.len() == 1);
                assert(nxt[0] == s@[i as int]);
                assert(digits_value(nxt, radix as nat) == Some(d as nat));
                assert(next == d as u128) by (nonlinear_arith)
                    requires acc == 0, next == acc * (radix as u128) + d as u128;
            }
        }
        acc = if next < cap { next } else { cap };
        i = i + 1;
    }
    assert(s@.subrange(start as int, s@.len() as int) =~= body);
    if acc < cap {
        Some(acc as u64)
    } else {
        None
    }
}

proof fn lemma_digits_prefix_none(s: Seq<char>, n: nat, radix: nat)
    requires
        n < s.len(),
        digit_value(s[n as int], radix) is None,
    ensures
        forall|m: nat| n < m <= s.len() ==> #[trigger] digits_value(s.take(m as int), radix) is None,
{
    assert forall|m: nat| n < m <= s.len() implies #[trigger] digits_value(s.take(m as int), radix) is None by {
        lemma_digits_none_from(s, n, radix, m);
    }
}

proof fn lemma_digits_none_from(s: Seq<char>, n: nat, radix: nat, m: nat)
    requires
        n < m <= s.len(),
        digit_value(s[n as int], radix) is None,
    ensures
        digits_value(s.take(m as int), radix) is None,
    decreases m,
{
    let t = s.take(m as int);
    if m == n + 1 {
        assert(t.last() == s[n as int]);
        if m == 1 {
            assert(t[0] == s[0]);
        }
    } else {
        assert(t.drop_last() =~= s.take(m - 1));
        lemma_digits_none_from(s, n, radix, (m - 1) as nat);
    }
}

/// `s` split at the first `c`: the text before it and the text after it.
pub open spec fn split_once_seq(s: Seq<char>, c: char) -> Option<(Seq<char>, Seq<char>)> {
    match first_occ(s, seq![c], 0) {
        None => None,
        Some(i) => Some((s.subrange(0, i as int), s.subrange(i as int + 1, s.len() as int))),
    }
}

pub fn split_once(s: &[char], c: char) -> (r: Option<(Vec<char>, Vec<char>)>)
    ensures
        match r {
            None => split_once_seq(s@, c) is None,
            Some((a, b)) => split_once_seq(s@, c) == Some((a@, b@)),
        },
{
    let mut i: usize = 0;
    while i < s.len() && s[i] != c
        invariant
            i <= s@.len(),
            forall|j: int| 0 <= j < i ==> s@[j] != c,
        decreases s@.len() - i,
    {
        i = i + 1;
    }
    proof {
        assert forall|j: int| 0 <= j < i implies !occurs_at_seq(s@, seq![c], j) by {
            assert(s@[j] != seq![c][0]);
        }
        if i < s.len() {
            assert(occurs_at_seq(s@, seq![c], i as int));
            lemma_first_occ_skip(s@, seq![c], 0, i as nat);
        } else {
            assert forall|j: int| 0 <= j implies !occurs_at_seq(s@, seq![c], j) by {
                if j < s@.len() {
                    assert(s@[j] != seq![c][0]);
                }
            }
            lemma_first_occ_none(s@, seq![c], 0);
        }
    }
    if i == s.len() {
        return None;
    }
    let mut a: Vec<char> = Vec::new();
    let mut k: usize = 0;
    while k < i
        invariant
            k <= i < s@.len(),
            a@ == s@.subrange(0, k as int),
        decreases i - k,
    {
        a.push(s[k]);
        k = k + 1;
        assert(a@ =~= s@.subrange(0, k as int));
    }
    let mut b: Vec<char> = Vec::new();
    let mut k: usize = i + 1;
    while k < s.len()
        invariant
            i + 1 <= k <= s@.len(),
            b@ == s@.subrange(i + 1, k as int),
        decreases s@.len() - k,
    {
        b.push(s[k]);
        k = k + 1;
        assert(b@ =~= s@.subrange(i + 1, k as int));
    }
    Some((a, b))
}

/// What `str::to_lowercase` gives: ASCII text with its letters lowered, other
/// text by the Unicode mapping.
pub open spec fn lowercase_of(s: Seq<char>) -> Seq<char> {
    if is_ascii_seq(s) {
        ascii_lower_seq(s)
    } else {
        unicode_lowercase(s)
    }
}

/// Lower-case `s` (as `str::to_lowercase`), as characters.
pub fn lowercase_chars(s: &str) -> (r: Vec<char>)
    ensures
        r@ == lowercase_of(s@),
{
    let l = str_to_lowercase(s);
    chars_of(l.as_str())
}

/// A `String` holding the characters of `s`.
pub fn str_of_chars(s: &Vec<char>) -> (r: String)
    ensures
        r@ == s@,
{
    string_of(s.as_slice())
}

/// The decimal form of a signed integer.
pub open spec fn int_seq(i: int) -> Seq<char> {
    if i < 0 {
        seq!['-'] + dec_seq((-i) as nat)
    } else {
        dec_seq(i as nat)
    }
}

pub fn push_int(v: &mut Vec<char>, x: i64)
    ensures
        final(v)@ == old(v)@ + int_seq(x as int),
{
    if x < 0 {
        v.push('-');
        let m: u64 = if x == i64::MIN { 0x8000_0000_0000_0000u64 } else { (-x) as u64 };
        let ghost mid = v@;
        push_decimal(v, m);
        assert(v@ =~= old(v)@ + int_seq(x as int));
    } else {
        push_decimal(v, x as u64);
    }
}

} // verus!
