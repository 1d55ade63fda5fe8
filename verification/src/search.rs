//! Byte-string search used by the stream view.
use vstd::prelude::*;

verus! {

/// `needle` occurs in `hay` starting at byte `i`.
pub open spec fn matches_at(hay: Seq<u8>, needle: Seq<u8>, i: int) -> bool {
    &&& 0 <= i
    &&& i + needle.len() <= hay.len()
    &&& forall|k: int| 0 <= k < needle.len() ==> hay[i + k] == needle[k]
}

/// The first occurrence of `needle` in `hay` that starts at or after `from`.
pub open spec fn first_match_from(hay: Seq<u8>, needle: Seq<u8>, from: nat) -> Option<nat>
    decreases hay.len() - from,
{
    if from + needle.len() > hay.len() {
        None
    } else if matches_at(hay, needle, from as int) {
        Some(from)
    } else {
        first_match_from(hay, needle, from + 1)
    }
}

/// The last occurrence of `needle` in `hay` that lies entirely before byte `end`
/// (its start is at most `end - needle.len()`), looking no further back than `end`.
pub open spec fn last_match_ending_by(hay: Seq<u8>, needle: Seq<u8>, end: nat) -> Option<nat>
    decreases end,
{
    if end < needle.len() || end > hay.len() {
        None
    } else if matches_at(hay, needle, end - needle.len()) {
        Some((end - needle.len()) as nat)
    } else if end == 0 {
        None
    } else {
        last_match_ending_by(hay, needle, (end - 1) as nat)
    }
}

/// Successive non-overlapping occurrences: each search resumes right after the
/// previous occurrence, and at most `cap` positions are collected.
pub open spec fn scan_matches(hay: Seq<u8>, needle: Seq<u8>, from: nat, cap: nat) -> Seq<nat>
    decreases cap,
{
    if cap == 0 {
        Seq::empty()
    } else {
        match first_match_from(hay, needle, from) {
            None => Seq::empty(),
            Some(p) => seq![p] + scan_matches(hay, needle, p + needle.len(), (cap - 1) as nat),
        }
    }
}

pub open spec fn min_nat(a: nat, b: nat) -> nat {
    if a < b { a } else { b }
}

proof fn lemma_first_match_skip(hay: Seq<u8>, needle: Seq<u8>, from: nat, to: nat)
    requires
        from <= to,
        to + needle.len() <= hay.len(),
        forall|j: nat| from <= j < to ==> !matches_at(hay, needle, j as int),
    ensures
        first_match_from(hay, needle, from) == first_match_from(hay, needle, to),
    decreases to - from,
{
    if from < to {
        lemma_first_match_skip(hay, needle, from + 1, to);
    }
}

proof fn lemma_first_match_none(hay: Seq<u8>, needle: Seq<u8>, from: nat)
    requires
        forall|j: nat| from <= j ==> !matches_at(hay, needle, j as int),
    ensures
        first_match_from(hay, needle, from) is None,
    decreases hay.len() - from,
{
    if from + needle.len() <= hay.len() {
        lemma_first_match_none(hay, needle, from + 1);
    }
}

/// The first match lies at or after `from` and nothing matches in between.
pub proof fn lemma_first_match_is_first(hay: Seq<u8>, needle: Seq<u8>, from: nat)
    ensures
        match first_match_from(hay, needle, from) {
            Some(p) => from <= p && matches_at(hay, needle, p as int) && forall|j: int|
                from <= j < p ==> !matches_at(hay, needle, j),
            None => forall|j: int| from <= j ==> !matches_at(hay, needle, j),
        },
    decreases hay.len() - from,
{
    if from + needle.len() <= hay.len() && !matches_at(hay, needle, from as int) {
        lemma_first_match_is_first(hay, needle, from + 1);
    }
}

/// The last match found ends by `end` and nothing later ends by `end`.
pub proof fn lemma_last_match_is_last(hay: Seq<u8>, needle: Seq<u8>, end: nat)
    requires
        end <= hay.len(),
    ensures
        match last_match_ending_by(hay, needle, end) {
            Some(p) => p + needle.len() <= end && matches_at(hay, needle, p as int) && forall|j: int|
                p < j && j + needle.len() <= end ==> !matches_at(hay, needle, j),
            None => forall|j: int| 0 <= j && j + needle.len() <= end ==> !matches_at(hay, needle, j),
        },
    decreases end,
{
    if end >= needle.len() && !matches_at(hay, needle, end - needle.len()) && end > 0 {
        lemma_last_match_is_last(hay, needle, (end - 1) as nat);
    }
}

/// Whether `needle` occurs in `hay` at `pos`, checked byte by byte.
fn occurs_at(hay: &[u8], needle: &[u8], pos: usize) -> (r: bool)
    requires
        pos + needle@.len() <= hay@.len(),
    ensures
        r == matches_at(hay@, needle@, pos as int),
{
    let hl: usize = hay.len();
    let mut k: usize = 0;
    while k < needle.len()
        invariant
            hl == hay@.len(),
            k <= needle@.len(),
            pos + needle@.len() <= hay@.len(),
            forall|m: int| 0 <= m < k ==> hay@[pos + m] == needle@[m],
        decreases needle@.len() - k,
    {
        assert(pos + k < hay@.len());
        if hay[pos + k] != needle[k] {
            return false;
        }
        k = k + 1;
    }
    true
}

/// Return the first index of `needle` in `haystack`, if any.
pub fn find_subslice(haystack: &[u8], needle: &[u8]) -> (r: Option<usize>)
    ensures
        r is Some <==> first_match_from(haystack@, needle@, 0) is Some,
        r matches Some(p) ==> first_match_from(haystack@, needle@, 0) == Some(p as nat),
{
    find_next_subslice_from(haystack, needle, 0)
}

/// Return the first index of `needle` in `haystack`, searching starting at `from`.
///
/// If `needle` is empty, returns `Some(from.min(haystack.len()))`.
pub fn find_next_subslice_from(haystack: &[u8], needle: &[u8], from: usize) -> (r: Option<usize>)
    ensures
        r is Some <==> first_match_from(
            haystack@,
            needle@,
            min_nat(from as nat, haystack@.len()),
        ) is Some,
        r matches Some(p) ==> first_match_from(
            haystack@,
            needle@,
            min_nat(from as nat, haystack@.len()),
        ) == Some(p as nat),
{
    let start: usize = if from < haystack.len() { from } else { haystack.len() };
    if needle.len() == 0 {
        assert(matches_at(haystack@, needle@, start as int));
        return Some(start);
    }
    if needle.len() > haystack.len() {
        return None;
    }
    let last: usize = haystack.len() - needle.len();
    assert(haystack@.len() == haystack.len());
    let mut i: usize = start;
    while i <= last
        invariant
            start <= i,
            start <= haystack@.len(),
            start as nat == min_nat(from as nat, haystack@.len()),
            haystack@.len() <= usize::MAX,
            0 < needle@.len() <= haystack@.len(),
            last == haystack@.len() - needle@.len(),
            forall|j: nat| start <= j < i ==> !matches_at(haystack@, needle@, j as int),
        decreases last + 1 - i,
    {
        if occurs_at(haystack, needle, i) {
            proof {
                lemma_first_match_skip(haystack@, needle@, start as nat, i as nat);
            }
            return Some(i);
        }
        i = i + 1;
    }
    proof {
        assert forall|j: nat| start <= j implies !matches_at(haystack@, needle@, j as int) by {
            if j < i {
            }
        }
        lemma_first_match_none(haystack@, needle@, start as nat);
    }
    None
}

/// Return the last index of `needle` in `haystack` whose match lies entirely before
/// `before` (clamped to the haystack length).
///
/// If `needle` is empty, returns `Some(before.min(haystack.len()))`.
pub fn find_prev_subslice_before(haystack: &[u8], needle: &[u8], before: usize) -> (r: Option<
    usize,
>)
    ensures
        r is Some <==> last_match_ending_by(
            haystack@,
            needle@,
            min_nat(before as nat, haystack@.len()),
        ) is Some,
        r matches Some(p) ==> last_match_ending_by(
            haystack@,
            needle@,
            min_nat(before as nat, haystack@.len()),
        ) == Some(p as nat),
{
    let end: usize = if before < haystack.len() { before } else { haystack.len() };
    if needle.len() == 0 {
        assert(matches_at(haystack@, needle@, end as int));
        return Some(end);
    }
    if needle.len() > end {
        return None;
    }
    assert(end as nat == min_nat(before as nat, haystack@.len()));
    let mut e: usize = end;
    while e >= needle.len()
        invariant
            e <= end,
            end <= haystack@.len(),
            end as nat == min_nat(before as nat, haystack@.len()),
            needle@.len() > 0,
            last_match_ending_by(haystack@, needle@, end as nat) == last_match_ending_by(
                haystack@,
                needle@,
                e as nat,
            ),
        decreases e,
    {
        if occurs_at(haystack, needle, e - needle.len()) {
            assert(last_match_ending_by(haystack@, needle@, e as nat) == Some(
                (e - needle@.len()) as nat,
            ));
            return Some(e - needle.len());
        }
        e = e - 1;
    }
    None
}

/// Collect successive non-overlapping occurrences of `needle`, at most `cap` of them.
/// An empty needle yields no positions.
pub fn find_all_subslice_positions(haystack: &[u8], needle: &[u8], cap: usize) -> (r: Vec<usize>)
    ensures
        needle@.len() == 0 ==> r@.len() == 0,
        needle@.len() > 0 ==> r@.len() == scan_matches(haystack@, needle@, 0, cap as nat).len(),
        needle@.len() > 0 ==> forall|i: int|
            0 <= i < r@.len() ==> r@[i] as nat == scan_matches(haystack@, needle@, 0, cap as nat)[i],
{
    let mut out: Vec<usize> = Vec::new();
    if needle.len() == 0 {
        return out;
    }
    let mut from: usize = 0;
    assert(haystack@.len() == haystack.len());
    let ghost total = scan_matches(haystack@, needle@, 0, cap as nat);
    loop
        invariant
            needle@.len() > 0,
            out@.len() <= cap,
            from <= haystack@.len(),
            haystack@.len() <= usize::MAX,
            total == scan_matches(haystack@, needle@, 0, cap as nat),
            total =~= out@.map_values(|x: usize| x as nat) + scan_matches(
                haystack@,
                needle@,
                from as nat,
                (cap - out@.len()) as nat,
            ),
        ensures
            total =~= out@.map_values(|x: usize| x as nat),
        decreases cap - out@.len(),
    {
        if out.len() >= cap {
            assert(scan_matches(haystack@, needle@, from as nat, 0) =~= Seq::<nat>::empty());
            break;
        }
        let found = find_next_subslice_from(haystack, needle, from);
        match found {
            None => {
                assert(min_nat(from as nat, haystack@.len()) == from as nat);
                assert(scan_matches(haystack@, needle@, from as nat, (cap - out@.len()) as nat)
                    =~= Seq::<nat>::empty());
                assert(total =~= out@.map_values(|x: usize| x as nat));
                break;
            },
            Some(p) => {
                proof {
                    assert(min_nat(from as nat, haystack@.len()) == from as nat);
                    lemma_first_match_is_first(haystack@, needle@, from as nat);
                }
                let ghost rest = scan_matches(
                    haystack@,
                    needle@,
                    (p + needle@.len()) as nat,
                    (cap - out@.len() - 1) as nat,
                );
                assert(scan_matches(haystack@, needle@, from as nat, (cap - out@.len()) as nat)
                    =~= seq![p as nat] + rest);
                let ghost prev = out@;
                out.push(p);
                assert(out@.map_values(|x: usize| x as nat) =~= prev.map_values(|x: usize| x as nat)
                    + seq![p as nat]);
                from = p + needle.len();
            },
        }
    }
    out
}

} // verus!
