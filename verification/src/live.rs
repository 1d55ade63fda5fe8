//! Live capture through `tshark`: reading its version and interface list,
//! building its command line, turning its errors into advice, and turning its
//! field lines into packet rows.
use vstd::prelude::*;
use crate::hints::{dns_qname_spec, dns_rcode_spec, http_host_spec, opt_text, populate_hints, tls_sni_spec, tls_version_spec};
use crate::pcap::{assign_flow, flow_dir_of, packet_flow_key, row_summary_text, summarize, IpAddr, L4Proto, PacketRow};
use crate::text::{
    chars_of, contains, contains_seq, dec_seq, digits_value, first_occ, is_unicode_whitespace, lemma_first_occ_none,
    lemma_first_occ_skip, lowercase_chars, lowercase_of, parse_unsigned, parse_unsigned_text, split, split_once,
    split_once_seq, split_seq, str_of_chars, trim, trim_end_seq, trim_seq, trim_start_seq,
};

verus! {

pub struct IfaceEntry {
    pub index: usize,
    pub name: String,
    pub desc: Option<String>,
}

pub ghost struct IfaceModel {
    pub index: nat,
    pub name: Seq<char>,
    pub desc: Option<Seq<char>>,
}

pub open spec fn iface_view(e: IfaceEntry) -> IfaceModel {
    IfaceModel {
        index: e.index as nat,
        name: e.name@,
        desc: match e.desc {
            Some(d) => Some(d@),
            None => None,
        },
    }
}

/// The lines of a text (split at `\n`; the surrounding white space that every
/// use trims off covers a `\r` before it).
pub open spec fn text_lines(s: Seq<char>) -> Seq<Seq<char>> {
    split_seq(s, seq!['\n'])
}

pub open spec fn first_nonblank(ls: Seq<Seq<char>>) -> Option<Seq<char>>
    decreases ls.len(),
{
    if ls.len() == 0 {
        None
    } else if trim_seq(ls[0]).len() > 0 {
        Some(trim_seq(ls[0]))
    } else {
        first_nonblank(ls.drop_first())
    }
}

/// The first non-blank line of `tshark -v`, trimmed.
pub fn parse_tshark_version_output(stdout: &str) -> (r: Option<String>)
    ensures
        match r {
            Some(v) => first_nonblank(text_lines(stdout@)) == Some(v@),
            None => first_nonblank(text_lines(stdout@)) is None,
        },
{
    let cs = chars_of(stdout);
    let nl = chars_of("\n");
    proof {
        reveal_strlit("\n");
        assert(nl@ =~= seq!['\n']);
    }
    let ls = split(cs.as_slice(), nl.as_slice());
    let ghost lv = text_lines(stdout@);
    assert(lv.subrange(0, lv.len() as int) =~= lv);
    let mut i: usize = 0;
    while i < ls.len()
        invariant
            i <= ls@.len(),
            ls@.len() == lv.len(),
            forall|k: int| 0 <= k < ls@.len() ==> #[trigger] ls@[k]@ == lv[k],
            lv == text_lines(stdout@),
            first_nonblank(lv) == first_nonblank(lv.subrange(i as int, lv.len() as int)),
        decreases ls@.len() - i,
    {
        let t = trim(ls[i].as_slice());
        assert(ls@[i as int]@ == lv[i as int]);
        assert(lv.subrange(i as int, lv.len() as int)[0] == lv[i as int]);
        if t.len() > 0 {
            let ghost sub = lv.subrange(i as int, lv.len() as int);
            assert(sub.len() > 0);
            assert(trim_seq(sub[0]) == t@);
            assert(first_nonblank(sub) == Some(t@));
            return Some(str_of_chars(&t));
        }
        assert(lv.subrange(i as int, lv.len() as int).drop_first() =~= lv.subrange(i + 1, lv.len() as int));
        i = i + 1;
    }
    None
}

/// Strip one leading `(` and one trailing `)`, then trim; empty means none.
pub open spec fn iface_desc(d0: Seq<char>) -> Option<Seq<char>> {
    let d1 = trim_seq(d0);
    let d2 = if d1.len() > 0 && d1[0] == '(' { d1.drop_first() } else { d1 };
    let d3 = if d2.len() > 0 && d2.last() == ')' { d2.drop_last() } else { d2 };
    let d4 = trim_seq(d3);
    if d4.len() == 0 {
        None
    } else {
        Some(d4)
    }
}

/// One line of `tshark -D` (`N. name (description)`): `None` for blank lines,
/// lines without a `.`, nothing after it, or an index that is not a positive number.
pub open spec fn iface_line(l: Seq<char>) -> Option<IfaceModel> {
    let line = trim_seq(l);
    if line.len() == 0 {
        None
    } else {
        match split_once_seq(line, '.') {
            None => None,
            Some((idx_s, rest0)) => {
                let idx = match parse_unsigned(trim_seq(idx_s), 10, usize::MAX as nat) {
                    Some(v) => v,
                    None => 0,
                };
                let rest = trim_seq(rest0);
                if rest.len() == 0 || idx == 0 {
                    None
                } else {
                    match split_once_seq(rest, ' ') {
                        Some((n, d0)) => Some(IfaceModel { index: idx, name: n, desc: iface_desc(d0) }),
                        None => Some(IfaceModel { index: idx, name: rest, desc: None }),
                    }
                }
            },
        }
    }
}

pub open spec fn iface_lines(ls: Seq<Seq<char>>) -> Seq<IfaceModel>
    decreases ls.len(),
{
    if ls.len() == 0 {
        Seq::empty()
    } else {
        let rest = iface_lines(ls.drop_last());
        match iface_line(ls.last()) {
            Some(e) => rest.push(e),
            None => rest,
        }
    }
}

fn desc_exec(d0: &Vec<char>) -> (r: Option<String>)
    ensures
        match r {
            Some(d) => iface_desc(d0@) == Some(d@),
            None => iface_desc(d0@) is None,
        },
{
    let d1 = trim(d0.as_slice());
    let mut lo: usize = 0;
    if d1.len() > 0 && d1[0] == '(' {
        lo = 1;
    }
    let mut hi: usize = d1.len();
    if hi > lo && d1[hi - 1] == ')' {
        hi = hi - 1;
    }
    let ghost d2 = if d1@.len() > 0 && d1@[0] == '(' { d1@.drop_first() } else { d1@ };
    assert(d2 =~= d1@.subrange(lo as int, d1@.len() as int));
    let ghost d3 = if d2.len() > 0 && d2.last() == ')' { d2.drop_last() } else { d2 };
    assert(d3 =~= d1@.subrange(lo as int, hi as int));
    let mut mid: Vec<char> = Vec::new();
    let mut k: usize = lo;
    while k < hi
        invariant
            lo <= k <= hi,
            hi <= d1@.len(),
            mid@ == d1@.subrange(lo as int, k as int),
        decreases hi - k,
    {
        mid.push(d1[k]);
        k = k + 1;
        assert(mid@ =~= d1@.subrange(lo as int, k as int));
    }
    let d4 = trim(mid.as_slice());
    if d4.len() == 0 {
        None
    } else {
        Some(str_of_chars(&d4))
    }
}

fn iface_line_exec(l: &Vec<char>) -> (r: Option<IfaceEntry>)
    ensures
        match r {
            Some(e) => iface_line(l@) == Some(iface_view(e)),
            None => iface_line(l@) is None,
        },
{
    let line = trim(l.as_slice());
    if line.len() == 0 {
        return None;
    }
    match split_once(line.as_slice(), '.') {
        None => None,
        Some((idx_s, rest0)) => {
            let ts = trim(idx_s.as_slice());
            let idx: u64 = match parse_unsigned_text(ts.as_slice(), 10, usize::MAX as u64) {
                Some(v) => v,
                None => 0,
            };
            let rest = trim(rest0.as_slice());
            if rest.len() == 0 || idx == 0 {
                return None;
            }
            match split_once(rest.as_slice(), ' ') {
                Some((n, d0)) => {
                    let desc = desc_exec(&d0);
                    Some(IfaceEntry { index: idx as usize, name: str_of_chars(&n), desc })
                },
                None => Some(IfaceEntry { index: idx as usize, name: str_of_chars(&rest), desc: None }),
            }
        },
    }
}

pub open spec fn ifaces_view(v: Seq<IfaceEntry>) -> Seq<IfaceModel> {
    v.map_values(|e: IfaceEntry| iface_view(e))
}

/// The interfaces listed by `tshark -D`, in order.
pub fn parse_tshark_ifaces_output(stdout: &str) -> (r: Vec<IfaceEntry>)
    ensures
        ifaces_view(r@) == iface_lines(text_lines(stdout@)),
{
    let cs = chars_of(stdout);
    let nl = chars_of("\n");
    proof {
        reveal_strlit("\n");
        assert(nl@ =~= seq!['\n']);
    }
    let ls = split(cs.as_slice(), nl.as_slice());
    let ghost lv = text_lines(stdout@);
    let mut out: Vec<IfaceEntry> = Vec::new();
    let mut i: usize = 0;
    while i < ls.len()
        invariant
            i <= ls@.len(),
            ls@.len() == lv.len(),
            forall|k: int| 0 <= k < ls@.len() ==> #[trigger] ls@[k]@ == lv[k],
            ifaces_view(out@) == iface_lines(lv.take(i as int)),
        decreases ls@.len() - i,
    {
        assert(lv.take(i + 1).drop_last() =~= lv.take(i as int));
        assert(lv.take(i + 1).last() == ls@[i as int]@);
        let ghost before = out@;
        match iface_line_exec(&ls[i]) {
            Some(e) => {
                out.push(e);
                assert(ifaces_view(out@) =~= ifaces_view(before).push(iface_view(out@.last())));
            },
            None => {},
        }
        i = i + 1;
    }
    assert(lv.take(lv.len() as int) =~= lv);
    out
}

// ------------------------------------------------------------ listing round trip

/// An interface as `--list-ifaces` prints it: `N. name` or `N. name (description)`.
pub open spec fn listing_line(e: IfaceModel) -> Seq<char> {
    dec_seq(e.index) + seq!['.', ' '] + e.name + line_tail(e)
}

/// A printed interface listing: each entry's line and a newline.
pub open spec fn listing(es: Seq<IfaceModel>) -> Seq<char>
    decreases es.len(),
{
    if es.len() == 0 {
        Seq::empty()
    } else {
        listing_line(es[0]) + seq!['\n'] + listing(es.drop_first())
    }
}

/// An entry that `tshark -D` can list: a positive index, a name without white
/// space, and a description (if any) that is non-empty, trimmed and on one line.
pub open spec fn listable(e: IfaceModel) -> bool {
    &&& 1 <= e.index <= usize::MAX
    &&& e.name.len() > 0
    &&& forall|k: int| 0 <= k < e.name.len() ==> !is_unicode_whitespace(#[trigger] e.name[k])
    &&& match e.desc {
        Some(d) => d.len() > 0 && trim_seq(d) == d && forall|k: int| 0 <= k < d.len() ==> #[trigger] d[k] != '\n',
        None => true,
    }
}

proof fn lemma_trim_id(s: Seq<char>)
    requires
        s.len() > 0,
        !is_unicode_whitespace(s[0]),
        !is_unicode_whitespace(s.last()),
    ensures
        trim_seq(s) == s,
{
    assert(trim_start_seq(s) == s);
    assert(trim_end_seq(s) == s);
}

proof fn lemma_trim_start_len(s: Seq<char>)
    ensures
        trim_start_seq(s).len() <= s.len(),
        s.len() > 0 && is_unicode_whitespace(s[0]) ==> trim_start_seq(s).len() < s.len(),
    decreases s.len(),
{
    if s.len() > 0 && is_unicode_whitespace(s[0]) {
        lemma_trim_start_len(s.drop_first());
    }
}

proof fn lemma_trim_end_len(s: Seq<char>)
    ensures
        trim_end_seq(s).len() <= s.len(),
        s.len() > 0 && is_unicode_whitespace(s.last()) ==> trim_end_seq(s).len() < s.len(),
    decreases s.len(),
{
    if s.len() > 0 && is_unicode_whitespace(s.last()) {
        lemma_trim_end_len(s.drop_last());
    }
}

/// A trimmed text starts and ends with something other than white space.
proof fn lemma_trimmed_ends(d: Seq<char>)
    requires
        d.len() > 0,
        trim_seq(d) == d,
    ensures
        !is_unicode_whitespace(d[0]),
        !is_unicode_whitespace(d.last()),
{
    lemma_trim_start_len(d);
    lemma_trim_end_len(trim_start_seq(d));
    if !is_unicode_whitespace(d[0]) {
        assert(trim_start_seq(d) == d);
        lemma_trim_end_len(d);
    }
}

/// The decimal digits of `n` read back as `n`.
pub proof fn lemma_dec_reads_back(n: nat)
    ensures
        dec_seq(n).len() > 0,
        forall|k: int| 0 <= k < dec_seq(n).len() ==> '0' <= #[trigger] dec_seq(n)[k] <= '9',
        digits_value(dec_seq(n), 10) == Some(n),
    decreases n,
{
    if n >= 10 {
        lemma_dec_reads_back(n / 10);
        let s = dec_seq(n);
        assert(s.drop_last() =~= dec_seq(n / 10));
        assert forall|k: int| 0 <= k < s.len() implies '0' <= #[trigger] s[k] <= '9' by {
            if k < s.len() - 1 {
                assert(s[k] == dec_seq(n / 10)[k]);
            }
        }
    }
}

proof fn lemma_not_at(s: Seq<char>, c: char, j: int)
    requires
        0 <= j < s.len(),
        s[j] != c,
    ensures
        !crate::text::occurs_at_seq(s, seq![c], j),
{
    assert(s[j + 0] != seq![c][0]);
}

proof fn lemma_at(s: Seq<char>, c: char, j: int)
    requires
        0 <= j < s.len(),
        s[j] == c,
    ensures
        crate::text::occurs_at_seq(s, seq![c], j),
{
    assert forall|k: int| 0 <= k < 1 implies s[j + k] == seq![c][k] by {
        assert(k == 0);
    }
}

/// The first `c` of `s` is at `i`.
proof fn lemma_first_at(s: Seq<char>, c: char, i: int)
    requires
        0 <= i < s.len(),
        s[i] == c,
        forall|j: int| 0 <= j < i ==> s[j] != c,
    ensures
        first_occ(s, seq![c], 0) == Some(i as nat),
        split_once_seq(s, c) == Some((s.subrange(0, i), s.subrange(i + 1, s.len() as int))),
{
    assert forall|j: int| 0 <= j < i implies !crate::text::occurs_at_seq(s, seq![c], j) by {
        lemma_not_at(s, c, j);
    }
    lemma_first_occ_skip(s, seq![c], 0, i as nat);
    lemma_at(s, c, i);
    assert(first_occ(s, seq![c], i as nat) == Some(i as nat));
}

/// No `c` in `s`.
proof fn lemma_none_at(s: Seq<char>, c: char)
    requires
        forall|j: int| 0 <= j < s.len() ==> s[j] != c,
    ensures
        split_once_seq(s, c) is None,
{
    assert forall|j: int| 0 <= j implies !crate::text::occurs_at_seq(s, seq![c], j) by {
        if j < s.len() {
            lemma_not_at(s, c, j);
        }
    }
    lemma_first_occ_none(s, seq![c], 0);
}

/// What follows the name on a printed line.
pub open spec fn line_tail(e: IfaceModel) -> Seq<char> {
    match e.desc {
        Some(d) => seq![' ', '('] + d + seq![')'],
        None => Seq::empty(),
    }
}

/// After the index and its dot, a printed line trims to the name and what follows it.
proof fn lemma_after_dot(e: IfaceModel)
    requires
        listable(e),
    ensures
        trim_seq(seq![' '] + (e.name + line_tail(e))) == e.name + line_tail(e),
        (e.name + line_tail(e)).len() > 0,
{
    let n = e.name;
    let x = n + line_tail(e);
    assert(!is_unicode_whitespace(n[0]));
    assert(!is_unicode_whitespace(n.last()));
    assert(x[0] == n[0]);
    if e.desc is None {
        assert(x =~= n);
    } else {
        assert(x.last() == ')');
    }
    lemma_trim_id(x);
    let sx = seq![' '] + x;
    assert(sx.drop_first() =~= x);
    assert(is_unicode_whitespace(sx[0]));
    assert(trim_start_seq(sx) == trim_start_seq(x));
}

/// The name and what follows it read back as the name and the description.
proof fn lemma_name_and_desc(e: IfaceModel)
    requires
        listable(e),
    ensures
        match e.desc {
            Some(d) => split_once_seq(e.name + line_tail(e), ' ') matches Some((a, b)) && a == e.name && iface_desc(b) == Some(d),
            None => split_once_seq(e.name + line_tail(e), ' ') is None,
        },
{
    let n = e.name;
    let x = n + line_tail(e);
    assert forall|j: int| 0 <= j < n.len() implies x[j] != ' ' by {
        assert(x[j] == n[j]);
        assert(!is_unicode_whitespace(n[j]));
    }
    match e.desc {
        Some(d) => {
            lemma_trimmed_ends(d);
            assert(x[n.len() as int] == ' ');
            lemma_first_at(x, ' ', n.len() as int);
            assert(x.subrange(0, n.len() as int) =~= n);
            let pd = seq!['('] + d + seq![')'];
            assert(x.subrange(n.len() as int + 1, x.len() as int) =~= pd);
            assert(pd[0] == '(' && pd.last() == ')');
            lemma_trim_id(pd);
            assert(pd.drop_first() =~= d + seq![')']);
            assert((d + seq![')']).drop_last() =~= d);
            assert((d + seq![')']).last() == ')');
        },
        None => {
            assert(x =~= n);
            lemma_none_at(x, ' ');
        },
    }
}

/// One printed line reads back as its entry.
proof fn lemma_line_reads_back(e: IfaceModel)
    requires
        listable(e),
    ensures
        iface_line(listing_line(e)) == Some(e),
{
    let dd = dec_seq(e.index);
    lemma_dec_reads_back(e.index);
    let x = e.name + line_tail(e);
    let l = listing_line(e);
    assert(l =~= dd + (seq!['.'] + (seq![' '] + x)));
    lemma_after_dot(e);
    assert(x.len() > 0);
    assert(!is_unicode_whitespace(dd[0]));
    assert(l[0] == dd[0]);
    assert(l.last() == x.last());
    assert(!is_unicode_whitespace(x.last())) by {
        if e.desc is None {
            assert(x =~= e.name);
        }
    }
    lemma_trim_id(l);
    assert forall|j: int| 0 <= j < dd.len() implies l[j] != '.' by {
        assert(l[j] == dd[j]);
    }
    lemma_first_at(l, '.', dd.len() as int);
    assert(l.subrange(0, dd.len() as int) =~= dd);
    assert(l.subrange(dd.len() as int + 1, l.len() as int) =~= seq![' '] + x);
    assert(!is_unicode_whitespace(dd.last()));
    lemma_trim_id(dd);
    assert(dd[0] != '+');
    assert(parse_unsigned(dd, 10, usize::MAX as nat) == Some(e.index));
    lemma_name_and_desc(e);
}

proof fn lemma_line_has_no_newline(e: IfaceModel)
    requires
        listable(e),
    ensures
        forall|k: int| 0 <= k < listing_line(e).len() ==> #[trigger] listing_line(e)[k] != '\n',
{
    lemma_dec_reads_back(e.index);
    let dd = dec_seq(e.index);
    let l = listing_line(e);
    assert forall|k: int| 0 <= k < l.len() implies #[trigger] l[k] != '\n' by {
        let m = dd.len() + 2 + e.name.len();
        if k < dd.len() {
            assert(l[k] == dd[k]);
        } else if k < dd.len() + 2 {
        } else if k < m {
            assert(l[k] == e.name[k - dd.len() - 2]);
            assert(!is_unicode_whitespace(e.name[k - dd.len() - 2]));
        } else {
            match e.desc {
                Some(d) => {
                    if k >= m + 2 && k < m + 2 + d.len() {
                        assert(l[k] == d[k - m - 2]);
                    }
                },
                None => {},
            }
        }
    }
}

/// The lines of a printed listing: each entry's line, then the empty text after
/// the last newline.
proof fn lemma_listing_lines(es: Seq<IfaceModel>)
    requires
        forall|i: int| 0 <= i < es.len() ==> listable(#[trigger] es[i]),
    ensures
        es.len() == 0 ==> text_lines(listing(es)) == seq![Seq::<char>::empty()],
        es.len() > 0 ==> text_lines(listing(es)) == seq![listing_line(es[0])] + text_lines(listing(es.drop_first())),
{
    let s = listing(es);
    let nl = seq!['\n'];
    if es.len() == 0 {
        assert(first_occ(s, nl, 0) is None);
    } else {
        let l0 = listing_line(es[0]);
        assert(listable(es[0]));
        lemma_line_has_no_newline(es[0]);
        assert forall|j: int| 0 <= j < l0.len() implies s[j] != '\n' by {
            assert(s[j] == l0[j]);
        }
        assert(s[l0.len() as int] == '\n');
        lemma_first_at(s, '\n', l0.len() as int);
        assert(first_occ(s, nl, 0) == Some(l0.len()));
        assert(s.subrange(0, l0.len() as int) =~= l0);
        assert(s.subrange(l0.len() as int + 1, s.len() as int) =~= listing(es.drop_first()));
    }
}

/// Interface lines read front first: the first line's entry, then the rest.
proof fn lemma_iface_lines_front(a: Seq<char>, rest: Seq<Seq<char>>)
    ensures
        iface_lines(seq![a] + rest) == (match iface_line(a) {
            Some(e) => seq![e],
            None => Seq::empty(),
        }) + iface_lines(rest),
    decreases rest.len(),
{
    let front: Seq<IfaceModel> = match iface_line(a) {
        Some(e) => seq![e],
        None => Seq::empty(),
    };
    let whole = seq![a] + rest;
    if rest.len() == 0 {
        assert(whole =~= seq![a]);
        assert(whole.drop_last() =~= Seq::<Seq<char>>::empty());
        assert(whole.last() == a);
        assert(iface_lines(Seq::<Seq<char>>::empty()) =~= Seq::<IfaceModel>::empty());
        assert(iface_lines(whole) == (match iface_line(a) {
            Some(e) => iface_lines(whole.drop_last()).push(e),
            None => iface_lines(whole.drop_last()),
        }));
        assert(front + iface_lines(rest) =~= front);
        assert(iface_lines(whole) =~= front);
    } else {
        lemma_iface_lines_front(a, rest.drop_last());
        assert(whole.drop_last() =~= seq![a] + rest.drop_last());
        assert(whole.last() == rest.last());
        assert(iface_lines(whole) == (match iface_line(rest.last()) {
            Some(e) => iface_lines(whole.drop_last()).push(e),
            None => iface_lines(whole.drop_last()),
        }));
        assert(iface_lines(rest) == (match iface_line(rest.last()) {
            Some(e) => iface_lines(rest.drop_last()).push(e),
            None => iface_lines(rest.drop_last()),
        }));
        match iface_line(rest.last()) {
            Some(e) => {
                assert(front + iface_lines(rest) =~= (front + iface_lines(rest.drop_last())).push(e));
            },
            None => {},
        }
    }
}

/// Reading back a printed interface listing gives the listed entries, in order.
pub proof fn lemma_listing_reads_back(es: Seq<IfaceModel>)
    requires
        forall|i: int| 0 <= i < es.len() ==> listable(#[trigger] es[i]),
    ensures
        iface_lines(text_lines(listing(es))) == es,
    decreases es.len(),
{
    lemma_listing_lines(es);
    if es.len() == 0 {
        let e = Seq::<char>::empty();
        assert(trim_start_seq(e) == e);
        assert(trim_end_seq(e) == e);
        assert(iface_line(e) is None);
        assert(seq![e].drop_last() =~= Seq::<Seq<char>>::empty());
        assert(seq![e].last() == e);
        assert(iface_lines(Seq::<Seq<char>>::empty()) =~= Seq::<IfaceModel>::empty());
        assert(iface_lines(seq![e]) =~= Seq::<IfaceModel>::empty());
    } else {
        let rest = es.drop_first();
        assert forall|i: int| 0 <= i < rest.len() implies listable(#[trigger] rest[i]) by {
            assert(rest[i] == es[i + 1]);
        }
        lemma_listing_reads_back(rest);
        assert(listable(es[0]));
        lemma_line_reads_back(es[0]);
        lemma_iface_lines_front(listing_line(es[0]), text_lines(listing(rest)));
        assert(seq![es[0]] + rest =~= es);
    }
}

pub open spec fn permission_hint() -> Seq<char> {
    "tshark failed to start live capture (likely permissions). Try: run with sudo, or install Wireshark/tshark with capture permissions (dumpcap)."@
}

pub open spec fn device_hint() -> Seq<char> {
    "unknown capture interface. Run with --list-ifaces to see available interfaces."@
}

/// Advice for the common ways a live capture fails to start, judged on the
/// lower-cased error text.
pub open spec fn friendly_error_spec(stderr: Seq<char>) -> Option<Seq<char>> {
    let s = lowercase_of(stderr);
    if contains_seq(s, "permission denied"@) || contains_seq(s, "operation not permitted"@)
        || contains_seq(s, "you don't have permission"@) || contains_seq(s, "could not open capture device"@)
        || contains_seq(s, "cap_net_raw"@) || contains_seq(s, "cap_net_admin"@) {
        Some(permission_hint())
    } else if contains_seq(s, "no such device"@) || contains_seq(s, "unknown device"@) {
        Some(device_hint())
    } else {
        None
    }
}

fn has(s: &Vec<char>, p: &str) -> (r: bool)
    ensures
        r == contains_seq(s@, p@),
{
    let pc = chars_of(p);
    contains(s.as_slice(), pc.as_slice())
}

/// Turn a live-capture error into advice, when it is one of the common ones.
pub fn friendly_live_capture_error(stderr: &str) -> (r: Option<String>)
    ensures
        match r {
            Some(m) => friendly_error_spec(stderr@) == Some(m@),
            None => friendly_error_spec(stderr@) is None,
        },
{
    let s = lowercase_chars(stderr);
    if has(&s, "permission denied") || has(&s, "operation not permitted") || has(&s, "you don't have permission")
        || has(&s, "could not open capture device") || has(&s, "cap_net_raw") || has(&s, "cap_net_admin") {
        return Some("tshark failed to start live capture (likely permissions). Try: run with sudo, or install Wireshark/tshark with capture permissions (dumpcap).".to_owned());
    }
    if has(&s, "no such device") || has(&s, "unknown device") {
        return Some("unknown capture interface. Run with --list-ifaces to see available interfaces.".to_owned());
    }
    None
}

pub open spec fn strings_view(v: Seq<String>) -> Seq<Seq<char>> {
    v.map_values(|s: String| s@)
}

/// The field selection that every live capture asks `tshark` for.
pub open spec fn tshark_field_args() -> Seq<Seq<char>> {
    seq![
        "-T"@, "fields"@, "-E"@, "separator=\t"@, "-E"@, "occurrence=f"@, "-E"@, "header=n"@,
        "-e"@, "frame.time_epoch"@, "-e"@, "frame.len"@, "-e"@, "ip.src"@, "-e"@, "ip.dst"@,
        "-e"@, "ipv6.src"@, "-e"@, "ipv6.dst"@, "-e"@, "tcp.srcport"@, "-e"@, "tcp.dstport"@,
        "-e"@, "udp.srcport"@, "-e"@, "udp.dstport"@, "-e"@, "_ws.col.Protocol"@, "-e"@, "tcp.flags"@,
        "-e"@, "tcp.analysis.retransmission"@, "-e"@, "tcp.analysis.out_of_order"@,
        "-e"@, "dns.qry.name"@, "-e"@, "dns.flags.rcode"@, "-e"@, "dns.a"@, "-e"@, "dns.aaaa"@,
        "-e"@, "tls.handshake.extensions_server_name"@, "-e"@, "http.host"@
    ]
}

#[verifier::rlimit(40)]
fn push_field_args_front(args: &mut Vec<String>)
    ensures
        strings_view(final(args)@) == strings_view(old(args)@) + tshark_field_args().take(24),
{
    let ghost a0 = strings_view(args@);
    push_arg(args, "-T");
    push_arg(args, "fields");
    push_arg(args, "-E");
    push_arg(args, "separator=\t");
    push_arg(args, "-E");
    push_arg(args, "occurrence=f");
    push_arg(args, "-E");
    push_arg(args, "header=n");
    push_arg(args, "-e");
    push_arg(args, "frame.time_epoch");
    push_arg(args, "-e");
    push_arg(args, "frame.len");
    push_arg(args, "-e");
    push_arg(args, "ip.src");
    push_arg(args, "-e");
    push_arg(args, "ip.dst");
    push_arg(args, "-e");
    push_arg(args, "ipv6.src");
    push_arg(args, "-e");
    push_arg(args, "ipv6.dst");
    push_arg(args, "-e");
    push_arg(args, "tcp.srcport");
    push_arg(args, "-e");
    push_arg(args, "tcp.dstport");
    assert(strings_view(args@) =~= a0 + tshark_field_args().take(24));
}

#[verifier::rlimit(40)]
fn push_field_args_back(args: &mut Vec<String>)
    ensures
        strings_view(final(args)@) == strings_view(old(args)@) + tshark_field_args().skip(24),
{
    let ghost a0 = strings_view(args@);
    push_arg(args, "-e");
    push_arg(args, "udp.srcport");
    push_arg(args, "-e");
    push_arg(args, "udp.dstport");
    push_arg(args, "-e");
    push_arg(args, "_ws.col.Protocol");
    push_arg(args, "-e");
    push_arg(args, "tcp.flags");
    push_arg(args, "-e");
    push_arg(args, "tcp.analysis.retransmission");
    push_arg(args, "-e");
    push_arg(args, "tcp.analysis.out_of_order");
    push_arg(args, "-e");
    push_arg(args, "dns.qry.name");
    push_arg(args, "-e");
    push_arg(args, "dns.flags.rcode");
    push_arg(args, "-e");
    push_arg(args, "dns.a");
    push_arg(args, "-e");
    push_arg(args, "dns.aaaa");
    push_arg(args, "-e");
    push_arg(args, "tls.handshake.extensions_server_name");
    push_arg(args, "-e");
    push_arg(args, "http.host");
    assert(strings_view(args@) =~= a0 + tshark_field_args().skip(24));
}

fn push_field_args(args: &mut Vec<String>)
    ensures
        strings_view(final(args)@) == strings_view(old(args)@) + tshark_field_args(),
{
    push_field_args_front(args);
    push_field_args_back(args);
    assert(tshark_field_args().take(24) + tshark_field_args().skip(24) =~= tshark_field_args());
}

pub open spec fn opt_pair(flag: Seq<char>, v: Option<&str>) -> Seq<Seq<char>> {
    match v {
        Some(x) => seq![flag, x@],
        None => Seq::empty(),
    }
}

/// `tshark` arguments for a line-buffered, name-resolution-free live capture on
/// `iface`, with the optional capture filter, display filter and output file.
pub open spec fn live_args_spec(iface: &str, bpf: Option<&str>, dfilter: Option<&str>, write_pcap: Option<&str>) -> Seq<Seq<char>> {
    seq!["-l"@, "-n"@, "-i"@, iface@] + opt_pair("-f"@, bpf) + opt_pair("-Y"@, dfilter) + opt_pair("-w"@, write_pcap)
        + tshark_field_args()
}

fn push_arg(v: &mut Vec<String>, s: &str)
    ensures
        strings_view(final(v)@) == strings_view(old(v)@).push(s@),
{
    let ghost before = v@;
    v.push(s.to_owned());
    assert(strings_view(v@) =~= strings_view(before).push(s@));
}

pub fn build_tshark_live_args(iface: &str, bpf: Option<&str>, dfilter: Option<&str>, write_pcap: Option<&str>) -> (args: Vec<String>)
    ensures
        strings_view(args@) == live_args_spec(iface, bpf, dfilter, write_pcap),
{
    let mut args: Vec<String> = Vec::new();
    push_arg(&mut args, "-l");
    push_arg(&mut args, "-n");
    push_arg(&mut args, "-i");
    push_arg(&mut args, iface);
    let ghost a0 = strings_view(args@);
    match bpf {
        Some(e) => {
            push_arg(&mut args, "-f");
            push_arg(&mut args, e);
        },
        None => {},
    }
    assert(strings_view(args@) =~= a0 + opt_pair("-f"@, bpf));
    let ghost a1 = strings_view(args@);
    match dfilter {
        Some(e) => {
            push_arg(&mut args, "-Y");
            push_arg(&mut args, e);
        },
        None => {},
    }
    assert(strings_view(args@) =~= a1 + opt_pair("-Y"@, dfilter));
    let ghost a2 = strings_view(args@);
    match write_pcap {
        Some(e) => {
            push_arg(&mut args, "-w");
            push_arg(&mut args, e);
        },
        None => {},
    }
    assert(strings_view(args@) =~= a2 + opt_pair("-w"@, write_pcap));
    push_field_args(&mut args);
    args
}

// ------------------------------------------------------------ exit status

/// How a finished `tshark` process is reported.
pub open spec fn exit_status_text(success: bool, code: Option<i32>, signal: Option<i32>) -> Seq<char> {
    if success {
        "[tshark exited: success]"@
    } else {
        match code {
            Some(c) => "[tshark exited: code "@ + crate::text::int_seq(c as int) + "]"@,
            None => match signal {
                Some(g) => "[tshark exited: signal "@ + crate::text::int_seq(g as int) + "]"@,
                None => "[tshark exited: unknown status]"@,
            },
        }
    }
}

/// The report line for a finished `tshark`: success, its exit code, the signal
/// that ended it, or unknown.
pub fn format_tshark_exit_status(success: bool, code: Option<i32>, signal: Option<i32>) -> (r: String)
    ensures
        r@ == exit_status_text(success, code, signal),
{
    let mut v: Vec<char> = Vec::new();
    if success {
        crate::text::push_str(&mut v, "[tshark exited: success]");
    } else {
        match code {
            Some(c) => {
                crate::text::push_str(&mut v, "[tshark exited: code ");
                crate::text::push_int(&mut v, c as i64);
                crate::text::push_str(&mut v, "]");
            },
            None => match signal {
                Some(g) => {
                    crate::text::push_str(&mut v, "[tshark exited: signal ");
                    crate::text::push_int(&mut v, g as i64);
                    crate::text::push_str(&mut v, "]");
                },
                None => crate::text::push_str(&mut v, "[tshark exited: unknown status]"),
            },
        }
    }
    str_of_chars(&v)
}

// ------------------------------------------------------------ field lines

/// `trim_end_matches(&['\n', '\r'])`.
pub open spec fn trim_line_end(s: Seq<char>) -> Seq<char>
    decreases s.len(),
{
    if s.len() > 0 && (s.last() == '\n' || s.last() == '\r') {
        trim_line_end(s.drop_last())
    } else {
        s
    }
}

/// The tab-separated fields of a `tshark -T fields` line; `None` when it has
/// fewer than the twelve base columns.
pub open spec fn tshark_fields_spec(line: Seq<char>) -> Option<Seq<Seq<char>>> {
    let parts = split_seq(trim_line_end(line), seq!['\t']);
    if parts.len() < 12 {
        None
    } else {
        Some(parts)
    }
}

pub fn tshark_fields(line: &str) -> (r: Option<Vec<String>>)
    ensures
        match r {
            Some(v) => tshark_fields_spec(line@) == Some(strings_view(v@)),
            None => tshark_fields_spec(line@) is None,
        },
{
    let cs = chars_of(line);
    let mut n: usize = cs.len();
    assert(cs@.take(n as int) =~= cs@);
    while n > 0 && (cs[n - 1] == '\n' || cs[n - 1] == '\r')
        invariant
            n <= cs@.len(),
            trim_line_end(line@) == trim_line_end(cs@.take(n as int)),
            cs@ == line@,
        decreases n,
    {
        assert(cs@.take(n as int).drop_last() =~= cs@.take(n - 1));
        n = n - 1;
    }
    let mut body: Vec<char> = Vec::new();
    let mut k: usize = 0;
    while k < n
        invariant
            k <= n <= cs@.len(),
            body@ == cs@.take(k as int),
        decreases n - k,
    {
        body.push(cs[k]);
        k = k + 1;
        assert(body@ =~= cs@.take(k as int));
    }
    assert(trim_line_end(cs@.take(n as int)) == cs@.take(n as int));
    let tab = chars_of("\t");
    proof {
        reveal_strlit("\t");
        assert(tab@ =~= seq!['\t']);
    }
    let parts = split(body.as_slice(), tab.as_slice());
    if parts.len() < 12 {
        return None;
    }
    let mut out: Vec<String> = Vec::new();
    let mut i: usize = 0;
    while i < parts.len()
        invariant
            i <= parts@.len(),
            strings_view(out@) == split_seq(body@, seq!['\t']).take(i as int),
            parts@.len() == split_seq(body@, seq!['\t']).len(),
            forall|q: int| 0 <= q < parts@.len() ==> #[trigger] parts@[q]@ == split_seq(body@, seq!['\t'])[q],
        decreases parts@.len() - i,
    {
        let ghost before = out@;
        let piece = str_of_chars(&parts[i]);
        assert(piece@ == split_seq(body@, seq!['\t'])[i as int]);
        out.push(piece);
        assert(strings_view(out@) =~= strings_view(before).push(piece@));
        assert(split_seq(body@, seq!['\t']).take(i + 1) =~= split_seq(body@, seq!['\t']).take(i as int).push(split_seq(body@, seq!['\t'])[i as int]));
        assert(strings_view(out@) =~= split_seq(body@, seq!['\t']).take(i + 1));
        i = i + 1;
    }
    assert(split_seq(body@, seq!['\t']).take(parts@.len() as int) =~= split_seq(body@, seq!['\t']));
    Some(out)
}

/// The texts of the source and destination address columns: IPv4 when present,
/// otherwise IPv6.
pub open spec fn address_texts(f: Seq<Seq<char>>) -> (Seq<char>, Seq<char>) {
    (if f[2].len() > 0 { f[2] } else { f[4] }, if f[3].len() > 0 { f[3] } else { f[5] })
}

pub fn tshark_address_texts(fields: &Vec<String>) -> (r: (String, String))
    requires
        fields@.len() >= 12,
    ensures
        (r.0@, r.1@) == address_texts(strings_view(fields@)),
{
    let s = if !fields[2].as_str().is_empty() { fields[2].clone() } else { fields[4].clone() };
    let d = if !fields[3].as_str().is_empty() { fields[3].clone() } else { fields[5].clone() };
    (s, d)
}

pub open spec fn port_field(t: Seq<char>) -> Option<u16> {
    match parse_unsigned(t, 10, 65535) {
        Some(v) => Some(v as u16),
        None => None,
    }
}

/// `tcp.flags` as tshark prints it (hex, usually with `0x`).
pub open spec fn flags_field(t: Seq<char>) -> Option<u16> {
    if t.len() == 0 {
        None
    } else {
        let raw = trim_seq(t);
        let raw2 = if raw.len() >= 2 && raw[0] == '0' && raw[1] == 'x' { raw.skip(2) } else { raw };
        match parse_unsigned(raw2, 16, 65535) {
            Some(v) => Some(v as u16),
            None => None,
        }
    }
}

pub open spec fn present(f: Seq<Seq<char>>, i: int) -> bool {
    i < f.len() && trim_seq(f[i]).len() > 0
}

pub open spec fn text_field(f: Seq<Seq<char>>, i: int) -> Option<Seq<char>> {
    if present(f, i) {
        Some(trim_seq(f[i]))
    } else {
        None
    }
}

pub open spec fn rcode_field(f: Seq<Seq<char>>) -> Option<u16> {
    if present(f, 15) {
        match parse_unsigned(trim_seq(f[15]), 10, 65535) {
            Some(v) => Some(v as u16),
            None => None,
        }
    } else {
        None
    }
}

/// Transport protocol and ports: TCP when a TCP port column parses, else UDP when
/// a UDP one does.
pub open spec fn transport_fields(f: Seq<Seq<char>>) -> (Option<L4Proto>, Option<u16>, Option<u16>) {
    let tsp = port_field(f[6]);
    let tdp = port_field(f[7]);
    let usp = port_field(f[8]);
    let udp = port_field(f[9]);
    if tsp is Some || tdp is Some {
        (Some(L4Proto::Tcp), tsp, tdp)
    } else if usp is Some || udp is Some {
        (Some(L4Proto::Udp), usp, udp)
    } else {
        (None, None, None)
    }
}

fn port_exec(t: &String) -> (r: Option<u16>)
    ensures
        r == port_field(t@),
{
    let cs = chars_of(t.as_str());
    match parse_unsigned_text(cs.as_slice(), 10, 65535) {
        Some(v) => Some(v as u16),
        None => None,
    }
}

fn flags_exec(t: &String) -> (r: Option<u16>)
    ensures
        r == flags_field(t@),
{
    let cs = chars_of(t.as_str());
    if cs.len() == 0 {
        return None;
    }
    let raw = trim(cs.as_slice());
    let mut start: usize = 0;
    if raw.len() >= 2 && raw[0] == '0' && raw[1] == 'x' {
        start = 2;
    }
    let mut raw2: Vec<char> = Vec::new();
    let mut k: usize = start;
    while k < raw.len()
        invariant
            start <= k <= raw@.len(),
            raw2@ == raw@.subrange(start as int, k as int),
        decreases raw@.len() - k,
    {
        raw2.push(raw[k]);
        k = k + 1;
        assert(raw2@ =~= raw@.subrange(start as int, k as int));
    }
    assert(raw2@ =~= (if raw@.len() >= 2 && raw@[0] == '0' && raw@[1] == 'x' { raw@.skip(2) } else { raw@ }));
    match parse_unsigned_text(raw2.as_slice(), 16, 65535) {
        Some(v) => Some(v as u16),
        None => None,
    }
}

fn present_exec(fields: &Vec<String>, i: usize) -> (r: Option<Vec<char>>)
    ensures
        match r {
            Some(t) => text_field(strings_view(fields@), i as int) == Some(t@),
            None => text_field(strings_view(fields@), i as int) is None,
        },
{
    if i >= fields.len() {
        return None;
    }
    let cs = chars_of(fields[i].as_str());
    let t = trim(cs.as_slice());
    if t.len() == 0 {
        None
    } else {
        Some(t)
    }
}

/// The packet row of a `tshark` field line whose fields are `fields`, captured at
/// `ts`, with the addresses that the address columns parse to. The summary is
/// prefixed with tshark's protocol column when that is not blank.
pub fn row_from_tshark_fields(fields: &Vec<String>, ts: i64, src: Option<IpAddr>, dst: Option<IpAddr>) -> (r: PacketRow)
    requires
        fields@.len() >= 12,
    ensures
        ({
            let f = strings_view(fields@);
            let (proto, sp, dp) = transport_fields(f);
            &&& r.index == 0
            &&& r.ts == ts
            &&& r.len == (match parse_unsigned(f[1], 10, usize::MAX as nat) { Some(v) => v, None => 0 })
            &&& r.src == src
            &&& r.dst == dst
            &&& r.proto == proto
            &&& r.src_port == sp
            &&& r.dst_port == dp
            &&& r.flow == packet_flow_key(src, dst, proto, sp, dp)
            &&& r.flow_dir == flow_dir_of(r.flow)
            &&& r.tcp_seq is None
            &&& r.tcp_ack is None
            &&& r.tcp_flags == flags_field(f[11])
            &&& r.payload@.len() == 0
            &&& r.tcp_retransmission == present(f, 12)
            &&& r.tcp_out_of_order == present(f, 13)
            &&& opt_text(r.dns_qname) == (if text_field(f, 14) is Some { text_field(f, 14) } else { dns_qname_spec(Seq::empty()) })
            &&& r.dns_rcode == (if rcode_field(f) is Some { rcode_field(f) } else { dns_rcode_spec(Seq::empty()) })
            &&& opt_text(r.http_host) == (if text_field(f, 19) is Some { text_field(f, 19) } else { http_host_spec(Seq::empty()) })
            &&& opt_text(r.tls_sni) == (if text_field(f, 18) is Some { text_field(f, 18) } else { tls_sni_spec(Seq::empty()) })
            &&& r.tls_version == tls_version_spec(Seq::empty())
            &&& r.summary@ == (if trim_seq(f[10]).len() > 0 {
                trim_seq(f[10]) + " "@ + row_summary_text(&r)
            } else {
                row_summary_text(&r)
            })
        }),
{
    let ghost f = strings_view(fields@);
    let len_cs = chars_of(fields[1].as_str());
    let len: usize = match parse_unsigned_text(len_cs.as_slice(), 10, usize::MAX as u64) {
        Some(v) => v as usize,
        None => 0,
    };
    let tsp = port_exec(&fields[6]);
    let tdp = port_exec(&fields[7]);
    let usp = port_exec(&fields[8]);
    let udp = port_exec(&fields[9]);
    let (proto, src_port, dst_port) = if tsp.is_some() || tdp.is_some() {
        (Some(L4Proto::Tcp), tsp, tdp)
    } else if usp.is_some() || udp.is_some() {
        (Some(L4Proto::Udp), usp, udp)
    } else {
        (None, None, None)
    };
    let tcp_flags = flags_exec(&fields[11]);
    let tcp_retransmission = present_exec(fields, 12).is_some();
    let tcp_out_of_order = present_exec(fields, 13).is_some();
    let dns_qname = match present_exec(fields, 14) {
        Some(t) => Some(str_of_chars(&t)),
        None => None,
    };
    let tls_sni = match present_exec(fields, 18) {
        Some(t) => Some(str_of_chars(&t)),
        None => None,
    };
    let http_host = match present_exec(fields, 19) {
        Some(t) => Some(str_of_chars(&t)),
        None => None,
    };
    let dns_rcode: Option<u16> = match present_exec(fields, 15) {
        Some(t) => match parse_unsigned_text(t.as_slice(), 10, 65535) {
            Some(v) => Some(v as u16),
            None => None,
        },
        None => None,
    };
    let mut row = PacketRow {
        index: 0,
        ts,
        len,
        src,
        dst,
        proto,
        src_port,
        dst_port,
        summary: String::new(),
        flow: None,
        flow_dir: None,
        tcp_seq: None,
        tcp_ack: None,
        tcp_flags,
        payload: Vec::new(),
        tcp_retransmission,
        tcp_out_of_order,
        dns_qname,
        dns_rcode,
        http_host,
        tls_sni,
        tls_version: None,
    };
    assert(row.payload@ =~= Seq::<u8>::empty());
    assign_flow(&mut row);
    populate_hints(&mut row);
    let base = summarize(&row);
    let col_cs = chars_of(fields[10].as_str());
    let col = trim(col_cs.as_slice());
    if col.len() > 0 {
        let mut v: Vec<char> = col;
        crate::text::push_str(&mut v, " ");
        let bc = chars_of(base.as_str());
        crate::text::push_all(&mut v, bc.as_slice());
        row.summary = str_of_chars(&v);
    } else {
        row.summary = base;
    }
    row
}

} // verus!
