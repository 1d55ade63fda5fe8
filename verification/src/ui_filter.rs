//! The flows-list filter: protocol toggles and a free-text query.
use vstd::prelude::*;
use crate::flow::FlowStats;
use crate::live::lemma_dec_reads_back;
use crate::pcap::{ip_text, ipv4_text, push_ip, FlowKey, IpAddr, L4Proto};
use crate::text::{
    ascii_lower_seq, chars_of, contains, contains_seq, dec_seq, is_ascii_seq, is_unicode_whitespace,
    occurs_at_seq, push_decimal, push_str, trim_end_seq, trim_start_seq,
    str_to_lowercase, trim, trim_seq, unicode_lowercase,
};

verus! {

pub struct FlowFilter {
    pub query: String,
    pub show_tcp: bool,
    pub show_udp: bool,
}

impl Default for FlowFilter {
    /// No query; TCP and UDP both shown.
    fn default() -> (f: Self)
        ensures
            f.query@.len() == 0,
            f.show_tcp,
            f.show_udp,
    {
        FlowFilter { query: String::new(), show_tcp: true, show_udp: true }
    }
}

/// The text a query is matched against: `proto src:sport dst:dport`, lower case.
pub open spec fn haystack(k: FlowKey) -> Seq<char> {
    (match k.proto {
        L4Proto::Tcp => "tcp"@,
        L4Proto::Udp => "udp"@,
        L4Proto::Other(_) => "l4"@,
    }) + " "@ + ip_text(k.src) + ":"@ + dec_seq(k.src_port as nat) + " "@ + ip_text(k.dst) + ":"@
        + dec_seq(k.dst_port as nat)
}

pub open spec fn filter_matches(query: Seq<char>, show_tcp: bool, show_udp: bool, k: FlowKey) -> bool {
    let proto_ok = match k.proto {
        L4Proto::Tcp => show_tcp,
        L4Proto::Udp => show_udp,
        L4Proto::Other(_) => true,
    };
    proto_ok && (query_key(query).len() == 0 || contains_seq(haystack(k), query_key(query)))
}

/// The query as it is matched: trimmed, then lower-cased (ASCII letters lowered
/// directly, other text by the Unicode mapping).
pub open spec fn query_key(query: Seq<char>) -> Seq<char> {
    let t = trim_seq(query);
    if is_ascii_seq(t) {
        ascii_lower_seq(t)
    } else {
        unicode_lowercase(t)
    }
}

/// An empty (or all-blank) query lets every flow of a shown protocol through; the
/// default filter lets every flow through.
pub proof fn lemma_blank_query_matches_all(query: Seq<char>, show_tcp: bool, show_udp: bool, k: FlowKey)
    requires
        trim_seq(query).len() == 0,
    ensures
        filter_matches(query, show_tcp, show_udp, k) == match k.proto {
            L4Proto::Tcp => show_tcp,
            L4Proto::Udp => show_udp,
            L4Proto::Other(_) => true,
        },
        filter_matches(query, true, true, k),
{
    assert(ascii_lower_seq(trim_seq(query)).len() == 0);
}

/// Text placed between two others occurs in the whole.
proof fn lemma_contains_middle(a: Seq<char>, m: Seq<char>, b: Seq<char>)
    ensures
        contains_seq(a + m + b, m),
{
    let s = a + m + b;
    assert forall|k: int| 0 <= k < m.len() implies s[a.len() + k] == m[k] by {}
    assert(occurs_at_seq(s, m, a.len() as int));
}

/// The text a query is matched against holds both endpoints: each address and
/// each port, so a query for either address or port finds the flow.
pub proof fn lemma_haystack_holds_endpoints(k: FlowKey)
    ensures
        contains_seq(haystack(k), ip_text(k.src)),
        contains_seq(haystack(k), ip_text(k.dst)),
        contains_seq(haystack(k), dec_seq(k.src_port as nat)),
        contains_seq(haystack(k), dec_seq(k.dst_port as nat)),
{
    let proto: Seq<char> = match k.proto {
        L4Proto::Tcp => "tcp"@,
        L4Proto::Udp => "udp"@,
        L4Proto::Other(_) => "l4"@,
    };
    let h = haystack(k);
    let sp = dec_seq(k.src_port as nat);
    let dp = dec_seq(k.dst_port as nat);
    let src = ip_text(k.src);
    let dst = ip_text(k.dst);
    assert(h =~= (proto + " "@) + src + (":"@ + sp + " "@ + dst + ":"@ + dp));
    lemma_contains_middle(proto + " "@, src, ":"@ + sp + " "@ + dst + ":"@ + dp);
    assert(h =~= (proto + " "@ + src + ":"@) + sp + (" "@ + dst + ":"@ + dp));
    lemma_contains_middle(proto + " "@ + src + ":"@, sp, " "@ + dst + ":"@ + dp);
    assert(h =~= (proto + " "@ + src + ":"@ + sp + " "@) + dst + (":"@ + dp));
    lemma_contains_middle(proto + " "@ + src + ":"@ + sp + " "@, dst, ":"@ + dp);
    assert(h =~= (proto + " "@ + src + ":"@ + sp + " "@ + dst + ":"@) + dp + Seq::<char>::empty());
    lemma_contains_middle(proto + " "@ + src + ":"@ + sp + " "@ + dst + ":"@, dp, Seq::<char>::empty());
}

/// The text a query is matched against names the protocol in lower case, so
/// `tcp` or `udp` finds the flows of that protocol.
pub proof fn lemma_haystack_names_protocol(k: FlowKey)
    ensures
        k.proto == L4Proto::Tcp ==> contains_seq(haystack(k), "tcp"@),
        k.proto == L4Proto::Udp ==> contains_seq(haystack(k), "udp"@),
{
    let proto: Seq<char> = match k.proto {
        L4Proto::Tcp => "tcp"@,
        L4Proto::Udp => "udp"@,
        L4Proto::Other(_) => "l4"@,
    };
    let rest = " "@ + ip_text(k.src) + ":"@ + dec_seq(k.src_port as nat) + " "@ + ip_text(k.dst) + ":"@ + dec_seq(
        k.dst_port as nat,
    );
    assert(haystack(k) =~= Seq::<char>::empty() + proto + rest);
    lemma_contains_middle(Seq::<char>::empty(), proto, rest);
}

/// A digit or a dot: what a printed IPv4 address is made of.
pub open spec fn addr_char(c: char) -> bool {
    ('0' <= c && c <= '9') || c == '.'
}

proof fn lemma_ipv4_text_chars(v: u32)
    ensures
        ipv4_text(v).len() > 0,
        forall|k: int| 0 <= k < ipv4_text(v).len() ==> addr_char(#[trigger] ipv4_text(v)[k]),
{
    let a = dec_seq((v / 16777216) as nat);
    let b = dec_seq(((v / 65536) % 256) as nat);
    let c = dec_seq(((v / 256) % 256) as nat);
    let d = dec_seq((v % 256) as nat);
    lemma_dec_reads_back((v / 16777216) as nat);
    lemma_dec_reads_back(((v / 65536) % 256) as nat);
    lemma_dec_reads_back(((v / 256) % 256) as nat);
    lemma_dec_reads_back((v % 256) as nat);
    let t = ipv4_text(v);
    let dot = seq!['.'];
    assert(t =~= a + (dot + (b + (dot + (c + (dot + d))))));
    assert forall|k: int| 0 <= k < t.len() implies addr_char(#[trigger] t[k]) by {
        let la = a.len() as int;
        let lb = b.len() as int;
        let lc = c.len() as int;
        if k < la {
            assert(t[k] == a[k]);
        } else if k == la {
        } else if k < la + 1 + lb {
            assert(t[k] == b[k - la - 1]);
        } else if k == la + 1 + lb {
        } else if k < la + 2 + lb + lc {
            assert(t[k] == c[k - la - 2 - lb]);
        } else if k == la + 2 + lb + lc {
        } else {
            assert(t[k] == d[k - la - 3 - lb - lc]);
        }
    }
}

/// A query made of digits and dots is matched as it is written.
proof fn lemma_plain_query_key(t: Seq<char>)
    requires
        t.len() > 0,
        forall|k: int| 0 <= k < t.len() ==> addr_char(#[trigger] t[k]),
    ensures
        query_key(t) == t,
{
    assert(addr_char(t[0]) && addr_char(t.last()));
    assert(!is_unicode_whitespace(t[0]));
    assert(!is_unicode_whitespace(t.last()));
    assert(trim_start_seq(t) == t);
    assert(trim_end_seq(t) == t);
    assert forall|k: int| 0 <= k < t.len() implies (#[trigger] t[k] as u32) < 128 by {
        assert(addr_char(t[k]));
    }
    assert(is_ascii_seq(t));
    assert forall|k: int| 0 <= k < t.len() implies #[trigger] ascii_lower_seq(t)[k] == t[k] by {
        assert(addr_char(t[k]));
    }
    assert(ascii_lower_seq(t) =~= t);
}

/// A query naming either endpoint's IPv4 address lets the flow through when
/// its protocol is shown.
pub proof fn lemma_address_query_matches(v: u32, show_tcp: bool, show_udp: bool, k: FlowKey)
    requires
        k.src == IpAddr::V4(v) || k.dst == IpAddr::V4(v),
        match k.proto {
            L4Proto::Tcp => show_tcp,
            L4Proto::Udp => show_udp,
            L4Proto::Other(_) => true,
        },
    ensures
        filter_matches(ipv4_text(v), show_tcp, show_udp, k),
{
    lemma_ipv4_text_chars(v);
    lemma_plain_query_key(ipv4_text(v));
    lemma_haystack_holds_endpoints(k);
}

proof fn lemma_lower_keeps_blanks(c: char)
    ensures
        is_unicode_whitespace(crate::text::ascii_lower(c)) == is_unicode_whitespace(c),
        (c as u32) < 128 ==> (crate::text::ascii_lower(c) as u32) < 128,
        crate::text::ascii_lower(crate::text::ascii_lower(c)) == crate::text::ascii_lower(c),
{
}

proof fn lemma_trim_lower(s: Seq<char>)
    ensures
        trim_start_seq(ascii_lower_seq(s)) == ascii_lower_seq(trim_start_seq(s)),
        trim_end_seq(ascii_lower_seq(s)) == ascii_lower_seq(trim_end_seq(s)),
    decreases s.len(),
{
    let l = ascii_lower_seq(s);
    if s.len() > 0 {
        lemma_lower_keeps_blanks(s[0]);
        lemma_lower_keeps_blanks(s.last());
        assert(l[0] == crate::text::ascii_lower(s[0]));
        assert(l.last() == crate::text::ascii_lower(s.last()));
        assert(l.drop_first() =~= ascii_lower_seq(s.drop_first()));
        assert(l.drop_last() =~= ascii_lower_seq(s.drop_last()));
        lemma_trim_lower(s.drop_first());
        lemma_trim_lower(s.drop_last());
    }
}

proof fn lemma_trim_ascii(s: Seq<char>)
    requires
        is_ascii_seq(s),
    ensures
        is_ascii_seq(trim_start_seq(s)),
        is_ascii_seq(trim_end_seq(s)),
    decreases s.len(),
{
    if s.len() > 0 {
        let a = s.drop_first();
        let b = s.drop_last();
        assert forall|i: int| 0 <= i < a.len() implies (#[trigger] a[i] as u32) < 128 by {
            assert(a[i] == s[i + 1]);
        }
        assert forall|i: int| 0 <= i < b.len() implies (#[trigger] b[i] as u32) < 128 by {
            assert(b[i] == s[i]);
        }
        lemma_trim_ascii(a);
        lemma_trim_ascii(b);
    }
}

/// Case does not matter: an ASCII query matches exactly the flows its
/// lower-case form matches.
pub proof fn lemma_query_ignores_case(query: Seq<char>, show_tcp: bool, show_udp: bool, k: FlowKey)
    requires
        is_ascii_seq(query),
    ensures
        filter_matches(ascii_lower_seq(query), show_tcp, show_udp, k) == filter_matches(query, show_tcp, show_udp, k),
{
    let lq = ascii_lower_seq(query);
    lemma_trim_lower(query);
    lemma_trim_lower(trim_start_seq(query));
    let t = trim_seq(query);
    lemma_trim_ascii(query);
    lemma_trim_ascii(trim_start_seq(query));
    assert(trim_seq(lq) == ascii_lower_seq(t));
    assert forall|i: int| 0 <= i < t.len() implies (#[trigger] ascii_lower_seq(t)[i] as u32) < 128 by {
        lemma_lower_keeps_blanks(t[i]);
    }
    assert forall|i: int| 0 <= i < t.len() implies #[trigger] ascii_lower_seq(ascii_lower_seq(t))[i] == ascii_lower_seq(t)[i] by {
        lemma_lower_keeps_blanks(t[i]);
    }
    assert(ascii_lower_seq(ascii_lower_seq(t)) =~= ascii_lower_seq(t));
    assert(query_key(lq) == query_key(query));
}

/// A flow of a hidden protocol never passes, whatever the query.
pub proof fn lemma_hidden_protocol_never_matches(query: Seq<char>, show_tcp: bool, show_udp: bool, k: FlowKey)
    requires
        (k.proto == L4Proto::Tcp && !show_tcp) || (k.proto == L4Proto::Udp && !show_udp),
    ensures
        !filter_matches(query, show_tcp, show_udp, k),
{
}

fn haystack_of(k: &FlowKey) -> (v: Vec<char>)
    ensures
        v@ == haystack(*k),
{
    let mut v: Vec<char> = Vec::new();
    match k.proto {
        L4Proto::Tcp => push_str(&mut v, "tcp"),
        L4Proto::Udp => push_str(&mut v, "udp"),
        L4Proto::Other(_) => push_str(&mut v, "l4"),
    }
    push_str(&mut v, " ");
    push_ip(&mut v, k.src);
    push_str(&mut v, ":");
    push_decimal(&mut v, k.src_port as u64);
    push_str(&mut v, " ");
    push_ip(&mut v, k.dst);
    push_str(&mut v, ":");
    push_decimal(&mut v, k.dst_port as u64);
    v
}

impl FlowFilter {
    /// A flow passes when its protocol is shown and the trimmed, lower-cased query
    /// is empty or occurs in `proto src:sport dst:dport`.
    pub fn matches(&self, f: &FlowStats) -> (r: bool)
        ensures
            r == filter_matches(self.query@, self.show_tcp, self.show_udp, f.key),
    {
        let proto_ok = match f.key.proto {
            L4Proto::Tcp => self.show_tcp,
            L4Proto::Udp => self.show_udp,
            L4Proto::Other(_) => true,
        };
        if !proto_ok {
            return false;
        }
        let qc = chars_of(self.query.as_str());
        let trimmed = trim(qc.as_slice());
        let trimmed_s = crate::text::string_of(trimmed.as_slice());
        let q = str_to_lowercase(trimmed_s.as_str());
        let qv = chars_of(q.as_str());
        if qv.len() == 0 {
            return true;
        }
        let hay = haystack_of(&f.key);
        contains(hay.as_slice(), qv.as_slice())
    }
}

} // verus!
