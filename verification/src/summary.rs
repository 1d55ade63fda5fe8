//! Capture overview: totals, protocol mix, and the busiest ports, hosts and flows.
use vstd::prelude::*;
use crate::flow::{copy_flow, total_len, FlowIndex, FlowStats, same_stats};
use crate::pcap::{ipv6_seg, ipv6_segments, ipv6_segs, IpAddr, L4Proto, PacketRow};

verus! {

#[derive(Debug, Clone, Copy, PartialEq, Eq, Structural)]
pub struct ProtoCounts {
    pub tcp: u64,
    pub udp: u64,
    pub other: u64,
}

#[derive(Debug, Clone, Copy, PartialEq, Eq, Structural)]
pub struct HostCounts {
    pub packets: u64,
    pub bytes: u64,
}

pub struct OverviewSummary {
    pub total_packets: usize,
    pub total_bytes: u64,
    pub protos: ProtoCounts,
    pub top_ports: Vec<(u16, HostCounts)>,
    pub top_hosts: Vec<(IpAddr, HostCounts)>,
    pub top_flows: Vec<FlowStats>,
}

pub const FNV_OFFSET: u64 = 1469598103934665603;
pub const FNV_PRIME: u64 = 1099511628211;

/// FNV-1a over the 16-bit groups of an address.
pub open spec fn fnv_fold(s: Seq<u16>) -> u64
    decreases s.len(),
{
    if s.len() == 0 {
        FNV_OFFSET
    } else {
        (fnv_fold(s.drop_last()) ^ (s.last() as u64)).wrapping_mul(FNV_PRIME)
    }
}

/// The counting key of a host: an IPv4 address as its 32-bit value, an IPv6
/// address as a 64-bit hash of its groups.
pub open spec fn ip_key(ip: IpAddr) -> u64 {
    match ip {
        IpAddr::V4(v) => v as u64,
        IpAddr::V6(b) => fnv_fold(ipv6_segs(b)),
    }
}

/// The host a key stands for: keys that fit in 32 bits read back as IPv4.
pub open spec fn key_ip(k: u64) -> Option<IpAddr> {
    if k <= u32::MAX {
        Some(IpAddr::V4(k as u32))
    } else {
        None
    }
}

/// The key a host is tallied under: an IPv4 address itself, an IPv6 address hashed.
pub fn ip_to_u64(ip: IpAddr) -> (k: u64)
    ensures
        k == ip_key(ip),
{
    match ip {
        IpAddr::V4(v) => v as u64,
        IpAddr::V6(b) => {
            let segs = ipv6_segments(b);
            let mut h: u64 = FNV_OFFSET;
            let mut i: usize = 0;
            while i < segs.len()
                invariant
                    i <= segs@.len(),
                    segs@ == ipv6_segs(b),
                    h == fnv_fold(segs@.take(i as int)),
                decreases segs@.len() - i,
            {
                assert(segs@.take(i + 1).drop_last() =~= segs@.take(i as int));
                h = (h ^ (segs[i] as u64)).wrapping_mul(FNV_PRIME);
                i = i + 1;
            }
            assert(segs@.take(segs@.len() as int) =~= segs@);
            h
        },
    }
}

fn u64_to_ip(k: u64) -> (r: Option<IpAddr>)
    ensures
        r == key_ip(k),
{
    if k <= 0xffff_ffff {
        Some(IpAddr::V4(k as u32))
    } else {
        None
    }
}

// ------------------------------------------------------------ tallies

/// The two keys a row counts towards: its ports (`hosts == false`) or its addresses.
pub open spec fn keys_of(r: PacketRow, hosts: bool) -> (Option<u64>, Option<u64>) {
    if hosts {
        (
            match r.src {
                Some(a) => Some(ip_key(a)),
                None => None,
            },
            match r.dst {
                Some(a) => Some(ip_key(a)),
                None => None,
            },
        )
    } else {
        (
            match r.src_port {
                Some(p) => Some(p as u64),
                None => None,
            },
            match r.dst_port {
                Some(p) => Some(p as u64),
                None => None,
            },
        )
    }
}

/// How many times a row counts towards key `k` (a row whose two keys agree counts twice).
pub open spec fn hits(r: PacketRow, hosts: bool, k: u64) -> nat {
    (if keys_of(r, hosts).0 == Some(k) { 1nat } else { 0nat }) + (if keys_of(r, hosts).1 == Some(k) {
        1nat
    } else {
        0nat
    })
}

/// The bytes a row adds to key `k`: its length once per matching key.
pub open spec fn hit_bytes(r: PacketRow, hosts: bool, k: u64) -> nat {
    (if keys_of(r, hosts).0 == Some(k) { r.len as nat } else { 0nat }) + (if keys_of(r, hosts).1 == Some(
        k,
    ) {
        r.len as nat
    } else {
        0nat
    })
}

pub open spec fn key_packets(s: Seq<PacketRow>, hosts: bool, k: u64) -> nat
    decreases s.len(),
{
    if s.len() == 0 {
        0
    } else {
        key_packets(s.drop_last(), hosts, k) + hits(s.last(), hosts, k)
    }
}

pub open spec fn key_bytes(s: Seq<PacketRow>, hosts: bool, k: u64) -> nat
    decreases s.len(),
{
    if s.len() == 0 {
        0
    } else {
        key_bytes(s.drop_last(), hosts, k) + hit_bytes(s.last(), hosts, k)
    }
}

/// Every host's and every port's byte count over the rows fits in 64 bits.
pub open spec fn tallies_fit(s: Seq<PacketRow>) -> bool {
    forall|hosts: bool, k: u64| #[trigger] key_bytes(s, hosts, k) <= u64::MAX
}

proof fn lemma_key_bytes_prefix(s: Seq<PacketRow>, i: int, hosts: bool, k: u64)
    requires
        0 <= i <= s.len(),
    ensures
        key_bytes(s.take(i), hosts, k) <= key_bytes(s, hosts, k),
    decreases s.len(),
{
    if i == s.len() {
        assert(s.take(i) =~= s);
    } else {
        assert(s.drop_last().take(i) =~= s.take(i));
        lemma_key_bytes_prefix(s.drop_last(), i, hosts, k);
    }
}

/// The counts of key `k` over the rows, when it occurs at all.
pub open spec fn counts_of(s: Seq<PacketRow>, hosts: bool, k: u64) -> Option<HostCounts> {
    if key_packets(s, hosts, k) > 0 {
        Some(HostCounts { packets: key_packets(s, hosts, k) as u64, bytes: key_bytes(s, hosts, k) as u64 })
    } else {
        None
    }
}

/// The entry for `k` in a table of keyed counts (the last one, when several).
pub open spec fn lookup(e: Seq<(u64, HostCounts)>, k: u64) -> Option<HostCounts>
    decreases e.len(),
{
    if e.len() == 0 {
        None
    } else if e.last().0 == k {
        Some(e.last().1)
    } else {
        lookup(e.drop_last(), k)
    }
}

pub open spec fn distinct_keys(e: Seq<(u64, HostCounts)>) -> bool {
    forall|i: int, j: int| 0 <= i < j < e.len() ==> (#[trigger] e[i]).0 != (#[trigger] e[j]).0
}

proof fn lemma_lookup_at(e: Seq<(u64, HostCounts)>, j: int)
    requires
        distinct_keys(e),
        0 <= j < e.len(),
    ensures
        lookup(e, e[j].0) == Some(e[j].1),
    decreases e.len(),
{
    if j < e.len() - 1 {
        assert(e.last().0 != e[j].0);
        assert(distinct_keys(e.drop_last()));
        assert(e.drop_last()[j] == e[j]);
        lemma_lookup_at(e.drop_last(), j);
    }
}

proof fn lemma_lookup_absent(e: Seq<(u64, HostCounts)>, k: u64)
    requires
        forall|j: int| 0 <= j < e.len() ==> (#[trigger] e[j]).0 != k,
    ensures
        lookup(e, k) is None,
    decreases e.len(),
{
    if e.len() > 0 {
        assert(e.last().0 != k);
        assert forall|j: int| 0 <= j < e.drop_last().len() implies (#[trigger] e.drop_last()[j]).0 != k by {
            assert(e.drop_last()[j] == e[j]);
        }
        lemma_lookup_absent(e.drop_last(), k);
    }
}

proof fn lemma_lookup_present(e: Seq<(u64, HostCounts)>, k: u64)
    requires
        lookup(e, k) is Some,
    ensures
        exists|j: int| 0 <= j < e.len() && (#[trigger] e[j]).0 == k,
    decreases e.len(),
{
    if e.last().0 == k {
        assert(e[e.len() - 1].0 == k);
    } else {
        lemma_lookup_present(e.drop_last(), k);
        let j = choose|j: int| 0 <= j < e.drop_last().len() && (#[trigger] e.drop_last()[j]).0 == k;
        assert(e[j] == e.drop_last()[j]);
    }
}

proof fn lemma_lookup_update(e: Seq<(u64, HostCounts)>, j: int, v: HostCounts, k: u64)
    requires
        distinct_keys(e),
        0 <= j < e.len(),
    ensures
        lookup(e.update(j, (e[j].0, v)), k) == (if k == e[j].0 { Some(v) } else { lookup(e, k) }),
        distinct_keys(e.update(j, (e[j].0, v))),
    decreases e.len(),
{
    let f = e.update(j, (e[j].0, v));
    if j == e.len() - 1 {
        assert(f.drop_last() =~= e.drop_last());
    } else {
        assert(f.drop_last() =~= e.drop_last().update(j, (e[j].0, v)));
        assert(distinct_keys(e.drop_last()));
        assert(e.drop_last()[j] == e[j]);
        lemma_lookup_update(e.drop_last(), j, v, k);
    }
}

/// The table of `e` holds exactly the counts of the rows `s`.
pub open spec fn tallies(e: Seq<(u64, HostCounts)>, s: Seq<PacketRow>, hosts: bool) -> bool {
    &&& distinct_keys(e)
    &&& forall|k: u64| #[trigger] lookup(e, k) == counts_of(s, hosts, k)
}

proof fn lemma_tally_bounds(s: Seq<PacketRow>, hosts: bool, k: u64)
    ensures
        key_packets(s, hosts, k) <= 2 * s.len(),
        key_bytes(s, hosts, k) <= 2 * total_len(s),
        key_packets(s, hosts, k) == 0 ==> key_bytes(s, hosts, k) == 0,
    decreases s.len(),
{
    if s.len() > 0 {
        lemma_tally_bounds(s.drop_last(), hosts, k);
    }
}

/// Count one more packet of `bytes` bytes for key `k`.
fn bump(e: &mut Vec<(u64, HostCounts)>, k: u64, bytes: u64)
    requires
        distinct_keys(old(e)@),
        match lookup(old(e)@, k) {
            Some(c) => c.packets < u64::MAX && c.bytes + bytes <= u64::MAX,
            None => true,
        },
    ensures
        distinct_keys(final(e)@),
        forall|k2: u64| #[trigger] lookup(final(e)@, k2) == (if k2 == k {
            match lookup(old(e)@, k) {
                Some(c) => Some(HostCounts { packets: (c.packets + 1) as u64, bytes: (c.bytes + bytes) as u64 }),
                None => Some(HostCounts { packets: 1, bytes }),
            }
        } else {
            lookup(old(e)@, k2)
        }),
{
    let mut j: usize = 0;
    while j < e.len() && e[j].0 != k
        invariant
            j <= e.len(),
            forall|q: int| 0 <= q < j ==> (#[trigger] e[q]).0 != k,
        decreases e.len() - j,
    {
        j = j + 1;
    }
    let ghost old_e = e@;
    if j < e.len() {
        proof {
            lemma_lookup_at(old_e, j as int);
        }
        let c = e[j].1;
        let v = HostCounts { packets: c.packets + 1, bytes: c.bytes + bytes };
        e.set(j, (k, v));
        proof {
            assert forall|k2: u64| #[trigger] lookup(e@, k2) == (if k2 == k { Some(v) } else { lookup(old_e, k2) }) by {
                lemma_lookup_update(old_e, j as int, v, k2);
            }
            lemma_lookup_update(old_e, j as int, v, k);
        }
    } else {
        proof {
            lemma_lookup_absent(old_e, k);
        }
        e.push((k, HostCounts { packets: 1, bytes }));
        assert(e@.drop_last() =~= old_e);
        assert forall|a: int, b: int| 0 <= a < b < e@.len() implies (#[trigger] e@[a]).0 != (#[trigger] e@[b]).0 by {
            if b == old_e.len() {
                assert(e@[a] == old_e[a]);
            } else {
                assert(e@[a] == old_e[a] && e@[b] == old_e[b]);
            }
        }
    }
}

fn keys_of_row(r: &PacketRow, hosts: bool) -> (ks: (Option<u64>, Option<u64>))
    ensures
        ks == keys_of(*r, hosts),
{
    if hosts {
        (
            match r.src {
                Some(a) => Some(ip_to_u64(a)),
                None => None,
            },
            match r.dst {
                Some(a) => Some(ip_to_u64(a)),
                None => None,
            },
        )
    } else {
        (
            match r.src_port {
                Some(p) => Some(p as u64),
                None => None,
            },
            match r.dst_port {
                Some(p) => Some(p as u64),
                None => None,
            },
        )
    }
}

proof fn lemma_step_counts(pre: Seq<PacketRow>, r: PacketRow, hosts: bool, k: u64)
    ensures
        key_packets(pre.push(r), hosts, k) == key_packets(pre, hosts, k) + hits(r, hosts, k),
        key_bytes(pre.push(r), hosts, k) == key_bytes(pre, hosts, k) + hit_bytes(r, hosts, k),
{
    assert(pre.push(r).drop_last() =~= pre);
}

/// Count one row towards its keys.
fn tally_row(e: &mut Vec<(u64, HostCounts)>, r: &PacketRow, hosts: bool, Ghost(pre): Ghost<Seq<PacketRow>>)
    requires
        tallies(old(e)@, pre, hosts),
        forall|k: u64| #[trigger] key_bytes(pre.push(*r), hosts, k) <= u64::MAX,
        2 * pre.len() + 2 < u64::MAX,
    ensures
        tallies(final(e)@, pre.push(*r), hosts),
{
    let ghost post = pre.push(*r);
    assert(post.drop_last() =~= pre);
    let ks = keys_of_row(r, hosts);
    let bytes = r.len as u64;
    let ghost e0 = e@;
    match ks.0 {
        Some(k) => {
            proof {
                lemma_tally_bounds(post, hosts, k);
                lemma_tally_bounds(pre, hosts, k);
                lemma_step_counts(pre, *r, hosts, k);
                assert(lookup(e@, k) == counts_of(pre, hosts, k));
            }
            bump(e, k, bytes);
        },
        None => {},
    }
    let ghost e1 = e@;
    assert forall|k: u64| #[trigger] lookup(e1, k) == (if ks.0 == Some(k) {
        Some(HostCounts { packets: (key_packets(pre, hosts, k) + 1) as u64, bytes: (key_bytes(pre, hosts, k) + r.len) as u64 })
    } else {
        counts_of(pre, hosts, k)
    }) by {
        lemma_tally_bounds(pre, hosts, k);
        assert(lookup(e0, k) == counts_of(pre, hosts, k));
    }
    match ks.1 {
        Some(k) => {
            proof {
                lemma_tally_bounds(post, hosts, k);
                lemma_tally_bounds(pre, hosts, k);
                lemma_step_counts(pre, *r, hosts, k);
                assert(lookup(e1, k) == (if ks.0 == Some(k) {
                    Some(HostCounts { packets: (key_packets(pre, hosts, k) + 1) as u64, bytes: (key_bytes(pre, hosts, k) + r.len) as u64 })
                } else {
                    counts_of(pre, hosts, k)
                }));
            }
            bump(e, k, bytes);
        },
        None => {},
    }
    assert forall|k: u64| #[trigger] lookup(e@, k) == counts_of(post, hosts, k) by {
        assert(lookup(e0, k) == counts_of(pre, hosts, k));
        lemma_tally_bounds(pre, hosts, k);
        lemma_tally_bounds(post, hosts, k);
        lemma_step_counts(pre, *r, hosts, k);
    }
}

/// The counts of every port (or host) key over the rows, in order of first appearance.
fn tally(rows: &[PacketRow], hosts: bool) -> (e: Vec<(u64, HostCounts)>)
    requires
        forall|k: u64| #[trigger] key_bytes(rows@, hosts, k) <= u64::MAX,
        2 * rows@.len() < u64::MAX,
    ensures
        tallies(e@, rows@, hosts),
{
    let mut e: Vec<(u64, HostCounts)> = Vec::new();
    let mut i: usize = 0;
    while i < rows.len()
        invariant
            i <= rows@.len(),
            forall|k: u64| #[trigger] key_bytes(rows@, hosts, k) <= u64::MAX,
            2 * rows@.len() < u64::MAX,
            tallies(e@, rows@.take(i as int), hosts),
        decreases rows@.len() - i,
    {
        let ghost pre = rows@.take(i as int);
        assert(rows@.take(i as int + 1) =~= pre.push(rows@[i as int]));
        proof {
            crate::flow::lemma_prefix_len(rows@, i as int + 1);
            assert forall|k: u64| #[trigger] key_bytes(pre.push(rows@[i as int]), hosts, k) <= u64::MAX by {
                lemma_key_bytes_prefix(rows@, i as int + 1, hosts, k);
            }
        }
        tally_row(&mut e, &rows[i], hosts, Ghost(pre));
        i = i + 1;
    }
    assert(rows@.take(rows@.len() as int) =~= rows@);
    e
}

// ------------------------------------------------------------ ranking

/// Ranking order: more bytes first, then more packets.
pub open spec fn ranked_before(a: HostCounts, b: HostCounts) -> bool {
    a.bytes > b.bytes || (a.bytes == b.bytes && a.packets > b.packets)
}

/// Whether a key may be listed: any port; for hosts, keys that read back as IPv4.
pub open spec fn eligible(k: u64, v4_only: bool) -> bool {
    !v4_only || k <= u32::MAX
}

/// `t` lists the top entries (at most `limit`) of the counts `src` among the eligible
/// keys: distinct keys with their counts, in ranking order, and no key left out
/// unless the list is full and the key ranks above none of the listed ones.
pub open spec fn top_of(
    t: Seq<(u64, HostCounts)>,
    src: spec_fn(u64) -> Option<HostCounts>,
    limit: nat,
    v4_only: bool,
) -> bool {
    &&& t.len() <= limit
    &&& distinct_keys(t)
    &&& forall|j: int| 0 <= j < t.len() ==> eligible((#[trigger] t[j]).0, v4_only) && src(t[j].0) == Some(t[j].1)
    &&& forall|i: int, j: int| 0 <= i < j < t.len() ==> !ranked_before((#[trigger] t[j]).1, (#[trigger] t[i]).1)
    &&& forall|k: u64| eligible(k, v4_only) && (#[trigger] src(k)) is Some && (forall|j: int| 0 <= j < t.len() ==> t[j].0 != k)
        ==> t.len() == limit && forall|j: int| 0 <= j < t.len() ==> !ranked_before(src(k).unwrap(), #[trigger] t[j].1)
}

fn ranked_before_exec(a: HostCounts, b: HostCounts) -> (r: bool)
    ensures
        r == ranked_before(a, b),
{
    a.bytes > b.bytes || (a.bytes == b.bytes && a.packets > b.packets)
}

/// Some entry among the first `n` of `e` has key `k`.
pub open spec fn has_key(e: Seq<(u64, HostCounts)>, k: u64, n: int) -> bool {
    exists|q: int| 0 <= q < n && (#[trigger] e[q]).0 == k
}

/// The eligible entries of `e`, in ranking order (ties keep their order in `e`),
/// cut to at most `limit`.
fn top_entries(e: &Vec<(u64, HostCounts)>, limit: usize, v4_only: bool) -> (t: Vec<(u64, HostCounts)>)
    requires
        distinct_keys(e@),
    ensures
        top_of(t@, |k: u64| if eligible(k, v4_only) { lookup(e@, k) } else { None }, limit as nat, v4_only),
{
    let ghost src = |k: u64| if eligible(k, v4_only) { lookup(e@, k) } else { None };
    let mut s: Vec<(u64, HostCounts)> = Vec::new();
    let mut i: usize = 0;
    while i < e.len()
        invariant
            i <= e.len(),
            distinct_keys(e@),
            distinct_keys(s@),
            forall|j: int| 0 <= j < s.len() ==> eligible((#[trigger] s[j]).0, v4_only) && lookup(e@, s[j].0) == Some(s[j].1),
            forall|j: int| 0 <= j < s.len() ==> has_key(e@, (#[trigger] s[j]).0, i as int),
            forall|q: int| 0 <= q < i && eligible((#[trigger] e[q]).0, v4_only) ==> has_key(s@, e[q].0, s.len() as int),
            forall|a: int, b: int| 0 <= a < b < s.len() ==> !ranked_before((#[trigger] s[b]).1, (#[trigger] s[a]).1),
        decreases e.len() - i,
    {
        let x = e[i];
        proof {
            lemma_lookup_at(e@, i as int);
        }
        let ghost old_s = s@;
        if x.0 <= 0xffff_ffff || !v4_only {
            let mut pos: usize = 0;
            while pos < s.len() && !ranked_before_exec(x.1, s[pos].1)
                invariant
                    pos <= s.len(),
                    forall|q: int| 0 <= q < pos ==> !ranked_before(x.1, (#[trigger] s[q]).1),
                decreases s.len() - pos,
            {
                pos = pos + 1;
            }
            proof {
                assert forall|j: int| 0 <= j < old_s.len() implies old_s[j].0 != x.0 by {
                    assert(has_key(e@, old_s[j].0, i as int));
                    let w = choose|w: int| 0 <= w < i && (#[trigger] e@[w]).0 == old_s[j].0;
                    assert(e@[w].0 != e@[i as int].0);
                }
            }
            s.insert(pos, x);
            assert(s@ == old_s.insert(pos as int, x));
            assert forall|a: int, b: int| 0 <= a < b < s.len() implies !ranked_before((#[trigger] s[b]).1, (#[trigger] s[a]).1) by {
                if b < pos {
                    assert(s[a] == old_s[a] && s[b] == old_s[b]);
                } else if b == pos {
                    assert(s[a] == old_s[a]);
                } else if a == pos {
                    assert(s[b] == old_s[b - 1]);
                } else if a < pos {
                    assert(s[a] == old_s[a] && s[b] == old_s[b - 1]);
                } else {
                    assert(s[a] == old_s[a - 1] && s[b] == old_s[b - 1]);
                }
            }
            assert forall|a: int, b: int| 0 <= a < b < s.len() implies (#[trigger] s@[a]).0 != (#[trigger] s@[b]).0 by {
                if b < pos {
                    assert(s[a] == old_s[a] && s[b] == old_s[b]);
                } else if b == pos {
                    assert(s[a] == old_s[a]);
                } else if a == pos {
                    assert(s[b] == old_s[b - 1]);
                } else if a < pos {
                    assert(s[a] == old_s[a] && s[b] == old_s[b - 1]);
                } else {
                    assert(s[a] == old_s[a - 1] && s[b] == old_s[b - 1]);
                }
            }
            assert forall|j: int| 0 <= j < s.len() implies has_key(e@, (#[trigger] s[j]).0, i + 1) by {
                if j == pos {
                    assert(e@[i as int].0 == x.0);
                } else {
                    let jj = if j < pos { j } else { j - 1 };
                    assert(s[j] == old_s[jj]);
                    assert(has_key(e@, old_s[jj].0, i as int));
                    let w = choose|w: int| 0 <= w < i && (#[trigger] e@[w]).0 == old_s[jj].0;
                    assert(e@[w].0 == s[j].0);
                }
            }
            assert forall|q: int| 0 <= q < i + 1 && eligible((#[trigger] e[q]).0, v4_only) implies has_key(s@, e[q].0, s.len() as int) by {
                if q == i {
                    assert(s@[pos as int].0 == e[q].0);
                } else {
                    assert(has_key(old_s, e[q].0, old_s.len() as int));
                    let w = choose|w: int| 0 <= w < old_s.len() && (#[trigger] old_s[w]).0 == e[q].0;
                    if w < pos {
                        assert(s@[w].0 == e[q].0);
                    } else {
                        assert(s@[w + 1].0 == e[q].0);
                    }
                }
            }
        } else {
            assert forall|j: int| 0 <= j < s.len() implies has_key(e@, (#[trigger] s[j]).0, i + 1) by {
                assert(has_key(e@, s[j].0, i as int));
                let w = choose|w: int| 0 <= w < i && (#[trigger] e@[w]).0 == s[j].0;
            }
        }
        i = i + 1;
    }
    let mut t: Vec<(u64, HostCounts)> = Vec::new();
    let mut k: usize = 0;
    while k < s.len() && k < limit
        invariant
            k <= s.len(),
            k <= limit,
            t@ == s@.take(k as int),
        decreases s.len() - k,
    {
        t.push(s[k]);
        k = k + 1;
        assert(t@ =~= s@.take(k as int));
    }
    proof {
        assert forall|j: int| 0 <= j < t.len() implies eligible((#[trigger] t@[j]).0, v4_only) && src(t@[j].0) == Some(t@[j].1) by {
            assert(t@[j] == s@[j]);
        }
        assert forall|a: int, b: int| 0 <= a < b < t.len() implies !ranked_before((#[trigger] t@[b]).1, (#[trigger] t@[a]).1) by {
            assert(t@[a] == s@[a] && t@[b] == s@[b]);
        }
        assert forall|a: int, b: int| 0 <= a < b < t.len() implies (#[trigger] t@[a]).0 != (#[trigger] t@[b]).0 by {
            assert(t@[a] == s@[a] && t@[b] == s@[b]);
        }
        assert forall|key: u64| eligible(key, v4_only) && (#[trigger] src(key)) is Some && (forall|j: int| 0 <= j < t.len() ==> t@[j].0 != key)
            implies t.len() == limit && forall|j: int| 0 <= j < t.len() ==> !ranked_before(src(key).unwrap(), #[trigger] t@[j].1) by {
            lemma_lookup_present(e@, key);
            let q = choose|q: int| 0 <= q < e.len() && (#[trigger] e@[q]).0 == key;
            assert(eligible(e@[q].0, v4_only));
            assert(has_key(s@, key, s.len() as int));
            let p = choose|p: int| 0 <= p < s.len() && (#[trigger] s@[p]).0 == key;
            if p < k {
                assert(t@[p] == s@[p]);
            }
            assert(lookup(e@, s@[p].0) == Some(s@[p].1));
            assert forall|j: int| 0 <= j < t.len() implies !ranked_before(src(key).unwrap(), #[trigger] t@[j].1) by {
                assert(t@[j] == s@[j]);
            }
        }
    }
    t
}

proof fn lemma_top_of_same_src(
    t: Seq<(u64, HostCounts)>,
    src1: spec_fn(u64) -> Option<HostCounts>,
    src2: spec_fn(u64) -> Option<HostCounts>,
    limit: nat,
    v4_only: bool,
)
    requires
        top_of(t, src1, limit, v4_only),
        forall|k: u64| eligible(k, v4_only) ==> #[trigger] src1(k) == src2(k),
    ensures
        top_of(t, src2, limit, v4_only),
{
    assert forall|j: int| 0 <= j < t.len() implies eligible((#[trigger] t[j]).0, v4_only) && src2(t[j].0) == Some(t[j].1) by {
        assert(src1(t[j].0) == src2(t[j].0));
    }
    assert forall|k: u64| eligible(k, v4_only) && (#[trigger] src2(k)) is Some && (forall|j: int| 0 <= j < t.len() ==> t[j].0 != k)
        implies t.len() == limit && forall|j: int| 0 <= j < t.len() ==> !ranked_before(src2(k).unwrap(), #[trigger] t[j].1) by {
        assert(src1(k) == src2(k));
    }
}

// ------------------------------------------------------------ overview

proof fn lemma_port_keys_small(s: Seq<PacketRow>, k: u64)
    requires
        key_packets(s, false, k) > 0,
    ensures
        k <= u16::MAX,
    decreases s.len(),
{
    if key_packets(s.drop_last(), false, k) > 0 {
        lemma_port_keys_small(s.drop_last(), k);
    }
}

pub open spec fn count_proto(s: Seq<PacketRow>, p: Option<L4Proto>) -> nat
    decreases s.len(),
{
    if s.len() == 0 {
        0
    } else {
        count_proto(s.drop_last(), p) + (if s.last().proto == p { 1nat } else { 0nat })
    }
}

/// TCP, UDP, and everything else (other protocols and undecoded rows).
pub open spec fn proto_counts(s: Seq<PacketRow>) -> (nat, nat, nat) {
    let tcp = count_proto(s, Some(L4Proto::Tcp));
    let udp = count_proto(s, Some(L4Proto::Udp));
    (tcp, udp, (s.len() - tcp - udp) as nat)
}

pub open spec fn clamp_limit(l: usize) -> nat {
    if l < 1 {
        1
    } else if l > 50 {
        50
    } else {
        l as nat
    }
}

pub open spec fn port_entry(e: (u16, HostCounts)) -> (u64, HostCounts) {
    (e.0 as u64, e.1)
}

pub open spec fn host_entry(e: (IpAddr, HostCounts)) -> (u64, HostCounts) {
    (
        match e.0 {
            IpAddr::V4(v) => v as u64,
            IpAddr::V6(_) => u64::MAX,
        },
        e.1,
    )
}

/// Totals, protocol mix, the top ports and hosts (by bytes, then packets) and the
/// first flows of the index, `limit` of each (clamped to 1..=50).
pub fn build_overview(rows: &[PacketRow], flows: &FlowIndex, limit: usize) -> (ov: OverviewSummary)
    requires
        total_len(rows@) <= u64::MAX,
        tallies_fit(rows@),
        2 * rows@.len() < u64::MAX,
    ensures
        ov.total_packets == rows@.len(),
        ov.total_bytes == total_len(rows@),
        ov.protos.tcp == proto_counts(rows@).0,
        ov.protos.udp == proto_counts(rows@).1,
        ov.protos.other == proto_counts(rows@).2,
        top_of(ov.top_ports@.map_values(|e: (u16, HostCounts)| port_entry(e)), |k: u64| counts_of(rows@, false, k), clamp_limit(limit), false),
        forall|j: int| 0 <= j < ov.top_hosts.len() ==> (#[trigger] ov.top_hosts[j]).0 is V4,
        top_of(ov.top_hosts@.map_values(|e: (IpAddr, HostCounts)| host_entry(e)), |k: u64| counts_of(rows@, true, k), clamp_limit(limit), true),
        ov.top_flows.len() == (if flows.flows.len() < clamp_limit(limit) { flows.flows.len() as nat } else { clamp_limit(limit) }),
        forall|j: int| 0 <= j < ov.top_flows.len() ==> same_stats(#[trigger] ov.top_flows[j], flows.flows[j])
            && ov.top_flows[j].analysis == flows.flows[j].analysis,
{
    let lim: usize = if limit < 1 {
        1
    } else if limit > 50 {
        50
    } else {
        limit
    };
    let mut total_bytes: u64 = 0;
    let mut tcp: u64 = 0;
    let mut udp: u64 = 0;
    let mut i: usize = 0;
    while i < rows.len()
        invariant
            i <= rows@.len(),
            total_len(rows@) <= u64::MAX,
            total_bytes == total_len(rows@.take(i as int)),
            tcp == count_proto(rows@.take(i as int), Some(L4Proto::Tcp)),
            udp == count_proto(rows@.take(i as int), Some(L4Proto::Udp)),
            tcp + udp <= i,
        decreases rows@.len() - i,
    {
        assert(rows@.take(i + 1).drop_last() =~= rows@.take(i as int));
        proof {
            crate::flow::lemma_prefix_len(rows@, i as int + 1);
        }
        total_bytes = total_bytes + rows[i].len as u64;
        match rows[i].proto {
            Some(L4Proto::Tcp) => {
                tcp = tcp + 1;
            },
            Some(L4Proto::Udp) => {
                udp = udp + 1;
            },
            _ => {},
        }
        i = i + 1;
    }
    assert(rows@.take(rows@.len() as int) =~= rows@);
    let other = (rows.len() - (tcp as usize) - (udp as usize)) as u64;

    let port_tally = tally(rows, false);
    let port_top = top_entries(&port_tally, lim, false);
    proof {
        assert forall|q: int| 0 <= q < port_top.len() implies (#[trigger] port_top[q]).0 <= u16::MAX by {
            assert(lookup(port_tally@, port_top[q].0) == counts_of(rows@, false, port_top[q].0));
            lemma_port_keys_small(rows@, port_top[q].0);
        }
    }
    let mut top_ports: Vec<(u16, HostCounts)> = Vec::new();
    let mut j: usize = 0;
    while j < port_top.len()
        invariant
            j <= port_top.len(),
            forall|q: int| 0 <= q < port_top.len() ==> (#[trigger] port_top[q]).0 <= u16::MAX,
            top_ports@.map_values(|e: (u16, HostCounts)| port_entry(e)) == port_top@.take(j as int),
        decreases port_top.len() - j,
    {
        let ghost before = top_ports@;
        let entry = (port_top[j].0 as u16, port_top[j].1);
        assert(port_entry(entry) == port_top@[j as int]);
        top_ports.push(entry);
        assert(top_ports@ == before.push(entry));
        assert(top_ports@.map_values(|e: (u16, HostCounts)| port_entry(e)) =~= before.map_values(|e: (u16, HostCounts)| port_entry(e)).push(port_entry(entry)));
        assert(port_top@.take(j + 1) =~= port_top@.take(j as int).push(port_top@[j as int]));
        j = j + 1;
    }
    let host_tally = tally(rows, true);
    let host_top = top_entries(&host_tally, lim, true);
    let mut top_hosts: Vec<(IpAddr, HostCounts)> = Vec::new();
    let mut j: usize = 0;
    while j < host_top.len()
        invariant
            j <= host_top.len(),
            forall|q: int| 0 <= q < host_top.len() ==> (#[trigger] host_top[q]).0 <= u32::MAX,
            forall|q: int| 0 <= q < top_hosts.len() ==> (#[trigger] top_hosts[q]).0 is V4,
            top_hosts@.map_values(|e: (IpAddr, HostCounts)| host_entry(e)) == host_top@.take(j as int),
        decreases host_top.len() - j,
    {
        let ghost before = top_hosts@;
        let ip = u64_to_ip(host_top[j].0);
        match ip {
            Some(a) => {
                let entry = (a, host_top[j].1);
                assert(host_entry(entry) == host_top@[j as int]);
                top_hosts.push(entry);
                assert(top_hosts@ == before.push(entry));
                assert(top_hosts@.map_values(|e: (IpAddr, HostCounts)| host_entry(e)) =~= before.map_values(|e: (IpAddr, HostCounts)| host_entry(e)).push(host_entry(entry)));
            },
            None => {},
        }
        assert(host_top@.take(j + 1) =~= host_top@.take(j as int).push(host_top@[j as int]));
        j = j + 1;
    }
    let mut top_flows: Vec<FlowStats> = Vec::new();
    let mut f: usize = 0;
    while f < flows.flows.len() && f < lim
        invariant
            f <= flows.flows.len(),
            f <= lim,
            top_flows.len() == f,
            forall|q: int| 0 <= q < f ==> same_stats(#[trigger] top_flows[q], flows.flows[q])
                && top_flows[q].analysis == flows.flows[q].analysis,
        decreases flows.flows.len() - f,
    {
        top_flows.push(copy_flow(&flows.flows[f]));
        f = f + 1;
    }
    proof {
        assert(port_top@.take(port_top@.len() as int) =~= port_top@);
        assert(host_top@.take(host_top@.len() as int) =~= host_top@);
        lemma_top_of_same_src(
            port_top@,
            |k: u64| if eligible(k, false) { lookup(port_tally@, k) } else { None },
            |k: u64| counts_of(rows@, false, k),
            lim as nat,
            false,
        );
        lemma_top_of_same_src(
            host_top@,
            |k: u64| if eligible(k, true) { lookup(host_tally@, k) } else { None },
            |k: u64| counts_of(rows@, true, k),
            lim as nat,
            true,
        );
    }
    OverviewSummary {
        total_packets: rows.len(),
        total_bytes,
        protos: ProtoCounts { tcp, udp, other },
        top_ports,
        top_hosts,
        top_flows,
    }
}

/// The host (an IPv4 address) that sent or received the most packets, with
/// its counts; none when no row carries an IPv4 address.
pub fn busiest_host_by_packets(rows: &[PacketRow]) -> (r: Option<(IpAddr, HostCounts)>)
    requires
        forall|k: u64| #[trigger] key_bytes(rows@, true, k) <= u64::MAX,
        2 * rows@.len() < u64::MAX,
    ensures
        match r {
            Some((ip, c)) => {
                &&& ip is V4
                &&& counts_of(rows@, true, host_entry((ip, c)).0) == Some(c)
                &&& forall|k: u64| eligible(k, true) && (#[trigger] counts_of(rows@, true, k)) is Some
                    ==> counts_of(rows@, true, k).unwrap().packets <= c.packets
            },
            None => forall|k: u64| eligible(k, true) ==> (#[trigger] counts_of(rows@, true, k)) is None,
        },
{
    let e = tally(rows, true);
    let mut best: Option<usize> = None;
    let mut i: usize = 0;
    while i < e.len()
        invariant
            i <= e.len(),
            tallies(e@, rows@, true),
            match best {
                Some(b) => b < i && eligible(e@[b as int].0, true)
                    && forall|q: int| 0 <= q < i && eligible((#[trigger] e@[q]).0, true) ==> e@[q].1.packets <= e@[b as int].1.packets,
                None => forall|q: int| 0 <= q < i ==> !eligible((#[trigger] e@[q]).0, true),
            },
        decreases e.len() - i,
    {
        if e[i].0 <= 0xffff_ffff {
            match best {
                Some(b) => {
                    if e[i].1.packets > e[b].1.packets {
                        best = Some(i);
                    }
                },
                None => {
                    best = Some(i);
                },
            }
        }
        i = i + 1;
    }
    match best {
        Some(b) => {
            let k = e[b].0;
            let c = e[b].1;
            proof {
                lemma_lookup_at(e@, b as int);
                assert forall|k2: u64| eligible(k2, true) && (#[trigger] counts_of(rows@, true, k2)) is Some
                    implies counts_of(rows@, true, k2).unwrap().packets <= c.packets by {
                    assert(lookup(e@, k2) is Some);
                    lemma_lookup_present(e@, k2);
                    let j = choose|j: int| 0 <= j < e@.len() && (#[trigger] e@[j]).0 == k2;
                    lemma_lookup_at(e@, j);
                }
            }
            Some((IpAddr::V4(k as u32), c))
        },
        None => {
            proof {
                assert forall|k2: u64| eligible(k2, true) implies (#[trigger] counts_of(rows@, true, k2)) is None by {
                    if lookup(e@, k2) is Some {
                        lemma_lookup_present(e@, k2);
                        let j = choose|j: int| 0 <= j < e@.len() && (#[trigger] e@[j]).0 == k2;
                    }
                }
            }
            None
        },
    }
}

} // verus!
