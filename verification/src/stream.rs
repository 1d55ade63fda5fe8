//! Follow-stream: the payload bytes of one flow, per direction.
use vstd::prelude::*;
use crate::flow::{picked, FlowStats};
use crate::pcap::{FlowDir, PacketRow};

verus! {

pub struct StreamData {
    pub a_to_b: Vec<u8>,
    pub b_to_a: Vec<u8>,
}

/// The rows of `s` that carry payload in direction `d`, in order.
pub open spec fn dir_segments(s: Seq<PacketRow>, d: FlowDir) -> Seq<PacketRow>
    decreases s.len(),
{
    if s.len() == 0 {
        Seq::empty()
    } else {
        let rest = dir_segments(s.drop_last(), d);
        if s.last().payload@.len() > 0 && s.last().flow_dir == Some(d) {
            rest.push(s.last())
        } else {
            rest
        }
    }
}

pub open spec fn seq_key(r: PacketRow) -> u32 {
    match r.tcp_seq {
        Some(v) => v,
        None => 0,
    }
}

/// Every segment carries a TCP sequence number.
pub open spec fn all_sequenced(s: Seq<PacketRow>) -> bool {
    forall|i: int| 0 <= i < s.len() ==> (#[trigger] s[i]).tcp_seq is Some
}

/// `x` placed after the last element whose sequence number is not above its own.
pub open spec fn insert_by_seq(s: Seq<PacketRow>, x: PacketRow) -> Seq<PacketRow>
    decreases s.len(),
{
    if s.len() == 0 {
        seq![x]
    } else if seq_key(s.last()) <= seq_key(x) {
        s.push(x)
    } else {
        insert_by_seq(s.drop_last(), x).push(s.last())
    }
}

/// Stable sort by sequence number.
pub open spec fn sort_by_seq(s: Seq<PacketRow>) -> Seq<PacketRow>
    decreases s.len(),
{
    if s.len() == 0 {
        Seq::empty()
    } else {
        insert_by_seq(sort_by_seq(s.drop_last()), s.last())
    }
}

pub open spec fn concat_payloads(s: Seq<PacketRow>) -> Seq<u8>
    decreases s.len(),
{
    if s.len() == 0 {
        Seq::empty()
    } else {
        concat_payloads(s.drop_last()) + s.last().payload@
    }
}

/// The bytes of direction `d`: TCP segments in sequence-number order when every
/// segment has one, otherwise in capture order.
pub open spec fn stream_bytes(ps: Seq<PacketRow>, d: FlowDir) -> Seq<u8> {
    let segs = dir_segments(ps, d);
    if all_sequenced(segs) {
        concat_payloads(sort_by_seq(segs))
    } else {
        concat_payloads(segs)
    }
}

proof fn lemma_insert_at(s: Seq<PacketRow>, x: PacketRow, k: int)
    requires
        0 <= k <= s.len(),
        forall|j: int| k <= j < s.len() ==> seq_key(#[trigger] s[j]) > seq_key(x),
        k == 0 || seq_key(s[k - 1]) <= seq_key(x),
    ensures
        insert_by_seq(s, x) == s.insert(k, x),
    decreases s.len(),
{
    if s.len() == 0 {
        assert(s.insert(k, x) =~= seq![x]);
    } else if seq_key(s.last()) <= seq_key(x) {
        assert(k == s.len());
        assert(s.insert(k, x) =~= s.push(x));
    } else {
        let t = s.drop_last();
        assert forall|j: int| k <= j < t.len() implies seq_key(#[trigger] t[j]) > seq_key(x) by {
            assert(t[j] == s[j]);
        }
        if k > 0 {
            assert(t[k - 1] == s[k - 1]);
        }
        lemma_insert_at(t, x, k);
        assert(t.insert(k, x).push(s.last()) =~= s.insert(k, x));
    }
}

/// How many payload bytes the rows carry.
pub open spec fn payload_total(s: Seq<PacketRow>) -> nat
    decreases s.len(),
{
    if s.len() == 0 {
        0
    } else {
        payload_total(s.drop_last()) + s.last().payload@.len()
    }
}

proof fn lemma_concat_len(s: Seq<PacketRow>)
    ensures
        concat_payloads(s).len() == payload_total(s),
    decreases s.len(),
{
    if s.len() > 0 {
        lemma_concat_len(s.drop_last());
    }
}

proof fn lemma_insert_total(s: Seq<PacketRow>, x: PacketRow)
    ensures
        payload_total(insert_by_seq(s, x)) == payload_total(s) + x.payload@.len(),
    decreases s.len(),
{
    if s.len() == 0 {
        assert(seq![x].drop_last() =~= Seq::<PacketRow>::empty());
        assert(seq![x].last() == x);
        assert(payload_total(Seq::<PacketRow>::empty()) == 0);
    } else if seq_key(s.last()) <= seq_key(x) {
        assert(s.push(x).drop_last() =~= s);
        assert(s.push(x).last() == x);
    } else {
        lemma_insert_total(s.drop_last(), x);
        let t = insert_by_seq(s.drop_last(), x);
        assert(t.push(s.last()).drop_last() =~= t);
        assert(t.push(s.last()).last() == s.last());
        assert(payload_total(s) == payload_total(s.drop_last()) + s.last().payload@.len());
    }
}

proof fn lemma_sort_total(s: Seq<PacketRow>)
    ensures
        payload_total(sort_by_seq(s)) == payload_total(s),
    decreases s.len(),
{
    if s.len() > 0 {
        lemma_sort_total(s.drop_last());
        lemma_insert_total(sort_by_seq(s.drop_last()), s.last());
    }
}

/// Following a stream loses and adds no byte: a direction's bytes are exactly
/// as many as the payload bytes of its segments, whatever their order.
pub proof fn lemma_stream_keeps_every_byte(ps: Seq<PacketRow>, d: FlowDir)
    ensures
        stream_bytes(ps, d).len() == payload_total(dir_segments(ps, d)),
{
    let segs = dir_segments(ps, d);
    lemma_concat_len(segs);
    lemma_concat_len(sort_by_seq(segs));
    lemma_sort_total(segs);
}

/// Segments in non-decreasing sequence-number order.
pub open spec fn seq_ordered(s: Seq<PacketRow>) -> bool {
    forall|i: int, j: int| 0 <= i < j < s.len() ==> seq_key(#[trigger] s[i]) <= seq_key(#[trigger] s[j])
}

proof fn lemma_insert_multiset(s: Seq<PacketRow>, x: PacketRow)
    ensures
        insert_by_seq(s, x).to_multiset() == s.to_multiset().insert(x),
    decreases s.len(),
{
    broadcast use vstd::seq_lib::to_multiset_build, vstd::multiset::group_multiset_axioms;
    if s.len() == 0 {
        assert(s =~= Seq::<PacketRow>::empty());
        assert(seq![x] =~= s.push(x));
    } else if seq_key(s.last()) <= seq_key(x) {
        assert(insert_by_seq(s, x) == s.push(x));
    } else {
        let t = s.drop_last();
        let l = s.last();
        lemma_insert_multiset(t, x);
        assert(s =~= t.push(l));
        assert(insert_by_seq(s, x) == insert_by_seq(t, x).push(l));
        assert(insert_by_seq(s, x).to_multiset() =~= insert_by_seq(t, x).to_multiset().insert(l));
        assert(s.to_multiset() =~= t.to_multiset().insert(l));
        assert(insert_by_seq(s, x).to_multiset() =~= s.to_multiset().insert(x));
    }
}

proof fn lemma_insert_ordered(s: Seq<PacketRow>, x: PacketRow, b: u32)
    requires
        seq_ordered(s),
        forall|i: int| 0 <= i < s.len() ==> seq_key(#[trigger] s[i]) <= b,
        seq_key(x) <= b,
    ensures
        seq_ordered(insert_by_seq(s, x)),
        forall|i: int| 0 <= i < insert_by_seq(s, x).len() ==> seq_key(#[trigger] insert_by_seq(s, x)[i]) <= b,
        insert_by_seq(s, x).len() == s.len() + 1,
    decreases s.len(),
{
    if s.len() == 0 {
    } else if seq_key(s.last()) <= seq_key(x) {
        let r = s.push(x);
        assert forall|i: int, j: int| 0 <= i < j < r.len() implies seq_key(#[trigger] r[i]) <= seq_key(#[trigger] r[j]) by {
            if j == s.len() {
                if i < s.len() - 1 {
                    assert(seq_key(s[i]) <= seq_key(s[s.len() - 1]));
                }
            }
        }
    } else {
        let t = s.drop_last();
        let l = s.last();
        assert forall|i: int| 0 <= i < t.len() implies seq_key(#[trigger] t[i]) <= seq_key(l) by {
            assert(seq_key(s[i]) <= seq_key(s[s.len() - 1]));
        }
        assert forall|i: int, j: int| 0 <= i < j < t.len() implies seq_key(#[trigger] t[i]) <= seq_key(#[trigger] t[j]) by {
            assert(seq_key(s[i]) <= seq_key(s[j]));
        }
        lemma_insert_ordered(t, x, seq_key(l));
        let u = insert_by_seq(t, x);
        let r = u.push(l);
        assert forall|i: int, j: int| 0 <= i < j < r.len() implies seq_key(#[trigger] r[i]) <= seq_key(#[trigger] r[j]) by {
            if j == u.len() {
                assert(seq_key(u[i]) <= seq_key(l));
            }
        }
        assert forall|i: int| 0 <= i < r.len() implies seq_key(#[trigger] r[i]) <= b by {
            if i < u.len() {
                assert(seq_key(u[i]) <= seq_key(l));
            }
            assert(seq_key(s[s.len() - 1]) <= b);
        }
    }
}

proof fn lemma_sort_ordered(s: Seq<PacketRow>)
    ensures
        seq_ordered(sort_by_seq(s)),
        sort_by_seq(s).to_multiset() == s.to_multiset(),
    decreases s.len(),
{
    broadcast use vstd::seq_lib::to_multiset_build;
    if s.len() == 0 {
        assert(s =~= Seq::<PacketRow>::empty());
    } else {
        let t = s.drop_last();
        lemma_sort_ordered(t);
        lemma_insert_ordered(sort_by_seq(t), s.last(), u32::MAX);
        lemma_insert_multiset(sort_by_seq(t), s.last());
        assert(s =~= t.push(s.last()));
    }
}

/// A direction's bytes are its segments' payloads, each segment once: in
/// sequence-number order when every segment has a number, in capture order
/// otherwise.
pub proof fn lemma_stream_is_its_segments(ps: Seq<PacketRow>, d: FlowDir)
    ensures
        exists|o: Seq<PacketRow>|
            #![trigger concat_payloads(o)]
            o.to_multiset() == dir_segments(ps, d).to_multiset() && stream_bytes(ps, d) == concat_payloads(o)
                && (all_sequenced(dir_segments(ps, d)) ==> seq_ordered(o))
                && (!all_sequenced(dir_segments(ps, d)) ==> o == dir_segments(ps, d)),
{
    let segs = dir_segments(ps, d);
    lemma_sort_ordered(segs);
    if all_sequenced(segs) {
        let o = sort_by_seq(segs);
        assert(stream_bytes(ps, d) == concat_payloads(o));
    } else {
        assert(stream_bytes(ps, d) == concat_payloads(segs));
    }
}

fn seq_of(r: &PacketRow) -> (v: u32)
    ensures
        v == seq_key(*r),
{
    match r.tcp_seq {
        Some(v) => v,
        None => 0,
    }
}

pub open spec fn rows_at(rows: Seq<PacketRow>, pos: Seq<usize>) -> Seq<PacketRow> {
    pos.map_values(|p: usize| rows[p as int])
}

/// Positions (into `rows`) of the payload rows of direction `d` among the rows the
/// flow's packet indices point at.
fn segment_positions(rows: &[PacketRow], fl: &FlowStats, d: FlowDir) -> (v: Vec<usize>)
    ensures
        forall|i: int| 0 <= i < v.len() ==> v[i] < rows@.len(),
        rows_at(rows@, v@) == dir_segments(picked(rows@, fl.packet_indices@), d),
{
    let ghost idx = fl.packet_indices@;
    let mut v: Vec<usize> = Vec::new();
    let mut k: usize = 0;
    while k < fl.packet_indices.len()
        invariant
            k <= idx.len(),
            idx == fl.packet_indices@,
            forall|i: int| 0 <= i < v.len() ==> v[i] < rows@.len(),
            rows_at(rows@, v@) == dir_segments(picked(rows@, idx.take(k as int)), d),
        decreases idx.len() - k,
    {
        let pi = fl.packet_indices[k];
        let ghost before = picked(rows@, idx.take(k as int));
        assert(idx.take(k + 1).drop_last() =~= idx.take(k as int));
        if pi < rows.len() {
            let r = &rows[pi];
            let ghost after = before.push(*r);
            assert(after.drop_last() =~= before);
            if r.payload.len() > 0 && r.flow_dir == Some(d) {
                let ghost old_v = v@;
                v.push(pi);
                assert(rows_at(rows@, v@) =~= rows_at(rows@, old_v).push(*r));
            }
        }
        k = k + 1;
    }
    assert(idx.take(idx.len() as int) =~= idx);
    v
}

/// The positions reordered by sequence number, stably.
fn sort_positions(rows: &[PacketRow], v: &Vec<usize>) -> (w: Vec<usize>)
    requires
        forall|i: int| 0 <= i < v.len() ==> v[i] < rows@.len(),
    ensures
        forall|i: int| 0 <= i < w.len() ==> w[i] < rows@.len(),
        rows_at(rows@, w@) == sort_by_seq(rows_at(rows@, v@)),
{
    let mut w: Vec<usize> = Vec::new();
    let mut i: usize = 0;
    while i < v.len()
        invariant
            i <= v.len(),
            forall|j: int| 0 <= j < v.len() ==> v[j] < rows@.len(),
            forall|j: int| 0 <= j < w.len() ==> w[j] < rows@.len(),
            rows_at(rows@, w@) == sort_by_seq(rows_at(rows@, v@.take(i as int))),
        decreases v.len() - i,
    {
        let x = v[i];
        let key = seq_of(&rows[x]);
        let mut k: usize = w.len();
        while k > 0 && seq_of(&rows[w[k - 1]]) > key
            invariant
                k <= w.len(),
                x < rows@.len(),
                key == seq_key(rows@[x as int]),
                forall|j: int| 0 <= j < w.len() ==> w[j] < rows@.len(),
                forall|j: int| k <= j < w.len() ==> seq_key(rows@[w[j] as int]) > key,
            decreases k,
        {
            k = k - 1;
        }
        let ghost s = rows_at(rows@, w@);
        proof {
            assert forall|j: int| k <= j < s.len() implies seq_key(#[trigger] s[j]) > seq_key(rows@[x as int]) by {}
            lemma_insert_at(s, rows@[x as int], k as int);
            assert(v@.take(i + 1).drop_last() =~= v@.take(i as int));
            assert(rows_at(rows@, v@.take(i + 1)).drop_last() =~= rows_at(rows@, v@.take(i as int)));
        }
        let ghost old_w = w@;
        w.insert(k, x);
        assert(rows_at(rows@, w@) =~= s.insert(k as int, rows@[x as int]));
        i = i + 1;
    }
    assert(v@.take(v.len() as int) =~= v@);
    w
}

fn concat_at(rows: &[PacketRow], w: &Vec<usize>) -> (out: Vec<u8>)
    requires
        forall|i: int| 0 <= i < w.len() ==> w[i] < rows@.len(),
    ensures
        out@ == concat_payloads(rows_at(rows@, w@)),
{
    let mut out: Vec<u8> = Vec::new();
    let mut i: usize = 0;
    while i < w.len()
        invariant
            i <= w.len(),
            forall|j: int| 0 <= j < w.len() ==> w[j] < rows@.len(),
            out@ == concat_payloads(rows_at(rows@, w@.take(i as int))),
        decreases w.len() - i,
    {
        let r = &rows[w[i]];
        let ghost before = out@;
        let mut b: usize = 0;
        while b < r.payload.len()
            invariant
                b <= r.payload@.len(),
                out@ == before + r.payload@.take(b as int),
            decreases r.payload@.len() - b,
        {
            out.push(r.payload[b]);
            b = b + 1;
            assert(out@ =~= before + r.payload@.take(b as int));
        }
        assert(r.payload@.take(r.payload@.len() as int) =~= r.payload@);
        proof {
            assert(w@.take(i + 1).drop_last() =~= w@.take(i as int));
            assert(rows_at(rows@, w@.take(i + 1)).drop_last() =~= rows_at(rows@, w@.take(i as int)));
        }
        i = i + 1;
    }
    assert(w@.take(w.len() as int) =~= w@);
    out
}

fn direction_bytes(rows: &[PacketRow], fl: &FlowStats, d: FlowDir) -> (out: Vec<u8>)
    ensures
        out@ == stream_bytes(picked(rows@, fl.packet_indices@), d),
{
    let v = segment_positions(rows, fl, d);
    let ghost segs = rows_at(rows@, v@);
    let mut all = true;
    let mut i: usize = 0;
    while i < v.len()
        invariant
            i <= v.len(),
            forall|j: int| 0 <= j < v.len() ==> v[j] < rows@.len(),
            segs == rows_at(rows@, v@),
            all == (forall|j: int| 0 <= j < i ==> (#[trigger] segs[j]).tcp_seq is Some),
        decreases v.len() - i,
    {
        assert(segs[i as int] == rows@[v[i as int] as int]);
        if rows[v[i]].tcp_seq.is_none() {
            all = false;
        }
        i = i + 1;
    }
    assert(all == all_sequenced(segs));
    if all {
        let w = sort_positions(rows, &v);
        concat_at(rows, &w)
    } else {
        concat_at(rows, &v)
    }
}

/// Best-effort stream reconstruction of a flow: per direction, the payloads of
/// its TCP segments in sequence-number order (capture order among equal numbers,
/// and for flows without sequence numbers).
pub fn build_stream(rows: &[PacketRow], flow: &FlowStats) -> (s: StreamData)
    ensures
        s.a_to_b@ == stream_bytes(picked(rows@, flow.packet_indices@), FlowDir::AtoB),
        s.b_to_a@ == stream_bytes(picked(rows@, flow.packet_indices@), FlowDir::BtoA),
{
    let a_to_b = direction_bytes(rows, flow, FlowDir::AtoB);
    let b_to_a = direction_bytes(rows, flow, FlowDir::BtoA);
    StreamData { a_to_b, b_to_a }
}

} // verus!
