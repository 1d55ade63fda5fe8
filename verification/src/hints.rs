//! Best-effort payload parsing that fills the hostname and protocol hints of a packet row.
//! Every parser is conservative: whatever it cannot parse gives `None`.
use vstd::prelude::*;
use vstd::utf8::{valid_utf8, decode_utf8};
use crate::pcap::PacketRow;
use crate::text::{
    ascii_lower_seq, chars_of, starts_with, string_of, to_ascii_lower, trim, trim_seq, utf8_str,
    str_to_lowercase, unicode_lowercase, starts_with_seq, split, split_seq, utf8_len, utf8_len_of,
    push_all,
};

verus! {

pub open spec fn be16(p: Seq<u8>, i: int) -> int {
    p[i] as int * 256 + p[i + 1] as int
}

pub open spec fn be24(p: Seq<u8>, i: int) -> int {
    p[i] as int * 65536 + p[i + 1] as int * 256 + p[i + 2] as int
}

pub fn be16_at(p: &[u8], i: u128) -> (r: u128)
    requires
        i + 1 < p@.len(),
    ensures
        r == be16(p@, i as int),
        r < 65536,
{
    (p[i as usize] as u128) * 256 + (p[(i + 1) as usize] as u128)
}

pub fn be24_at(p: &[u8], i: u128) -> (r: u128)
    requires
        i + 2 < p@.len(),
    ensures
        r == be24(p@, i as int),
        r < 16777216,
{
    (p[i as usize] as u128) * 65536 + (p[(i + 1) as usize] as u128) * 256 + (p[(i + 2) as usize] as u128)
}

pub open spec fn opt_text(o: Option<String>) -> Option<Seq<char>> {
    match o {
        Some(s) => Some(s@),
        None => None,
    }
}

// ---------------------------------------------------------------- TLS SNI

/// Outcome of scanning a server-name list.
pub ghost enum NameScan {
    Found(Seq<char>),
    Abort,
    NotFound,
}

/// A host name taken from `p[a..b]`: not UTF-8 aborts the whole parse; blank is skipped.
pub open spec fn sni_host(p: Seq<u8>, a: int, b: int) -> NameScan {
    let raw = p.subrange(a, b);
    if !valid_utf8(raw) {
        NameScan::Abort
    } else {
        let h = ascii_lower_seq(trim_seq(decode_utf8(raw)));
        if h.len() > 0 {
            NameScan::Found(h)
        } else {
            NameScan::NotFound
        }
    }
}

/// The entries of a server-name list between `q` and `end`: the first host name of type 0.
pub open spec fn sni_names(p: Seq<u8>, q: int, end: int) -> NameScan
    decreases end - q,
{
    if q + 3 > end {
        NameScan::NotFound
    } else {
        let q2 = q + 3;
        let nl = be16(p, q + 1);
        if q2 + nl > end {
            NameScan::NotFound
        } else if p[q] == 0 {
            match sni_host(p, q2, q2 + nl) {
                NameScan::NotFound => sni_names(p, q2 + nl, end),
                other => other,
            }
        } else {
            sni_names(p, q2 + nl, end)
        }
    }
}

/// The ClientHello extensions between `off` and `end`: the host of the first usable server_name.
pub open spec fn sni_exts(p: Seq<u8>, off: int, end: int) -> Option<Seq<char>>
    decreases end - off,
{
    if off + 4 > end {
        None
    } else {
        let t = be16(p, off);
        let e = be16(p, off + 2);
        let o = off + 4;
        if o + e > end {
            None
        } else if t == 0 {
            if e < 2 {
                None
            } else {
                let lend = if o + 2 + be16(p, o) < o + e { o + 2 + be16(p, o) } else { o + e };
                match sni_names(p, o + 2, lend) {
                    NameScan::Found(h) => Some(h),
                    NameScan::Abort => None,
                    NameScan::NotFound => sni_exts(p, o + e, end),
                }
            }
        } else {
            sni_exts(p, o + e, end)
        }
    }
}

/// The server name of a TLS record carrying a ClientHello.
pub open spec fn tls_sni_spec(p: Seq<u8>) -> Option<Seq<char>> {
    let n = p.len() as int;
    if n < 5 || p[0] != 22 || n < 5 + be16(p, 3) || 9 > n || p[5] != 1 || 9 + be24(p, 6) > n
        || 44 > n {
        None
    } else {
        let o1 = 44 + p[43] as int;
        if o1 + 2 > n {
            None
        } else {
            let o2 = o1 + 2 + be16(p, o1);
            if o2 + 1 > n {
                None
            } else {
                let o3 = o2 + 1 + p[o2] as int;
                if o3 + 2 > n {
                    None
                } else {
                    let ext_end = o3 + 2 + be16(p, o3);
                    if ext_end > n {
                        None
                    } else {
                        sni_exts(p, o3 + 2, ext_end)
                    }
                }
            }
        }
    }
}

pub enum NameScanResult {
    Found(String),
    Abort,
    NotFound,
}

pub open spec fn scan_view(r: NameScanResult) -> NameScan {
    match r {
        NameScanResult::Found(s) => NameScan::Found(s@),
        NameScanResult::Abort => NameScan::Abort,
        NameScanResult::NotFound => NameScan::NotFound,
    }
}

fn server_name_at(p: &[u8], a: u128, b: u128) -> (r: NameScanResult)
    requires
        a <= b <= p@.len(),
    ensures
        scan_view(r) == sni_host(p@, a as int, b as int),
{
    assert(p@.len() == p.len());
    let raw = &p[a as usize..b as usize];
    match utf8_str(raw) {
        None => NameScanResult::Abort,
        Some(t) => {
            let cs = chars_of(t);
            let tr = trim(&cs);
            let h = to_ascii_lower(&tr);
            if h.len() > 0 {
                NameScanResult::Found(string_of(&h))
            } else {
                NameScanResult::NotFound
            }
        },
    }
}

fn scan_server_names(p: &[u8], start: u128, end: u128) -> (r: NameScanResult)
    requires
        start <= end <= p@.len(),
    ensures
        scan_view(r) == sni_names(p@, start as int, end as int),
{
    let mut q = start;
    assert(p@.len() == p.len());
    while q + 3 <= end
        invariant
            start <= q <= end,
            p@.len() <= usize::MAX,
            end <= p@.len(),
            sni_names(p@, start as int, end as int) == sni_names(p@, q as int, end as int),
        decreases end - q,
    {
        let name_type = p[q as usize];
        let nlen = be16_at(p, q + 1);
        let q2 = q + 3;
        if q2 + nlen > end {
            return NameScanResult::NotFound;
        }
        if name_type == 0 {
            let got = server_name_at(p, q2, q2 + nlen);
            match got {
                NameScanResult::NotFound => {},
                other => {
                    return other;
                },
            }
        }
        q = q2 + nlen;
    }
    NameScanResult::NotFound
}

/// Minimal TLS ClientHello SNI parse of a single record carrying the handshake.
pub fn parse_tls_sni(payload: &[u8]) -> (r: Option<String>)
    ensures
        opt_text(r) == tls_sni_spec(payload@),
{
    let n = payload.len() as u128;
    if n < 5 {
        return None;
    }
    if payload[0] != 22 {
        return None;
    }
    let rec_len = be16_at(payload, 3);
    if n < 5 + rec_len {
        return None;
    }
    if 9 > n {
        return None;
    }
    if payload[5] != 1 {
        return None;
    }
    let hs_len = be24_at(payload, 6);
    if 9 + hs_len > n {
        return None;
    }
    if 44 > n {
        return None;
    }
    let o1: u128 = 44 + payload[43] as u128;
    if o1 + 2 > n {
        return None;
    }
    let o2: u128 = o1 + 2 + be16_at(payload, o1);
    if o2 + 1 > n {
        return None;
    }
    let o3: u128 = o2 + 1 + payload[o2 as usize] as u128;
    if o3 + 2 > n {
        return None;
    }
    let ext_end: u128 = o3 + 2 + be16_at(payload, o3);
    if ext_end > n {
        return None;
    }
    let mut off: u128 = o3 + 2;
    assert(payload@.len() == payload.len());
    while off + 4 <= ext_end
        invariant
            off <= ext_end,
            payload@.len() <= usize::MAX,
            ext_end <= payload@.len(),
            n == payload@.len(),
            tls_sni_spec(payload@) == sni_exts(payload@, off as int, ext_end as int),
        decreases ext_end - off,
    {
        let ext_type = be16_at(payload, off);
        let e_len = be16_at(payload, off + 2);
        let o = off + 4;
        if o + e_len > ext_end {
            return None;
        }
        if ext_type == 0 {
            if e_len < 2 {
                return None;
            }
            let list_len = be16_at(payload, o);
            let lend = if o + 2 + list_len < o + e_len { o + 2 + list_len } else { o + e_len };
            match scan_server_names(payload, o + 2, lend) {
                NameScanResult::Found(h) => {
                    return Some(h);
                },
                NameScanResult::Abort => {
                    return None;
                },
                NameScanResult::NotFound => {},
            }
        }
        off = o + e_len;
    }
    None
}

// ---------------------------------------------------------------- TLS version

/// The supported_versions extension (type 0x002b, two bytes) among ServerHello extensions.
pub open spec fn supported_version(hs: Seq<u8>, q: int, end: int) -> Option<u16>
    decreases end - q,
{
    if q + 4 > end {
        None
    } else {
        let t = be16(hs, q);
        let e = be16(hs, q + 2);
        let q2 = q + 4;
        if q2 + e > end {
            None
        } else if t == 0x2b && e == 2 {
            Some(be16(hs, q2) as u16)
        } else {
            supported_version(hs, q2 + e, end)
        }
    }
}

/// The version a ServerHello body selects: supported_versions when present, else legacy_version.
pub open spec fn server_hello_version(hs: Seq<u8>) -> Option<u16> {
    let n = hs.len() as int;
    if n < 38 {
        None
    } else {
        let legacy = be16(hs, 0) as u16;
        let q = 35 + hs[34] as int;
        if q > n || q + 3 > n {
            None
        } else if q + 3 == n {
            Some(legacy)
        } else if q + 5 > n {
            None
        } else {
            let ext_end = q + 5 + be16(hs, q + 3);
            if ext_end > n {
                None
            } else {
                match supported_version(hs, q + 5, ext_end) {
                    Some(v) => Some(v),
                    None => Some(legacy),
                }
            }
        }
    }
}

/// Handshake messages of a record from `off` to `end`: the version of the first ServerHello.
pub open spec fn handshake_version(p: Seq<u8>, off: int, end: int) -> Option<u16>
    decreases end - off,
{
    if off + 4 > end {
        None
    } else {
        let l = be24(p, off + 1);
        let o = off + 4;
        if o + l > end {
            None
        } else if p[off] == 2 {
            server_hello_version(p.subrange(o, o + l))
        } else {
            handshake_version(p, o + l, end)
        }
    }
}

/// The negotiated TLS version of a handshake record carrying a ServerHello.
pub open spec fn tls_version_spec(p: Seq<u8>) -> Option<u16> {
    if p.len() < 5 || p[0] != 22 || p.len() < 5 + be16(p, 3) {
        None
    } else {
        handshake_version(p, 5, 5 + be16(p, 3))
    }
}

fn server_hello_selected_version(hs: &[u8]) -> (r: Option<u16>)
    ensures
        r == server_hello_version(hs@),
{
    let n = hs.len() as u128;
    if n < 38 {
        return None;
    }
    let legacy = be16_at(hs, 0) as u16;
    let q: u128 = 35 + hs[34] as u128;
    if q > n || q + 3 > n {
        return None;
    }
    if q + 3 == n {
        return Some(legacy);
    }
    if q + 5 > n {
        return None;
    }
    let ext_end = q + 5 + be16_at(hs, q + 3);
    if ext_end > n {
        return None;
    }
    let mut p = q + 5;
    assert(hs@.len() == hs.len());
    while p + 4 <= ext_end
        invariant
            p <= ext_end,
            ext_end <= hs@.len(),
            hs@.len() <= usize::MAX,
            legacy == be16(hs@, 0) as u16,
            server_hello_version(hs@) == (match supported_version(hs@, p as int, ext_end as int) {
                Some(v) => Some(v),
                None => Some(legacy),
            }),
        decreases ext_end - p,
    {
        let ext_type = be16_at(hs, p);
        let e_len = be16_at(hs, p + 2);
        let p2 = p + 4;
        if p2 + e_len > ext_end {
            return Some(legacy);
        }
        if ext_type == 0x2b && e_len == 2 {
            return Some(be16_at(hs, p2) as u16);
        }
        p = p2 + e_len;
    }
    Some(legacy)
}

/// Extract the TLS version from a ServerHello: the supported_versions extension
/// (TLS 1.3) when present, otherwise the legacy version.
pub fn parse_tls_version(payload: &[u8]) -> (r: Option<u16>)
    ensures
        r == tls_version_spec(payload@),
{
    let n = payload.len() as u128;
    if n < 5 {
        return None;
    }
    if payload[0] != 22 {
        return None;
    }
    let rec_len = be16_at(payload, 3);
    if n < 5 + rec_len {
        return None;
    }
    let rec_end = 5 + rec_len;
    let mut off: u128 = 5;
    assert(payload@.len() == payload.len());
    while off + 4 <= rec_end
        invariant
            off <= rec_end,
            rec_end <= payload@.len(),
            payload@.len() <= usize::MAX,
            tls_version_spec(payload@) == handshake_version(payload@, off as int, rec_end as int),
        decreases rec_end - off,
    {
        let hs_type = payload[off as usize];
        let hs_len = be24_at(payload, off + 1);
        let o = off + 4;
        if o + hs_len > rec_end {
            return None;
        }
        if hs_type == 2 {
            return server_hello_selected_version(&payload[o as usize..(o + hs_len) as usize]);
        }
        off = o + hs_len;
    }
    None
}

// ---------------------------------------------------------------- DNS

/// Labels joined with dots.
pub open spec fn join_dot(labels: Seq<Seq<char>>) -> Seq<char>
    decreases labels.len(),
{
    if labels.len() == 0 {
        Seq::empty()
    } else if labels.len() == 1 {
        labels[0]
    } else {
        join_dot(labels.drop_last()) + seq!['.'] + labels.last()
    }
}

/// `trim_end_matches('.')`.
pub open spec fn trim_trailing_dots(s: Seq<char>) -> Seq<char>
    decreases s.len(),
{
    if s.len() > 0 && s.last() == '.' {
        trim_trailing_dots(s.drop_last())
    } else {
        s
    }
}

/// The labels of a (possibly compressed) DNS name at `off`: the labels, the offset
/// after the terminating zero or pointer, and whether a pointer ended the name.
/// A pointer contributes the whole name it points to as one label (when not empty).
pub open spec fn dns_labels(buf: Seq<u8>, off: nat, depth: nat) -> Option<(Seq<Seq<char>>, nat, bool)>
    decreases 11 - depth, buf.len() - off,
{
    if depth > 10 || off >= buf.len() {
        None
    } else {
        let l = buf[off as int];
        if l == 0 {
            Some((Seq::empty(), off + 1, false))
        } else if l >= 0xc0 {
            if off + 1 >= buf.len() {
                None
            } else {
                let ptr = ((l - 0xc0) as nat) * 256 + buf[off + 1 as int] as nat;
                match dns_name(buf, ptr, depth + 1) {
                    None => None,
                    Some((name, _e)) => Some(
                        (if name.len() > 0 { seq![name] } else { Seq::empty() }, off + 2, true),
                    ),
                }
            }
        } else {
            let n = l as nat;
            if off + 1 + n > buf.len() || !valid_utf8(buf.subrange(off + 1 as int, off + 1 + n as int)) {
                None
            } else {
                match dns_labels(buf, off + 1 + n, depth) {
                    None => None,
                    Some((rest, e, j)) => Some(
                        (seq![decode_utf8(buf.subrange(off + 1 as int, off + 1 + n as int))] + rest, e, j),
                    ),
                }
            }
        }
    }
}

/// A DNS name at `off`, read with at most ten nested compression pointers: its
/// labels joined by dots, trailing dots removed, lower-cased; and the offset where
/// the name's encoding ends (two bytes past `off` when a pointer ended it).
pub open spec fn dns_name(buf: Seq<u8>, off: nat, depth: nat) -> Option<(Seq<char>, nat)>
    decreases 11 - depth, buf.len() - off + 1,
{
    if depth > 10 || off >= buf.len() {
        None
    } else {
        match dns_labels(buf, off, depth) {
            None => None,
            Some((labels, e, jumped)) => Some(
                (
                    unicode_lowercase(trim_trailing_dots(join_dot(labels))),
                    if jumped {
                        off + 2
                    } else {
                        e
                    },
                ),
            ),
        }
    }
}

pub open spec fn labels_view(v: Seq<Vec<char>>) -> Seq<Seq<char>> {
    v.map_values(|x: Vec<char>| x@)
}

pub open spec fn with_prefix(
    acc: Seq<Seq<char>>,
    x: Option<(Seq<Seq<char>>, nat, bool)>,
) -> Option<(Seq<Seq<char>>, nat, bool)> {
    match x {
        None => None,
        Some((rest, e, j)) => Some((acc + rest, e, j)),
    }
}

fn join_labels(labels: &Vec<Vec<char>>) -> (r: Vec<char>)
    ensures
        r@ == join_dot(labels_view(labels@)),
{
    let mut r: Vec<char> = Vec::new();
    let mut i: usize = 0;
    while i < labels.len()
        invariant
            i <= labels@.len(),
            r@ == join_dot(labels_view(labels@.take(i as int))),
        decreases labels@.len() - i,
    {
        if i > 0 {
            r.push('.');
        }
        push_all(&mut r, &labels[i]);
        assert(labels_view(labels@.take(i + 1)).drop_last() =~= labels_view(labels@.take(i as int)));
        i = i + 1;
    }
    assert(labels@.take(labels@.len() as int) =~= labels@);
    r
}

fn trim_dots(v: &Vec<char>) -> (r: Vec<char>)
    ensures
        r@ == trim_trailing_dots(v@),
{
    let mut n: usize = v.len();
    assert(v@.take(n as int) =~= v@);
    while n > 0 && v[n - 1] == '.'
        invariant
            n <= v@.len(),
            trim_trailing_dots(v@) == trim_trailing_dots(v@.take(n as int)),
        decreases n,
    {
        assert(v@.take(n as int).drop_last() =~= v@.take(n - 1));
        n = n - 1;
    }
    let mut r: Vec<char> = Vec::new();
    let mut i: usize = 0;
    while i < n
        invariant
            i <= n <= v@.len(),
            r@ == v@.take(i as int),
        decreases n - i,
    {
        r.push(v[i]);
        assert(v@.take(i + 1) =~= v@.take(i as int).push(v@[i as int]));
        i = i + 1;
    }
    r
}

/// Read a (possibly compressed) DNS name starting at `off`; `depth` counts the
/// compression pointers followed so far. Returns the name and the offset after it.
pub fn read_dns_name(buf: &[u8], off: usize, depth: usize) -> (r: Option<(String, usize)>)
    ensures
        match r {
            None => dns_name(buf@, off as nat, depth as nat) is None,
            Some((s, e)) => dns_name(buf@, off as nat, depth as nat) == Some((s@, e as nat)) && e
                <= buf@.len(),
        },
    decreases 11 - depth,
{
    if depth > 10 || off >= buf.len() {
        return None;
    }
    let mut labels: Vec<Vec<char>> = Vec::new();
    let start_off = off;
    let mut pos = off;
    let mut jumped = false;
    assert(labels_view(labels@) =~= Seq::<Seq<char>>::empty());
    loop
        invariant_except_break
            !jumped,
            dns_labels(buf@, start_off as nat, depth as nat) == with_prefix(
                labels_view(labels@),
                dns_labels(buf@, pos as nat, depth as nat),
            ),
        invariant
            depth <= 10,
            start_off == off,
            start_off <= pos <= buf@.len(),
            start_off < buf@.len(),
        ensures
            pos <= buf@.len(),
            start_off + 2 <= buf@.len() || !jumped,
            dns_labels(buf@, start_off as nat, depth as nat) == Some(
                (labels_view(labels@), pos as nat, jumped),
            ),
        decreases buf@.len() - pos,
    {
        if pos >= buf.len() {
            assert(dns_labels(buf@, pos as nat, depth as nat) is None);
            {
                proof { assert(dns_name(buf@, start_off as nat, depth as nat) is None); }
                return None;
            }
        }
        let len = buf[pos];
        if len == 0 {
            assert(dns_labels(buf@, pos as nat, depth as nat) == Some(
                (Seq::<Seq<char>>::empty(), (pos + 1) as nat, false),
            ));
            pos = pos + 1;
            assert(labels_view(labels@) + Seq::<Seq<char>>::empty() =~= labels_view(labels@));
            break;
        }
        if len >= 0xc0 {
            if pos + 1 >= buf.len() {
                assert(dns_labels(buf@, pos as nat, depth as nat) is None);
                {
                proof { assert(dns_name(buf@, start_off as nat, depth as nat) is None); }
                return None;
            }
            }
            let ptr: usize = ((len - 0xc0) as usize) * 256 + buf[pos + 1] as usize;
            let inner = read_dns_name(buf, ptr, depth + 1);
            match inner {
                None => {
                    assert(dns_labels(buf@, pos as nat, depth as nat) is None);
                    {
                proof { assert(dns_name(buf@, start_off as nat, depth as nat) is None); }
                return None;
            }
                },
                Some((name, _end)) => {
                    let ghost before = labels_view(labels@);
                    if !name.as_str().is_empty() {
                        let cs = chars_of(name.as_str());
                        labels.push(cs);
                        assert(labels_view(labels@) =~= before + seq![name@]);
                    } else {
                        assert(labels_view(labels@) =~= before + Seq::<Seq<char>>::empty());
                    }
                },
            }
            pos = pos + 2;
            jumped = true;
            break;
        }
        let n = len as usize;
        if n > buf.len() - pos - 1 {
            assert(dns_labels(buf@, pos as nat, depth as nat) is None);
            {
                proof { assert(dns_name(buf@, start_off as nat, depth as nat) is None); }
                return None;
            }
        }
        let raw = &buf[pos + 1..pos + 1 + n];
        match utf8_str(raw) {
            None => {
                assert(dns_labels(buf@, pos as nat, depth as nat) is None);
                {
                proof { assert(dns_name(buf@, start_off as nat, depth as nat) is None); }
                return None;
            }
            },
            Some(t) => {
                let ghost before = labels_view(labels@);
                let cs = chars_of(t);
                labels.push(cs);
                assert(labels_view(labels@) =~= before + seq![cs@]);
                proof {
                    let rest = dns_labels(buf@, (pos + 1 + n) as nat, depth as nat);
                    assert(with_prefix(before, dns_labels(buf@, pos as nat, depth as nat))
                        == with_prefix(labels_view(labels@), rest)) by {
                        match rest {
                            None => {},
                            Some((r2, e, j)) => {
                                assert(before + (seq![cs@] + r2) =~= labels_view(labels@) + r2);
                            },
                        }
                    }
                }
            },
        }
        pos = pos + 1 + n;
    }
    let joined = join_labels(&labels);
    let trimmed = trim_dots(&joined);
    let text = string_of(&trimmed);
    let name = str_to_lowercase(text.as_str());
    let end_off = if jumped {
        start_off + 2
    } else {
        pos
    };
    Some((name, end_off))
}

/// The first question name of a DNS message, when it has one and it is not empty.
pub open spec fn dns_qname_spec(p: Seq<u8>) -> Option<Seq<char>> {
    if p.len() < 12 || be16(p, 4) == 0 {
        None
    } else {
        match dns_name(p, 12, 0) {
            None => None,
            Some((name, _e)) => if name.len() == 0 {
                None
            } else {
                Some(name)
            },
        }
    }
}

/// Minimal DNS header plus the first question name.
pub fn parse_dns_qname(payload: &[u8]) -> (r: Option<String>)
    ensures
        opt_text(r) == dns_qname_spec(payload@),
{
    if payload.len() < 12 {
        return None;
    }
    let qdcount = be16_at(payload, 4);
    if qdcount == 0 {
        return None;
    }
    match read_dns_name(payload, 12, 0) {
        None => None,
        Some((name, _off)) => {
            if name.as_str().is_empty() {
                None
            } else {
                Some(name)
            }
        },
    }
}

/// The response code of a DNS response (low four bits of the flags); `None` for a query.
pub open spec fn dns_rcode_spec(p: Seq<u8>) -> Option<u16> {
    if p.len() < 4 || be16(p, 2) < 0x8000 {
        None
    } else {
        Some((be16(p, 2) % 16) as u16)
    }
}

/// Only a response (QR bit, the top bit of byte 2, set) has a response code,
/// and then it is the low four bits of byte 3.
pub proof fn lemma_rcode_only_for_responses(p: Seq<u8>)
    ensures
        dns_rcode_spec(p) is Some <==> (p.len() >= 4 && p[2] >= 0x80),
        dns_rcode_spec(p) matches Some(c) ==> c == p[3] % 16,
{
    if p.len() >= 4 {
        let x = p[2] as int;
        let y = p[3] as int;
        assert((x * 256 + y) % 16 == y % 16) by (nonlinear_arith)
            requires
                0 <= x < 256,
                0 <= y < 256,
        ;
    }
}

pub fn parse_dns_rcode(payload: &[u8]) -> (r: Option<u16>)
    ensures
        r == dns_rcode_spec(payload@),
{
    if payload.len() < 4 {
        return None;
    }
    let flags = be16_at(payload, 2);
    if flags < 0x8000 {
        return None;
    }
    Some((flags % 16) as u16)
}

// ---------------------------------------------------------------- HTTP Host

pub open spec fn http_methods() -> Seq<Seq<char>> {
    seq!["GET "@, "POST "@, "HEAD "@, "PUT "@, "DELETE "@, "OPTIONS "@, "CONNECT "@]
}

pub open spec fn is_http_request(s: Seq<char>) -> bool {
    exists|i: int| 0 <= i < http_methods().len() && starts_with_seq(s, #[trigger] http_methods()[i])
}

/// Text before the first `:` (all of it when there is none).
pub open spec fn before_colon(s: Seq<char>) -> Seq<char> {
    split_seq(s, seq![':'])[0]
}

/// The value of a `Host:` line: trimmed, port removed, lower-cased; blank gives `None`.
pub open spec fn host_value(l: Seq<char>) -> Option<Seq<char>> {
    let h = trim_seq(l.subrange(5, l.len() as int));
    if h.len() == 0 {
        None
    } else {
        let h2 = trim_seq(before_colon(h));
        if h2.len() == 0 {
            None
        } else {
            Some(ascii_lower_seq(h2))
        }
    }
}

/// The first `Host:` header among request lines (lines shorter than six bytes are skipped).
pub open spec fn host_in_lines(lines: Seq<Seq<char>>) -> Option<Seq<char>>
    decreases lines.len(),
{
    if lines.len() == 0 {
        None
    } else {
        let l = trim_seq(lines[0]);
        if utf8_len(l) >= 6 && starts_with_seq(ascii_lower_seq(l), "host:"@) {
            host_value(l)
        } else {
            host_in_lines(lines.drop_first())
        }
    }
}

/// The Host header of a plaintext HTTP request in one segment.
pub open spec fn http_host_spec(p: Seq<u8>) -> Option<Seq<char>> {
    if !valid_utf8(p) {
        None
    } else {
        let s = decode_utf8(p);
        if !is_http_request(s) {
            None
        } else {
            host_in_lines(split_seq(s, "\r\n"@))
        }
    }
}

fn is_request_line_start(s: &Vec<char>) -> (r: bool)
    ensures
        r == is_http_request(s@),
{
    let r = starts_with(s, &chars_of("GET ")) || starts_with(s, &chars_of("POST "))
        || starts_with(s, &chars_of("HEAD ")) || starts_with(s, &chars_of("PUT "))
        || starts_with(s, &chars_of("DELETE ")) || starts_with(s, &chars_of("OPTIONS "))
        || starts_with(s, &chars_of("CONNECT "));
    proof {
        let m = http_methods();
        assert(m[0] == "GET "@ && m[1] == "POST "@ && m[2] == "HEAD "@ && m[3] == "PUT "@);
        assert(m[4] == "DELETE "@ && m[5] == "OPTIONS "@ && m[6] == "CONNECT "@);
        if r {
            if starts_with_seq(s@, m[0]) {
                assert(is_http_request(s@));
            } else if starts_with_seq(s@, m[1]) {
                assert(is_http_request(s@));
            } else if starts_with_seq(s@, m[2]) {
                assert(is_http_request(s@));
            } else if starts_with_seq(s@, m[3]) {
                assert(is_http_request(s@));
            } else if starts_with_seq(s@, m[4]) {
                assert(is_http_request(s@));
            } else if starts_with_seq(s@, m[5]) {
                assert(is_http_request(s@));
            } else {
                assert(starts_with_seq(s@, m[6]));
                assert(is_http_request(s@));
            }
        }
    }
    r
}

/// Super light: the Host header of an HTTP request line and headers in the same segment.
/// Headers split across TCP segments are missed.
pub fn parse_http_host(payload: &[u8]) -> (r: Option<String>)
    ensures
        opt_text(r) == http_host_spec(payload@),
{
    let t = match utf8_str(payload) {
        None => {
            return None;
        },
        Some(t) => t,
    };
    let s = chars_of(t);
    if !is_request_line_start(&s) {
        return None;
    }
    let crlf: Vec<char> = chars_of("\r\n");
    proof {
        reveal_strlit("\r\n");
        reveal_strlit(":");
    }
    let lines = split(&s, &crlf);
    let host_prefix: Vec<char> = chars_of("host:");
    proof {
        reveal_strlit("host:");
        assert(s@ == decode_utf8(payload@));
        assert(split_seq(s@, crlf@).subrange(0, lines@.len() as int) =~= split_seq(s@, crlf@));
    }
    let colon: Vec<char> = chars_of(":");
    assert(colon@ =~= seq![':']);
    let mut i: usize = 0;
    while i < lines.len()
        invariant
            i <= lines@.len(),
            crlf@ == "\r\n"@,
            host_prefix@ == "host:"@,
            host_prefix@.len() == 5,
            colon@ == seq![':'],
            lines@.len() == split_seq(s@, crlf@).len(),
            forall|k: int| 0 <= k < lines@.len() ==> #[trigger] lines@[k]@ == split_seq(s@, crlf@)[k],
            http_host_spec(payload@) == host_in_lines(
                split_seq(s@, crlf@).subrange(i as int, lines@.len() as int),
            ),
        decreases lines@.len() - i,
    {
        let ghost rest = split_seq(s@, crlf@).subrange(i as int, lines@.len() as int);
        assert(rest.drop_first() =~= split_seq(s@, crlf@).subrange(i + 1, lines@.len() as int));
        let l = trim(&lines[i]);
        if utf8_len_of(&l) >= 6 {
            let lower = to_ascii_lower(&l);
            if starts_with(&lower, &host_prefix) {
                let mut tail: Vec<char> = Vec::new();
                let mut k: usize = 5;
                assert(tail@ =~= l@.subrange(5, 5));
                while k < l.len()
                    invariant
                        5 <= k <= l@.len(),
                        tail@ == l@.subrange(5, k as int),
                    decreases l@.len() - k,
                {
                    tail.push(l[k]);
                    assert(l@.subrange(5, k + 1) =~= l@.subrange(5, k as int).push(l@[k as int]));
                    k = k + 1;
                }
                let h = trim(&tail);
                if h.len() == 0 {
                    return None;
                }
                let parts = split(&h, &colon);
                let h2 = trim(&parts[0]);
                if h2.len() == 0 {
                    return None;
                }
                let lowered = to_ascii_lower(&h2);
                return Some(string_of(&lowered));
            }
        }
        i = i + 1;
    }
    None
}

/// Best-effort payload parsing to populate the hint fields that are still unset.
pub fn populate_hints(row: &mut PacketRow)
    ensures
        final(row).index == old(row).index,
        final(row).ts == old(row).ts,
        final(row).len == old(row).len,
        final(row).src == old(row).src,
        final(row).dst == old(row).dst,
        final(row).proto == old(row).proto,
        final(row).src_port == old(row).src_port,
        final(row).dst_port == old(row).dst_port,
        final(row).summary@ == old(row).summary@,
        final(row).flow == old(row).flow,
        final(row).flow_dir == old(row).flow_dir,
        final(row).tcp_seq == old(row).tcp_seq,
        final(row).tcp_ack == old(row).tcp_ack,
        final(row).tcp_flags == old(row).tcp_flags,
        final(row).payload@ == old(row).payload@,
        final(row).tcp_retransmission == old(row).tcp_retransmission,
        final(row).tcp_out_of_order == old(row).tcp_out_of_order,
        opt_text(final(row).dns_qname) == (if old(row).dns_qname is Some {
            opt_text(old(row).dns_qname)
        } else {
            dns_qname_spec(old(row).payload@)
        }),
        final(row).dns_rcode == (if old(row).dns_rcode is Some {
            old(row).dns_rcode
        } else {
            dns_rcode_spec(old(row).payload@)
        }),
        opt_text(final(row).http_host) == (if old(row).http_host is Some {
            opt_text(old(row).http_host)
        } else {
            http_host_spec(old(row).payload@)
        }),
        opt_text(final(row).tls_sni) == (if old(row).tls_sni is Some {
            opt_text(old(row).tls_sni)
        } else {
            tls_sni_spec(old(row).payload@)
        }),
        final(row).tls_version == (if old(row).tls_version is Some {
            old(row).tls_version
        } else {
            tls_version_spec(old(row).payload@)
        }),
{
    if row.dns_qname.is_none() {
        row.dns_qname = parse_dns_qname(&row.payload);
    }
    if row.dns_rcode.is_none() {
        row.dns_rcode = parse_dns_rcode(&row.payload);
    }
    if row.http_host.is_none() {
        row.http_host = parse_http_host(&row.payload);
    }
    if row.tls_sni.is_none() {
        row.tls_sni = parse_tls_sni(&row.payload);
    }
    if row.tls_version.is_none() {
        row.tls_version = parse_tls_version(&row.payload);
    }
}

} // verus!
