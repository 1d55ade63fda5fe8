//! Case files: per-capture notes kept next to the capture, and their bookmarks.
use vstd::prelude::*;

verus! {

pub struct FlowBookmark {
    pub flow_label: String,
    pub flow_key: String,
    pub note: String,
}

pub struct CaseFile {
    pub pcap_path: String,
    pub bookmarks: Vec<FlowBookmark>,
}

/// What `Path::parent` gives for a path: the path without its final component,
/// or none for a root, a prefix or the empty path.
pub uninterp spec fn std_path_parent(p: Seq<char>) -> Option<Seq<char>>;

/// What `Path::join` gives: `comp` adjoined to `base` (replacing it when `comp`
/// is absolute).
pub uninterp spec fn std_path_join(base: Seq<char>, comp: Seq<char>) -> Seq<char>;

/// `std::path::Path::parent`, read back as text. The documentation gives no
/// parent for the empty path; what it returns otherwise is named, not stated.
#[verifier::external_body]
fn path_parent(p: &str) -> (r: Option<String>)
    ensures
        match r {
            Some(s) => std_path_parent(p@) == Some(s@),
            None => std_path_parent(p@) is None,
        },
        p@.len() == 0 ==> r is None,
{
    match std::path::Path::new(p).parent() {
        Some(q) => Some(q.to_string_lossy().into_owned()),
        None => None,
    }
}

/// `std::path::Path::join`, read back as text; the result is named, not stated.
#[verifier::external_body]
fn path_join(base: &str, comp: &str) -> (r: String)
    ensures
        r@ == std_path_join(base@, comp@),
{
    std::path::Path::new(base).join(comp).to_string_lossy().into_owned()
}

/// The directory of a capture, `.` when it has none.
pub open spec fn capture_dir(p: Seq<char>) -> Seq<char> {
    match std_path_parent(p) {
        Some(d) => d,
        None => "."@,
    }
}

pub open spec fn case_dir_spec(p: Seq<char>) -> Seq<char> {
    std_path_join(capture_dir(p), ".babyshark"@)
}

/// The hidden `.babyshark` directory beside a capture.
pub fn case_dir_for_pcap(pcap_path: &str) -> (r: String)
    ensures
        r@ == case_dir_spec(pcap_path@),
{
    let base = match path_parent(pcap_path) {
        Some(b) => b,
        None => ".".to_owned(),
    };
    path_join(base.as_str(), ".babyshark")
}

/// `case.json` inside the case directory of a capture.
pub fn case_path_for_pcap(pcap_path: &str) -> (r: String)
    ensures
        r@ == std_path_join(case_dir_spec(pcap_path@), "case.json"@),
{
    let dir = case_dir_for_pcap(pcap_path);
    path_join(dir.as_str(), "case.json")
}

/// A bookmark as (label, key, note).
pub open spec fn bookmark_view(b: FlowBookmark) -> (Seq<char>, Seq<char>, Seq<char>) {
    (b.flow_label@, b.flow_key@, b.note@)
}

pub open spec fn bookmarks_view(bs: Seq<FlowBookmark>) -> Seq<(Seq<char>, Seq<char>, Seq<char>)> {
    bs.map_values(|b: FlowBookmark| bookmark_view(b))
}

/// Position of the first bookmark with key `k`.
pub open spec fn find_key(bs: Seq<(Seq<char>, Seq<char>, Seq<char>)>, k: Seq<char>) -> Option<int>
    decreases bs.len(),
{
    if bs.len() == 0 {
        None
    } else {
        match find_key(bs.drop_last(), k) {
            Some(i) => Some(i),
            None => if bs.last().1 == k {
                Some(bs.len() - 1)
            } else {
                None
            },
        }
    }
}

/// The bookmarks after upserting (`label`, `key`, `note`): the first bookmark with
/// that key gets the new label and note; without one, the bookmark is appended.
pub open spec fn upsert_spec(
    bs: Seq<(Seq<char>, Seq<char>, Seq<char>)>,
    key: Seq<char>,
    label: Seq<char>,
    note: Seq<char>,
) -> Seq<(Seq<char>, Seq<char>, Seq<char>)> {
    match find_key(bs, key) {
        Some(j) => bs.update(j, (label, key, note)),
        None => bs.push((label, key, note)),
    }
}

pub open spec fn keys_distinct(bs: Seq<(Seq<char>, Seq<char>, Seq<char>)>) -> bool {
    forall|i: int, j: int| 0 <= i < j < bs.len() ==> (#[trigger] bs[i]).1 != (#[trigger] bs[j]).1
}

proof fn lemma_find_key(bs: Seq<(Seq<char>, Seq<char>, Seq<char>)>, k: Seq<char>)
    ensures
        match find_key(bs, k) {
            Some(j) => 0 <= j < bs.len() && bs[j].1 == k && forall|q: int| 0 <= q < j ==> (#[trigger] bs[q]).1 != k,
            None => forall|q: int| 0 <= q < bs.len() ==> (#[trigger] bs[q]).1 != k,
        },
    decreases bs.len(),
{
    if bs.len() > 0 {
        lemma_find_key(bs.drop_last(), k);
        assert forall|q: int| 0 <= q < bs.len() - 1 implies (#[trigger] bs[q]) == bs.drop_last()[q] by {}
    }
}

impl CaseFile {
    /// Set the label and note of the bookmark for `flow_key`, adding it when missing.
    pub fn upsert_bookmark(&mut self, flow_key: &str, flow_label: &str, note: &str)
        ensures
            bookmarks_view(final(self).bookmarks@) == upsert_spec(bookmarks_view(old(self).bookmarks@), flow_key@, flow_label@, note@),
            final(self).pcap_path@ == old(self).pcap_path@,
    {
        let ghost bv = bookmarks_view(self.bookmarks@);
        proof {
            lemma_find_key(bv, flow_key@);
        }
        let key_cs = crate::text::chars_of(flow_key);
        let mut j: usize = 0;
        while j < self.bookmarks.len()
            invariant
                j <= self.bookmarks@.len(),
                bv == bookmarks_view(self.bookmarks@),
                bv == bookmarks_view(old(self).bookmarks@),
                self.pcap_path@ == old(self).pcap_path@,
                key_cs@ == flow_key@,
                forall|q: int| 0 <= q < j ==> (#[trigger] bv[q]).1 != flow_key@,
            decreases self.bookmarks@.len() - j,
        {
            let kc = crate::text::chars_of(self.bookmarks[j].flow_key.as_str());
            assert(bv[j as int].1 == self.bookmarks@[j as int].flow_key@);
            if crate::text::chars_eq(kc.as_slice(), key_cs.as_slice()) {
                proof {
                    lemma_find_key(bv, flow_key@);
                    assert(bv[j as int].1 == flow_key@);
                    assert(find_key(bv, flow_key@) == Some(j as int));
                }
                let ghost before = self.bookmarks@;
                self.bookmarks[j].flow_label = flow_label.to_owned();
                self.bookmarks[j].note = note.to_owned();
                assert(bookmarks_view(self.bookmarks@) =~= bv.update(j as int, (flow_label@, flow_key@, note@)));
                return;
            }
            j = j + 1;
        }
        proof {
            lemma_find_key(bv, flow_key@);
            assert(find_key(bv, flow_key@) is None);
        }
        let ghost before = self.bookmarks@;
        self.bookmarks.push(
            FlowBookmark { flow_label: flow_label.to_owned(), flow_key: flow_key.to_owned(), note: note.to_owned() },
        );
        assert(bookmarks_view(self.bookmarks@) =~= bv.push((flow_label@, flow_key@, note@)));
    }
}

/// Upserting keeps bookmark keys distinct, leaves exactly one bookmark for the key
/// (when keys were distinct) carrying the new label and note, and upserting the
/// same bookmark again changes nothing.
pub proof fn lemma_upsert_laws(
    bs: Seq<(Seq<char>, Seq<char>, Seq<char>)>,
    key: Seq<char>,
    label: Seq<char>,
    note: Seq<char>,
)
    requires
        keys_distinct(bs),
    ensures
        keys_distinct(upsert_spec(bs, key, label, note)),
        find_key(upsert_spec(bs, key, label, note), key) matches Some(j) && upsert_spec(bs, key, label, note)[j] == (label, key, note),
        upsert_spec(upsert_spec(bs, key, label, note), key, label, note) == upsert_spec(bs, key, label, note),
        forall|k: Seq<char>| k != key ==> #[trigger] find_key(upsert_spec(bs, key, label, note), k) == find_key(bs, k),
{
    let u = upsert_spec(bs, key, label, note);
    lemma_find_key(bs, key);
    lemma_find_key(u, key);
    match find_key(bs, key) {
        Some(j) => {
            assert forall|a: int, b: int| 0 <= a < b < u.len() implies (#[trigger] u[a]).1 != (#[trigger] u[b]).1 by {
                assert(u[a].1 == bs[a].1);
                assert(u[b].1 == bs[b].1);
            }
            match find_key(u, key) {
                Some(w) => {
                    if w != j {
                        assert(u[w].1 == bs[w].1);
                        if w < j {
                        } else {
                            assert(u[j].1 == key);
                        }
                    }
                },
                None => {
                    assert(u[j].1 == key);
                },
            }
            assert(u.update(j, (label, key, note)) =~= u);
            assert forall|k: Seq<char>| k != key implies #[trigger] find_key(u, k) == find_key(bs, k) by {
                lemma_find_key_same(bs, u, k);
            }
        },
        None => {
            assert forall|a: int, b: int| 0 <= a < b < u.len() implies (#[trigger] u[a]).1 != (#[trigger] u[b]).1 by {
                if b == bs.len() {
                    assert(u[a].1 == bs[a].1);
                } else {
                    assert(u[a] == bs[a] && u[b] == bs[b]);
                }
            }
            match find_key(u, key) {
                Some(w) => {
                    if w < bs.len() {
                        assert(u[w] == bs[w]);
                    }
                },
                None => {
                    assert(u[bs.len() as int].1 == key);
                },
            }
            assert(find_key(u, key) == Some(bs.len() as int));
            assert(u.update(bs.len() as int, (label, key, note)) =~= u);
            assert forall|k: Seq<char>| k != key implies #[trigger] find_key(u, k) == find_key(bs, k) by {
                assert(u.drop_last() =~= bs);
            }
        },
    }
}

/// Two bookmark lists with the same keys, position by position, find a key at
/// the same place.
proof fn lemma_find_key_same(
    a: Seq<(Seq<char>, Seq<char>, Seq<char>)>,
    b: Seq<(Seq<char>, Seq<char>, Seq<char>)>,
    k: Seq<char>,
)
    requires
        a.len() == b.len(),
        forall|i: int| 0 <= i < a.len() ==> (#[trigger] a[i]).1 == b[i].1,
    ensures
        find_key(a, k) == find_key(b, k),
    decreases a.len(),
{
    if a.len() > 0 {
        assert forall|i: int| 0 <= i < a.drop_last().len() implies (#[trigger] a.drop_last()[i]).1 == b.drop_last()[i].1 by {
            assert(a.drop_last()[i] == a[i]);
            assert(b.drop_last()[i] == b[i]);
        }
        lemma_find_key_same(a.drop_last(), b.drop_last(), k);
    }
}

} // verus!
