use babyshark::casefile::{case_dir_for_pcap, case_path_for_pcap, CaseFile};

#[test]
fn case_paths_are_in_hidden_dir() {
    let p = "/tmp/capture.pcap";
    let d = case_dir_for_pcap(p);
    let f = case_path_for_pcap(p);
    assert!(d.ends_with(".babyshark"));
    assert!(f.ends_with(".babyshark/case.json"));
    assert_eq!(d, "/tmp/.babyshark");
}

#[test]
fn case_dir_of_a_bare_file_name_is_beside_it() {
    assert_eq!(case_dir_for_pcap("x.pcap"), ".babyshark");
}

#[test]
fn upsert_adds_then_updates_in_place() {
    let mut cf = CaseFile { pcap_path: "x.pcap".to_string(), bookmarks: Vec::new() };
    cf.upsert_bookmark("k1", "TCP a↔b", "note1");
    assert_eq!(cf.bookmarks.len(), 1);
    assert_eq!(cf.bookmarks[0].flow_key, "k1");
    cf.upsert_bookmark("k2", "UDP c↔d", "note2");
    cf.upsert_bookmark("k1", "TCP a↔b (again)", "note3");
    assert_eq!(cf.bookmarks.len(), 2);
    assert_eq!(cf.bookmarks[0].flow_key, "k1");
    assert_eq!(cf.bookmarks[0].note, "note3");
    assert_eq!(cf.bookmarks[0].flow_label, "TCP a↔b (again)");
    assert_eq!(cf.bookmarks[1].flow_key, "k2");
}

#[test]
fn upserting_the_same_bookmark_twice_is_the_same_as_once() {
    let mut a = CaseFile { pcap_path: "x.pcap".to_string(), bookmarks: Vec::new() };
    a.upsert_bookmark("k", "l", "n");
    let mut b = CaseFile { pcap_path: "x.pcap".to_string(), bookmarks: Vec::new() };
    b.upsert_bookmark("k", "l", "n");
    b.upsert_bookmark("k", "l", "n");
    assert_eq!(a.bookmarks.len(), b.bookmarks.len());
    assert_eq!(a.bookmarks[0].note, b.bookmarks[0].note);
}
