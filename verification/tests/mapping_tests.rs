use git_lfs_walrus::mapping::{decode_mapping, BlobMapping};

fn b(s: &str) -> Vec<u8> {
    s.as_bytes().to_vec()
}

#[test]
fn put_then_get_returns_the_identifier() {
    let mut m = BlobMapping::new();
    assert_eq!(m.get(&b("aa")), None);
    m.put(b("aa"), b("blob-1"));
    assert_eq!(m.get(&b("aa")), Some(b("blob-1")));
    m.put(b("bb"), b("blob-2"));
    assert_eq!(m.get(&b("aa")), Some(b("blob-1")));
    assert_eq!(m.get(&b("bb")), Some(b("blob-2")));
    assert_eq!(m.len(), 2);
}

#[test]
fn a_second_put_replaces_the_identifier() {
    let mut m = BlobMapping::new();
    m.put(b("aa"), b("blob-1"));
    m.put(b("aa"), b("blob-2"));
    assert_eq!(m.get(&b("aa")), Some(b("blob-2")));
    assert_eq!(m.len(), 1);
}

#[test]
fn mapping_documents_round_trip() {
    let mut m = BlobMapping::new();
    m.put(b("aa"), b("blob-1"));
    m.put(b("bb"), b("blob-2"));
    let doc = m.encode_mapping();
    assert_eq!(doc, b(r#"{"aa":"blob-1","bb":"blob-2"}"#));
    let m2 = decode_mapping(&doc).unwrap();
    assert_eq!(m2.get(&b("aa")), Some(b("blob-1")));
    assert_eq!(m2.get(&b("bb")), Some(b("blob-2")));
    assert_eq!(m2.get(&b("cc")), None);
}

#[test]
fn empty_mapping_documents_round_trip() {
    let m = BlobMapping::new();
    let doc = m.encode_mapping();
    assert_eq!(doc, b("{}"));
    let m2 = decode_mapping(&doc).unwrap();
    assert_eq!(m2.get(&b("aa")), None);
}

#[test]
fn awkward_identifiers_survive_the_document() {
    let mut m = BlobMapping::new();
    m.put(b("aa"), b("with \"quote\" and \\slash"));
    let doc = m.encode_mapping();
    let m2 = decode_mapping(&doc).unwrap();
    assert_eq!(m2.get(&b("aa")), Some(b("with \"quote\" and \\slash")));
}

#[test]
fn unreadable_documents_are_refused() {
    assert!(decode_mapping(&b("")).is_none());
    assert!(decode_mapping(&b("not json")).is_none());
    assert!(decode_mapping(&b(r#"{"aa":5}"#)).is_none());
    assert!(decode_mapping(&b(r#"{"aa":"bb""#)).is_none());
}

#[test]
fn duplicate_keys_in_a_document_take_the_later_value() {
    let m = decode_mapping(&b(r#"{"aa":"one","aa":"two"}"#)).unwrap();
    assert_eq!(m.get(&b("aa")), Some(b("two")));
}
