use git_lfs_walrus::digest::sha256_hex;
use git_lfs_walrus::mapping::BlobMapping;
use git_lfs_walrus::pipeline::{
    build_pointer_for, clean, extract_walrus_blob_id, smudge, CleanError, SmudgeError,
};
use git_lfs_walrus::store::MemoryBlobStore;

fn b(s: &str) -> Vec<u8> {
    s.as_bytes().to_vec()
}

const FILE: &str = "hello world";
const HELLO_HASH: &str = "b94d27b9934d3e08a52e52d7da7dabfac484efe37a5380ee9088f7ace2efcde9";

const LFS_POINTER: &str = "version https://git-lfs.github.com/spec/v1\noid sha256:b94d27b9934d3e08a52e52d7da7dabfac484efe37a5380ee9088f7ace2efcde9\nsize 11\n# walrus-blob-id: test-blob-id-123\n";

#[test]
fn extract_walrus_blob_id_finds_id() {
    let blob_id = extract_walrus_blob_id(&b(LFS_POINTER)).unwrap();
    assert_eq!(blob_id, b("test-blob-id-123"));
}

#[test]
fn extract_walrus_blob_id_needs_a_comment_line() {
    assert_eq!(
        extract_walrus_blob_id(&b("version x\noid sha256:ab\n")),
        Err(SmudgeError::NotFound)
    );
    // The prefix alone, with no ": " separator, names nothing.
    assert_eq!(
        extract_walrus_blob_id(&b("# walrus-blob-id:stuck\n")),
        Err(SmudgeError::NotFound)
    );
}

#[test]
fn sha256_hex_matches_the_known_digest() {
    assert_eq!(sha256_hex(&b(FILE)), b(HELLO_HASH));
    assert_eq!(
        sha256_hex(&b("")),
        b("e3b0c44298fc1c149afbf4c8996fb92427ae41e4649b934ca495991b7852b855")
    );
}

#[test]
fn clean_produces_the_expected_pointer_for_hello_world() {
    let mut store = MemoryBlobStore::new();
    let mut mapping = BlobMapping::new();
    let pointer = clean(&b(FILE), &mut store, &mut mapping).unwrap();
    let text = String::from_utf8(pointer.clone()).unwrap();
    assert!(text.contains("version https://git-lfs.github.com/spec/v1"));
    assert!(text.contains(&format!("oid sha256:{}", HELLO_HASH)));
    assert!(text.contains("size 11"));
    assert!(text.contains("ext-0-walrus "));
    // The mapping now knows the content hash and the pointer hash.
    let id = mapping.get(&b(HELLO_HASH)).unwrap();
    assert_eq!(mapping.get(&sha256_hex(&pointer)), Some(id));
}

#[test]
fn smudge_after_clean_recovers_the_bytes() {
    let mut store = MemoryBlobStore::new();
    let mut mapping = BlobMapping::new();
    let pointer = clean(&b(FILE), &mut store, &mut mapping).unwrap();
    assert_eq!(smudge(&pointer, &store), Ok(b(FILE)));
}

#[test]
fn clean_and_smudge_round_trip_binary_contents() {
    let data: Vec<u8> = (0u16..600).map(|n| (n % 251) as u8).collect();
    let mut store = MemoryBlobStore::new();
    let mut mapping = BlobMapping::new();
    let pointer = clean(&data, &mut store, &mut mapping).unwrap();
    assert_eq!(smudge(&pointer, &store), Ok(data));
}

#[test]
fn clean_reports_a_failing_store() {
    let mut store = MemoryBlobStore::new();
    store.set_fail_store();
    let mut mapping = BlobMapping::new();
    assert_eq!(
        clean(&b(FILE), &mut store, &mut mapping),
        Err(CleanError::StoreFailed(b("store failed")))
    );
    assert_eq!(mapping.len(), 0);
}

#[test]
fn smudge_failures_are_told_apart() {
    let store = MemoryBlobStore::new();
    // Not a pointer at all.
    assert_eq!(smudge(&b("garbage\n"), &store), Err(SmudgeError::NotAPointer));
    // A pointer without the extension field.
    let bare = format!(
        "version https://git-lfs.github.com/spec/v1\noid sha256:{}\nsize 11\n",
        HELLO_HASH
    );
    assert_eq!(smudge(&bare.into_bytes(), &store), Err(SmudgeError::NotFound));
    // A pointer naming an identifier the store has never seen.
    let unknown = format!(
        "version https://git-lfs.github.com/spec/v1\noid sha256:{}\nsize 11\next-0-walrus nope\n",
        HELLO_HASH
    );
    assert_eq!(
        smudge(&unknown.into_bytes(), &store),
        Err(SmudgeError::FetchFailed(b("blob not found in store")))
    );
}

#[test]
fn smudge_reports_a_failing_fetch() {
    let mut store = MemoryBlobStore::new();
    let mut mapping = BlobMapping::new();
    let pointer = clean(&b(FILE), &mut store, &mut mapping).unwrap();
    store.set_fail_fetch();
    assert_eq!(
        smudge(&pointer, &store),
        Err(SmudgeError::FetchFailed(b("fetch failed")))
    );
}

#[test]
fn build_pointer_for_writes_the_canonical_text() {
    let text = build_pointer_for(&b(FILE), &b("the-blob"));
    let expected = format!(
        "version https://git-lfs.github.com/spec/v1\noid sha256:{}\nsize 11\next-0-walrus the-blob\n",
        HELLO_HASH
    );
    assert_eq!(text, expected.into_bytes());
}
