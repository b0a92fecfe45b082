use git_lfs_walrus::bytes::{parse_dec, u64_to_dec};
use git_lfs_walrus::pointer::{
    decode_pointer, encode_pointer, extract_oid_sha256, extract_walrus_blob_id, metadata_get,
    parse_lfs_pointer, PointerError,
};

fn b(s: &str) -> Vec<u8> {
    s.as_bytes().to_vec()
}

const LFS_POINTER: &str = "version https://git-lfs.github.com/spec/v1\noid sha256:b94d27b9934d3e08a52e52d7da7dabfac484efe37a5380ee9088f7ace2efcde9\nsize 11\n# walrus-blob-id: test-blob-id-123\n";

#[test]
fn parse_lfs_pointer_extracts_metadata() {
    let metadata = parse_lfs_pointer(&b(LFS_POINTER));
    assert_eq!(
        metadata_get(&metadata, &b("version")),
        Some(b("https://git-lfs.github.com/spec/v1"))
    );
    assert_eq!(
        metadata_get(&metadata, &b("oid")),
        Some(b("sha256:b94d27b9934d3e08a52e52d7da7dabfac484efe37a5380ee9088f7ace2efcde9"))
    );
    assert_eq!(metadata_get(&metadata, &b("size")), Some(b("11")));
}

#[test]
fn metadata_get_misses_unknown_key() {
    let metadata = parse_lfs_pointer(&b(LFS_POINTER));
    assert_eq!(metadata_get(&metadata, &b("nonsense")), None);
}

#[test]
fn pointer_round_trips_through_encode_and_decode() {
    let hash = b("b94d27b9934d3e08a52e52d7da7dabfac484efe37a5380ee9088f7ace2efcde9");
    let id = b("walrus-blob-42");
    let text = encode_pointer(&hash, 11, &id);
    let p = decode_pointer(&text).unwrap();
    assert_eq!(p.content_hash, hash);
    assert_eq!(p.byte_size, 11);
    assert_eq!(p.backend_blob_id, Some(id));
    assert_eq!(p.hash_algorithm, b("sha256"));
}

#[test]
fn encode_pointer_lays_out_four_lines() {
    let hash = b("b94d27b9934d3e08a52e52d7da7dabfac484efe37a5380ee9088f7ace2efcde9");
    let text = encode_pointer(&hash, 11, &b("the-blob"));
    let expected = "version https://git-lfs.github.com/spec/v1\noid sha256:b94d27b9934d3e08a52e52d7da7dabfac484efe37a5380ee9088f7ace2efcde9\nsize 11\next-0-walrus the-blob\n";
    assert_eq!(text, b(expected));
}

#[test]
fn decode_accepts_reordered_lines_and_unknown_extensions() {
    let text = b(
        "ext-0-walrus the-blob\nsize 2048\next-9-other mystery\noid sha256:aaaaaaaaaaaaaaaaaaaaaaaaaaaaaaaaaaaaaaaaaaaaaaaaaaaaaaaaaaaaaaaa\n# a comment\nversion https://git-lfs.github.com/spec/v1\n",
    );
    let p = decode_pointer(&text).unwrap();
    assert_eq!(
        p.content_hash,
        b("aaaaaaaaaaaaaaaaaaaaaaaaaaaaaaaaaaaaaaaaaaaaaaaaaaaaaaaaaaaaaaaa")
    );
    assert_eq!(p.byte_size, 2048);
    assert_eq!(p.backend_blob_id, Some(b("the-blob")));
}

#[test]
fn decode_fails_only_without_an_oid_line() {
    assert_eq!(
        decode_pointer(&b("version https://git-lfs.github.com/spec/v1\nsize 11\n")),
        Err(PointerError::MissingOid)
    );
    // A malformed oid value is not an oid line.
    assert_eq!(
        decode_pointer(&b("oid sha256:tooshort\nsize 11\n")),
        Err(PointerError::MissingOid)
    );
    // Size defaults to zero when no size line is present.
    let p = decode_pointer(&b(
        "oid sha256:b94d27b9934d3e08a52e52d7da7dabfac484efe37a5380ee9088f7ace2efcde9\n",
    ))
    .unwrap();
    assert_eq!(p.byte_size, 0);
    assert_eq!(p.backend_blob_id, None);
}

#[test]
fn later_lines_win_over_earlier_ones() {
    let text = b(
        "oid sha256:aaaaaaaaaaaaaaaaaaaaaaaaaaaaaaaaaaaaaaaaaaaaaaaaaaaaaaaaaaaaaaaa\nsize 1\nsize 2\next-0-walrus first\next-0-walrus second\n",
    );
    let p = decode_pointer(&text).unwrap();
    assert_eq!(p.byte_size, 2);
    assert_eq!(p.backend_blob_id, Some(b("second")));
}

#[test]
fn extract_walrus_blob_id_reads_the_extension_line() {
    let text = b(
        "version https://git-lfs.github.com/spec/v1\noid sha256:b94d27b9934d3e08a52e52d7da7dabfac484efe37a5380ee9088f7ace2efcde9\nsize 11\next-0-walrus  spaced-id \n",
    );
    assert_eq!(extract_walrus_blob_id(&text), Ok(b("spaced-id")));
    assert!(extract_walrus_blob_id(&b("size 11\n")).is_err());
}

#[test]
fn extract_oid_sha256_strips_the_prefix() {
    assert_eq!(
        extract_oid_sha256(&b(LFS_POINTER)),
        Some(b("b94d27b9934d3e08a52e52d7da7dabfac484efe37a5380ee9088f7ace2efcde9"))
    );
    assert_eq!(extract_oid_sha256(&b("size 11\n")), None);
}

#[test]
fn decimal_rendering_and_parsing_agree() {
    assert_eq!(u64_to_dec(0), b("0"));
    assert_eq!(u64_to_dec(18446744073709551615), b("18446744073709551615"));
    assert_eq!(parse_dec(&b("11")), Some(11));
    assert_eq!(parse_dec(&b("18446744073709551615")), Some(u64::MAX));
    assert_eq!(parse_dec(&b("18446744073709551616")), None);
    assert_eq!(parse_dec(&b("")), None);
    assert_eq!(parse_dec(&b("1x")), None);
}
