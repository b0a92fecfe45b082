//! The clean and smudge filters: raw file bytes to pointer text on the way
//! into version control, pointer text back to raw bytes on the way out.
//!
//! Both directions are verified against the in-memory blob store; the live
//! filters perform the same steps with the Walrus backend doing the storing
//! and fetching.

use crate::bytes::{
    all_digits, copy_bytes, dec_digits, is_prefix_of, split_lines, spec_lines, starts_with,
    sub_vec, trim, trimmed, NL, SP,
};
use crate::digest::{all_hex_chars, hex_of, sha256_hex, sha256_of};
use crate::mapping::BlobMapping;
use crate::pointer::{
    decode_pointer, encode_pointer, lemma_pointer_round_trip, spec_encode_pointer,
    spec_pointer_fields, PointerError, PtrFields,
};
use crate::store::{spec_fetch, spec_store_bytes, MemoryBlobStore, StoreModel};
use vstd::prelude::*;

verus! {

/// A digit string is its own trimmed self and holds no line feeds: backend
/// blob identifiers minted by the in-memory store are safe in pointer text.
pub proof fn lemma_digits_pointer_safe(s: Seq<u8>)
    requires
        s.len() > 0,
        all_digits(s),
    ensures
        trimmed(s) == s,
        forall|j: int| 0 <= j < s.len() ==> s[j] != NL,
{
    assert(forall|j: int| 0 <= j < s.len() ==> !crate::bytes::is_space(#[trigger] s[j]));
    crate::bytes::lemma_trim_left_range(s, 0);
    crate::bytes::lemma_trim_right_range(s, s.len() as int);
    assert(crate::bytes::trim_right(s) == s);
}

/// Turning bytes into a pointer failed because the backend store failed;
/// the message is the backend's.
#[derive(PartialEq, Eq, Clone, Debug)]
pub enum CleanError {
    StoreFailed(Vec<u8>),
}

/// Why a pointer could not be turned back into bytes.
#[derive(PartialEq, Eq, Clone, Debug)]
pub enum SmudgeError {
    /// The text has no well-formed `oid` line: it is not a pointer.
    NotAPointer,
    /// The pointer carries no backend blob identifier extension field.
    NotFound,
    /// The backend fetch failed; the message is the backend's.
    FetchFailed(Vec<u8>),
}

/// The pointer text for file contents whose backend identifier is known:
/// hash the bytes and lay the canonical four lines out.
pub fn build_pointer_for(content: &Vec<u8>, blob_id: &Vec<u8>) -> (r: Vec<u8>)
    ensures
        r@ == spec_encode_pointer(
            hex_of(sha256_of(content@)),
            content@.len() as u64,
            blob_id@,
        ),
{
    let hash = sha256_hex(content);
    encode_pointer(&hash, content.len() as u64, blob_id)
}

/// The clean filter against a blob store: hash the bytes, store them, record
/// the mapping under the content hash and under the hash of the finished
/// pointer text, and return the pointer. Fails exactly when the store call
/// fails, with the store's message; the mapping and the store are then
/// untouched.
pub fn clean(data: &Vec<u8>, store: &mut MemoryBlobStore, mapping: &mut BlobMapping) -> (r:
    Result<Vec<u8>, CleanError>)
    requires
        old(store).wf(),
        old(mapping).wf(),
    ensures
        final(store).wf(),
        final(mapping).wf(),
        match r {
            Ok(ptr) => spec_store_bytes(old(store)@, data@) matches Ok(p)
                && final(store)@ == p.1
                && ptr@ == spec_encode_pointer(
                    hex_of(sha256_of(data@)),
                    data@.len() as u64,
                    p.0,
                )
                && final(mapping)@ == old(mapping)@.insert(hex_of(sha256_of(data@)), p.0).insert(
                    hex_of(sha256_of(ptr@)),
                    p.0,
                ),
            Err(e) => e matches CleanError::StoreFailed(m)
                && spec_store_bytes(old(store)@, data@) == Err::<(Seq<u8>, StoreModel), _>(m@)
                && final(store)@ == old(store)@
                && final(mapping)@ == old(mapping)@,
        },
{
    let hash = sha256_hex(data);
    let id = match store.store_bytes(data) {
        Ok(id) => id,
        Err(m) => {
            return Err(CleanError::StoreFailed(m));
        },
    };
    mapping.put(copy_bytes(&hash), copy_bytes(&id));
    let ptr = encode_pointer(&hash, data.len() as u64, &id);
    let pointer_hash = sha256_hex(&ptr);
    mapping.put(pointer_hash, copy_bytes(&id));
    Ok(ptr)
}

/// The smudge filter against a blob store: decode the pointer, fail with
/// [`SmudgeError::NotFound`] when no backend identifier extension field is
/// present, and fetch the bytes by that identifier otherwise.
pub fn smudge(pointer_text: &Vec<u8>, store: &MemoryBlobStore) -> (r: Result<Vec<u8>, SmudgeError>)
    requires
        store.wf(),
    ensures
        match r {
            Ok(data) => ({
                &&& spec_pointer_fields(pointer_text@).hash is Some
                &&& spec_pointer_fields(pointer_text@).ext matches Some(id) && spec_fetch(
                    store@,
                    id,
                ) == Ok::<_, Seq<u8>>(data@)
            }),
            Err(e) => match e {
                SmudgeError::NotAPointer => spec_pointer_fields(pointer_text@).hash is None,
                SmudgeError::NotFound => spec_pointer_fields(pointer_text@).hash is Some
                    && spec_pointer_fields(pointer_text@).ext is None,
                SmudgeError::FetchFailed(m) => ({
                    &&& spec_pointer_fields(pointer_text@).hash is Some
                    &&& spec_pointer_fields(pointer_text@).ext matches Some(id) && spec_fetch(
                        store@,
                        id,
                    ) == Err::<Seq<u8>, _>(m@)
                }),
            },
        },
{
    let ptr = match decode_pointer(pointer_text) {
        Ok(p) => p,
        Err(PointerError::MissingOid) => {
            return Err(SmudgeError::NotAPointer);
        },
    };
    let blob_id = match ptr.backend_blob_id {
        Some(id) => id,
        None => {
            return Err(SmudgeError::NotFound);
        },
    };
    match store.fetch(&blob_id) {
        Ok(data) => Ok(data),
        Err(m) => Err(SmudgeError::FetchFailed(m)),
    }
}

/// The round trip of the two filters: against a store that accepts the bytes
/// and fetches faithfully, the pointer that `clean` makes for any contents
/// decodes to the stored blob's identifier, and fetching it returns the
/// contents exactly — so `smudge` after `clean` recovers the input. The hash
/// premises hold of every hex SHA-256 digest, as [`sha256_hex`] ensures.
pub proof fn lemma_clean_smudge_round_trip(
    data: Seq<u8>,
    size: u64,
    m: StoreModel,
    hash: Seq<u8>,
)
    requires
        hash == hex_of(sha256_of(data)),
        hash.len() == 64,
        all_hex_chars(hash),
        !m.fail_store,
        !m.fail_fetch,
        m.next_id < u64::MAX,
    ensures
        spec_store_bytes(m, data) matches Ok(p) && ({
            let ptr = spec_encode_pointer(hash, size, p.0);
            &&& spec_pointer_fields(ptr) == (PtrFields {
                hash: Some(hash),
                size: Some(size),
                ext: Some(p.0),
            })
            &&& spec_fetch(p.1, p.0) == Ok::<_, Seq<u8>>(data)
        }),
{
    let id = dec_digits(m.next_id as nat);
    crate::bytes::lemma_dec_digits(m.next_id as nat);
    lemma_digits_pointer_safe(id);
    lemma_pointer_round_trip(hash, size, id);
}

/// `# walrus-blob-id:`, the comment a legacy pointer carries its backend
/// identifier in.
pub open spec fn spec_comment_id_prefix() -> Seq<u8> {
    seq![
        35u8, 32u8, 119u8, 97u8, 108u8, 114u8, 117u8, 115u8, 45u8, 98u8, 108u8, 111u8, 98u8,
        45u8, 105u8, 100u8, 58u8,
    ]
}

/// `# walrus-blob-id:` as bytes.
pub fn comment_id_prefix() -> (v: Vec<u8>)
    ensures
        v@ == spec_comment_id_prefix(),
{
    let v: Vec<u8> = vec![
        35u8, 32u8, 119u8, 97u8, 108u8, 114u8, 117u8, 115u8, 45u8, 98u8, 108u8, 111u8, 98u8,
        45u8, 105u8, 100u8, 58u8,
    ];
    proof {
        assert(v@ =~= spec_comment_id_prefix());
    }
    v
}

/// Index of the first `": "` pair in `s`, or `s.len()` when absent.
pub open spec fn first_colon_space(s: Seq<u8>) -> int
    decreases s.len(),
{
    if s.len() < 2 {
        s.len() as int
    } else if s[0] == 58 && s[1] == SP {
        0
    } else {
        1 + first_colon_space(s.drop_first())
    }
}

proof fn lemma_first_colon_space(s: Seq<u8>)
    ensures
        0 <= first_colon_space(s) <= s.len(),
        first_colon_space(s) + 1 < s.len() ==> s[first_colon_space(s)] == 58
            && s[first_colon_space(s) + 1] == SP,
        forall|j: int|
            0 <= j < first_colon_space(s) && j + 1 < s.len() ==> !((#[trigger] s[j]) == 58 && s[j
                + 1] == SP),
    decreases s.len(),
{
    if s.len() >= 2 && !(s[0] == 58 && s[1] == SP) {
        lemma_first_colon_space(s.drop_first());
        assert forall|j: int|
            0 <= j < first_colon_space(s) && j + 1 < s.len() implies !((#[trigger] s[j]) == 58 && s[
            j + 1] == SP) by {
            if j > 0 {
                assert(s.drop_first()[j - 1] == s[j]);
                assert(s.drop_first()[j] == s[j + 1]);
            }
        }
    } else if s.len() < 2 {
        assert(first_colon_space(s) == s.len());
    }
}

proof fn lemma_first_colon_space_witness(s: Seq<u8>, i: int)
    requires
        0 <= i,
        i + 1 < s.len(),
        s[i] == 58,
        s[i + 1] == SP,
        forall|j: int| 0 <= j < i ==> !((#[trigger] s[j]) == 58 && s[j + 1] == SP),
    ensures
        first_colon_space(s) == i,
    decreases s.len(),
{
    if i > 0 {
        assert forall|j: int| 0 <= j < i - 1 implies !((#[trigger] s.drop_first()[j]) == 58
            && s.drop_first()[j + 1] == SP) by {
            assert(s.drop_first()[j] == s[j + 1]);
            assert(s.drop_first()[j + 1] == s[j + 2]);
        }
        lemma_first_colon_space_witness(s.drop_first(), i - 1);
    }
}

/// What a legacy comment line contributes: the trimmed text after the first
/// `": "` on a line that starts with the comment prefix.
pub open spec fn line_comment_id(line: Seq<u8>) -> Option<Seq<u8>> {
    if is_prefix_of(spec_comment_id_prefix(), line) {
        let i = first_colon_space(line);
        if i + 1 < line.len() {
            Some(trimmed(line.skip(i + 2)))
        } else {
            None
        }
    } else {
        None
    }
}

/// The first legacy comment identifier among a sequence of lines.
pub open spec fn spec_first_comment_id(lines: Seq<Seq<u8>>) -> Option<Seq<u8>>
    decreases lines.len(),
{
    if lines.len() == 0 {
        None
    } else if line_comment_id(lines[0]) is Some {
        line_comment_id(lines[0])
    } else {
        spec_first_comment_id(lines.drop_first())
    }
}

proof fn lemma_first_comment_id_skip(lines: Seq<Seq<u8>>, i: int)
    requires
        0 <= i <= lines.len(),
        forall|j: int| 0 <= j < i ==> line_comment_id(#[trigger] lines[j]) is None,
    ensures
        spec_first_comment_id(lines) == spec_first_comment_id(lines.skip(i)),
    decreases i,
{
    if i > 0 {
        lemma_first_comment_id_skip(lines, i - 1);
        let rest = lines.skip(i - 1);
        assert(rest[0] == lines[i - 1]);
        assert(rest.drop_first() =~= lines.skip(i));
    } else {
        assert(lines.skip(0) =~= lines);
    }
}

/// Where no `": "` pair exists, the search runs off the end.
proof fn lemma_first_colon_space_none(s: Seq<u8>)
    requires
        forall|j: int| 0 <= j && j + 1 < s.len() ==> !((#[trigger] s[j]) == 58 && s[j + 1] == SP),
    ensures
        first_colon_space(s) == s.len(),
    decreases s.len(),
{
    if s.len() >= 2 {
        assert(!(s[0] == 58 && s[1] == SP));
        assert forall|j: int| 0 <= j && j + 1 < s.drop_first().len() implies !((
        #[trigger] s.drop_first()[j]) == 58 && s.drop_first()[j + 1] == SP) by {
            assert(s.drop_first()[j] == s[j + 1]);
            assert(s.drop_first()[j + 1] == s[j + 2]);
        }
        lemma_first_colon_space_none(s.drop_first());
    }
}

/// Find the first `": "` pair in a line.
fn find_colon_space(line: &Vec<u8>) -> (r: usize)
    ensures
        r == first_colon_space(line@),
{
    if line.len() < 2 {
        proof {
            lemma_first_colon_space(line@);
            assert(first_colon_space(line@) == line@.len());
        }
        return line.len();
    }
    let mut i: usize = 0;
    while i < line.len() - 1
        invariant
            i + 1 <= line@.len(),
            line@.len() >= 2,
            forall|j: int| 0 <= j < i ==> !((#[trigger] line@[j]) == 58 && line@[j + 1] == SP),
        decreases line@.len() - i,
    {
        if line[i] == 58 && line[i + 1] == 32 {
            proof {
                lemma_first_colon_space_witness(line@, i as int);
            }
            return i;
        }
        i += 1;
    }
    proof {
        lemma_first_colon_space_none(line@);
    }
    line.len()
}

/// The backend blob identifier named by the first `# walrus-blob-id:`
/// comment of legacy pointer text. Fails exactly when no comment line names
/// one.
pub fn extract_walrus_blob_id(content: &Vec<u8>) -> (r: Result<Vec<u8>, SmudgeError>)
    ensures
        match r {
            Ok(v) => spec_first_comment_id(spec_lines(content@)) == Some(v@),
            Err(e) => spec_first_comment_id(spec_lines(content@)) is None && e
                == SmudgeError::NotFound,
        },
{
    let prefix = comment_id_prefix();
    let lines = split_lines(content);
    let ghost dv = spec_lines(content@);
    let mut i: usize = 0;
    while i < lines.len()
        invariant
            i <= lines@.len(),
            lines.deep_view() == dv,
            dv == spec_lines(content@),
            prefix@ == spec_comment_id_prefix(),
            forall|j: int| 0 <= j < i ==> line_comment_id(#[trigger] dv[j]) is None,
        decreases lines@.len() - i,
    {
        proof {
            assert(dv[i as int] == lines@[i as int].deep_view());
            assert(lines@[i as int].deep_view() =~= lines@[i as int]@);
        }
        let line = &lines[i];
        if starts_with(line, &prefix) {
            let p = find_colon_space(line);
            if line.len() > 0 && p < line.len() - 1 {
                let value = sub_vec(line, p + 2, line.len());
                let id = trim(&value);
                proof {
                    lemma_first_comment_id_skip(dv, i as int);
                    assert(dv.skip(i as int)[0] == dv[i as int]);
                    assert(value@ =~= dv[i as int].skip(p + 2));
                }
                return Ok(id);
            }
        }
        i += 1;
    }
    proof {
        lemma_first_comment_id_skip(dv, dv.len() as int);
        assert(dv.skip(dv.len() as int) =~= Seq::<Seq<u8>>::empty());
    }
    Err(SmudgeError::NotFound)
}

} // verus!
