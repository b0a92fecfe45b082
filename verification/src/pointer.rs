//! The content-pointer text format: a small line-oriented stand-in committed
//! to version control in place of a large file.
//!
//! The canonical pointer has four lines:
//!
//! ```text
//! version https://git-lfs.github.com/spec/v1
//! oid sha256:<64 hex characters>
//! size <decimal byte count>
//! ext-0-walrus <backend blob identifier>
//! ```
//!
//! Decoding is line-oriented and forgiving: each line is split at its first
//! space into a key and a value, comment lines (leading `#`) and lines with
//! no recognized key are ignored, later occurrences of a key win, and only a
//! missing (or malformed) `oid` line makes decoding fail.

use crate::bytes::{
    all_digits, bytes_eq, dec_value, find_byte, first_index_of, is_prefix_of, parse_dec,
    split_lines, spec_lines, starts_with, sub_vec, trim, trimmed, COMMENT_MARK, NL, SP,
};
use crate::digest::{all_hex_chars, is_hex_char};
use vstd::prelude::*;

verus! {

/// The fixed first line of a canonical pointer:
/// `version https://git-lfs.github.com/spec/v1`.
pub open spec fn spec_version_line() -> Seq<u8> {
    seq![
        118u8, 101u8, 114u8, 115u8, 105u8, 111u8, 110u8, 32u8, 104u8, 116u8, 116u8, 112u8,
        115u8, 58u8, 47u8, 47u8, 103u8, 105u8, 116u8, 45u8, 108u8, 102u8, 115u8, 46u8, 103u8,
        105u8, 116u8, 104u8, 117u8, 98u8, 46u8, 99u8, 111u8, 109u8, 47u8, 115u8, 112u8, 101u8,
        99u8, 47u8, 118u8, 49u8,
    ]
}

/// `version https://git-lfs.github.com/spec/v1` as bytes.
pub fn version_line() -> (v: Vec<u8>)
    ensures
        v@ == spec_version_line(),
{
    let v: Vec<u8> = vec![
        118u8, 101u8, 114u8, 115u8, 105u8, 111u8, 110u8, 32u8, 104u8, 116u8, 116u8, 112u8,
        115u8, 58u8, 47u8, 47u8, 103u8, 105u8, 116u8, 45u8, 108u8, 102u8, 115u8, 46u8, 103u8,
        105u8, 116u8, 104u8, 117u8, 98u8, 46u8, 99u8, 111u8, 109u8, 47u8, 115u8, 112u8, 101u8,
        99u8, 47u8, 118u8, 49u8,
    ];
    proof {
        assert(v@ =~= spec_version_line());
    }
    v
}

/// The key of the hash line: `oid`.
pub open spec fn spec_oid_key() -> Seq<u8> {
    seq![111u8, 105u8, 100u8]
}

/// `oid` as bytes.
pub fn oid_key() -> (v: Vec<u8>)
    ensures
        v@ == spec_oid_key(),
{
    let v: Vec<u8> = vec![111u8, 105u8, 100u8];
    proof {
        assert(v@ =~= spec_oid_key());
    }
    v
}

/// The prefix of the hash value: `sha256:`.
pub open spec fn spec_sha256_prefix() -> Seq<u8> {
    seq![115u8, 104u8, 97u8, 50u8, 53u8, 54u8, 58u8]
}

/// `sha256:` as bytes.
pub fn sha256_prefix() -> (v: Vec<u8>)
    ensures
        v@ == spec_sha256_prefix(),
{
    let v: Vec<u8> = vec![115u8, 104u8, 97u8, 50u8, 53u8, 54u8, 58u8];
    proof {
        assert(v@ =~= spec_sha256_prefix());
    }
    v
}

/// The name of the fixed hash algorithm: `sha256`.
pub open spec fn spec_sha256_name() -> Seq<u8> {
    seq![115u8, 104u8, 97u8, 50u8, 53u8, 54u8]
}

/// `sha256` as bytes.
pub fn sha256_name() -> (v: Vec<u8>)
    ensures
        v@ == spec_sha256_name(),
{
    let v: Vec<u8> = vec![115u8, 104u8, 97u8, 50u8, 53u8, 54u8];
    proof {
        assert(v@ =~= spec_sha256_name());
    }
    v
}

/// The key of the size line: `size`.
pub open spec fn spec_size_key() -> Seq<u8> {
    seq![115u8, 105u8, 122u8, 101u8]
}

/// `size` as bytes.
pub fn size_key() -> (v: Vec<u8>)
    ensures
        v@ == spec_size_key(),
{
    let v: Vec<u8> = vec![115u8, 105u8, 122u8, 101u8];
    proof {
        assert(v@ =~= spec_size_key());
    }
    v
}

/// The key of the backend extension line: `ext-0-walrus`.
pub open spec fn spec_ext_key() -> Seq<u8> {
    seq![101u8, 120u8, 116u8, 45u8, 48u8, 45u8, 119u8, 97u8, 108u8, 114u8, 117u8, 115u8]
}

/// `ext-0-walrus` as bytes.
pub fn ext_key() -> (v: Vec<u8>)
    ensures
        v@ == spec_ext_key(),
{
    let v: Vec<u8> = vec![
        101u8, 120u8, 116u8, 45u8, 48u8, 45u8, 119u8, 97u8, 108u8, 114u8, 117u8, 115u8,
    ];
    proof {
        assert(v@ =~= spec_ext_key());
    }
    v
}

/// A line split at its first space into key and value. `None` for comment
/// lines and lines without a space.
pub open spec fn line_key_value(line: Seq<u8>) -> Option<(Seq<u8>, Seq<u8>)> {
    if line.len() > 0 && line[0] == COMMENT_MARK {
        None
    } else {
        let i = first_index_of(line, SP);
        if i == line.len() {
            None
        } else {
            Some((line.subrange(0, i), line.subrange(i + 1, line.len() as int)))
        }
    }
}

/// The content hash a line contributes: the value of a well-formed `oid`
/// line, `sha256:` followed by 64 hex characters.
pub open spec fn line_hash(line: Seq<u8>) -> Option<Seq<u8>> {
    match line_key_value(line) {
        Some(kv) => if kv.0 == spec_oid_key() && kv.1.len() == 71 && kv.1.subrange(0, 7)
            == spec_sha256_prefix() && all_hex_chars(kv.1.skip(7)) {
            Some(kv.1.skip(7))
        } else {
            None
        },
        None => None,
    }
}

/// The byte size a line contributes: the value of a `size` line holding a
/// decimal number that fits in a `u64`.
pub open spec fn line_size(line: Seq<u8>) -> Option<u64> {
    match line_key_value(line) {
        Some(kv) => if kv.0 == spec_size_key() && kv.1.len() > 0 && all_digits(kv.1)
            && dec_value(kv.1) <= u64::MAX {
            Some(dec_value(kv.1) as u64)
        } else {
            None
        },
        None => None,
    }
}

/// The backend blob identifier a line contributes: the trimmed value of an
/// `ext-0-walrus` line.
pub open spec fn line_ext(line: Seq<u8>) -> Option<Seq<u8>> {
    match line_key_value(line) {
        Some(kv) => if kv.0 == spec_ext_key() {
            Some(trimmed(kv.1))
        } else {
            None
        },
        None => None,
    }
}

/// The fields gathered while decoding a pointer.
pub ghost struct PtrFields {
    pub hash: Option<Seq<u8>>,
    pub size: Option<u64>,
    pub ext: Option<Seq<u8>>,
}

/// No field seen yet.
pub open spec fn empty_fields() -> PtrFields {
    PtrFields { hash: None, size: None, ext: None }
}

/// One line of decoding: each field the line contributes replaces the field
/// gathered so far (a later line wins).
pub open spec fn pointer_line_step(st: PtrFields, line: Seq<u8>) -> PtrFields {
    PtrFields {
        hash: if line_hash(line) is Some {
            line_hash(line)
        } else {
            st.hash
        },
        size: if line_size(line) is Some {
            line_size(line)
        } else {
            st.size
        },
        ext: if line_ext(line) is Some {
            line_ext(line)
        } else {
            st.ext
        },
    }
}

/// Decoding folded over a sequence of lines, first line first.
pub open spec fn pointer_fold(st: PtrFields, lines: Seq<Seq<u8>>) -> PtrFields
    decreases lines.len(),
{
    if lines.len() == 0 {
        st
    } else {
        pointer_fold(pointer_line_step(st, lines[0]), lines.drop_first())
    }
}

/// The fields of a pointer text: its lines folded over [`pointer_line_step`].
pub open spec fn spec_pointer_fields(text: Seq<u8>) -> PtrFields {
    pointer_fold(empty_fields(), spec_lines(text))
}

/// Folding one more line at the end applies that line last.
pub proof fn lemma_pointer_fold_push(st: PtrFields, lines: Seq<Seq<u8>>, line: Seq<u8>)
    ensures
        pointer_fold(st, lines.push(line)) == pointer_line_step(pointer_fold(st, lines), line),
    decreases lines.len(),
{
    let whole = lines.push(line);
    if lines.len() == 0 {
        assert(whole[0] == line);
        assert(whole.drop_first() =~= Seq::<Seq<u8>>::empty());
        assert(pointer_fold(st, whole) == pointer_fold(
            pointer_line_step(st, line),
            whole.drop_first(),
        ));
        assert(pointer_fold(st, lines) == st);
    } else {
        assert(whole[0] == lines[0]);
        assert(whole.drop_first() =~= lines.drop_first().push(line));
        assert(pointer_fold(st, whole) == pointer_fold(
            pointer_line_step(st, lines[0]),
            lines.drop_first().push(line),
        ));
        lemma_pointer_fold_push(pointer_line_step(st, lines[0]), lines.drop_first(), line);
        assert(pointer_fold(st, lines) == pointer_fold(
            pointer_line_step(st, lines[0]),
            lines.drop_first(),
        ));
    }
}

/// Hex-character check, as [`all_hex_chars`] describes.
pub fn is_all_hex(v: &Vec<u8>) -> (r: bool)
    ensures
        r == all_hex_chars(v@),
{
    let mut i: usize = 0;
    while i < v.len()
        invariant
            i <= v@.len(),
            forall|j: int| 0 <= j < i ==> is_hex_char(#[trigger] v@[j]),
        decreases v@.len() - i,
    {
        let b = v[i];
        if !((48 <= b && b <= 57) || (97 <= b && b <= 102)) {
            return false;
        }
        i += 1;
    }
    true
}

/// A decoded content pointer. `hash_algorithm` is fixed to `sha256`;
/// `content_hash` is the hex SHA-256 digest of the file the pointer stands
/// for; `backend_blob_id` is present once the backend has assigned one.
#[derive(PartialEq, Eq, Clone, Debug)]
pub struct ContentPointer {
    pub hash_algorithm: Vec<u8>,
    pub content_hash: Vec<u8>,
    pub byte_size: u64,
    pub backend_blob_id: Option<Vec<u8>>,
}

impl ContentPointer {
    /// Well-formedness: the fixed algorithm name and a 64-character hex hash.
    pub open spec fn wf(&self) -> bool {
        &&& self.hash_algorithm@ == spec_sha256_name()
        &&& self.content_hash@.len() == 64
        &&& all_hex_chars(self.content_hash@)
    }
}

/// Decoding fails only when no well-formed `oid` line is present.
#[derive(PartialEq, Eq, Structural, Clone, Copy, Debug)]
pub enum PointerError {
    MissingOid,
}

/// The size field of decoded fields, zero when no size line was seen.
pub open spec fn size_or_zero(f: PtrFields) -> u64 {
    match f.size {
        Some(v) => v,
        None => 0,
    }
}

/// What one line contributes to each pointer field.
fn scan_line(line: &Vec<u8>) -> (r: (Option<Vec<u8>>, Option<u64>, Option<Vec<u8>>))
    ensures
        match r.0 {
            Some(h) => line_hash(line@) == Some(h@),
            None => line_hash(line@) is None,
        },
        r.1 == line_size(line@),
        match r.2 {
            Some(e) => line_ext(line@) == Some(e@),
            None => line_ext(line@) is None,
        },
{
    if line.len() > 0 && line[0] == COMMENT_MARK {
        return (None, None, None);
    }
    let i = find_byte(line, SP);
    if i == line.len() {
        return (None, None, None);
    }
    let key = sub_vec(line, 0, i);
    let value = sub_vec(line, i + 1, line.len());
    if bytes_eq(&key, &oid_key()) {
        if value.len() == 71 {
            let prefix = sub_vec(&value, 0, 7);
            let rest = sub_vec(&value, 7, value.len());
            if bytes_eq(&prefix, &sha256_prefix()) && is_all_hex(&rest) {
                return (Some(rest), None, None);
            }
        }
        (None, None, None)
    } else if bytes_eq(&key, &size_key()) {
        match parse_dec(&value) {
            Some(n) => (None, Some(n), None),
            None => (None, None, None),
        }
    } else if bytes_eq(&key, &ext_key()) {
        (None, None, Some(trim(&value)))
    } else {
        (None, None, None)
    }
}

/// Decode pointer text. Succeeds exactly when a well-formed `oid` line is
/// present; the size defaults to zero when no `size` line is present; the
/// backend blob identifier is taken from the `ext-0-walrus` line when there
/// is one. Later lines win over earlier ones.
pub fn decode_pointer(text: &Vec<u8>) -> (r: Result<ContentPointer, PointerError>)
    ensures
        match r {
            Ok(p) => {
                &&& spec_pointer_fields(text@).hash == Some(p.content_hash@)
                &&& p.byte_size == size_or_zero(spec_pointer_fields(text@))
                &&& (match spec_pointer_fields(text@).ext {
                    Some(e) => p.backend_blob_id is Some && p.backend_blob_id->0@ == e,
                    None => p.backend_blob_id is None,
                })
                &&& p.wf()
            },
            Err(e) => spec_pointer_fields(text@).hash is None && e == PointerError::MissingOid,
        },
{
    let lines = split_lines(text);
    let ghost dv = spec_lines(text@);
    let mut cur_hash: Option<Vec<u8>> = None;
    let mut cur_size: Option<u64> = None;
    let mut cur_ext: Option<Vec<u8>> = None;
    let mut i: usize = 0;
    proof {
        assert(dv.take(0) =~= Seq::<Seq<u8>>::empty());
    }
    while i < lines.len()
        invariant
            i <= lines@.len(),
            lines.deep_view() == dv,
            dv == spec_lines(text@),
            ({
                let f = pointer_fold(empty_fields(), dv.take(i as int));
                &&& (match cur_hash {
                    Some(h) => f.hash == Some(h@) && h@.len() == 64 && all_hex_chars(h@),
                    None => f.hash is None,
                })
                &&& cur_size == f.size
                &&& (match cur_ext {
                    Some(e) => f.ext == Some(e@),
                    None => f.ext is None,
                })
            }),
        decreases lines@.len() - i,
    {
        let ghost f = pointer_fold(empty_fields(), dv.take(i as int));
        let line = &lines[i];
        proof {
            assert(dv[i as int] == lines@[i as int].deep_view());
            assert(lines@[i as int].deep_view() =~= lines@[i as int]@);
            assert(dv.take(i + 1) =~= dv.take(i as int).push(dv[i as int]));
            lemma_pointer_fold_push(empty_fields(), dv.take(i as int), dv[i as int]);
        }
        let scan = scan_line(line);
        if scan.0.is_some() {
            cur_hash = scan.0;
        }
        if scan.1.is_some() {
            cur_size = scan.1;
        }
        if scan.2.is_some() {
            cur_ext = scan.2;
        }
        i += 1;
    }
    proof {
        assert(dv.take(i as int) =~= dv);
    }
    match cur_hash {
        Some(h) => Ok(
            ContentPointer {
                hash_algorithm: sha256_name(),
                content_hash: h,
                byte_size: match cur_size {
                    Some(n) => n,
                    None => 0,
                },
                backend_blob_id: cur_ext,
            },
        ),
        None => Err(PointerError::MissingOid),
    }
}

/// The `oid` line of a canonical pointer.
pub open spec fn spec_oid_line(hash: Seq<u8>) -> Seq<u8> {
    spec_oid_key() + seq![SP] + spec_sha256_prefix() + hash
}

/// The `size` line of a canonical pointer.
pub open spec fn spec_size_line(size: u64) -> Seq<u8> {
    spec_size_key() + seq![SP] + crate::bytes::dec_digits(size as nat)
}

/// The backend extension line of a canonical pointer.
pub open spec fn spec_ext_line(blob_id: Seq<u8>) -> Seq<u8> {
    spec_ext_key() + seq![SP] + blob_id
}

/// The canonical four-line pointer text, each line ended by a line feed.
pub open spec fn spec_encode_pointer(hash: Seq<u8>, size: u64, blob_id: Seq<u8>) -> Seq<u8> {
    spec_version_line() + seq![NL] + spec_oid_line(hash) + seq![NL] + spec_size_line(size)
        + seq![NL] + spec_ext_line(blob_id) + seq![NL]
}

/// Append `src` to `dst`.
fn push_bytes(dst: &mut Vec<u8>, src: &Vec<u8>)
    ensures
        final(dst)@ == old(dst)@ + src@,
{
    dst.extend_from_slice(src.as_slice());
}

/// Encode a pointer canonically, as [`spec_encode_pointer`] describes.
pub fn encode_pointer(hash: &Vec<u8>, size: u64, blob_id: &Vec<u8>) -> (r: Vec<u8>)
    ensures
        r@ == spec_encode_pointer(hash@, size, blob_id@),
{
    let mut out: Vec<u8> = Vec::new();
    push_bytes(&mut out, &version_line());
    out.push(NL);
    push_bytes(&mut out, &oid_key());
    out.push(SP);
    push_bytes(&mut out, &sha256_prefix());
    push_bytes(&mut out, hash);
    out.push(NL);
    push_bytes(&mut out, &size_key());
    out.push(SP);
    let digits = crate::bytes::u64_to_dec(size);
    push_bytes(&mut out, &digits);
    out.push(NL);
    push_bytes(&mut out, &ext_key());
    out.push(SP);
    push_bytes(&mut out, blob_id);
    out.push(NL);
    proof {
        assert(out@ =~= spec_encode_pointer(hash@, size, blob_id@));
    }
    out
}

/// A run of bytes without line feeds followed by a line feed is one line,
/// and splitting goes on after it.
proof fn lemma_lines_prepend(line: Seq<u8>, rest: Seq<u8>)
    requires
        forall|j: int| 0 <= j < line.len() ==> line[j] != NL,
    ensures
        spec_lines(line + seq![NL] + rest) == seq![line] + spec_lines(rest),
{
    let s = line + seq![NL] + rest;
    assert(s[line.len() as int] == NL);
    assert(forall|j: int| 0 <= j < line.len() ==> s[j] == line[j]);
    crate::bytes::lemma_spec_lines_step(s, line.len() as int);
    assert(s.subrange(0, line.len() as int) =~= line);
    assert(s.subrange(line.len() as int + 1, s.len() as int) =~= rest);
}

/// No line feeds and no spaces occur in the fixed version line, and its
/// first space sits right after the word `version`.
proof fn lemma_version_line_shape()
    ensures
        forall|j: int| 0 <= j < spec_version_line().len() ==> spec_version_line()[j] != NL,
        first_index_of(spec_version_line(), SP) == 7,
{
    let v = spec_version_line();
    assert(forall|j: int| 0 <= j < v.len() ==> v[j] != NL);
    crate::bytes::lemma_first_index_of_witness(v, SP, 7);
}

/// The lines of a canonical pointer are exactly its four parts.
proof fn lemma_encode_lines(hash: Seq<u8>, size: u64, blob_id: Seq<u8>)
    requires
        all_hex_chars(hash),
        forall|j: int| 0 <= j < blob_id.len() ==> blob_id[j] != NL,
    ensures
        spec_lines(spec_encode_pointer(hash, size, blob_id)) == seq![
            spec_version_line(),
            spec_oid_line(hash),
            spec_size_line(size),
            spec_ext_line(blob_id),
        ],
{
    let l1 = spec_version_line();
    let l2 = spec_oid_line(hash);
    let l3 = spec_size_line(size);
    let l4 = spec_ext_line(blob_id);
    let text = spec_encode_pointer(hash, size, blob_id);
    let rest2 = l2 + seq![NL] + (l3 + seq![NL] + (l4 + seq![NL]));
    let rest3 = l3 + seq![NL] + (l4 + seq![NL]);
    let rest4 = l4 + seq![NL] + Seq::<u8>::empty();
    lemma_version_line_shape();
    crate::bytes::lemma_dec_digits(size as nat);
    assert(forall|j: int| 0 <= j < l2.len() ==> l2[j] != NL);
    assert(forall|j: int| 0 <= j < l3.len() ==> l3[j] != NL);
    assert(forall|j: int| 0 <= j < l4.len() ==> l4[j] != NL);
    assert(text =~= l1 + seq![NL] + rest2);
    lemma_lines_prepend(l1, rest2);
    lemma_lines_prepend(l2, l3 + seq![NL] + (l4 + seq![NL]));
    assert(rest3 =~= l3 + seq![NL] + (l4 + seq![NL]));
    lemma_lines_prepend(l3, l4 + seq![NL]);
    assert(rest4 =~= l4 + seq![NL] + Seq::<u8>::empty());
    lemma_lines_prepend(l4, Seq::<u8>::empty());
    assert(l4 + seq![NL] =~= l4 + seq![NL] + Seq::<u8>::empty());
    assert(spec_lines(Seq::<u8>::empty()) =~= Seq::<Seq<u8>>::empty());
    assert(spec_lines(text) =~= seq![l1, l2, l3, l4]);
}

/// Decoding a canonical pointer recovers the hash, the size, and the blob
/// identifier exactly. The premises hold of every pointer this library
/// encodes: a hex SHA-256 digest is 64 hex characters, and backend blob
/// identifiers carry neither line feeds nor edge whitespace.
pub proof fn lemma_pointer_round_trip(hash: Seq<u8>, size: u64, blob_id: Seq<u8>)
    requires
        hash.len() == 64,
        all_hex_chars(hash),
        forall|j: int| 0 <= j < blob_id.len() ==> blob_id[j] != NL,
        trimmed(blob_id) == blob_id,
    ensures
        spec_pointer_fields(spec_encode_pointer(hash, size, blob_id)) == (PtrFields {
            hash: Some(hash),
            size: Some(size),
            ext: Some(blob_id),
        }),
{
    let l1 = spec_version_line();
    let l2 = spec_oid_line(hash);
    let l3 = spec_size_line(size);
    let l4 = spec_ext_line(blob_id);
    lemma_encode_lines(hash, size, blob_id);
    lemma_version_line_shape();
    crate::bytes::lemma_dec_digits(size as nat);

    // Line 1 contributes nothing: its key is `version`.
    assert(l1[0] != COMMENT_MARK);
    let kv1 = line_key_value(l1).unwrap();
    assert(kv1.0 =~= l1.subrange(0, 7));
    assert(kv1.0.len() == 7);
    assert(line_hash(l1) is None && line_size(l1) is None && line_ext(l1) is None);

    // Line 2 sets the hash.
    assert(l2[0] == 111 && l2[0] != COMMENT_MARK);
    assert(forall|j: int| 0 <= j < 3 ==> l2[j] == spec_oid_key()[j]);
    assert(forall|j: int| 0 <= j < 3 ==> l2[j] != SP);
    assert(l2[3] == SP);
    crate::bytes::lemma_first_index_of_witness(l2, SP, 3);
    let kv2 = line_key_value(l2).unwrap();
    assert(kv2.0 =~= spec_oid_key());
    assert(kv2.1 =~= spec_sha256_prefix() + hash);
    assert(kv2.1.len() == 71);
    assert(kv2.1.subrange(0, 7) =~= spec_sha256_prefix());
    assert(kv2.1.skip(7) =~= hash);
    assert(line_hash(l2) == Some(hash));
    assert(kv2.0.len() != spec_size_key().len() && kv2.0.len() != spec_ext_key().len());
    assert(line_size(l2) is None && line_ext(l2) is None);

    // Line 3 sets the size.
    let digits = crate::bytes::dec_digits(size as nat);
    assert(l3[0] == 115 && l3[0] != COMMENT_MARK);
    assert(forall|j: int| 0 <= j < 4 ==> l3[j] == spec_size_key()[j]);
    assert(forall|j: int| 0 <= j < 4 ==> l3[j] != SP);
    assert(l3[4] == SP);
    crate::bytes::lemma_first_index_of_witness(l3, SP, 4);
    let kv3 = line_key_value(l3).unwrap();
    assert(kv3.0 =~= spec_size_key());
    assert(kv3.1 =~= digits);
    assert(line_size(l3) == Some(size));
    assert(kv3.0.len() != spec_oid_key().len() && kv3.0.len() != spec_ext_key().len());
    assert(line_hash(l3) is None && line_ext(l3) is None);

    // Line 4 sets the blob identifier.
    assert(l4[0] == 101 && l4[0] != COMMENT_MARK);
    assert(forall|j: int| 0 <= j < 12 ==> l4[j] == spec_ext_key()[j]);
    assert(forall|j: int| 0 <= j < 12 ==> l4[j] != SP);
    assert(l4[12] == SP);
    crate::bytes::lemma_first_index_of_witness(l4, SP, 12);
    let kv4 = line_key_value(l4).unwrap();
    assert(kv4.0 =~= spec_ext_key());
    assert(kv4.1 =~= blob_id);
    assert(line_ext(l4) == Some(blob_id));
    assert(kv4.0.len() != spec_oid_key().len() && kv4.0.len() != spec_size_key().len());
    assert(line_hash(l4) is None && line_size(l4) is None);

    // Fold the four lines.
    let ls = seq![l1, l2, l3, l4];
    assert(ls.drop_first() =~= seq![l2, l3, l4]);
    assert(seq![l2, l3, l4].drop_first() =~= seq![l3, l4]);
    assert(seq![l3, l4].drop_first() =~= seq![l4]);
    assert(seq![l4].drop_first() =~= Seq::<Seq<u8>>::empty());
    let st0 = empty_fields();
    let st1 = pointer_line_step(st0, l1);
    let st2 = pointer_line_step(st1, l2);
    let st3 = pointer_line_step(st2, l3);
    let st4 = pointer_line_step(st3, l4);
    assert(st4 == PtrFields { hash: Some(hash), size: Some(size), ext: Some(blob_id) });
    assert(pointer_fold(st0, ls) == pointer_fold(st1, seq![l2, l3, l4]));
    assert(pointer_fold(st1, seq![l2, l3, l4]) == pointer_fold(st2, seq![l3, l4]));
    assert(pointer_fold(st2, seq![l3, l4]) == pointer_fold(st3, seq![l4]));
    assert(pointer_fold(st3, seq![l4]) == pointer_fold(st4, Seq::<Seq<u8>>::empty()));
}

proof fn lemma_fold_hash_skip(st: PtrFields, ls: Seq<Seq<u8>>)
    requires
        forall|j: int| 0 <= j < ls.len() ==> line_hash(#[trigger] ls[j]) is None,
    ensures
        pointer_fold(st, ls).hash == st.hash,
    decreases ls.len(),
{
    if ls.len() > 0 {
        assert(forall|j: int|
            0 <= j < ls.drop_first().len() ==> line_hash(#[trigger] ls.drop_first()[j]) is None);
        lemma_fold_hash_skip(pointer_line_step(st, ls[0]), ls.drop_first());
    }
}

proof fn lemma_fold_hash_single(st: PtrFields, ls: Seq<Seq<u8>>, i: int, h: Seq<u8>)
    requires
        0 <= i < ls.len(),
        line_hash(ls[i]) == Some(h),
        forall|j: int| 0 <= j < ls.len() && j != i ==> line_hash(#[trigger] ls[j]) is None,
    ensures
        pointer_fold(st, ls).hash == Some(h),
    decreases ls.len(),
{
    if i == 0 {
        assert(forall|j: int|
            0 <= j < ls.drop_first().len() ==> line_hash(#[trigger] ls.drop_first()[j]) is None);
        lemma_fold_hash_skip(pointer_line_step(st, ls[0]), ls.drop_first());
    } else {
        assert(forall|j: int|
            0 <= j < ls.drop_first().len() && j != i - 1 ==> line_hash(
                #[trigger] ls.drop_first()[j],
            ) is None);
        lemma_fold_hash_single(pointer_line_step(st, ls[0]), ls.drop_first(), i - 1, h);
    }
}

proof fn lemma_fold_size_skip(st: PtrFields, ls: Seq<Seq<u8>>)
    requires
        forall|j: int| 0 <= j < ls.len() ==> line_size(#[trigger] ls[j]) is None,
    ensures
        pointer_fold(st, ls).size == st.size,
    decreases ls.len(),
{
    if ls.len() > 0 {
        assert(forall|j: int|
            0 <= j < ls.drop_first().len() ==> line_size(#[trigger] ls.drop_first()[j]) is None);
        lemma_fold_size_skip(pointer_line_step(st, ls[0]), ls.drop_first());
    }
}

proof fn lemma_fold_size_single(st: PtrFields, ls: Seq<Seq<u8>>, i: int, n: u64)
    requires
        0 <= i < ls.len(),
        line_size(ls[i]) == Some(n),
        forall|j: int| 0 <= j < ls.len() && j != i ==> line_size(#[trigger] ls[j]) is None,
    ensures
        pointer_fold(st, ls).size == Some(n),
    decreases ls.len(),
{
    if i == 0 {
        assert(forall|j: int|
            0 <= j < ls.drop_first().len() ==> line_size(#[trigger] ls.drop_first()[j]) is None);
        lemma_fold_size_skip(pointer_line_step(st, ls[0]), ls.drop_first());
    } else {
        assert(forall|j: int|
            0 <= j < ls.drop_first().len() && j != i - 1 ==> line_size(
                #[trigger] ls.drop_first()[j],
            ) is None);
        lemma_fold_size_single(pointer_line_step(st, ls[0]), ls.drop_first(), i - 1, n);
    }
}

/// Decoding does not depend on where the `oid` and `size` lines stand, and
/// other lines — comments, unknown keys, extension lines of other backends —
/// do not disturb the hash and size. A text whose lines carry exactly one
/// hash and exactly one size decodes to them, wherever they appear.
pub proof fn lemma_decode_order_insensitive(text: Seq<u8>, i: int, k: int, h: Seq<u8>, n: u64)
    requires
        0 <= i < spec_lines(text).len(),
        line_hash(spec_lines(text)[i]) == Some(h),
        forall|j: int|
            0 <= j < spec_lines(text).len() && j != i ==> line_hash(
                #[trigger] spec_lines(text)[j],
            ) is None,
        0 <= k < spec_lines(text).len(),
        line_size(spec_lines(text)[k]) == Some(n),
        forall|j: int|
            0 <= j < spec_lines(text).len() && j != k ==> line_size(
                #[trigger] spec_lines(text)[j],
            ) is None,
    ensures
        spec_pointer_fields(text).hash == Some(h),
        spec_pointer_fields(text).size == Some(n),
{
    lemma_fold_hash_single(empty_fields(), spec_lines(text), i, h);
    lemma_fold_size_single(empty_fields(), spec_lines(text), k, n);
}

/// The key-value pairs of a sequence of lines, comment lines and lines
/// without a space skipped.
pub open spec fn spec_kv_pairs(lines: Seq<Seq<u8>>) -> Seq<(Seq<u8>, Seq<u8>)>
    decreases lines.len(),
{
    if lines.len() == 0 {
        seq![]
    } else {
        match line_key_value(lines[0]) {
            Some(kv) => seq![kv] + spec_kv_pairs(lines.drop_first()),
            None => spec_kv_pairs(lines.drop_first()),
        }
    }
}

proof fn lemma_kv_pairs_push(lines: Seq<Seq<u8>>, line: Seq<u8>)
    ensures
        spec_kv_pairs(lines.push(line)) == (match line_key_value(line) {
            Some(kv) => spec_kv_pairs(lines).push(kv),
            None => spec_kv_pairs(lines),
        }),
    decreases lines.len(),
{
    let whole = lines.push(line);
    if lines.len() == 0 {
        assert(whole[0] == line);
        assert(whole.drop_first() =~= Seq::<Seq<u8>>::empty());
        assert(spec_kv_pairs(whole.drop_first()) =~= Seq::<(Seq<u8>, Seq<u8>)>::empty());
        assert(spec_kv_pairs(lines) =~= Seq::<(Seq<u8>, Seq<u8>)>::empty());
        match line_key_value(line) {
            Some(kv) => {
                assert(spec_kv_pairs(whole) =~= seq![kv] + spec_kv_pairs(whole.drop_first()));
                assert(seq![kv] + Seq::<(Seq<u8>, Seq<u8>)>::empty() =~= seq![kv]);
                assert(spec_kv_pairs(lines).push(kv) =~= seq![kv]);
            },
            None => {},
        }
    } else {
        assert(whole[0] == lines[0]);
        assert(whole.drop_first() =~= lines.drop_first().push(line));
        lemma_kv_pairs_push(lines.drop_first(), line);
        match line_key_value(lines[0]) {
            Some(kv0) => {
                match line_key_value(line) {
                    Some(kv) => {
                        assert(seq![kv0] + spec_kv_pairs(lines.drop_first()).push(kv) =~= (
                        seq![kv0] + spec_kv_pairs(lines.drop_first())).push(kv));
                    },
                    None => {},
                }
            },
            None => {},
        }
    }
}

/// The key-value pairs of a vector of pairs of byte vectors, as sequences.
pub open spec fn pairs_view(v: Seq<(Vec<u8>, Vec<u8>)>) -> Seq<(Seq<u8>, Seq<u8>)> {
    Seq::new(v.len(), |i: int| (v[i].0@, v[i].1@))
}

/// Split every metadata line of pointer text into a key-value pair: each
/// line is split at its first space; comment lines (leading `#`) and lines
/// without a space are skipped.
pub fn parse_lfs_pointer(content: &Vec<u8>) -> (r: Vec<(Vec<u8>, Vec<u8>)>)
    ensures
        pairs_view(r@) == spec_kv_pairs(spec_lines(content@)),
{
    let lines = split_lines(content);
    let ghost dv = spec_lines(content@);
    let mut r: Vec<(Vec<u8>, Vec<u8>)> = Vec::new();
    let mut i: usize = 0;
    proof {
        assert(dv.take(0) =~= Seq::<Seq<u8>>::empty());
        assert(pairs_view(r@) =~= spec_kv_pairs(dv.take(0)));
    }
    while i < lines.len()
        invariant
            i <= lines@.len(),
            lines.deep_view() == dv,
            dv == spec_lines(content@),
            pairs_view(r@) == spec_kv_pairs(dv.take(i as int)),
        decreases lines@.len() - i,
    {
        let line = &lines[i];
        proof {
            assert(dv[i as int] == lines@[i as int].deep_view());
            assert(lines@[i as int].deep_view() =~= lines@[i as int]@);
            assert(dv.take(i + 1) =~= dv.take(i as int).push(dv[i as int]));
            lemma_kv_pairs_push(dv.take(i as int), dv[i as int]);
        }
        let ghost prev = pairs_view(r@);
        let is_comment = line.len() > 0 && line[0] == COMMENT_MARK;
        if !is_comment {
            let p = find_byte(line, SP);
            if p < line.len() {
                let key = sub_vec(line, 0, p);
                let value = sub_vec(line, p + 1, line.len());
                r.push((key, value));
                proof {
                    assert(pairs_view(r@) =~= prev.push((key@, value@)));
                }
            }
        }
        i += 1;
    }
    proof {
        assert(dv.take(i as int) =~= dv);
    }
    r
}

/// The value of the last pair whose key is `key`, the way repeated inserts
/// into a map would leave it.
pub open spec fn spec_lookup(pairs: Seq<(Seq<u8>, Seq<u8>)>, key: Seq<u8>) -> Option<Seq<u8>>
    decreases pairs.len(),
{
    if pairs.len() == 0 {
        None
    } else if pairs.last().0 == key {
        Some(pairs.last().1)
    } else {
        spec_lookup(pairs.drop_last(), key)
    }
}

/// Look a key up among parsed pointer metadata pairs.
pub fn metadata_get(pairs: &Vec<(Vec<u8>, Vec<u8>)>, key: &Vec<u8>) -> (r: Option<Vec<u8>>)
    ensures
        match r {
            Some(v) => spec_lookup(pairs_view(pairs@), key@) == Some(v@),
            None => spec_lookup(pairs_view(pairs@), key@) is None,
        },
{
    let mut i: usize = pairs.len();
    proof {
        assert(pairs_view(pairs@).take(pairs@.len() as int) =~= pairs_view(pairs@));
    }
    while i > 0
        invariant
            i <= pairs@.len(),
            spec_lookup(pairs_view(pairs@), key@) == spec_lookup(
                pairs_view(pairs@).take(i as int),
                key@,
            ),
        decreases i,
    {
        i -= 1;
        let ghost pv = pairs_view(pairs@);
        proof {
            assert(pv.take(i + 1).last() == pv[i as int]);
            assert(pv.take(i + 1).drop_last() =~= pv.take(i as int));
        }
        if bytes_eq(&pairs[i].0, key) {
            let v = sub_vec(&pairs[i].1, 0, pairs[i].1.len());
            proof {
                assert(v@ =~= pv[i as int].1);
            }
            return Some(v);
        }
    }
    proof {
        assert(pairs_view(pairs@).take(0) =~= Seq::<(Seq<u8>, Seq<u8>)>::empty());
    }
    None
}

/// No blob identifier line was found.
#[derive(PartialEq, Eq, Structural, Clone, Copy, Debug)]
pub enum ExtractError {
    NoBlobId,
}

/// The first backend blob identifier among a sequence of lines.
pub open spec fn spec_first_ext(lines: Seq<Seq<u8>>) -> Option<Seq<u8>>
    decreases lines.len(),
{
    if lines.len() == 0 {
        None
    } else if line_ext(lines[0]) is Some {
        line_ext(lines[0])
    } else {
        spec_first_ext(lines.drop_first())
    }
}

proof fn lemma_first_ext_skip(lines: Seq<Seq<u8>>, i: int)
    requires
        0 <= i <= lines.len(),
        forall|j: int| 0 <= j < i ==> line_ext(#[trigger] lines[j]) is None,
    ensures
        spec_first_ext(lines) == spec_first_ext(lines.skip(i)),
    decreases i,
{
    if i > 0 {
        lemma_first_ext_skip(lines, i - 1);
        let rest = lines.skip(i - 1);
        assert(rest[0] == lines[i - 1]);
        assert(rest.drop_first() =~= lines.skip(i));
    } else {
        assert(lines.skip(0) =~= lines);
    }
}

/// The backend blob identifier of pointer text: the trimmed value of its
/// first `ext-0-walrus` line. Fails exactly when no such line exists.
pub fn extract_walrus_blob_id(content: &Vec<u8>) -> (r: Result<Vec<u8>, ExtractError>)
    ensures
        match r {
            Ok(v) => spec_first_ext(spec_lines(content@)) == Some(v@),
            Err(_) => spec_first_ext(spec_lines(content@)) is None,
        },
{
    let lines = split_lines(content);
    let ghost dv = spec_lines(content@);
    let mut i: usize = 0;
    while i < lines.len()
        invariant
            i <= lines@.len(),
            lines.deep_view() == dv,
            dv == spec_lines(content@),
            forall|j: int| 0 <= j < i ==> line_ext(#[trigger] dv[j]) is None,
        decreases lines@.len() - i,
    {
        proof {
            assert(dv[i as int] == lines@[i as int].deep_view());
            assert(lines@[i as int].deep_view() =~= lines@[i as int]@);
        }
        let scan = scan_line(&lines[i]);
        if let Some(e) = scan.2 {
            proof {
                lemma_first_ext_skip(dv, i as int);
                assert(dv.skip(i as int)[0] == dv[i as int]);
            }
            return Ok(e);
        }
        i += 1;
    }
    proof {
        lemma_first_ext_skip(dv, dv.len() as int);
        assert(dv.skip(dv.len() as int) =~= Seq::<Seq<u8>>::empty());
    }
    Err(ExtractError::NoBlobId)
}

/// What an `oid sha256:` line carries after the prefix, if the line is one.
pub open spec fn line_oid_suffix(line: Seq<u8>) -> Option<Seq<u8>> {
    if is_prefix_of(spec_oid_key() + seq![SP] + spec_sha256_prefix(), line) {
        Some(line.skip(11))
    } else {
        None
    }
}

/// The first `oid sha256:` suffix among a sequence of lines.
pub open spec fn spec_first_oid_suffix(lines: Seq<Seq<u8>>) -> Option<Seq<u8>>
    decreases lines.len(),
{
    if lines.len() == 0 {
        None
    } else if line_oid_suffix(lines[0]) is Some {
        line_oid_suffix(lines[0])
    } else {
        spec_first_oid_suffix(lines.drop_first())
    }
}

proof fn lemma_first_oid_suffix_skip(lines: Seq<Seq<u8>>, i: int)
    requires
        0 <= i <= lines.len(),
        forall|j: int| 0 <= j < i ==> line_oid_suffix(#[trigger] lines[j]) is None,
    ensures
        spec_first_oid_suffix(lines) == spec_first_oid_suffix(lines.skip(i)),
    decreases i,
{
    if i > 0 {
        lemma_first_oid_suffix_skip(lines, i - 1);
        let rest = lines.skip(i - 1);
        assert(rest[0] == lines[i - 1]);
        assert(rest.drop_first() =~= lines.skip(i));
    } else {
        assert(lines.skip(0) =~= lines);
    }
}

/// The hash written on the first `oid sha256:` line of pointer text, taken
/// verbatim (no hex validation). `None` exactly when no such line exists.
pub fn extract_oid_sha256(content: &Vec<u8>) -> (r: Option<Vec<u8>>)
    ensures
        match r {
            Some(v) => spec_first_oid_suffix(spec_lines(content@)) == Some(v@),
            None => spec_first_oid_suffix(spec_lines(content@)) is None,
        },
{
    let mut prefix = oid_key();
    prefix.push(SP);
    push_bytes(&mut prefix, &sha256_prefix());
    proof {
        assert(prefix@ =~= spec_oid_key() + seq![SP] + spec_sha256_prefix());
    }
    let lines = split_lines(content);
    let ghost dv = spec_lines(content@);
    let mut i: usize = 0;
    while i < lines.len()
        invariant
            i <= lines@.len(),
            lines.deep_view() == dv,
            dv == spec_lines(content@),
            prefix@ == spec_oid_key() + seq![SP] + spec_sha256_prefix(),
            forall|j: int| 0 <= j < i ==> line_oid_suffix(#[trigger] dv[j]) is None,
        decreases lines@.len() - i,
    {
        proof {
            assert(dv[i as int] == lines@[i as int].deep_view());
            assert(lines@[i as int].deep_view() =~= lines@[i as int]@);
        }
        let line = &lines[i];
        if starts_with(line, &prefix) {
            let suffix = sub_vec(line, 11, line.len());
            proof {
                lemma_first_oid_suffix_skip(dv, i as int);
                assert(dv.skip(i as int)[0] == dv[i as int]);
                assert(suffix@ =~= dv[i as int].skip(11));
            }
            return Some(suffix);
        }
        i += 1;
    }
    proof {
        lemma_first_oid_suffix_skip(dv, dv.len() as int);
        assert(dv.skip(dv.len() as int) =~= Seq::<Seq<u8>>::empty());
    }
    None
}

} // verus!
