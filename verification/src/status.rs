//! Reading the backend's blob-status answers: what counts as expired, what
//! a missing blob looks like in an error message, how a status is shown, and
//! the summaries the maintenance commands print.

use crate::bytes::{contains_seq, contains_bytes, copy_bytes, dec_digits, u64_to_dec};
use vstd::prelude::*;

verus! {

/// `expired`.
pub open spec fn spec_expired_word() -> Seq<u8> {
    seq![101u8, 120u8, 112u8, 105u8, 114u8, 101u8, 100u8]
}

/// `expired` as bytes.
pub fn expired_word() -> (v: Vec<u8>)
    ensures
        v@ == spec_expired_word(),
{
    let v: Vec<u8> = vec![101u8, 120u8, 112u8, 105u8, 114u8, 101u8, 100u8];
    proof {
        assert(v@ =~= spec_expired_word());
    }
    v
}

/// `invalid`.
pub open spec fn spec_invalid_word() -> Seq<u8> {
    seq![105u8, 110u8, 118u8, 97u8, 108u8, 105u8, 100u8]
}

/// `invalid` as bytes.
pub fn invalid_word() -> (v: Vec<u8>)
    ensures
        v@ == spec_invalid_word(),
{
    let v: Vec<u8> = vec![105u8, 110u8, 118u8, 97u8, 108u8, 105u8, 100u8];
    proof {
        assert(v@ =~= spec_invalid_word());
    }
    v
}

/// `not found`.
pub open spec fn spec_not_found_phrase() -> Seq<u8> {
    seq![110u8, 111u8, 116u8, 32u8, 102u8, 111u8, 117u8, 110u8, 100u8]
}

/// `not found` as bytes.
pub fn not_found_phrase() -> (v: Vec<u8>)
    ensures
        v@ == spec_not_found_phrase(),
{
    let v: Vec<u8> = vec![110u8, 111u8, 116u8, 32u8, 102u8, 111u8, 117u8, 110u8, 100u8];
    proof {
        assert(v@ =~= spec_not_found_phrase());
    }
    v
}

/// `does not exist`.
pub open spec fn spec_not_exist_phrase() -> Seq<u8> {
    seq![100u8, 111u8, 101u8, 115u8, 32u8, 110u8, 111u8, 116u8, 32u8, 101u8, 120u8, 105u8, 115u8, 116u8]
}

/// `does not exist` as bytes.
pub fn not_exist_phrase() -> (v: Vec<u8>)
    ensures
        v@ == spec_not_exist_phrase(),
{
    let v: Vec<u8> = vec![100u8, 111u8, 101u8, 115u8, 32u8, 110u8, 111u8, 116u8, 32u8, 101u8, 120u8, 105u8, 115u8, 116u8];
    proof {
        assert(v@ =~= spec_not_exist_phrase());
    }
    v
}

/// `Status: `.
pub open spec fn spec_status_label() -> Seq<u8> {
    seq![83u8, 116u8, 97u8, 116u8, 117u8, 115u8, 58u8, 32u8]
}

/// `Status: ` as bytes.
pub fn status_label() -> (v: Vec<u8>)
    ensures
        v@ == spec_status_label(),
{
    let v: Vec<u8> = vec![83u8, 116u8, 97u8, 116u8, 117u8, 115u8, 58u8, 32u8];
    proof {
        assert(v@ =~= spec_status_label());
    }
    v
}

/// ` | Size: `.
pub open spec fn spec_size_label() -> Seq<u8> {
    seq![32u8, 124u8, 32u8, 83u8, 105u8, 122u8, 101u8, 58u8, 32u8]
}

/// ` | Size: ` as bytes.
pub fn size_label() -> (v: Vec<u8>)
    ensures
        v@ == spec_size_label(),
{
    let v: Vec<u8> = vec![32u8, 124u8, 32u8, 83u8, 105u8, 122u8, 101u8, 58u8, 32u8];
    proof {
        assert(v@ =~= spec_size_label());
    }
    v
}

/// ` bytes | Storage until epoch: `.
pub open spec fn spec_epoch_label() -> Seq<u8> {
    seq![32u8, 98u8, 121u8, 116u8, 101u8, 115u8, 32u8, 124u8, 32u8, 83u8, 116u8, 111u8, 114u8, 97u8, 103u8, 101u8, 32u8, 117u8, 110u8, 116u8, 105u8, 108u8, 32u8, 101u8, 112u8, 111u8, 99u8, 104u8, 58u8, 32u8]
}

/// ` bytes | Storage until epoch: ` as bytes.
pub fn epoch_label() -> (v: Vec<u8>)
    ensures
        v@ == spec_epoch_label(),
{
    let v: Vec<u8> = vec![32u8, 98u8, 121u8, 116u8, 101u8, 115u8, 32u8, 124u8, 32u8, 83u8, 116u8, 111u8, 114u8, 97u8, 103u8, 101u8, 32u8, 117u8, 110u8, 116u8, 105u8, 108u8, 32u8, 101u8, 112u8, 111u8, 99u8, 104u8, 58u8, 32u8];
    proof {
        assert(v@ =~= spec_epoch_label());
    }
    v
}

/// A blob's status as the backend reports it: the bare status word, and the
/// stored object when the backend knows one.
pub struct StorageStatus {
    pub id: Vec<u8>,
    pub start_epoch: u64,
    pub end_epoch: u64,
    pub storage_size: u64,
}

pub struct BlobObjectStatus {
    pub id: Vec<u8>,
    pub stored_epoch: u64,
    pub blob_id: Vec<u8>,
    pub size: u64,
    pub certified_epoch: u64,
    pub storage: StorageStatus,
}

pub struct BlobStatusResponse {
    pub blob_object: Option<BlobObjectStatus>,
    pub status: Vec<u8>,
}

/// Status text that counts as expired or invalid.
pub open spec fn spec_status_expired(s: Seq<u8>) -> bool {
    contains_seq(s, spec_expired_word()) || contains_seq(s, spec_invalid_word())
}

/// Does status text say the blob is expired or invalid?
pub fn status_indicates_expired(s: &Vec<u8>) -> (r: bool)
    ensures
        r == spec_status_expired(s@),
{
    if contains_bytes(s, &expired_word()) {
        return true;
    }
    contains_bytes(s, &invalid_word())
}

/// A blob needs storing again when its status says expired or invalid, or
/// when the backend reports no stored object at all.
pub open spec fn spec_blob_needs_refresh(resp: &BlobStatusResponse) -> bool {
    spec_status_expired(resp.status@) || resp.blob_object is None
}

/// Decide whether a blob needs storing again, as [`spec_blob_needs_refresh`]
/// describes.
pub fn blob_needs_refresh(resp: &BlobStatusResponse) -> (r: bool)
    ensures
        r == spec_blob_needs_refresh(resp),
{
    if status_indicates_expired(&resp.status) {
        return true;
    }
    match &resp.blob_object {
        Some(_) => false,
        None => true,
    }
}

/// Backend error text that means the blob simply is not there, as opposed to
/// the command itself failing.
pub open spec fn spec_stderr_missing(s: Seq<u8>) -> bool {
    contains_seq(s, spec_not_found_phrase()) || contains_seq(s, spec_not_exist_phrase())
}

/// Does backend error text say the blob is missing?
pub fn stderr_indicates_missing(s: &Vec<u8>) -> (r: bool)
    ensures
        r == spec_stderr_missing(s@),
{
    if contains_bytes(s, &not_found_phrase()) {
        return true;
    }
    contains_bytes(s, &not_exist_phrase())
}

/// The one-line rendering of a blob status: the status word, and when the
/// backend knows the object, its size and the epoch its storage runs to.
pub open spec fn spec_format_blob_status(resp: &BlobStatusResponse) -> Seq<u8> {
    match &resp.blob_object {
        Some(bo) => spec_status_label() + resp.status@ + spec_size_label() + dec_digits(
            bo.size as nat,
        ) + spec_epoch_label() + dec_digits(bo.storage.end_epoch as nat),
        None => spec_status_label() + resp.status@,
    }
}

/// Render a blob status for people, as [`spec_format_blob_status`] describes.
pub fn format_blob_status(status: &BlobStatusResponse) -> (r: Vec<u8>)
    ensures
        r@ == spec_format_blob_status(status),
{
    let mut out = status_label();
    let mut st = copy_bytes(&status.status);
    out.append(&mut st);
    match &status.blob_object {
        Some(bo) => {
            let mut lab = size_label();
            out.append(&mut lab);
            let mut sz = u64_to_dec(bo.size);
            out.append(&mut sz);
            let mut lab2 = epoch_label();
            out.append(&mut lab2);
            let mut ep = u64_to_dec(bo.storage.end_epoch);
            out.append(&mut ep);
            proof {
                assert(out@ =~= spec_format_blob_status(status));
            }
            out
        },
        None => {
            proof {
                assert(out@ =~= spec_format_blob_status(status));
            }
            out
        },
    }
}

/// What checking one tracked file came to.
#[derive(PartialEq, Eq, Structural, Clone, Copy, Debug)]
pub enum CheckOutcome {
    /// The blob is stored and its status raises no flag.
    Valid,
    /// The status says expired or invalid.
    ExpiredOrInvalid,
    /// The check itself failed.
    Failed,
}

/// How many of the outcomes are the given one.
pub open spec fn count_check(s: Seq<CheckOutcome>, o: CheckOutcome) -> nat
    decreases s.len(),
{
    if s.len() == 0 {
        0
    } else {
        count_check(s.drop_last(), o) + (if s.last() == o {
            1nat
        } else {
            0nat
        })
    }
}

/// The summary a check run prints: how many files were valid, how many
/// expired or invalid, how many failed to be checked.
pub fn tally_check(outcomes: &Vec<CheckOutcome>) -> (r: (usize, usize, usize))
    ensures
        r.0 == count_check(outcomes@, CheckOutcome::Valid),
        r.1 == count_check(outcomes@, CheckOutcome::ExpiredOrInvalid),
        r.2 == count_check(outcomes@, CheckOutcome::Failed),
{
    let mut valid: usize = 0;
    let mut expired: usize = 0;
    let mut failed: usize = 0;
    let mut i: usize = 0;
    proof {
        assert(outcomes@.take(0) =~= Seq::<CheckOutcome>::empty());
        lemma_count_check_bound(outcomes@, CheckOutcome::Valid);
        lemma_count_check_bound(outcomes@, CheckOutcome::ExpiredOrInvalid);
        lemma_count_check_bound(outcomes@, CheckOutcome::Failed);
    }
    while i < outcomes.len()
        invariant
            i <= outcomes@.len(),
            valid == count_check(outcomes@.take(i as int), CheckOutcome::Valid),
            expired == count_check(outcomes@.take(i as int), CheckOutcome::ExpiredOrInvalid),
            failed == count_check(outcomes@.take(i as int), CheckOutcome::Failed),
            valid + expired + failed <= i,
        decreases outcomes@.len() - i,
    {
        proof {
            assert(outcomes@.take(i + 1).drop_last() =~= outcomes@.take(i as int));
            assert(outcomes@.take(i + 1).last() == outcomes@[i as int]);
        }
        match outcomes[i] {
            CheckOutcome::Valid => {
                valid += 1;
            },
            CheckOutcome::ExpiredOrInvalid => {
                expired += 1;
            },
            CheckOutcome::Failed => {
                failed += 1;
            },
        }
        i += 1;
    }
    proof {
        assert(outcomes@.take(i as int) =~= outcomes@);
    }
    (valid, expired, failed)
}

proof fn lemma_count_check_bound(s: Seq<CheckOutcome>, o: CheckOutcome)
    ensures
        count_check(s, o) <= s.len(),
    decreases s.len(),
{
    if s.len() > 0 {
        lemma_count_check_bound(s.drop_last(), o);
    }
}

/// What refreshing one tracked file came to.
#[derive(PartialEq, Eq, Structural, Clone, Copy, Debug)]
pub enum RefreshOutcome {
    /// The blob was stored again and the pointer rewritten.
    Refreshed,
    /// The blob is still valid; nothing was done.
    NotNeeded,
    /// The refresh failed.
    Failed,
}

/// How many of the outcomes are the given one.
pub open spec fn count_refresh(s: Seq<RefreshOutcome>, o: RefreshOutcome) -> nat
    decreases s.len(),
{
    if s.len() == 0 {
        0
    } else {
        count_refresh(s.drop_last(), o) + (if s.last() == o {
            1nat
        } else {
            0nat
        })
    }
}

proof fn lemma_count_refresh_bound(s: Seq<RefreshOutcome>, o: RefreshOutcome)
    ensures
        count_refresh(s, o) <= s.len(),
    decreases s.len(),
{
    if s.len() > 0 {
        lemma_count_refresh_bound(s.drop_last(), o);
    }
}

/// The summary a refresh run prints: how many files were stored again, how
/// many needed nothing, how many failed.
pub fn tally_refresh(outcomes: &Vec<RefreshOutcome>) -> (r: (usize, usize, usize))
    ensures
        r.0 == count_refresh(outcomes@, RefreshOutcome::Refreshed),
        r.1 == count_refresh(outcomes@, RefreshOutcome::NotNeeded),
        r.2 == count_refresh(outcomes@, RefreshOutcome::Failed),
{
    let mut refreshed: usize = 0;
    let mut skipped: usize = 0;
    let mut failed: usize = 0;
    let mut i: usize = 0;
    proof {
        assert(outcomes@.take(0) =~= Seq::<RefreshOutcome>::empty());
    }
    while i < outcomes.len()
        invariant
            i <= outcomes@.len(),
            refreshed == count_refresh(outcomes@.take(i as int), RefreshOutcome::Refreshed),
            skipped == count_refresh(outcomes@.take(i as int), RefreshOutcome::NotNeeded),
            failed == count_refresh(outcomes@.take(i as int), RefreshOutcome::Failed),
            refreshed + skipped + failed <= i,
        decreases outcomes@.len() - i,
    {
        proof {
            assert(outcomes@.take(i + 1).drop_last() =~= outcomes@.take(i as int));
            assert(outcomes@.take(i + 1).last() == outcomes@[i as int]);
        }
        match outcomes[i] {
            RefreshOutcome::Refreshed => {
                refreshed += 1;
            },
            RefreshOutcome::NotNeeded => {
                skipped += 1;
            },
            RefreshOutcome::Failed => {
                failed += 1;
            },
        }
        i += 1;
    }
    proof {
        assert(outcomes@.take(i as int) =~= outcomes@);
    }
    (refreshed, skipped, failed)
}

} // verus!
