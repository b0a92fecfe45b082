//! An in-memory BlobStore: the injected capability the pipeline and the
//! session runner are verified against, and tests drive. It models the
//! backend as a map from opaque blob identifiers to contents, plus a local
//! file table for uploads given by path, and two switches that make the
//! store or fetch side fail, so failure handling can be exercised.

use crate::bytes::dec_digits;
use crate::mapping::BlobMapping;
use vstd::prelude::*;

verus! {

/// `store failed`.
pub open spec fn spec_store_failed_msg() -> Seq<u8> {
    seq![115u8, 116u8, 111u8, 114u8, 101u8, 32u8, 102u8, 97u8, 105u8, 108u8, 101u8, 100u8]
}

/// `store failed` as bytes.
pub fn store_failed_msg() -> (v: Vec<u8>)
    ensures
        v@ == spec_store_failed_msg(),
{
    let v: Vec<u8> = vec![115u8, 116u8, 111u8, 114u8, 101u8, 32u8, 102u8, 97u8, 105u8, 108u8, 101u8, 100u8];
    proof {
        assert(v@ =~= spec_store_failed_msg());
    }
    v
}

/// `fetch failed`.
pub open spec fn spec_fetch_failed_msg() -> Seq<u8> {
    seq![102u8, 101u8, 116u8, 99u8, 104u8, 32u8, 102u8, 97u8, 105u8, 108u8, 101u8, 100u8]
}

/// `fetch failed` as bytes.
pub fn fetch_failed_msg() -> (v: Vec<u8>)
    ensures
        v@ == spec_fetch_failed_msg(),
{
    let v: Vec<u8> = vec![102u8, 101u8, 116u8, 99u8, 104u8, 32u8, 102u8, 97u8, 105u8, 108u8, 101u8, 100u8];
    proof {
        assert(v@ =~= spec_fetch_failed_msg());
    }
    v
}

/// `blob not found in store`.
pub open spec fn spec_blob_missing_msg() -> Seq<u8> {
    seq![98u8, 108u8, 111u8, 98u8, 32u8, 110u8, 111u8, 116u8, 32u8, 102u8, 111u8, 117u8, 110u8, 100u8, 32u8, 105u8, 110u8, 32u8, 115u8, 116u8, 111u8, 114u8, 101u8]
}

/// `blob not found in store` as bytes.
pub fn blob_missing_msg() -> (v: Vec<u8>)
    ensures
        v@ == spec_blob_missing_msg(),
{
    let v: Vec<u8> = vec![98u8, 108u8, 111u8, 98u8, 32u8, 110u8, 111u8, 116u8, 32u8, 102u8, 111u8, 117u8, 110u8, 100u8, 32u8, 105u8, 110u8, 32u8, 115u8, 116u8, 111u8, 114u8, 101u8];
    proof {
        assert(v@ =~= spec_blob_missing_msg());
    }
    v
}

/// `source file not found`.
pub open spec fn spec_file_missing_msg() -> Seq<u8> {
    seq![115u8, 111u8, 117u8, 114u8, 99u8, 101u8, 32u8, 102u8, 105u8, 108u8, 101u8, 32u8, 110u8, 111u8, 116u8, 32u8, 102u8, 111u8, 117u8, 110u8, 100u8]
}

/// `source file not found` as bytes.
pub fn file_missing_msg() -> (v: Vec<u8>)
    ensures
        v@ == spec_file_missing_msg(),
{
    let v: Vec<u8> = vec![115u8, 111u8, 117u8, 114u8, 99u8, 101u8, 32u8, 102u8, 105u8, 108u8, 101u8, 32u8, 110u8, 111u8, 116u8, 32u8, 102u8, 111u8, 117u8, 110u8, 100u8];
    proof {
        assert(v@ =~= spec_file_missing_msg());
    }
    v
}

/// The state of an in-memory blob store.
pub ghost struct StoreModel {
    pub blobs: Map<Seq<u8>, Seq<u8>>,
    pub files: Map<Seq<u8>, Seq<u8>>,
    pub next_id: u64,
    pub fail_store: bool,
    pub fail_fetch: bool,
}

/// What storing bytes does: fails when the store is failing or out of
/// identifiers; otherwise assigns the next identifier and records the bytes.
pub open spec fn spec_store_bytes(m: StoreModel, data: Seq<u8>) -> Result<
    (Seq<u8>, StoreModel),
    Seq<u8>,
> {
    if m.fail_store || m.next_id == u64::MAX {
        Err(spec_store_failed_msg())
    } else {
        let id = dec_digits(m.next_id as nat);
        Ok(
            (
                id,
                StoreModel {
                    blobs: m.blobs.insert(id, data),
                    next_id: (m.next_id + 1) as u64,
                    ..m
                },
            ),
        )
    }
}

/// What storing a local file does: a failing store fails first, then the
/// file must exist, then its contents are stored.
pub open spec fn spec_store_path(m: StoreModel, path: Seq<u8>) -> Result<
    (Seq<u8>, StoreModel),
    Seq<u8>,
> {
    if m.fail_store {
        Err(spec_store_failed_msg())
    } else if m.files.contains_key(path) {
        spec_store_bytes(m, m.files[path])
    } else {
        Err(spec_file_missing_msg())
    }
}

/// What fetching does: the stored bytes, or a failure that says whether the
/// store was failing or the identifier unknown.
pub open spec fn spec_fetch(m: StoreModel, id: Seq<u8>) -> Result<Seq<u8>, Seq<u8>> {
    if m.fail_fetch {
        Err(spec_fetch_failed_msg())
    } else if m.blobs.contains_key(id) {
        Ok(m.blobs[id])
    } else {
        Err(spec_blob_missing_msg())
    }
}

/// An in-memory blob store.
pub struct MemoryBlobStore {
    blobs: BlobMapping,
    files: BlobMapping,
    next_id: u64,
    fail_store: bool,
    fail_fetch: bool,
}

impl View for MemoryBlobStore {
    type V = StoreModel;

    closed spec fn view(&self) -> StoreModel {
        StoreModel {
            blobs: self.blobs@,
            files: self.files@,
            next_id: self.next_id,
            fail_store: self.fail_store,
            fail_fetch: self.fail_fetch,
        }
    }
}

impl MemoryBlobStore {
    /// Internal well-formedness of the two tables.
    pub closed spec fn wf(&self) -> bool {
        self.blobs.wf() && self.files.wf()
    }

    /// A store that behaves, holding nothing.
    pub fn new() -> (r: MemoryBlobStore)
        ensures
            r.wf(),
            r@ == (StoreModel {
                blobs: Map::<Seq<u8>, Seq<u8>>::empty(),
                files: Map::<Seq<u8>, Seq<u8>>::empty(),
                next_id: 0,
                fail_store: false,
                fail_fetch: false,
            }),
    {
        MemoryBlobStore {
            blobs: BlobMapping::new(),
            files: BlobMapping::new(),
            next_id: 0,
            fail_store: false,
            fail_fetch: false,
        }
    }

    /// Make every store call fail from now on.
    pub fn set_fail_store(&mut self)
        ensures
            final(self)@ == (StoreModel { fail_store: true, ..old(self)@ }),
            old(self).wf() ==> final(self).wf(),
    {
        self.fail_store = true;
    }

    /// Make every fetch call fail from now on.
    pub fn set_fail_fetch(&mut self)
        ensures
            final(self)@ == (StoreModel { fail_fetch: true, ..old(self)@ }),
            old(self).wf() ==> final(self).wf(),
    {
        self.fail_fetch = true;
    }

    /// Put a file into the double's local file table.
    pub fn add_file(&mut self, path: Vec<u8>, content: Vec<u8>)
        requires
            old(self).wf(),
        ensures
            final(self)@ == (StoreModel {
                files: old(self)@.files.insert(path@, content@),
                ..old(self)@
            }),
            final(self).wf(),
    {
        self.files.put(path, content);
    }

    /// Store bytes, as [`spec_store_bytes`] describes.
    pub fn store_bytes(&mut self, data: &Vec<u8>) -> (r: Result<Vec<u8>, Vec<u8>>)
        requires
            old(self).wf(),
        ensures
            final(self).wf(),
            match r {
                Ok(id) => spec_store_bytes(old(self)@, data@) == Ok::<_, Seq<u8>>(
                    (id@, final(self)@),
                ),
                Err(m) => spec_store_bytes(old(self)@, data@) == Err::<(Seq<u8>, StoreModel), _>(
                    m@,
                ) && final(self)@ == old(self)@,
            },
    {
        if self.fail_store || self.next_id == u64::MAX {
            return Err(store_failed_msg());
        }
        let id = crate::bytes::u64_to_dec(self.next_id);
        let id2 = crate::bytes::sub_vec(&id, 0, id.len());
        let content = crate::bytes::sub_vec(data, 0, data.len());
        proof {
            assert(id2@ =~= id@);
            assert(content@ =~= data@);
        }
        self.blobs.put(id2, content);
        self.next_id = self.next_id + 1;
        Ok(id)
    }

    /// Store a local file's contents, as [`spec_store_path`] describes.
    pub fn store_path(&mut self, path: &Vec<u8>) -> (r: Result<Vec<u8>, Vec<u8>>)
        requires
            old(self).wf(),
        ensures
            final(self).wf(),
            match r {
                Ok(id) => spec_store_path(old(self)@, path@) == Ok::<_, Seq<u8>>(
                    (id@, final(self)@),
                ),
                Err(m) => spec_store_path(old(self)@, path@) == Err::<(Seq<u8>, StoreModel), _>(
                    m@,
                ) && final(self)@ == old(self)@,
            },
    {
        if self.fail_store {
            return Err(store_failed_msg());
        }
        match self.files.get(path) {
            Some(content) => self.store_bytes(&content),
            None => Err(file_missing_msg()),
        }
    }

    /// Fetch stored bytes, as [`spec_fetch`] describes.
    pub fn fetch(&self, id: &Vec<u8>) -> (r: Result<Vec<u8>, Vec<u8>>)
        requires
            self.wf(),
        ensures
            match r {
                Ok(data) => spec_fetch(self@, id@) == Ok::<_, Seq<u8>>(data@),
                Err(m) => spec_fetch(self@, id@) == Err::<Seq<u8>, _>(m@),
            },
    {
        if self.fail_fetch {
            return Err(fetch_failed_msg());
        }
        match self.blobs.get(id) {
            Some(data) => Ok(data),
            None => Err(blob_missing_msg()),
        }
    }
}

} // verus!
