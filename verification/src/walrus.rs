//! The Walrus client's configuration and the typed schema of the backend's
//! store responses.
//!
//! The subprocess that carries these messages lives outside the library; the
//! logic that reads its answers — two response shapes coexist in the wild,
//! an object-bearing one and a legacy flat one — is verified here over plain
//! values.

use crate::bytes::copy_bytes;
use vstd::prelude::*;

verus! {

/// How the Walrus backend is invoked: an optional configuration path, an
/// optional path to the executable, and the storage-epoch count new blobs
/// are stored for.
pub struct WalrusClient {
    pub config_path: Option<String>,
    pub walrus_path: Option<String>,
    pub default_epochs: u64,
}

/// The storage-epoch count used when none is configured.
pub const DEFAULT_EPOCHS: u64 = 50;

impl WalrusClient {
    /// A client that finds `walrus` on the search path, with the default
    /// epoch count. A configured epoch count is set with [`Self::set_default_epochs`].
    pub fn new() -> (r: Self)
        ensures
            r.config_path is None,
            r.walrus_path is None,
            r.default_epochs == DEFAULT_EPOCHS,
    {
        WalrusClient { config_path: None, walrus_path: None, default_epochs: DEFAULT_EPOCHS }
    }

    /// A client that invokes the given executable.
    pub fn with_path(path: String) -> (r: Self)
        ensures
            r.config_path is None,
            r.walrus_path == Some(path),
            r.default_epochs == DEFAULT_EPOCHS,
    {
        WalrusClient { config_path: None, walrus_path: Some(path), default_epochs: DEFAULT_EPOCHS }
    }

    /// Configure the storage-epoch count.
    pub fn set_default_epochs(&mut self, epochs: u64)
        ensures
            final(self).config_path == old(self).config_path,
            final(self).walrus_path == old(self).walrus_path,
            final(self).default_epochs == epochs,
    {
        self.default_epochs = epochs;
    }

    /// The configured executable path, if any.
    pub fn walrus_path(&self) -> (r: Option<&String>)
        ensures
            match r {
                Some(p) => self.walrus_path == Some(*p),
                None => self.walrus_path is None,
            },
    {
        self.walrus_path.as_ref()
    }
}

impl Default for WalrusClient {
    /// The same client as [`WalrusClient::new`].
    fn default() -> (r: Self)
        ensures
            r.config_path is None,
            r.walrus_path is None,
            r.default_epochs == DEFAULT_EPOCHS,
    {
        WalrusClient::new()
    }
}

/// A fresh client, as the command-line entry points build it.
pub fn client() -> (r: WalrusClient)
    ensures
        r.config_path is None,
        r.walrus_path is None,
        r.default_epochs == DEFAULT_EPOCHS,
{
    WalrusClient::new()
}

/// The object a store response nests its identifier in, in the newer shape.
pub struct BlobObject {
    pub blob_id: Vec<u8>,
}

/// One store result: the newer shape carries a [`BlobObject`]; the legacy
/// shape carries the identifier directly. Both shapes are preserved.
pub struct BlobResult {
    pub blob_object: Option<BlobObject>,
    pub blob_id: Option<Vec<u8>>,
}

/// A store response: the result is either newly created or already
/// certified.
pub struct BlobStoreResult {
    pub newly_created: Option<BlobResult>,
    pub already_certified: Option<BlobResult>,
}

pub struct StoreResponse {
    pub blob_store_result: BlobStoreResult,
}

/// A backend answer that named no blob identifier.
#[derive(PartialEq, Eq, Structural, Clone, Copy, Debug)]
pub enum WalrusError {
    /// The response list was empty.
    NoResponse,
    /// No result shape carried an identifier.
    NoBlobId,
}

/// The identifier a single result names: the nested object's when present,
/// the legacy flat field otherwise.
pub open spec fn spec_result_blob_id(r: &BlobResult) -> Option<Seq<u8>> {
    match &r.blob_object {
        Some(bo) => Some(bo.blob_id@),
        None => match &r.blob_id {
            Some(id) => Some(id@),
            None => None,
        },
    }
}

/// Read the identifier out of one store result, newer shape first, as
/// [`spec_result_blob_id`] describes.
pub fn extract_blob_id_from_result(result: &BlobResult) -> (r: Result<Vec<u8>, WalrusError>)
    ensures
        match r {
            Ok(id) => spec_result_blob_id(result) == Some(id@),
            Err(e) => spec_result_blob_id(result) is None && e == WalrusError::NoBlobId,
        },
{
    if let Some(blob_object) = &result.blob_object {
        return Ok(copy_bytes(&blob_object.blob_id));
    }
    if let Some(blob_id) = &result.blob_id {
        return Ok(copy_bytes(blob_id));
    }
    Err(WalrusError::NoBlobId)
}

/// The identifier a whole response names: the newly created result is
/// preferred, then the already certified one.
pub open spec fn spec_response_blob_id(resp: &StoreResponse) -> Result<Seq<u8>, WalrusError> {
    match &resp.blob_store_result.newly_created {
        Some(nc) => match spec_result_blob_id(nc) {
            Some(id) => Ok(id),
            None => Err(WalrusError::NoBlobId),
        },
        None => match &resp.blob_store_result.already_certified {
            Some(ac) => match spec_result_blob_id(ac) {
                Some(id) => Ok(id),
                None => Err(WalrusError::NoBlobId),
            },
            None => Err(WalrusError::NoBlobId),
        },
    }
}

/// Read the identifier out of a store response, as [`spec_response_blob_id`]
/// describes.
pub fn store_response_blob_id(resp: &StoreResponse) -> (r: Result<Vec<u8>, WalrusError>)
    ensures
        match r {
            Ok(id) => spec_response_blob_id(resp) == Ok::<Seq<u8>, WalrusError>(id@),
            Err(e) => spec_response_blob_id(resp) == Err::<Seq<u8>, WalrusError>(e),
        },
{
    if let Some(newly_created) = &resp.blob_store_result.newly_created {
        return extract_blob_id_from_result(newly_created);
    }
    if let Some(already_certified) = &resp.blob_store_result.already_certified {
        return extract_blob_id_from_result(already_certified);
    }
    Err(WalrusError::NoBlobId)
}

/// The identifier the backend's answer names: the first response of the
/// list decides; an empty list is its own error.
pub open spec fn spec_responses_blob_id(rs: Seq<StoreResponse>) -> Result<Seq<u8>, WalrusError> {
    if rs.len() == 0 {
        Err(WalrusError::NoResponse)
    } else {
        spec_response_blob_id(&rs[0])
    }
}

/// Read the identifier out of the backend's response list, as
/// [`spec_responses_blob_id`] describes.
pub fn store_responses_blob_id(responses: &Vec<StoreResponse>) -> (r: Result<Vec<u8>, WalrusError>)
    ensures
        match r {
            Ok(id) => spec_responses_blob_id(responses@) == Ok::<Seq<u8>, WalrusError>(id@),
            Err(e) => spec_responses_blob_id(responses@) == Err::<Seq<u8>, WalrusError>(e),
        },
{
    if responses.len() == 0 {
        return Err(WalrusError::NoResponse);
    }
    store_response_blob_id(&responses[0])
}

} // verus!
