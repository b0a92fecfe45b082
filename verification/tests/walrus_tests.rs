use git_lfs_walrus::status::{
    blob_needs_refresh, format_blob_status, status_indicates_expired, stderr_indicates_missing,
    tally_check, tally_refresh, BlobObjectStatus, BlobStatusResponse, CheckOutcome,
    RefreshOutcome, StorageStatus,
};
use git_lfs_walrus::walrus::{
    client, extract_blob_id_from_result, store_responses_blob_id, BlobObject, BlobResult,
    BlobStoreResult, StoreResponse, WalrusClient, WalrusError,
};

fn b(s: &str) -> Vec<u8> {
    s.as_bytes().to_vec()
}

fn stored_object() -> BlobObjectStatus {
    BlobObjectStatus {
        id: b("0xabc"),
        stored_epoch: 10,
        blob_id: b("blob-9"),
        size: 2048,
        certified_epoch: 11,
        storage: StorageStatus { id: b("0xdef"), start_epoch: 10, end_epoch: 60, storage_size: 4096 },
    }
}

#[test]
fn format_blob_status_shows_size_and_epoch() {
    let resp = BlobStatusResponse { blob_object: Some(stored_object()), status: b("certified") };
    assert_eq!(
        format_blob_status(&resp),
        b("Status: certified | Size: 2048 bytes | Storage until epoch: 60")
    );
    let bare = BlobStatusResponse { blob_object: None, status: b("nonexistent") };
    assert_eq!(format_blob_status(&bare), b("Status: nonexistent"));
}

#[test]
fn expiry_is_read_from_the_status_text() {
    assert!(status_indicates_expired(&b("expired at epoch 60")));
    assert!(status_indicates_expired(&b("invalid blob")));
    assert!(!status_indicates_expired(&b("certified")));
}

#[test]
fn refresh_is_needed_for_expired_or_unknown_blobs() {
    let good = BlobStatusResponse { blob_object: Some(stored_object()), status: b("certified") };
    assert!(!blob_needs_refresh(&good));
    let expired = BlobStatusResponse { blob_object: Some(stored_object()), status: b("expired") };
    assert!(blob_needs_refresh(&expired));
    let unknown = BlobStatusResponse { blob_object: None, status: b("certified") };
    assert!(blob_needs_refresh(&unknown));
}

#[test]
fn missing_blobs_are_recognized_in_error_text() {
    assert!(stderr_indicates_missing(&b("error: blob not found")));
    assert!(stderr_indicates_missing(&b("object does not exist")));
    assert!(!stderr_indicates_missing(&b("connection refused")));
}

#[test]
fn tallies_count_each_outcome() {
    let checks = vec![
        CheckOutcome::Valid,
        CheckOutcome::ExpiredOrInvalid,
        CheckOutcome::Valid,
        CheckOutcome::Failed,
        CheckOutcome::Valid,
    ];
    assert_eq!(tally_check(&checks), (3, 1, 1));
    let refreshes = vec![
        RefreshOutcome::Refreshed,
        RefreshOutcome::NotNeeded,
        RefreshOutcome::NotNeeded,
    ];
    assert_eq!(tally_refresh(&refreshes), (1, 2, 0));
    assert_eq!(tally_check(&Vec::new()), (0, 0, 0));
}

#[test]
fn blob_ids_are_read_from_both_response_shapes() {
    let newer = BlobResult {
        blob_object: Some(BlobObject { blob_id: b("nested-id") }),
        blob_id: Some(b("ignored")),
    };
    assert_eq!(extract_blob_id_from_result(&newer), Ok(b("nested-id")));
    let legacy = BlobResult { blob_object: None, blob_id: Some(b("flat-id")) };
    assert_eq!(extract_blob_id_from_result(&legacy), Ok(b("flat-id")));
    let neither = BlobResult { blob_object: None, blob_id: None };
    assert_eq!(extract_blob_id_from_result(&neither), Err(WalrusError::NoBlobId));
}

#[test]
fn store_responses_prefer_newly_created() {
    let resp = StoreResponse {
        blob_store_result: BlobStoreResult {
            newly_created: Some(BlobResult { blob_object: None, blob_id: Some(b("new")) }),
            already_certified: Some(BlobResult { blob_object: None, blob_id: Some(b("old")) }),
        },
    };
    assert_eq!(store_responses_blob_id(&vec![resp]), Ok(b("new")));
    let certified_only = StoreResponse {
        blob_store_result: BlobStoreResult {
            newly_created: None,
            already_certified: Some(BlobResult { blob_object: None, blob_id: Some(b("old")) }),
        },
    };
    assert_eq!(store_responses_blob_id(&vec![certified_only]), Ok(b("old")));
    assert_eq!(store_responses_blob_id(&Vec::new()), Err(WalrusError::NoResponse));
    let empty = StoreResponse {
        blob_store_result: BlobStoreResult { newly_created: None, already_certified: None },
    };
    assert_eq!(store_responses_blob_id(&vec![empty]), Err(WalrusError::NoBlobId));
}

#[test]
fn the_client_keeps_its_configuration() {
    let c = client();
    assert!(c.walrus_path().is_none());
    assert_eq!(c.default_epochs, 50);
    let mut with = WalrusClient::with_path("/usr/local/bin/walrus".to_string());
    assert_eq!(with.walrus_path(), Some(&"/usr/local/bin/walrus".to_string()));
    with.set_default_epochs(75);
    assert_eq!(with.default_epochs, 75);
    let d: WalrusClient = Default::default();
    assert!(d.walrus_path().is_none());
}
