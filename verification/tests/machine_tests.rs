use git_lfs_walrus::event::{Operation, TransferEvent, TransferOutcome};
use git_lfs_walrus::machine::{run_session, SessionState, StepAction, Violation, step};
use git_lfs_walrus::mapping::BlobMapping;
use git_lfs_walrus::store::MemoryBlobStore;

fn b(s: &str) -> Vec<u8> {
    s.as_bytes().to_vec()
}

fn init(operation: Operation) -> TransferEvent {
    TransferEvent::Init {
        operation,
        remote: b("origin"),
        concurrent: true,
        concurrent_transfers: Some(3),
    }
}

const FILE: &str = "hello world";
const OID: &str = "test-blob-id-123";

#[test]
fn transfer_handles_upload_events() {
    let temp_file = b("/tmp/transfer-upload/test-blob-id-123");
    let mut store = MemoryBlobStore::new();
    store.add_file(temp_file.clone(), b(FILE));
    let mapping = BlobMapping::new();
    let input_events = vec![
        init(Operation::Upload),
        TransferEvent::Upload { oid: b(OID), size: FILE.len() as u64, path: temp_file },
        TransferEvent::Terminate,
    ];
    let (events, violation) = run_session(&input_events, &mut store, &mapping, &b("/tmp"));
    assert!(violation.is_none());
    assert!(matches!(events[0], TransferEvent::AcknowledgeInit));
    assert!(matches!(events[1], TransferEvent::Complete { .. }));
    assert_eq!(events.len(), 2);
    assert_eq!(
        events[1],
        TransferEvent::Complete { oid: b(OID), result: None }
    );
}

#[test]
fn an_event_before_init_fails_without_output() {
    let mut store = MemoryBlobStore::new();
    let mapping = BlobMapping::new();
    let input_events = vec![TransferEvent::Upload {
        oid: b(OID),
        size: 11,
        path: b("/tmp/x"),
    }];
    let (events, violation) = run_session(&input_events, &mut store, &mapping, &b("/tmp"));
    assert!(events.is_empty());
    assert_eq!(violation, Some(Violation::UnexpectedEvent));
}

#[test]
fn a_failed_store_is_reported_and_the_session_goes_on() {
    let mut store = MemoryBlobStore::new();
    store.set_fail_store();
    let mapping = BlobMapping::new();
    let input_events = vec![
        init(Operation::Upload),
        TransferEvent::Upload { oid: b(OID), size: 11, path: b("/tmp/x") },
        TransferEvent::Terminate,
    ];
    let (events, violation) = run_session(&input_events, &mut store, &mapping, &b("/tmp"));
    assert!(violation.is_none());
    assert_eq!(events.len(), 2);
    assert_eq!(events[0], TransferEvent::AcknowledgeInit);
    assert_eq!(
        events[1],
        TransferEvent::Complete {
            oid: b(OID),
            result: Some(TransferOutcome::Error { code: 500, message: b("store failed") }),
        }
    );
}

#[test]
fn downloads_resolve_through_the_mapping() {
    let mut store = MemoryBlobStore::new();
    let id = store.store_bytes(&b(FILE)).unwrap();
    let mut mapping = BlobMapping::new();
    mapping.put(b("aa"), id);
    let input_events = vec![
        init(Operation::Download),
        TransferEvent::Download { oid: b("aa"), size: 11 },
        TransferEvent::Terminate,
    ];
    let (events, violation) = run_session(&input_events, &mut store, &mapping, &b("dl"));
    assert!(violation.is_none());
    assert_eq!(events.len(), 3);
    assert_eq!(events[0], TransferEvent::AcknowledgeInit);
    assert_eq!(
        events[1],
        TransferEvent::Progress { oid: b("aa"), bytes_so_far: 11, bytes_since_last: 11 }
    );
    assert_eq!(
        events[2],
        TransferEvent::Complete {
            oid: b("aa"),
            result: Some(TransferOutcome::Path(b("dl/aa"))),
        }
    );
}

#[test]
fn an_unmapped_download_gets_a_not_found_completion() {
    let mut store = MemoryBlobStore::new();
    let mapping = BlobMapping::new();
    let input_events = vec![
        init(Operation::Download),
        TransferEvent::Download { oid: b("aa"), size: 11 },
        TransferEvent::Terminate,
    ];
    let (events, violation) = run_session(&input_events, &mut store, &mapping, &b("dl"));
    assert!(violation.is_none());
    assert_eq!(events.len(), 2);
    assert_eq!(
        events[1],
        TransferEvent::Complete {
            oid: b("aa"),
            result: Some(TransferOutcome::Error {
                code: 404,
                message: b("no backend blob identifier mapped for object"),
            }),
        }
    );
}

#[test]
fn a_second_init_is_a_violation() {
    let mut store = MemoryBlobStore::new();
    let mapping = BlobMapping::new();
    let input_events = vec![init(Operation::Upload), init(Operation::Upload)];
    let (events, violation) = run_session(&input_events, &mut store, &mapping, &b("dl"));
    assert_eq!(events, vec![TransferEvent::AcknowledgeInit]);
    assert_eq!(violation, Some(Violation::UnexpectedInit));
}

#[test]
fn events_of_the_wrong_direction_are_violations() {
    let mut store = MemoryBlobStore::new();
    let mapping = BlobMapping::new();
    let input_events = vec![
        init(Operation::Upload),
        TransferEvent::Download { oid: b("aa"), size: 11 },
    ];
    let (events, violation) = run_session(&input_events, &mut store, &mapping, &b("dl"));
    assert_eq!(events, vec![TransferEvent::AcknowledgeInit]);
    assert_eq!(violation, Some(Violation::UnexpectedEvent));
}

#[test]
fn nothing_follows_terminate() {
    let mut store = MemoryBlobStore::new();
    let mapping = BlobMapping::new();
    let input_events = vec![
        init(Operation::Upload),
        TransferEvent::Terminate,
        TransferEvent::Upload { oid: b(OID), size: 11, path: b("/tmp/x") },
    ];
    let (events, violation) = run_session(&input_events, &mut store, &mapping, &b("dl"));
    assert_eq!(events, vec![TransferEvent::AcknowledgeInit]);
    assert!(violation.is_none());
}

#[test]
fn step_fixes_the_operation_at_init() {
    let (st, action) = step(SessionState::Uninitialized, &init(Operation::Download)).unwrap();
    assert_eq!(st, SessionState::Active { operation: Operation::Download });
    assert!(matches!(action, StepAction::Acknowledge));
    let again = step(st, &init(Operation::Download));
    assert_eq!(again.unwrap_err(), Violation::UnexpectedInit);
}
