use git_lfs_walrus::event::{
    decode_event, encode_event, Operation, TransferEvent, TransferOutcome,
};

fn b(s: &str) -> Vec<u8> {
    s.as_bytes().to_vec()
}

fn init_download() -> TransferEvent {
    TransferEvent::Init {
        operation: Operation::Download,
        remote: b("origin"),
        concurrent: true,
        concurrent_transfers: Some(3),
    }
}

#[test]
fn read_events_parses_event_successfully() {
    let input = b(
        r#"{"event":"init","operation":"download","remote":"origin","concurrent":true,"concurrenttransfers":3}"#,
    );
    let event = decode_event(&input).unwrap();
    assert_eq!(event, init_download());
}

#[test]
fn events_encode_to_their_wire_lines() {
    assert_eq!(
        encode_event(&init_download()),
        b(
            r#"{"event":"init","operation":"download","remote":"origin","concurrent":true,"concurrenttransfers":3}"#
        )
    );
    assert_eq!(
        encode_event(&TransferEvent::Upload {
            oid: b("bf3e3e2af9366a3b704ae0c31de5afa64193ebabffde2091936ad2e7510bc03a"),
            size: 346232,
            path: b("/path/to/file.png"),
        }),
        b(
            r#"{"event":"upload","oid":"bf3e3e2af9366a3b704ae0c31de5afa64193ebabffde2091936ad2e7510bc03a","size":346232,"path":"/path/to/file.png"}"#
        )
    );
    assert_eq!(
        encode_event(&TransferEvent::Download {
            oid: b("22ab5f63670800cc7be06dbed816012b0dc411e774754c7579467d2536a9cf3e"),
            size: 21245,
        }),
        b(
            r#"{"event":"download","oid":"22ab5f63670800cc7be06dbed816012b0dc411e774754c7579467d2536a9cf3e","size":21245}"#
        )
    );
    assert_eq!(
        encode_event(&TransferEvent::Progress {
            oid: b("22ab5f63670800cc7be06dbed816012b0dc411e774754c7579467d2536a9cf3e"),
            bytes_so_far: 1234,
            bytes_since_last: 64,
        }),
        b(
            r#"{"event":"progress","oid":"22ab5f63670800cc7be06dbed816012b0dc411e774754c7579467d2536a9cf3e","bytesSoFar":1234,"bytesSinceLast":64}"#
        )
    );
    assert_eq!(
        encode_event(&TransferEvent::Complete {
            oid: b("bf3e3e2af9366a3b704ae0c31de5afa64193ebabffde2091936ad2e7510bc03a"),
            result: Some(TransferOutcome::Error {
                code: 2,
                message: b("Explain what happened to this transfer"),
            }),
        }),
        b(
            r#"{"event":"complete","oid":"bf3e3e2af9366a3b704ae0c31de5afa64193ebabffde2091936ad2e7510bc03a","error":{"code":2,"message":"Explain what happened to this transfer"}}"#
        )
    );
    assert_eq!(
        encode_event(&TransferEvent::Terminate),
        b(r#"{"event":"terminate"}"#)
    );
}

#[test]
fn acknowledge_init_serializes_to_the_empty_object() {
    assert_eq!(encode_event(&TransferEvent::AcknowledgeInit), b("{}"));
}

#[test]
fn complete_with_path_round_trips() {
    let e = TransferEvent::Complete {
        oid: b("aabb"),
        result: Some(TransferOutcome::Path(b("/tmp/aabb"))),
    };
    let line = encode_event(&e);
    assert_eq!(
        line,
        b(r#"{"event":"complete","oid":"aabb","path":"/tmp/aabb"}"#)
    );
    assert_eq!(decode_event(&line).unwrap(), e);
}

#[test]
fn host_side_events_round_trip_through_the_codec() {
    let events = vec![
        init_download(),
        TransferEvent::Init {
            operation: Operation::Upload,
            remote: b("a remote with \"quotes\" and \\slashes\\"),
            concurrent: false,
            concurrent_transfers: None,
        },
        TransferEvent::Upload { oid: b("aa"), size: 0, path: b("/p") },
        TransferEvent::Download { oid: b("bb"), size: u64::MAX },
        TransferEvent::Terminate,
    ];
    for e in events {
        let line = encode_event(&e);
        assert_eq!(decode_event(&line).unwrap(), e);
    }
}

#[test]
fn malformed_lines_are_rejected() {
    assert!(decode_event(&b("")).is_err());
    assert!(decode_event(&b("not json")).is_err());
    assert!(decode_event(&b("{}")).is_err());
    assert!(decode_event(&b(r#"{"event":"unheard-of"}"#)).is_err());
    assert!(decode_event(&b(r#"{"event":"init","operation":"sideways","remote":"o","concurrent":true}"#)).is_err());
    assert!(decode_event(&b(r#"{"event":"upload","oid":"aa"}"#)).is_err());
    assert!(decode_event(&b(r#"{"event":"download","oid":"aa","size":"big"}"#)).is_err());
    assert!(decode_event(&b(r#"{"event":"init","operation":"download","remote":"o","concurrent":true}trailing"#)).is_err());
}

#[test]
fn init_without_transfer_count_decodes_to_none() {
    let line = b(r#"{"event":"init","operation":"upload","remote":"origin","concurrent":false}"#);
    let e = decode_event(&line).unwrap();
    assert_eq!(
        e,
        TransferEvent::Init {
            operation: Operation::Upload,
            remote: b("origin"),
            concurrent: false,
            concurrent_transfers: None,
        }
    );
    let line2 = b(
        r#"{"event":"init","operation":"upload","remote":"origin","concurrent":false,"concurrenttransfers":null}"#,
    );
    let e2 = decode_event(&line2).unwrap();
    assert_eq!(e, e2);
}
