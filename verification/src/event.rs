//! The custom-transfer protocol events and their line codec.
//!
//! Each protocol message is one JSON object on one line. Incoming lines are
//! decoded strictly: the `event` discriminant must be present and known, and
//! required fields must be present with the right shapes; anything else is a
//! protocol violation. Outgoing events serialize canonically, and the
//! acknowledgement of `init` serializes to the literal empty object `{}`, as
//! the protocol requires.

use crate::bytes::copy_bytes;
use crate::json::{
    emit_string, encode_object, json_clean, obj_view, object_parse, parse_object, spec_encode_object,
    spec_obj_body, spec_quote, spec_value, JsonVal, SpecJson, COLON, COMMA, LBRACE, RBRACE,
};
use vstd::prelude::*;

verus! {

/// `event`.
pub open spec fn spec_event_key() -> Seq<u8> {
    seq![101u8, 118u8, 101u8, 110u8, 116u8]
}

/// `event` as bytes.
pub fn event_key() -> (v: Vec<u8>)
    ensures
        v@ == spec_event_key(),
{
    let v: Vec<u8> = vec![101u8, 118u8, 101u8, 110u8, 116u8];
    proof {
        assert(v@ =~= spec_event_key());
    }
    v
}

/// `operation`.
pub open spec fn spec_operation_key() -> Seq<u8> {
    seq![111u8, 112u8, 101u8, 114u8, 97u8, 116u8, 105u8, 111u8, 110u8]
}

/// `operation` as bytes.
pub fn operation_key() -> (v: Vec<u8>)
    ensures
        v@ == spec_operation_key(),
{
    let v: Vec<u8> = vec![111u8, 112u8, 101u8, 114u8, 97u8, 116u8, 105u8, 111u8, 110u8];
    proof {
        assert(v@ =~= spec_operation_key());
    }
    v
}

/// `remote`.
pub open spec fn spec_remote_key() -> Seq<u8> {
    seq![114u8, 101u8, 109u8, 111u8, 116u8, 101u8]
}

/// `remote` as bytes.
pub fn remote_key() -> (v: Vec<u8>)
    ensures
        v@ == spec_remote_key(),
{
    let v: Vec<u8> = vec![114u8, 101u8, 109u8, 111u8, 116u8, 101u8];
    proof {
        assert(v@ =~= spec_remote_key());
    }
    v
}

/// `concurrent`.
pub open spec fn spec_concurrent_key() -> Seq<u8> {
    seq![99u8, 111u8, 110u8, 99u8, 117u8, 114u8, 114u8, 101u8, 110u8, 116u8]
}

/// `concurrent` as bytes.
pub fn concurrent_key() -> (v: Vec<u8>)
    ensures
        v@ == spec_concurrent_key(),
{
    let v: Vec<u8> = vec![99u8, 111u8, 110u8, 99u8, 117u8, 114u8, 114u8, 101u8, 110u8, 116u8];
    proof {
        assert(v@ =~= spec_concurrent_key());
    }
    v
}

/// `concurrenttransfers`.
pub open spec fn spec_transfers_key() -> Seq<u8> {
    seq![99u8, 111u8, 110u8, 99u8, 117u8, 114u8, 114u8, 101u8, 110u8, 116u8, 116u8, 114u8, 97u8, 110u8, 115u8, 102u8, 101u8, 114u8, 115u8]
}

/// `concurrenttransfers` as bytes.
pub fn transfers_key() -> (v: Vec<u8>)
    ensures
        v@ == spec_transfers_key(),
{
    let v: Vec<u8> = vec![99u8, 111u8, 110u8, 99u8, 117u8, 114u8, 114u8, 101u8, 110u8, 116u8, 116u8, 114u8, 97u8, 110u8, 115u8, 102u8, 101u8, 114u8, 115u8];
    proof {
        assert(v@ =~= spec_transfers_key());
    }
    v
}

/// `oid`.
pub open spec fn spec_oid_field_key() -> Seq<u8> {
    seq![111u8, 105u8, 100u8]
}

/// `oid` as bytes.
pub fn oid_field_key() -> (v: Vec<u8>)
    ensures
        v@ == spec_oid_field_key(),
{
    let v: Vec<u8> = vec![111u8, 105u8, 100u8];
    proof {
        assert(v@ =~= spec_oid_field_key());
    }
    v
}

/// `size`.
pub open spec fn spec_size_field_key() -> Seq<u8> {
    seq![115u8, 105u8, 122u8, 101u8]
}

/// `size` as bytes.
pub fn size_field_key() -> (v: Vec<u8>)
    ensures
        v@ == spec_size_field_key(),
{
    let v: Vec<u8> = vec![115u8, 105u8, 122u8, 101u8];
    proof {
        assert(v@ =~= spec_size_field_key());
    }
    v
}

/// `path`.
pub open spec fn spec_path_key() -> Seq<u8> {
    seq![112u8, 97u8, 116u8, 104u8]
}

/// `path` as bytes.
pub fn path_key() -> (v: Vec<u8>)
    ensures
        v@ == spec_path_key(),
{
    let v: Vec<u8> = vec![112u8, 97u8, 116u8, 104u8];
    proof {
        assert(v@ =~= spec_path_key());
    }
    v
}

/// `bytesSoFar`.
pub open spec fn spec_bytes_so_far_key() -> Seq<u8> {
    seq![98u8, 121u8, 116u8, 101u8, 115u8, 83u8, 111u8, 70u8, 97u8, 114u8]
}

/// `bytesSoFar` as bytes.
pub fn bytes_so_far_key() -> (v: Vec<u8>)
    ensures
        v@ == spec_bytes_so_far_key(),
{
    let v: Vec<u8> = vec![98u8, 121u8, 116u8, 101u8, 115u8, 83u8, 111u8, 70u8, 97u8, 114u8];
    proof {
        assert(v@ =~= spec_bytes_so_far_key());
    }
    v
}

/// `bytesSinceLast`.
pub open spec fn spec_bytes_since_last_key() -> Seq<u8> {
    seq![98u8, 121u8, 116u8, 101u8, 115u8, 83u8, 105u8, 110u8, 99u8, 101u8, 76u8, 97u8, 115u8, 116u8]
}

/// `bytesSinceLast` as bytes.
pub fn bytes_since_last_key() -> (v: Vec<u8>)
    ensures
        v@ == spec_bytes_since_last_key(),
{
    let v: Vec<u8> = vec![98u8, 121u8, 116u8, 101u8, 115u8, 83u8, 105u8, 110u8, 99u8, 101u8, 76u8, 97u8, 115u8, 116u8];
    proof {
        assert(v@ =~= spec_bytes_since_last_key());
    }
    v
}

/// `error`.
pub open spec fn spec_error_key() -> Seq<u8> {
    seq![101u8, 114u8, 114u8, 111u8, 114u8]
}

/// `error` as bytes.
pub fn error_key() -> (v: Vec<u8>)
    ensures
        v@ == spec_error_key(),
{
    let v: Vec<u8> = vec![101u8, 114u8, 114u8, 111u8, 114u8];
    proof {
        assert(v@ =~= spec_error_key());
    }
    v
}

/// `code`.
pub open spec fn spec_code_key() -> Seq<u8> {
    seq![99u8, 111u8, 100u8, 101u8]
}

/// `code` as bytes.
pub fn code_key() -> (v: Vec<u8>)
    ensures
        v@ == spec_code_key(),
{
    let v: Vec<u8> = vec![99u8, 111u8, 100u8, 101u8];
    proof {
        assert(v@ =~= spec_code_key());
    }
    v
}

/// `message`.
pub open spec fn spec_message_key() -> Seq<u8> {
    seq![109u8, 101u8, 115u8, 115u8, 97u8, 103u8, 101u8]
}

/// `message` as bytes.
pub fn message_key() -> (v: Vec<u8>)
    ensures
        v@ == spec_message_key(),
{
    let v: Vec<u8> = vec![109u8, 101u8, 115u8, 115u8, 97u8, 103u8, 101u8];
    proof {
        assert(v@ =~= spec_message_key());
    }
    v
}

/// `init`.
pub open spec fn spec_init_tag() -> Seq<u8> {
    seq![105u8, 110u8, 105u8, 116u8]
}

/// `init` as bytes.
pub fn init_tag() -> (v: Vec<u8>)
    ensures
        v@ == spec_init_tag(),
{
    let v: Vec<u8> = vec![105u8, 110u8, 105u8, 116u8];
    proof {
        assert(v@ =~= spec_init_tag());
    }
    v
}

/// `upload`.
pub open spec fn spec_upload_tag() -> Seq<u8> {
    seq![117u8, 112u8, 108u8, 111u8, 97u8, 100u8]
}

/// `upload` as bytes.
pub fn upload_tag() -> (v: Vec<u8>)
    ensures
        v@ == spec_upload_tag(),
{
    let v: Vec<u8> = vec![117u8, 112u8, 108u8, 111u8, 97u8, 100u8];
    proof {
        assert(v@ =~= spec_upload_tag());
    }
    v
}

/// `download`.
pub open spec fn spec_download_tag() -> Seq<u8> {
    seq![100u8, 111u8, 119u8, 110u8, 108u8, 111u8, 97u8, 100u8]
}

/// `download` as bytes.
pub fn download_tag() -> (v: Vec<u8>)
    ensures
        v@ == spec_download_tag(),
{
    let v: Vec<u8> = vec![100u8, 111u8, 119u8, 110u8, 108u8, 111u8, 97u8, 100u8];
    proof {
        assert(v@ =~= spec_download_tag());
    }
    v
}

/// `complete`.
pub open spec fn spec_complete_tag() -> Seq<u8> {
    seq![99u8, 111u8, 109u8, 112u8, 108u8, 101u8, 116u8, 101u8]
}

/// `complete` as bytes.
pub fn complete_tag() -> (v: Vec<u8>)
    ensures
        v@ == spec_complete_tag(),
{
    let v: Vec<u8> = vec![99u8, 111u8, 109u8, 112u8, 108u8, 101u8, 116u8, 101u8];
    proof {
        assert(v@ =~= spec_complete_tag());
    }
    v
}

/// `progress`.
pub open spec fn spec_progress_tag() -> Seq<u8> {
    seq![112u8, 114u8, 111u8, 103u8, 114u8, 101u8, 115u8, 115u8]
}

/// `progress` as bytes.
pub fn progress_tag() -> (v: Vec<u8>)
    ensures
        v@ == spec_progress_tag(),
{
    let v: Vec<u8> = vec![112u8, 114u8, 111u8, 103u8, 114u8, 101u8, 115u8, 115u8];
    proof {
        assert(v@ =~= spec_progress_tag());
    }
    v
}

/// `terminate`.
pub open spec fn spec_terminate_tag() -> Seq<u8> {
    seq![116u8, 101u8, 114u8, 109u8, 105u8, 110u8, 97u8, 116u8, 101u8]
}

/// `terminate` as bytes.
pub fn terminate_tag() -> (v: Vec<u8>)
    ensures
        v@ == spec_terminate_tag(),
{
    let v: Vec<u8> = vec![116u8, 101u8, 114u8, 109u8, 105u8, 110u8, 97u8, 116u8, 101u8];
    proof {
        assert(v@ =~= spec_terminate_tag());
    }
    v
}


/// The direction fixed for a transfer session.
#[derive(PartialEq, Eq, Structural, Clone, Copy, Debug)]
pub enum Operation {
    Upload,
    Download,
}

/// The result a `complete` event carries: a downloaded file's path, or the
/// error of the one object that failed.
#[derive(PartialEq, Eq, Clone, Debug)]
pub enum TransferOutcome {
    Path(Vec<u8>),
    Error { code: u64, message: Vec<u8> },
}

/// One protocol event.
#[derive(PartialEq, Eq, Clone, Debug)]
pub enum TransferEvent {
    Init {
        operation: Operation,
        remote: Vec<u8>,
        concurrent: bool,
        concurrent_transfers: Option<u64>,
    },
    Upload { oid: Vec<u8>, size: u64, path: Vec<u8> },
    Download { oid: Vec<u8>, size: u64 },
    Progress { oid: Vec<u8>, bytes_so_far: u64, bytes_since_last: u64 },
    Complete { oid: Vec<u8>, result: Option<TransferOutcome> },
    Terminate,
    AcknowledgeInit,
}

/// [`TransferOutcome`] at the specification level.
pub ghost enum SpecOutcome {
    Path(Seq<u8>),
    Error { code: u64, message: Seq<u8> },
}

/// [`TransferEvent`] at the specification level.
pub ghost enum SpecEvent {
    Init {
        operation: Operation,
        remote: Seq<u8>,
        concurrent: bool,
        concurrent_transfers: Option<u64>,
    },
    Upload { oid: Seq<u8>, size: u64, path: Seq<u8> },
    Download { oid: Seq<u8>, size: u64 },
    Progress { oid: Seq<u8>, bytes_so_far: u64, bytes_since_last: u64 },
    Complete { oid: Seq<u8>, result: Option<SpecOutcome> },
    Terminate,
    AcknowledgeInit,
}

impl View for TransferOutcome {
    type V = SpecOutcome;

    open spec fn view(&self) -> SpecOutcome {
        match self {
            TransferOutcome::Path(p) => SpecOutcome::Path(p@),
            TransferOutcome::Error { code, message } => SpecOutcome::Error {
                code: *code,
                message: message@,
            },
        }
    }
}

impl View for TransferEvent {
    type V = SpecEvent;

    open spec fn view(&self) -> SpecEvent {
        match self {
            TransferEvent::Init { operation, remote, concurrent, concurrent_transfers } => SpecEvent::Init {
                operation: *operation,
                remote: remote@,
                concurrent: *concurrent,
                concurrent_transfers: *concurrent_transfers,
            },
            TransferEvent::Upload { oid, size, path } => SpecEvent::Upload {
                oid: oid@,
                size: *size,
                path: path@,
            },
            TransferEvent::Download { oid, size } => SpecEvent::Download {
                oid: oid@,
                size: *size,
            },
            TransferEvent::Progress { oid, bytes_so_far, bytes_since_last } => SpecEvent::Progress {
                oid: oid@,
                bytes_so_far: *bytes_so_far,
                bytes_since_last: *bytes_since_last,
            },
            TransferEvent::Complete { oid, result } => SpecEvent::Complete {
                oid: oid@,
                result: match result {
                    Some(o) => Some(o@),
                    None => None,
                },
            },
            TransferEvent::Terminate => SpecEvent::Terminate,
            TransferEvent::AcknowledgeInit => SpecEvent::AcknowledgeInit,
        }
    }
}

/// The wire name of an operation.
pub open spec fn spec_op_tag(op: Operation) -> Seq<u8> {
    match op {
        Operation::Upload => spec_upload_tag(),
        Operation::Download => spec_download_tag(),
    }
}

/// The object pairs an event serializes to, for the flat events.
pub open spec fn spec_event_pairs(ev: SpecEvent) -> Seq<(Seq<u8>, SpecJson)> {
    match ev {
        SpecEvent::Init { operation, remote, concurrent, concurrent_transfers } => seq![
            (spec_event_key(), SpecJson::Str(spec_init_tag())),
            (spec_operation_key(), SpecJson::Str(spec_op_tag(operation))),
            (spec_remote_key(), SpecJson::Str(remote)),
            (spec_concurrent_key(), SpecJson::Bool(concurrent)),
            (
                spec_transfers_key(),
                match concurrent_transfers {
                    Some(n) => SpecJson::Num(n),
                    None => SpecJson::Null,
                },
            ),
        ],
        SpecEvent::Upload { oid, size, path } => seq![
            (spec_event_key(), SpecJson::Str(spec_upload_tag())),
            (spec_oid_field_key(), SpecJson::Str(oid)),
            (spec_size_field_key(), SpecJson::Num(size)),
            (spec_path_key(), SpecJson::Str(path)),
        ],
        SpecEvent::Download { oid, size } => seq![
            (spec_event_key(), SpecJson::Str(spec_download_tag())),
            (spec_oid_field_key(), SpecJson::Str(oid)),
            (spec_size_field_key(), SpecJson::Num(size)),
        ],
        SpecEvent::Progress { oid, bytes_so_far, bytes_since_last } => seq![
            (spec_event_key(), SpecJson::Str(spec_progress_tag())),
            (spec_oid_field_key(), SpecJson::Str(oid)),
            (spec_bytes_so_far_key(), SpecJson::Num(bytes_so_far)),
            (spec_bytes_since_last_key(), SpecJson::Num(bytes_since_last)),
        ],
        SpecEvent::Complete { oid, result: None } => seq![
            (spec_event_key(), SpecJson::Str(spec_complete_tag())),
            (spec_oid_field_key(), SpecJson::Str(oid)),
        ],
        SpecEvent::Complete { oid, result: Some(SpecOutcome::Path(p)) } => seq![
            (spec_event_key(), SpecJson::Str(spec_complete_tag())),
            (spec_oid_field_key(), SpecJson::Str(oid)),
            (spec_path_key(), SpecJson::Str(p)),
        ],
        SpecEvent::Terminate => seq![(spec_event_key(), SpecJson::Str(spec_terminate_tag()))],
        _ => seq![],
    }
}

/// The line an event serializes to. `AcknowledgeInit` is the literal empty
/// object; a `complete` event with an error nests the error object after the
/// flat fields; everything else is one flat object.
pub open spec fn spec_encode_event(ev: SpecEvent) -> Seq<u8> {
    match ev {
        SpecEvent::AcknowledgeInit => seq![LBRACE, RBRACE],
        SpecEvent::Complete { oid, result: Some(SpecOutcome::Error { code, message }) } => {
            let outer = seq![
                (spec_event_key(), SpecJson::Str(spec_complete_tag())),
                (spec_oid_field_key(), SpecJson::Str(oid)),
            ];
            let inner = seq![
                (spec_code_key(), SpecJson::Num(code)),
                (spec_message_key(), SpecJson::Str(message)),
            ];
            seq![LBRACE] + spec_obj_body(outer) + seq![COMMA] + spec_quote(spec_error_key())
                + seq![COLON] + spec_encode_object(inner) + seq![RBRACE]
        },
        _ => spec_encode_object(spec_event_pairs(ev)),
    }
}

/// Encode an event to its protocol line, as [`spec_encode_event`] describes.
pub fn encode_event(e: &TransferEvent) -> (r: Vec<u8>)
    ensures
        r@ == spec_encode_event(e@),
{
    match e {
        TransferEvent::AcknowledgeInit => {
            let v: Vec<u8> = vec![LBRACE, RBRACE];
            proof {
                assert(v@ =~= seq![LBRACE, RBRACE]);
            }
            v
        },
        TransferEvent::Init { operation, remote, concurrent, concurrent_transfers } => {
            let mut pairs: Vec<(Vec<u8>, JsonVal)> = Vec::new();
            pairs.push((event_key(), JsonVal::Str(init_tag())));
            let op_tag = match operation {
                Operation::Upload => upload_tag(),
                Operation::Download => download_tag(),
            };
            pairs.push((operation_key(), JsonVal::Str(op_tag)));
            pairs.push((remote_key(), JsonVal::Str(copy_bytes(remote))));
            pairs.push((concurrent_key(), JsonVal::Bool(*concurrent)));
            let tv = match concurrent_transfers {
                Some(n) => JsonVal::Num(*n),
                None => JsonVal::Null,
            };
            pairs.push((transfers_key(), tv));
            proof {
                assert(obj_view(pairs@) =~= spec_event_pairs(e@));
            }
            encode_object(&pairs)
        },
        TransferEvent::Upload { oid, size, path } => {
            let mut pairs: Vec<(Vec<u8>, JsonVal)> = Vec::new();
            pairs.push((event_key(), JsonVal::Str(upload_tag())));
            pairs.push((oid_field_key(), JsonVal::Str(copy_bytes(oid))));
            pairs.push((size_field_key(), JsonVal::Num(*size)));
            pairs.push((path_key(), JsonVal::Str(copy_bytes(path))));
            proof {
                assert(obj_view(pairs@) =~= spec_event_pairs(e@));
            }
            encode_object(&pairs)
        },
        TransferEvent::Download { oid, size } => {
            let mut pairs: Vec<(Vec<u8>, JsonVal)> = Vec::new();
            pairs.push((event_key(), JsonVal::Str(download_tag())));
            pairs.push((oid_field_key(), JsonVal::Str(copy_bytes(oid))));
            pairs.push((size_field_key(), JsonVal::Num(*size)));
            proof {
                assert(obj_view(pairs@) =~= spec_event_pairs(e@));
            }
            encode_object(&pairs)
        },
        TransferEvent::Progress { oid, bytes_so_far, bytes_since_last } => {
            let mut pairs: Vec<(Vec<u8>, JsonVal)> = Vec::new();
            pairs.push((event_key(), JsonVal::Str(progress_tag())));
            pairs.push((oid_field_key(), JsonVal::Str(copy_bytes(oid))));
            pairs.push((bytes_so_far_key(), JsonVal::Num(*bytes_so_far)));
            pairs.push((bytes_since_last_key(), JsonVal::Num(*bytes_since_last)));
            proof {
                assert(obj_view(pairs@) =~= spec_event_pairs(e@));
            }
            encode_object(&pairs)
        },
        TransferEvent::Terminate => {
            let mut pairs: Vec<(Vec<u8>, JsonVal)> = Vec::new();
            pairs.push((event_key(), JsonVal::Str(terminate_tag())));
            proof {
                assert(obj_view(pairs@) =~= spec_event_pairs(e@));
            }
            encode_object(&pairs)
        },
        TransferEvent::Complete { oid, result } => {
            match result {
                None => {
                    let mut pairs: Vec<(Vec<u8>, JsonVal)> = Vec::new();
                    pairs.push((event_key(), JsonVal::Str(complete_tag())));
                    pairs.push((oid_field_key(), JsonVal::Str(copy_bytes(oid))));
                    proof {
                        assert(obj_view(pairs@) =~= spec_event_pairs(e@));
                    }
                    encode_object(&pairs)
                },
                Some(TransferOutcome::Path(p)) => {
                    let mut pairs: Vec<(Vec<u8>, JsonVal)> = Vec::new();
                    pairs.push((event_key(), JsonVal::Str(complete_tag())));
                    pairs.push((oid_field_key(), JsonVal::Str(copy_bytes(oid))));
                    pairs.push((path_key(), JsonVal::Str(copy_bytes(p))));
                    proof {
                        assert(obj_view(pairs@) =~= spec_event_pairs(e@));
                    }
                    encode_object(&pairs)
                },
                Some(TransferOutcome::Error { code, message }) => {
                    let ghost outer = seq![
                        (spec_event_key(), SpecJson::Str(spec_complete_tag())),
                        (spec_oid_field_key(), SpecJson::Str(oid@)),
                    ];
                    let mut out: Vec<u8> = Vec::new();
                    out.push(LBRACE);
                    emit_string(&mut out, &event_key());
                    out.push(COLON);
                    emit_string(&mut out, &complete_tag());
                    out.push(COMMA);
                    emit_string(&mut out, &oid_field_key());
                    out.push(COLON);
                    emit_string(&mut out, oid);
                    proof {
                        let single = seq![(spec_oid_field_key(), SpecJson::Str(oid@))];
                        assert(outer.drop_first() =~= single);
                        assert(spec_obj_body(single) =~= spec_quote(spec_oid_field_key())
                            + seq![COLON] + spec_value(SpecJson::Str(oid@)));
                        assert(spec_obj_body(outer) =~= spec_quote(spec_event_key())
                            + seq![COLON] + spec_value(SpecJson::Str(spec_complete_tag()))
                            + seq![COMMA] + spec_obj_body(single));
                        assert(out@ =~= seq![LBRACE] + spec_obj_body(outer));
                    }
                    out.push(COMMA);
                    emit_string(&mut out, &error_key());
                    out.push(COLON);
                    let mut inner: Vec<(Vec<u8>, JsonVal)> = Vec::new();
                    inner.push((code_key(), JsonVal::Num(*code)));
                    inner.push((message_key(), JsonVal::Str(copy_bytes(message))));
                    proof {
                        assert(obj_view(inner@) =~= seq![
                            (spec_code_key(), SpecJson::Num(*code)),
                            (spec_message_key(), SpecJson::Str(message@)),
                        ]);
                    }
                    let inner_bytes = encode_object(&inner);
                    out.extend_from_slice(inner_bytes.as_slice());
                    out.push(RBRACE);
                    proof {
                        assert(out@ =~= spec_encode_event(e@));
                    }
                    out
                },
            }
        },
    }
}

/// The value of the last pair with the given key, the way a JSON map reads.
pub open spec fn jlookup(pairs: Seq<(Seq<u8>, SpecJson)>, key: Seq<u8>) -> Option<SpecJson>
    decreases pairs.len(),
{
    if pairs.len() == 0 {
        None
    } else if pairs.last().0 == key {
        Some(pairs.last().1)
    } else {
        jlookup(pairs.drop_last(), key)
    }
}

/// Decoding fails only for a line that is not one well-formed event object.
#[derive(PartialEq, Eq, Structural, Clone, Copy, Debug)]
pub enum EventError {
    Malformed,
}

/// Interpret the pairs of an `init` object.
pub open spec fn interp_init(pairs: Seq<(Seq<u8>, SpecJson)>) -> Option<SpecEvent> {
    match (
        jlookup(pairs, spec_operation_key()),
        jlookup(pairs, spec_remote_key()),
        jlookup(pairs, spec_concurrent_key()),
    ) {
        (Some(SpecJson::Str(op)), Some(SpecJson::Str(remote)), Some(SpecJson::Bool(c))) => {
            let ct = jlookup(pairs, spec_transfers_key());
            let ct_ok = ct is None || ct matches Some(SpecJson::Num(_)) || ct matches Some(
                SpecJson::Null,
            );
            if (op == spec_upload_tag() || op == spec_download_tag()) && ct_ok {
                Some(
                    SpecEvent::Init {
                        operation: if op == spec_upload_tag() {
                            Operation::Upload
                        } else {
                            Operation::Download
                        },
                        remote,
                        concurrent: c,
                        concurrent_transfers: match ct {
                            Some(SpecJson::Num(n)) => Some(n),
                            _ => None,
                        },
                    },
                )
            } else {
                None
            }
        },
        _ => None,
    }
}

/// Interpret the pairs of an `upload` object.
pub open spec fn interp_upload(pairs: Seq<(Seq<u8>, SpecJson)>) -> Option<SpecEvent> {
    match (
        jlookup(pairs, spec_oid_field_key()),
        jlookup(pairs, spec_size_field_key()),
        jlookup(pairs, spec_path_key()),
    ) {
        (Some(SpecJson::Str(oid)), Some(SpecJson::Num(size)), Some(SpecJson::Str(path))) => Some(
            SpecEvent::Upload { oid, size, path },
        ),
        _ => None,
    }
}

/// Interpret the pairs of a `download` object.
pub open spec fn interp_download(pairs: Seq<(Seq<u8>, SpecJson)>) -> Option<SpecEvent> {
    match (jlookup(pairs, spec_oid_field_key()), jlookup(pairs, spec_size_field_key())) {
        (Some(SpecJson::Str(oid)), Some(SpecJson::Num(size))) => Some(
            SpecEvent::Download { oid, size },
        ),
        _ => None,
    }
}

/// Interpret the pairs of a `progress` object.
pub open spec fn interp_progress(pairs: Seq<(Seq<u8>, SpecJson)>) -> Option<SpecEvent> {
    match (
        jlookup(pairs, spec_oid_field_key()),
        jlookup(pairs, spec_bytes_so_far_key()),
        jlookup(pairs, spec_bytes_since_last_key()),
    ) {
        (Some(SpecJson::Str(oid)), Some(SpecJson::Num(so_far)), Some(SpecJson::Num(since))) => Some(
            SpecEvent::Progress { oid, bytes_so_far: so_far, bytes_since_last: since },
        ),
        _ => None,
    }
}

/// Interpret the pairs of a `complete` object. An error result does not
/// arise here: nested objects are not accepted by the line parser, and this
/// side of the protocol never receives one.
pub open spec fn interp_complete(pairs: Seq<(Seq<u8>, SpecJson)>) -> Option<SpecEvent> {
    match jlookup(pairs, spec_oid_field_key()) {
        Some(SpecJson::Str(oid)) => match jlookup(pairs, spec_path_key()) {
            Some(SpecJson::Str(p)) => Some(
                SpecEvent::Complete { oid, result: Some(SpecOutcome::Path(p)) },
            ),
            None => Some(SpecEvent::Complete { oid, result: None }),
            _ => None,
        },
        _ => None,
    }
}

/// Interpret a parsed event object, dispatching on the `event` discriminant.
pub open spec fn interp_event(pairs: Seq<(Seq<u8>, SpecJson)>) -> Option<SpecEvent> {
    match jlookup(pairs, spec_event_key()) {
        Some(SpecJson::Str(tag)) => if tag == spec_init_tag() {
            interp_init(pairs)
        } else if tag == spec_upload_tag() {
            interp_upload(pairs)
        } else if tag == spec_download_tag() {
            interp_download(pairs)
        } else if tag == spec_progress_tag() {
            interp_progress(pairs)
        } else if tag == spec_complete_tag() {
            interp_complete(pairs)
        } else if tag == spec_terminate_tag() {
            Some(SpecEvent::Terminate)
        } else {
            None
        },
        _ => None,
    }
}

/// What a protocol line means: a strict parse of one flat JSON object,
/// then interpretation against the known event shapes.
pub open spec fn spec_decode_event(s: Seq<u8>) -> Option<SpecEvent> {
    match object_parse(s) {
        Some(ps) => interp_event(ps),
        None => None,
    }
}

/// Find the value of the last pair with the given key.
fn jget<'a>(pairs: &'a Vec<(Vec<u8>, JsonVal)>, key: &Vec<u8>) -> (r: Option<&'a JsonVal>)
    ensures
        match r {
            Some(v) => jlookup(obj_view(pairs@), key@) == Some(v.view_val()),
            None => jlookup(obj_view(pairs@), key@) is None,
        },
{
    let mut i: usize = pairs.len();
    proof {
        assert(obj_view(pairs@).take(pairs@.len() as int) =~= obj_view(pairs@));
    }
    while i > 0
        invariant
            i <= pairs@.len(),
            jlookup(obj_view(pairs@), key@) == jlookup(obj_view(pairs@).take(i as int), key@),
        decreases i,
    {
        i -= 1;
        let ghost pv = obj_view(pairs@);
        proof {
            assert(pv.take(i + 1).last() == pv[i as int]);
            assert(pv.take(i + 1).drop_last() =~= pv.take(i as int));
        }
        if crate::bytes::bytes_eq(&pairs[i].0, key) {
            return Some(&pairs[i].1);
        }
    }
    proof {
        assert(obj_view(pairs@).take(0) =~= Seq::<(Seq<u8>, SpecJson)>::empty());
    }
    None
}

fn decode_init(pairs: &Vec<(Vec<u8>, JsonVal)>) -> (r: Result<TransferEvent, EventError>)
    ensures
        match r {
            Ok(e) => interp_init(obj_view(pairs@)) == Some(e@),
            Err(_) => interp_init(obj_view(pairs@)) is None,
        },
{
    let op = match jget(pairs, &operation_key()) {
        Some(JsonVal::Str(t)) => t,
        _ => {
            return Err(EventError::Malformed);
        },
    };
    let remote = match jget(pairs, &remote_key()) {
        Some(JsonVal::Str(t)) => t,
        _ => {
            return Err(EventError::Malformed);
        },
    };
    let concurrent = match jget(pairs, &concurrent_key()) {
        Some(JsonVal::Bool(b)) => *b,
        _ => {
            return Err(EventError::Malformed);
        },
    };
    let concurrent_transfers: Option<u64> = match jget(pairs, &transfers_key()) {
        Some(JsonVal::Num(n)) => Some(*n),
        Some(JsonVal::Null) => None,
        None => None,
        _ => {
            return Err(EventError::Malformed);
        },
    };
    let operation = if crate::bytes::bytes_eq(op, &upload_tag()) {
        Operation::Upload
    } else if crate::bytes::bytes_eq(op, &download_tag()) {
        Operation::Download
    } else {
        return Err(EventError::Malformed);
    };
    Ok(
        TransferEvent::Init {
            operation,
            remote: copy_bytes(remote),
            concurrent,
            concurrent_transfers,
        },
    )
}

fn decode_upload(pairs: &Vec<(Vec<u8>, JsonVal)>) -> (r: Result<TransferEvent, EventError>)
    ensures
        match r {
            Ok(e) => interp_upload(obj_view(pairs@)) == Some(e@),
            Err(_) => interp_upload(obj_view(pairs@)) is None,
        },
{
    let oid = match jget(pairs, &oid_field_key()) {
        Some(JsonVal::Str(t)) => t,
        _ => {
            return Err(EventError::Malformed);
        },
    };
    let size = match jget(pairs, &size_field_key()) {
        Some(JsonVal::Num(n)) => *n,
        _ => {
            return Err(EventError::Malformed);
        },
    };
    let path = match jget(pairs, &path_key()) {
        Some(JsonVal::Str(t)) => t,
        _ => {
            return Err(EventError::Malformed);
        },
    };
    Ok(TransferEvent::Upload { oid: copy_bytes(oid), size, path: copy_bytes(path) })
}

fn decode_download(pairs: &Vec<(Vec<u8>, JsonVal)>) -> (r: Result<TransferEvent, EventError>)
    ensures
        match r {
            Ok(e) => interp_download(obj_view(pairs@)) == Some(e@),
            Err(_) => interp_download(obj_view(pairs@)) is None,
        },
{
    let oid = match jget(pairs, &oid_field_key()) {
        Some(JsonVal::Str(t)) => t,
        _ => {
            return Err(EventError::Malformed);
        },
    };
    let size = match jget(pairs, &size_field_key()) {
        Some(JsonVal::Num(n)) => *n,
        _ => {
            return Err(EventError::Malformed);
        },
    };
    Ok(TransferEvent::Download { oid: copy_bytes(oid), size })
}

fn decode_progress(pairs: &Vec<(Vec<u8>, JsonVal)>) -> (r: Result<TransferEvent, EventError>)
    ensures
        match r {
            Ok(e) => interp_progress(obj_view(pairs@)) == Some(e@),
            Err(_) => interp_progress(obj_view(pairs@)) is None,
        },
{
    let oid = match jget(pairs, &oid_field_key()) {
        Some(JsonVal::Str(t)) => t,
        _ => {
            return Err(EventError::Malformed);
        },
    };
    let bytes_so_far = match jget(pairs, &bytes_so_far_key()) {
        Some(JsonVal::Num(n)) => *n,
        _ => {
            return Err(EventError::Malformed);
        },
    };
    let bytes_since_last = match jget(pairs, &bytes_since_last_key()) {
        Some(JsonVal::Num(n)) => *n,
        _ => {
            return Err(EventError::Malformed);
        },
    };
    Ok(TransferEvent::Progress { oid: copy_bytes(oid), bytes_so_far, bytes_since_last })
}

fn decode_complete(pairs: &Vec<(Vec<u8>, JsonVal)>) -> (r: Result<TransferEvent, EventError>)
    ensures
        match r {
            Ok(e) => interp_complete(obj_view(pairs@)) == Some(e@),
            Err(_) => interp_complete(obj_view(pairs@)) is None,
        },
{
    let oid = match jget(pairs, &oid_field_key()) {
        Some(JsonVal::Str(t)) => t,
        _ => {
            return Err(EventError::Malformed);
        },
    };
    match jget(pairs, &path_key()) {
        Some(JsonVal::Str(p)) => Ok(
            TransferEvent::Complete {
                oid: copy_bytes(oid),
                result: Some(TransferOutcome::Path(copy_bytes(p))),
            },
        ),
        None => Ok(TransferEvent::Complete { oid: copy_bytes(oid), result: None }),
        _ => Err(EventError::Malformed),
    }
}

/// Decode one protocol line into an event, as [`spec_decode_event`]
/// describes. Fails exactly on lines that are not one well-formed event
/// object: a parse failure, an unknown or missing `event` discriminant, or a
/// required field that is missing or has the wrong shape.
pub fn decode_event(line: &Vec<u8>) -> (r: Result<TransferEvent, EventError>)
    ensures
        match r {
            Ok(e) => spec_decode_event(line@) == Some(e@),
            Err(_) => spec_decode_event(line@) is None,
        },
{
    let pairs = match parse_object(line) {
        Some(ps) => ps,
        None => {
            return Err(EventError::Malformed);
        },
    };
    let tag = match jget(&pairs, &event_key()) {
        Some(JsonVal::Str(t)) => t,
        _ => {
            return Err(EventError::Malformed);
        },
    };
    if crate::bytes::bytes_eq(tag, &init_tag()) {
        decode_init(&pairs)
    } else if crate::bytes::bytes_eq(tag, &upload_tag()) {
        decode_upload(&pairs)
    } else if crate::bytes::bytes_eq(tag, &download_tag()) {
        decode_download(&pairs)
    } else if crate::bytes::bytes_eq(tag, &progress_tag()) {
        decode_progress(&pairs)
    } else if crate::bytes::bytes_eq(tag, &complete_tag()) {
        decode_complete(&pairs)
    } else if crate::bytes::bytes_eq(tag, &terminate_tag()) {
        Ok(TransferEvent::Terminate)
    } else {
        Err(EventError::Malformed)
    }
}

/// Decoding the line an event encodes to yields the event back, for the
/// events the host side of the protocol sends: `init`, `upload`, `download`
/// and `terminate`. The premises hold of the protocol's values: remotes,
/// object identifiers and paths carry no control bytes.
pub proof fn lemma_event_round_trip(ev: SpecEvent)
    requires
        match ev {
            SpecEvent::Init { remote, .. } => json_clean(remote),
            SpecEvent::Upload { oid, path, .. } => json_clean(oid) && json_clean(path),
            SpecEvent::Download { oid, .. } => json_clean(oid),
            SpecEvent::Terminate => true,
            _ => false,
        },
    ensures
        spec_decode_event(spec_encode_event(ev)) == Some(ev),
{
    reveal_with_fuel(jlookup, 8);
    let pairs = spec_event_pairs(ev);
    assert(json_clean(spec_event_key()));
    assert(json_clean(spec_operation_key()));
    assert(json_clean(spec_remote_key()));
    assert(json_clean(spec_concurrent_key()));
    assert(json_clean(spec_transfers_key()));
    assert(json_clean(spec_oid_field_key()));
    assert(json_clean(spec_size_field_key()));
    assert(json_clean(spec_path_key()));
    assert(json_clean(spec_init_tag()));
    assert(json_clean(spec_upload_tag()));
    assert(json_clean(spec_download_tag()));
    assert(json_clean(spec_terminate_tag()));
    match ev {
        SpecEvent::Init { operation, remote, concurrent, concurrent_transfers } => {
            assert forall|i: int| 0 <= i < pairs.len() implies json_clean(
                (#[trigger] pairs[i]).0,
            ) && crate::json::value_clean(pairs[i].1) by {
                assert(json_clean(spec_op_tag(operation)));
                if i == 0 {
                    assert(pairs[i] == (spec_event_key(), SpecJson::Str(spec_init_tag())));
                } else if i == 1 {
                    assert(pairs[i] == (
                        spec_operation_key(),
                        SpecJson::Str(spec_op_tag(operation)),
                    ));
                } else if i == 2 {
                    assert(pairs[i] == (spec_remote_key(), SpecJson::Str(remote)));
                } else if i == 3 {
                    assert(pairs[i] == (spec_concurrent_key(), SpecJson::Bool(concurrent)));
                } else {
                    assert(pairs[i] == (
                        spec_transfers_key(),
                        match concurrent_transfers {
                            Some(n) => SpecJson::Num(n),
                            None => SpecJson::Null,
                        },
                    ));
                }
            }
            crate::json::lemma_object_round_trip(pairs);
            assert(jlookup(pairs, spec_event_key()) == Some(
                SpecJson::Str(spec_init_tag()),
            ));
            assert(jlookup(pairs, spec_operation_key()) == Some(
                SpecJson::Str(spec_op_tag(operation)),
            ));
            assert(jlookup(pairs, spec_remote_key()) == Some(SpecJson::Str(remote)));
            assert(jlookup(pairs, spec_concurrent_key()) == Some(
                SpecJson::Bool(concurrent),
            ));
            match concurrent_transfers {
                Some(n) => {
                    assert(jlookup(pairs, spec_transfers_key()) == Some(SpecJson::Num(n)));
                },
                None => {
                    assert(jlookup(pairs, spec_transfers_key()) == Some(SpecJson::Null));
                },
            }
            match operation {
                Operation::Upload => {
                    assert(spec_op_tag(operation) == spec_upload_tag());
                },
                Operation::Download => {
                    assert(spec_op_tag(operation) == spec_download_tag());
                    assert(spec_download_tag() != spec_upload_tag());
                },
            }
            assert(spec_init_tag() != spec_upload_tag());
            assert(interp_init(pairs) == Some(ev));
        },
        SpecEvent::Upload { oid, size, path } => {
            assert forall|i: int| 0 <= i < pairs.len() implies json_clean(
                (#[trigger] pairs[i]).0,
            ) && crate::json::value_clean(pairs[i].1) by {
                if i == 0 {
                    assert(pairs[i] == (spec_event_key(), SpecJson::Str(spec_upload_tag())));
                } else if i == 1 {
                    assert(pairs[i] == (spec_oid_field_key(), SpecJson::Str(oid)));
                } else if i == 2 {
                    assert(pairs[i] == (spec_size_field_key(), SpecJson::Num(size)));
                } else {
                    assert(pairs[i] == (spec_path_key(), SpecJson::Str(path)));
                }
            }
            crate::json::lemma_object_round_trip(pairs);
            assert(spec_path_key()[0] != spec_size_field_key()[0]);
            assert(spec_path_key() != spec_size_field_key());
            assert(spec_path_key()[0] != spec_oid_field_key()[0]);
            assert(jlookup(pairs, spec_event_key()) == Some(
                SpecJson::Str(spec_upload_tag()),
            ));
            assert(jlookup(pairs, spec_oid_field_key()) == Some(SpecJson::Str(oid)));
            assert(jlookup(pairs, spec_size_field_key()) == Some(SpecJson::Num(size)));
            assert(jlookup(pairs, spec_path_key()) == Some(SpecJson::Str(path)));
            assert(spec_upload_tag() != spec_init_tag());
            assert(interp_upload(pairs) == Some(ev));
        },
        SpecEvent::Download { oid, size } => {
            assert forall|i: int| 0 <= i < pairs.len() implies json_clean(
                (#[trigger] pairs[i]).0,
            ) && crate::json::value_clean(pairs[i].1) by {
                if i == 0 {
                    assert(pairs[i] == (
                        spec_event_key(),
                        SpecJson::Str(spec_download_tag()),
                    ));
                } else if i == 1 {
                    assert(pairs[i] == (spec_oid_field_key(), SpecJson::Str(oid)));
                } else {
                    assert(pairs[i] == (spec_size_field_key(), SpecJson::Num(size)));
                }
            }
            crate::json::lemma_object_round_trip(pairs);
            assert(jlookup(pairs, spec_event_key()) == Some(
                SpecJson::Str(spec_download_tag()),
            ));
            assert(jlookup(pairs, spec_oid_field_key()) == Some(SpecJson::Str(oid)));
            assert(jlookup(pairs, spec_size_field_key()) == Some(SpecJson::Num(size)));
            assert(spec_download_tag() != spec_init_tag());
            assert(spec_download_tag() != spec_upload_tag());
            assert(interp_download(pairs) == Some(ev));
        },
        SpecEvent::Terminate => {
            assert forall|i: int| 0 <= i < pairs.len() implies json_clean(
                (#[trigger] pairs[i]).0,
            ) && crate::json::value_clean(pairs[i].1) by {
                assert(pairs[i] == (spec_event_key(), SpecJson::Str(spec_terminate_tag())));
            }
            crate::json::lemma_object_round_trip(pairs);
            assert(jlookup(pairs, spec_event_key()) == Some(
                SpecJson::Str(spec_terminate_tag()),
            ));
            assert(spec_terminate_tag() != spec_init_tag());
            assert(spec_terminate_tag() != spec_upload_tag());
            assert(spec_terminate_tag() != spec_download_tag());
            assert(spec_terminate_tag() != spec_progress_tag());
            assert(spec_terminate_tag() != spec_complete_tag());
        },
        _ => {},
    }
}

} // verus!
