//! The transfer session state machine: the decisions of the custom-transfer
//! loop, separated from the input, output and backend plumbing that drives
//! them.
//!
//! A session starts uninitialized, is fixed to one operation by the first
//! `init` event, serves any number of matching transfer events, and closes on
//! `terminate`. Events that break this order are protocol violations and
//! fail the session; a backend failure on one object is reported as a
//! protocol-legal error completion and leaves the session running.

use crate::bytes::copy_bytes;
use crate::event::{Operation, SpecEvent, SpecOutcome, TransferEvent, TransferOutcome};
use crate::mapping::BlobMapping;
use crate::store::{
    spec_fetch, spec_store_failed_msg, spec_store_path, MemoryBlobStore, StoreModel,
};
use vstd::prelude::*;

verus! {

/// The error code of a failed backend operation.
pub const INTERNAL_ERROR: u64 = 500;

/// The error code of a download whose object has no known backend identifier.
pub const NOT_FOUND_ERROR: u64 = 404;

/// `no backend blob identifier mapped for object`.
pub open spec fn spec_unmapped_msg() -> Seq<u8> {
    seq![110u8, 111u8, 32u8, 98u8, 97u8, 99u8, 107u8, 101u8, 110u8, 100u8, 32u8, 98u8, 108u8, 111u8, 98u8, 32u8, 105u8, 100u8, 101u8, 110u8, 116u8, 105u8, 102u8, 105u8, 101u8, 114u8, 32u8, 109u8, 97u8, 112u8, 112u8, 101u8, 100u8, 32u8, 102u8, 111u8, 114u8, 32u8, 111u8, 98u8, 106u8, 101u8, 99u8, 116u8]
}

/// `no backend blob identifier mapped for object` as bytes.
pub fn unmapped_msg() -> (v: Vec<u8>)
    ensures
        v@ == spec_unmapped_msg(),
{
    let v: Vec<u8> = vec![110u8, 111u8, 32u8, 98u8, 97u8, 99u8, 107u8, 101u8, 110u8, 100u8, 32u8, 98u8, 108u8, 111u8, 98u8, 32u8, 105u8, 100u8, 101u8, 110u8, 116u8, 105u8, 102u8, 105u8, 101u8, 114u8, 32u8, 109u8, 97u8, 112u8, 112u8, 101u8, 100u8, 32u8, 102u8, 111u8, 114u8, 32u8, 111u8, 98u8, 106u8, 101u8, 99u8, 116u8];
    proof {
        assert(v@ =~= spec_unmapped_msg());
    }
    v
}

/// A structurally ill-ordered event stream: fatal to the session.
#[derive(PartialEq, Eq, Structural, Clone, Copy, Debug)]
pub enum Violation {
    /// An event arrived that the current state cannot accept.
    UnexpectedEvent,
    /// A second `init` arrived during an active session.
    UnexpectedInit,
}

/// Session lifecycle states.
#[derive(PartialEq, Eq, Structural, Clone, Copy, Debug)]
pub enum SessionState {
    Uninitialized,
    Active { operation: Operation },
    Closed,
}

/// What the machine asks its driver to do after consuming one event.
#[derive(PartialEq, Eq, Clone, Debug)]
pub enum StepAction {
    /// Emit the acknowledgement of `init`.
    Acknowledge,
    /// Store the object at `path`, then emit [`store_completion`].
    Store { oid: Vec<u8>, path: Vec<u8> },
    /// Resolve `oid` to a blob identifier and fetch it, then emit
    /// [`fetch_completion`]; or emit [`unmapped_completion`] when no
    /// identifier is mapped.
    Fetch { oid: Vec<u8>, size: u64 },
    /// Stop cleanly, emitting nothing more.
    Stop,
}

/// [`StepAction`] at the specification level.
pub ghost enum SpecAction {
    Acknowledge,
    Store { oid: Seq<u8>, path: Seq<u8> },
    Fetch { oid: Seq<u8>, size: u64 },
    Stop,
}

impl View for StepAction {
    type V = SpecAction;

    open spec fn view(&self) -> SpecAction {
        match self {
            StepAction::Acknowledge => SpecAction::Acknowledge,
            StepAction::Store { oid, path } => SpecAction::Store { oid: oid@, path: path@ },
            StepAction::Fetch { oid, size } => SpecAction::Fetch { oid: oid@, size: *size },
            StepAction::Stop => SpecAction::Stop,
        }
    }
}

/// One transition of the session state machine.
pub open spec fn spec_step(st: SessionState, ev: SpecEvent) -> Result<
    (SessionState, SpecAction),
    Violation,
> {
    match st {
        SessionState::Uninitialized => match ev {
            SpecEvent::Init { operation, .. } => Ok(
                (SessionState::Active { operation }, SpecAction::Acknowledge),
            ),
            _ => Err(Violation::UnexpectedEvent),
        },
        SessionState::Active { operation } => match ev {
            SpecEvent::Init { .. } => Err(Violation::UnexpectedInit),
            SpecEvent::Terminate => Ok((SessionState::Closed, SpecAction::Stop)),
            SpecEvent::Upload { oid, size: _, path } => if operation is Upload {
                Ok((st, SpecAction::Store { oid, path }))
            } else {
                Err(Violation::UnexpectedEvent)
            },
            SpecEvent::Download { oid, size } => if operation is Download {
                Ok((st, SpecAction::Fetch { oid, size }))
            } else {
                Err(Violation::UnexpectedEvent)
            },
            _ => Err(Violation::UnexpectedEvent),
        },
        SessionState::Closed => Err(Violation::UnexpectedEvent),
    }
}

/// Consume one event, as [`spec_step`] describes.
pub fn step(st: SessionState, ev: &TransferEvent) -> (r: Result<(SessionState, StepAction), Violation>)
    ensures
        match r {
            Ok(p) => spec_step(st, ev@) == Ok::<_, Violation>((p.0, p.1@)),
            Err(v) => spec_step(st, ev@) == Err::<(SessionState, SpecAction), _>(v),
        },
{
    match st {
        SessionState::Uninitialized => match ev {
            TransferEvent::Init { operation, .. } => Ok(
                (SessionState::Active { operation: *operation }, StepAction::Acknowledge),
            ),
            _ => Err(Violation::UnexpectedEvent),
        },
        SessionState::Active { operation } => match ev {
            TransferEvent::Init { .. } => Err(Violation::UnexpectedInit),
            TransferEvent::Terminate => Ok((SessionState::Closed, StepAction::Stop)),
            TransferEvent::Upload { oid, size: _, path } => match operation {
                Operation::Upload => Ok(
                    (st, StepAction::Store { oid: copy_bytes(oid), path: copy_bytes(path) }),
                ),
                Operation::Download => Err(Violation::UnexpectedEvent),
            },
            TransferEvent::Download { oid, size } => match operation {
                Operation::Download => Ok(
                    (st, StepAction::Fetch { oid: copy_bytes(oid), size: *size }),
                ),
                Operation::Upload => Err(Violation::UnexpectedEvent),
            },
            _ => Err(Violation::UnexpectedEvent),
        },
        SessionState::Closed => Err(Violation::UnexpectedEvent),
    }
}

/// The completion an upload gets: a bare completion on success — the
/// protocol carries no path for uploads — and an error completion carrying
/// the backend's message on failure. Either way the session goes on.
pub open spec fn spec_store_completion(oid: Seq<u8>, outcome: Result<Seq<u8>, Seq<u8>>) -> SpecEvent {
    match outcome {
        Ok(_) => SpecEvent::Complete { oid, result: None },
        Err(msg) => SpecEvent::Complete {
            oid,
            result: Some(SpecOutcome::Error { code: INTERNAL_ERROR, message: msg }),
        },
    }
}

/// Build the completion of an upload, as [`spec_store_completion`] describes.
pub fn store_completion(oid: &Vec<u8>, outcome: &Result<Vec<u8>, Vec<u8>>) -> (e: TransferEvent)
    ensures
        e@ == spec_store_completion(
            oid@,
            match outcome {
                Ok(id) => Ok(id@),
                Err(m) => Err(m@),
            },
        ),
{
    match outcome {
        Ok(_) => TransferEvent::Complete { oid: copy_bytes(oid), result: None },
        Err(m) => TransferEvent::Complete {
            oid: copy_bytes(oid),
            result: Some(
                TransferOutcome::Error { code: INTERNAL_ERROR, message: copy_bytes(m) },
            ),
        },
    }
}

/// The events a download gets: on success a progress report of the whole
/// object followed by a completion carrying the destination path; on failure
/// one error completion. Either way the session goes on.
pub open spec fn spec_fetch_completion(
    oid: Seq<u8>,
    size: u64,
    dest: Seq<u8>,
    outcome: Result<(), Seq<u8>>,
) -> Seq<SpecEvent> {
    match outcome {
        Ok(_) => seq![
            SpecEvent::Progress { oid, bytes_so_far: size, bytes_since_last: size },
            SpecEvent::Complete { oid, result: Some(SpecOutcome::Path(dest)) },
        ],
        Err(msg) => seq![
            SpecEvent::Complete {
                oid,
                result: Some(SpecOutcome::Error { code: INTERNAL_ERROR, message: msg }),
            },
        ],
    }
}

/// Build the completions of a download, as [`spec_fetch_completion`]
/// describes.
pub fn fetch_completion(
    oid: &Vec<u8>,
    size: u64,
    dest: &Vec<u8>,
    outcome: &Result<(), Vec<u8>>,
) -> (es: Vec<TransferEvent>)
    ensures
        events_view(es@) == spec_fetch_completion(
            oid@,
            size,
            dest@,
            match outcome {
                Ok(_) => Ok(()),
                Err(m) => Err(m@),
            },
        ),
{
    let mut es: Vec<TransferEvent> = Vec::new();
    match outcome {
        Ok(_) => {
            es.push(
                TransferEvent::Progress {
                    oid: copy_bytes(oid),
                    bytes_so_far: size,
                    bytes_since_last: size,
                },
            );
            es.push(
                TransferEvent::Complete {
                    oid: copy_bytes(oid),
                    result: Some(TransferOutcome::Path(copy_bytes(dest))),
                },
            );
            proof {
                assert(events_view(es@) =~= spec_fetch_completion(
                    oid@,
                    size,
                    dest@,
                    Ok::<(), Seq<u8>>(()),
                ));
            }
        },
        Err(m) => {
            es.push(
                TransferEvent::Complete {
                    oid: copy_bytes(oid),
                    result: Some(
                        TransferOutcome::Error { code: INTERNAL_ERROR, message: copy_bytes(m) },
                    ),
                },
            );
            proof {
                assert(events_view(es@) =~= spec_fetch_completion(
                    oid@,
                    size,
                    dest@,
                    Err::<(), Seq<u8>>(m@),
                ));
            }
        },
    }
    es
}

/// The completion of a download whose object has no mapped backend
/// identifier: a typed not-found failure, distinct from backend failures.
/// An unmapped object is reported, never guessed at by treating its protocol
/// identifier as a backend identifier.
pub open spec fn spec_unmapped_completion(oid: Seq<u8>) -> SpecEvent {
    SpecEvent::Complete {
        oid,
        result: Some(SpecOutcome::Error { code: NOT_FOUND_ERROR, message: spec_unmapped_msg() }),
    }
}

/// Build the not-found completion, as [`spec_unmapped_completion`] describes.
pub fn unmapped_completion(oid: &Vec<u8>) -> (e: TransferEvent)
    ensures
        e@ == spec_unmapped_completion(oid@),
{
    TransferEvent::Complete {
        oid: copy_bytes(oid),
        result: Some(
            TransferOutcome::Error { code: NOT_FOUND_ERROR, message: unmapped_msg() },
        ),
    }
}

/// A sequence of events at the specification level.
pub open spec fn events_view(s: Seq<TransferEvent>) -> Seq<SpecEvent> {
    Seq::new(s.len(), |i: int| s[i]@)
}

/// The destination a downloaded object is written to: the download folder,
/// a slash, the object identifier.
pub open spec fn spec_dest_path(dir: Seq<u8>, oid: Seq<u8>) -> Seq<u8> {
    dir + seq![47u8] + oid
}

/// Join the download folder and an object identifier.
pub fn dest_path(dir: &Vec<u8>, oid: &Vec<u8>) -> (r: Vec<u8>)
    ensures
        r@ == spec_dest_path(dir@, oid@),
{
    let mut r = copy_bytes(dir);
    r.push(47u8);
    let mut o = copy_bytes(oid);
    r.append(&mut o);
    proof {
        assert(r@ =~= spec_dest_path(dir@, oid@));
    }
    r
}

/// What one whole session does.
pub ghost struct RunResult {
    /// The response events, in order.
    pub outputs: Seq<SpecEvent>,
    /// The violation that failed the session, if one did.
    pub violation: Option<Violation>,
    /// The blob store as the session leaves it.
    pub store: StoreModel,
}

/// A whole session at the specification level: events consumed in order,
/// each fully processed before the next; a violation stops the session with
/// no further output; `terminate` stops it cleanly; a backend failure on one
/// object only adds its error completion.
pub open spec fn spec_run(
    st: SessionState,
    events: Seq<SpecEvent>,
    store: StoreModel,
    mapping: Map<Seq<u8>, Seq<u8>>,
    dir: Seq<u8>,
) -> RunResult
    decreases events.len(),
{
    if events.len() == 0 {
        RunResult { outputs: seq![], violation: None, store }
    } else {
        match spec_step(st, events[0]) {
            Err(v) => RunResult { outputs: seq![], violation: Some(v), store },
            Ok((st2, action)) => match action {
                SpecAction::Stop => RunResult { outputs: seq![], violation: None, store },
                SpecAction::Acknowledge => {
                    let rest = spec_run(st2, events.drop_first(), store, mapping, dir);
                    RunResult {
                        outputs: seq![SpecEvent::AcknowledgeInit] + rest.outputs,
                        ..rest
                    }
                },
                SpecAction::Store { oid, path } => match spec_store_path(store, path) {
                    Ok((id, store2)) => {
                        let rest = spec_run(st2, events.drop_first(), store2, mapping, dir);
                        RunResult {
                            outputs: seq![spec_store_completion(oid, Ok(id))] + rest.outputs,
                            ..rest
                        }
                    },
                    Err(msg) => {
                        let rest = spec_run(st2, events.drop_first(), store, mapping, dir);
                        RunResult {
                            outputs: seq![spec_store_completion(oid, Err(msg))] + rest.outputs,
                            ..rest
                        }
                    },
                },
                SpecAction::Fetch { oid, size } => {
                    if mapping.contains_key(oid) {
                        let dest = spec_dest_path(dir, oid);
                        let outcome = match spec_fetch(store, mapping[oid]) {
                            Ok(_) => Ok(()),
                            Err(msg) => Err(msg),
                        };
                        let rest = spec_run(st2, events.drop_first(), store, mapping, dir);
                        RunResult {
                            outputs: spec_fetch_completion(oid, size, dest, outcome)
                                + rest.outputs,
                            ..rest
                        }
                    } else {
                        let rest = spec_run(st2, events.drop_first(), store, mapping, dir);
                        RunResult {
                            outputs: seq![spec_unmapped_completion(oid)] + rest.outputs,
                            ..rest
                        }
                    }
                },
            },
        }
    }
}

/// Run a whole session against an in-memory blob store, as [`spec_run`]
/// describes. Used to exercise the machine end to end; the live driver
/// performs the same steps against the real backend.
pub fn run_session(
    events: &Vec<TransferEvent>,
    store: &mut MemoryBlobStore,
    mapping: &BlobMapping,
    dir: &Vec<u8>,
) -> (r: (Vec<TransferEvent>, Option<Violation>))
    requires
        old(store).wf(),
        mapping.wf(),
    ensures
        final(store).wf(),
        ({
            let res = spec_run(
                SessionState::Uninitialized,
                events_view(events@),
                old(store)@,
                mapping@,
                dir@,
            );
            &&& events_view(r.0@) == res.outputs
            &&& r.1 == res.violation
            &&& final(store)@ == res.store
        }),
{
    let ghost evs = events_view(events@);
    let ghost whole = spec_run(SessionState::Uninitialized, evs, old(store)@, mapping@, dir@);
    let mut outputs: Vec<TransferEvent> = Vec::new();
    let mut st = SessionState::Uninitialized;
    let mut i: usize = 0;
    proof {
        assert(evs.skip(0) =~= evs);
        assert(events_view(outputs@) =~= Seq::<SpecEvent>::empty());
        assert(Seq::<SpecEvent>::empty() + spec_run(st, evs, old(store)@, mapping@, dir@).outputs
            =~= spec_run(st, evs, old(store)@, mapping@, dir@).outputs);
    }
    while i < events.len()
        invariant
            i <= events@.len(),
            evs == events_view(events@),
            store.wf(),
            mapping.wf(),
            whole == spec_run(
                SessionState::Uninitialized,
                evs,
                old(store)@,
                mapping@,
                dir@,
            ),
            ({
                let rest = spec_run(st, evs.skip(i as int), store@, mapping@, dir@);
                &&& whole.outputs == events_view(outputs@) + rest.outputs
                &&& whole.violation == rest.violation
                &&& whole.store == rest.store
            }),
        decreases events@.len() - i,
    {
        let ghost rem = evs.skip(i as int);
        let ghost out0 = events_view(outputs@);
        proof {
            assert(rem[0] == evs[i as int]);
            assert(evs[i as int] == events@[i as int]@);
            assert(rem.drop_first() =~= evs.skip(i as int + 1));
        }
        let ev = &events[i];
        match step(st, ev) {
            Err(v) => {
                return (outputs, Some(v));
            },
            Ok((st2, action)) => {
                match action {
                    StepAction::Stop => {
                        return (outputs, None);
                    },
                    StepAction::Acknowledge => {
                        outputs.push(TransferEvent::AcknowledgeInit);
                        proof {
                            assert(events_view(outputs@) =~= out0.push(
                                SpecEvent::AcknowledgeInit,
                            ));
                            assert(out0 + (seq![SpecEvent::AcknowledgeInit] + spec_run(
                                st2,
                                rem.drop_first(),
                                store@,
                                mapping@,
                                dir@,
                            ).outputs) =~= events_view(outputs@) + spec_run(
                                st2,
                                rem.drop_first(),
                                store@,
                                mapping@,
                                dir@,
                            ).outputs);
                        }
                        st = st2;
                    },
                    StepAction::Store { oid, path } => {
                        let outcome = store.store_path(&path);
                        let done = store_completion(&oid, &outcome);
                        outputs.push(done);
                        proof {
                            let so = match outcome {
                                Ok(id) => Ok::<Seq<u8>, Seq<u8>>(id@),
                                Err(m) => Err::<Seq<u8>, Seq<u8>>(m@),
                            };
                            let c = spec_store_completion(oid@, so);
                            assert(events_view(outputs@) =~= out0.push(c));
                            assert(out0 + (seq![c] + spec_run(
                                st2,
                                rem.drop_first(),
                                store@,
                                mapping@,
                                dir@,
                            ).outputs) =~= events_view(outputs@) + spec_run(
                                st2,
                                rem.drop_first(),
                                store@,
                                mapping@,
                                dir@,
                            ).outputs);
                        }
                        st = st2;
                    },
                    StepAction::Fetch { oid, size } => {
                        match mapping.get(&oid) {
                            Some(blob_id) => {
                                let dest = dest_path(dir, &oid);
                                let outcome: Result<(), Vec<u8>> = match store.fetch(&blob_id) {
                                    Ok(_) => Ok(()),
                                    Err(m) => Err(m),
                                };
                                let mut es = fetch_completion(&oid, size, &dest, &outcome);
                                let ghost esv = events_view(es@);
                                outputs.append(&mut es);
                                proof {
                                    assert(events_view(outputs@) =~= out0 + esv);
                                    assert(out0 + (esv + spec_run(
                                        st2,
                                        rem.drop_first(),
                                        store@,
                                        mapping@,
                                        dir@,
                                    ).outputs) =~= (out0 + esv) + spec_run(
                                        st2,
                                        rem.drop_first(),
                                        store@,
                                        mapping@,
                                        dir@,
                                    ).outputs);
                                }
                                st = st2;
                            },
                            None => {
                                let done = unmapped_completion(&oid);
                                outputs.push(done);
                                proof {
                                    let c = spec_unmapped_completion(oid@);
                                    assert(events_view(outputs@) =~= out0.push(c));
                                    assert(out0 + (seq![c] + spec_run(
                                        st2,
                                        rem.drop_first(),
                                        store@,
                                        mapping@,
                                        dir@,
                                    ).outputs) =~= events_view(outputs@) + spec_run(
                                        st2,
                                        rem.drop_first(),
                                        store@,
                                        mapping@,
                                        dir@,
                                    ).outputs);
                                }
                                st = st2;
                            },
                        }
                    },
                }
            },
        }
        i += 1;
    }
    proof {
        assert(evs.skip(i as int) =~= Seq::<SpecEvent>::empty());
        assert(events_view(outputs@) + Seq::<SpecEvent>::empty() =~= events_view(outputs@));
    }
    (outputs, None)
}

/// A session that sees any event before `init` — an upload, say — fails at
/// once and emits no response at all.
pub proof fn lemma_no_output_before_init(
    events: Seq<SpecEvent>,
    store: StoreModel,
    mapping: Map<Seq<u8>, Seq<u8>>,
    dir: Seq<u8>,
)
    requires
        events.len() > 0,
        !(events[0] is Init),
    ensures
        spec_run(SessionState::Uninitialized, events, store, mapping, dir).outputs
            == Seq::<SpecEvent>::empty(),
        spec_run(SessionState::Uninitialized, events, store, mapping, dir).violation == Some(
            Violation::UnexpectedEvent,
        ),
        spec_run(SessionState::Uninitialized, events, store, mapping, dir).store == store,
{
}

/// A session fed `init(upload)`, one upload, and `terminate`, against a
/// store whose store call fails, emits exactly the acknowledgement and one
/// error completion for that object, then stops cleanly, leaving the store
/// untouched.
pub proof fn lemma_failed_store_session(
    remote: Seq<u8>,
    concurrent: bool,
    transfers: Option<u64>,
    oid: Seq<u8>,
    size: u64,
    path: Seq<u8>,
    store: StoreModel,
    mapping: Map<Seq<u8>, Seq<u8>>,
    dir: Seq<u8>,
)
    requires
        store.fail_store,
    ensures
        ({
            let events = seq![
                SpecEvent::Init {
                    operation: Operation::Upload,
                    remote,
                    concurrent,
                    concurrent_transfers: transfers,
                },
                SpecEvent::Upload { oid, size, path },
                SpecEvent::Terminate,
            ];
            let res = spec_run(SessionState::Uninitialized, events, store, mapping, dir);
            &&& res.outputs == seq![
                SpecEvent::AcknowledgeInit,
                SpecEvent::Complete {
                    oid,
                    result: Some(
                        SpecOutcome::Error {
                            code: INTERNAL_ERROR,
                            message: spec_store_failed_msg(),
                        },
                    ),
                },
            ]
            &&& res.violation is None
            &&& res.store == store
        }),
{
    let events = seq![
        SpecEvent::Init {
            operation: Operation::Upload,
            remote,
            concurrent,
            concurrent_transfers: transfers,
        },
        SpecEvent::Upload { oid, size, path },
        SpecEvent::Terminate,
    ];
    let e1 = events.drop_first();
    let e2 = e1.drop_first();
    assert(e1 =~= seq![
        SpecEvent::Upload { oid, size, path },
        SpecEvent::Terminate,
    ]);
    assert(e2 =~= seq![SpecEvent::Terminate]);
    let active = SessionState::Active { operation: Operation::Upload };
    let r2 = spec_run(active, e2, store, mapping, dir);
    assert(r2.outputs == Seq::<SpecEvent>::empty() && r2.violation is None && r2.store == store);
    let r1 = spec_run(active, e1, store, mapping, dir);
    let c = spec_store_completion(oid, Err(spec_store_failed_msg()));
    assert(spec_store_path(store, path) == Err::<(Seq<u8>, StoreModel), _>(
        spec_store_failed_msg(),
    ));
    assert(r1.outputs =~= seq![c] + r2.outputs);
    assert(seq![c] + r2.outputs =~= seq![c]);
    assert(r1.outputs =~= seq![c]);
    let r0 = spec_run(SessionState::Uninitialized, events, store, mapping, dir);
    assert(r0.outputs =~= seq![SpecEvent::AcknowledgeInit, c]);
}

} // verus!
