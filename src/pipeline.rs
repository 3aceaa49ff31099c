//! The per-message ingest decisions: validation, attachment storage,
//! persistence and broadcast, driven one outside event at a time.
use vstd::prelude::*;
use vstd::utf8::encode_utf8;
use crate::attachment::{decode_attachment, decoded_attachment, AttachmentError};
use crate::messages::NewMessageRequest;
use crate::registry::{lemma_registered_client_stays_recipient, without_handle};

verus! {

/// Why a message was dropped before anything was stored.
#[derive(Debug, PartialEq, Eq, Structural, Clone, Copy)]
pub enum RejectReason {
    /// A file message without `file_data` or without `file_path`.
    IncompleteFile,
    /// A file message whose attachment could not be decoded.
    Attachment(AttachmentError),
}

/// Where a message stands in its ingest.
#[derive(Debug, PartialEq, Eq, Structural, Clone, Copy)]
pub enum IngestStage {
    Validating,
    StoringAttachment,
    Persisting,
    Broadcasting,
    Finished,
}

/// What the outside world reports back to the pipeline.
#[derive(Debug, PartialEq, Eq, Structural, Clone, Copy)]
pub enum IngestEvent {
    /// The message has been decoded and enters the pipeline.
    Begin,
    AttachmentStored,
    AttachmentFailed,
    PersistSucceeded,
    PersistFailed,
    BroadcastDone,
}

/// What the pipeline asks the outside world to do next.
#[derive(Debug, PartialEq, Eq)]
pub enum IngestAction {
    /// Drop the message: nothing is persisted or broadcast.
    Discard(RejectReason),
    /// Write these bytes to the attachment store under the message's `file_path`.
    WriteAttachment(Vec<u8>),
    /// Append the message to the message store.
    Persist,
    /// Send the message to every registered client.
    Broadcast,
    /// The message is done with.
    Finish,
    /// The event does not answer the current stage: nothing to do.
    Wait,
}

/// The mathematical form of an [`IngestAction`].
pub ghost enum Step {
    Discard(RejectReason),
    WriteAttachment(Seq<u8>),
    Persist,
    Broadcast,
    Finish,
    Wait,
}

impl View for IngestAction {
    type V = Step;

    open spec fn view(&self) -> Step {
        match self {
            IngestAction::Discard(r) => Step::Discard(*r),
            IngestAction::WriteAttachment(b) => Step::WriteAttachment(b@),
            IngestAction::Persist => Step::Persist,
            IngestAction::Broadcast => Step::Broadcast,
            IngestAction::Finish => Step::Finish,
            IngestAction::Wait => Step::Wait,
        }
    }
}

pub open spec fn is_file_message(m: NewMessageRequest) -> bool {
    m.message_type@ == "file"@
}

/// The first step for a freshly received message, and the stage it leads to.
/// A file message needs both its data and its path. An attachment whose
/// payload does not decode drops the message, as a missing field does: it is
/// neither persisted nor broadcast. Only a failure to store a decoded
/// attachment lets the message go on to persistence.
pub open spec fn validation(m: NewMessageRequest) -> (IngestStage, Step) {
    if !is_file_message(m) {
        (IngestStage::Persisting, Step::Persist)
    } else if m.file_data is None || m.file_path is None {
        (IngestStage::Finished, Step::Discard(RejectReason::IncompleteFile))
    } else {
        match decoded_attachment(encode_utf8(m.file_data->0@)) {
            Ok(b) => (IngestStage::StoringAttachment, Step::WriteAttachment(b)),
            Err(e) => (IngestStage::Finished, Step::Discard(RejectReason::Attachment(e))),
        }
    }
}

/// The pipeline's transition: from a stage and the event that answers it, the
/// next stage and the step to take. An attachment that could not be stored
/// still lets the message be persisted; a message is broadcast only once it
/// has been persisted.
pub open spec fn transition(m: NewMessageRequest, stage: IngestStage, event: IngestEvent) -> (IngestStage, Step) {
    match (stage, event) {
        (IngestStage::Validating, IngestEvent::Begin) => validation(m),
        (IngestStage::StoringAttachment, IngestEvent::AttachmentStored) => (IngestStage::Persisting, Step::Persist),
        (IngestStage::StoringAttachment, IngestEvent::AttachmentFailed) => (IngestStage::Persisting, Step::Persist),
        (IngestStage::Persisting, IngestEvent::PersistSucceeded) => (IngestStage::Broadcasting, Step::Broadcast),
        (IngestStage::Persisting, IngestEvent::PersistFailed) => (IngestStage::Finished, Step::Finish),
        (IngestStage::Broadcasting, IngestEvent::BroadcastDone) => (IngestStage::Finished, Step::Finish),
        (IngestStage::Finished, _) => (IngestStage::Finished, Step::Finish),
        (s, _) => (s, Step::Wait),
    }
}

/// The steps taken for a sequence of events, starting from `stage`.
pub open spec fn run(m: NewMessageRequest, stage: IngestStage, events: Seq<IngestEvent>) -> Seq<Step>
    decreases events.len(),
{
    if events.len() == 0 {
        Seq::empty()
    } else {
        let (next, step) = transition(m, stage, events[0]);
        seq![step] + run(m, next, events.drop_first())
    }
}

/// Whether `m` is a file message.
pub fn is_file(m: &NewMessageRequest) -> (r: bool)
    ensures
        r == is_file_message(*m),
{
    let file = String::from_str("file");
    m.message_type == file
}

fn validate(m: &NewMessageRequest) -> (r: (IngestStage, IngestAction))
    ensures
        (r.0, r.1@) == validation(*m),
{
    if !is_file(m) {
        return (IngestStage::Persisting, IngestAction::Persist);
    }
    match (&m.file_data, &m.file_path) {
        (Some(data), Some(_)) => match decode_attachment(data.as_str()) {
            Ok(b) => (IngestStage::StoringAttachment, IngestAction::WriteAttachment(b)),
            Err(e) => (IngestStage::Finished, IngestAction::Discard(RejectReason::Attachment(e))),
        },
        _ => (IngestStage::Finished, IngestAction::Discard(RejectReason::IncompleteFile)),
    }
}

/// Advances the ingest of `m` from `stage` on `event`: returns the next stage
/// and the action to perform.
pub fn ingest_step(m: &NewMessageRequest, stage: IngestStage, event: IngestEvent) -> (r: (IngestStage, IngestAction))
    ensures
        (r.0, r.1@) == transition(*m, stage, event),
{
    match (stage, event) {
        (IngestStage::Validating, IngestEvent::Begin) => validate(m),
        (IngestStage::StoringAttachment, IngestEvent::AttachmentStored) => (IngestStage::Persisting, IngestAction::Persist),
        (IngestStage::StoringAttachment, IngestEvent::AttachmentFailed) => (IngestStage::Persisting, IngestAction::Persist),
        (IngestStage::Persisting, IngestEvent::PersistSucceeded) => (IngestStage::Broadcasting, IngestAction::Broadcast),
        (IngestStage::Persisting, IngestEvent::PersistFailed) => (IngestStage::Finished, IngestAction::Finish),
        (IngestStage::Broadcasting, IngestEvent::BroadcastDone) => (IngestStage::Finished, IngestAction::Finish),
        (IngestStage::Finished, _) => (IngestStage::Finished, IngestAction::Finish),
        (s, _) => (s, IngestAction::Wait),
    }
}

proof fn lemma_run_len(m: NewMessageRequest, stage: IngestStage, events: Seq<IngestEvent>)
    ensures
        run(m, stage, events).len() == events.len(),
    decreases events.len(),
{
    if events.len() > 0 {
        lemma_run_len(m, transition(m, stage, events[0]).0, events.drop_first());
    }
}

proof fn lemma_finished_only_finishes(m: NewMessageRequest, events: Seq<IngestEvent>)
    ensures
        forall|i: int| 0 <= i < events.len() ==> #[trigger] run(m, IngestStage::Finished, events)[i] == Step::Finish,
    decreases events.len(),
{
    if events.len() > 0 {
        lemma_finished_only_finishes(m, events.drop_first());
        lemma_run_len(m, IngestStage::Finished, events.drop_first());
        let rest = run(m, IngestStage::Finished, events.drop_first());
        assert forall|i: int| 0 <= i < events.len() implies #[trigger] run(m, IngestStage::Finished, events)[i] == Step::Finish by {
            if i > 0 {
                assert(run(m, IngestStage::Finished, events)[i] == rest[i - 1]);
            }
        }
    }
}

/// A file message that lacks its path or its data is never persisted and never
/// broadcast, whatever events follow: it is discarded as soon as it begins.
pub proof fn lemma_incomplete_file_never_stored(m: NewMessageRequest, events: Seq<IngestEvent>)
    requires
        is_file_message(m),
        m.file_data is None || m.file_path is None,
    ensures
        forall|i: int| 0 <= i < events.len() ==> {
            let s = #[trigger] run(m, IngestStage::Validating, events)[i];
            s != Step::Persist && s != Step::Broadcast
        },
    decreases events.len(),
{
    if events.len() > 0 {
        let steps = run(m, IngestStage::Validating, events);
        let rest = events.drop_first();
        if events[0] == IngestEvent::Begin {
            lemma_finished_only_finishes(m, rest);
            lemma_run_len(m, IngestStage::Finished, rest);
            assert forall|i: int| 0 <= i < events.len() implies {
                let s = #[trigger] steps[i];
                s != Step::Persist && s != Step::Broadcast
            } by {
                if i > 0 {
                    assert(steps[i] == run(m, IngestStage::Finished, rest)[i - 1]);
                }
            }
        } else {
            lemma_incomplete_file_never_stored(m, rest);
            lemma_run_len(m, IngestStage::Validating, rest);
            assert forall|i: int| 0 <= i < events.len() implies {
                let s = #[trigger] steps[i];
                s != Step::Persist && s != Step::Broadcast
            } by {
                if i > 0 {
                    assert(steps[i] == run(m, IngestStage::Validating, rest)[i - 1]);
                }
            }
        }
    }
}

/// A broadcast is only ever asked for right after the message store reported
/// that the message was persisted.
pub proof fn lemma_broadcast_follows_persistence(m: NewMessageRequest, stage: IngestStage, event: IngestEvent)
    ensures
        transition(m, stage, event).1 == Step::Broadcast ==> stage == IngestStage::Persisting
            && event == IngestEvent::PersistSucceeded,
{
}

/// A message that is not a file message is persisted first, and broadcast once
/// that succeeded.
pub proof fn lemma_text_message_is_persisted_then_broadcast(m: NewMessageRequest)
    requires
        !is_file_message(m),
    ensures
        run(m, IngestStage::Validating, seq![IngestEvent::Begin, IngestEvent::PersistSucceeded, IngestEvent::BroadcastDone])
            == seq![Step::Persist, Step::Broadcast, Step::Finish],
{
    let events = seq![IngestEvent::Begin, IngestEvent::PersistSucceeded, IngestEvent::BroadcastDone];
    assert(events.drop_first() =~= seq![IngestEvent::PersistSucceeded, IngestEvent::BroadcastDone]);
    assert(events.drop_first().drop_first() =~= seq![IngestEvent::BroadcastDone]);
    assert(events.drop_first().drop_first().drop_first() =~= Seq::<IngestEvent>::empty());
    let e3 = seq![IngestEvent::BroadcastDone];
    let e2 = seq![IngestEvent::PersistSucceeded, IngestEvent::BroadcastDone];
    assert(run(m, IngestStage::Finished, Seq::<IngestEvent>::empty()) =~= Seq::<Step>::empty());
    assert(run(m, IngestStage::Broadcasting, e3) =~= seq![Step::Finish]);
    assert(run(m, IngestStage::Persisting, e2) =~= seq![Step::Broadcast, Step::Finish]);
    assert(run(m, IngestStage::Validating, events) =~= seq![Step::Persist, Step::Broadcast, Step::Finish]);
}

/// A text message submitted on a connection registered under `h` is persisted
/// and then broadcast, as itself, to a snapshot that holds that connection, even
/// when another connection has left in between; once the broadcast is done the
/// ingest finishes.
pub proof fn lemma_text_message_reaches_sender<C>(
    m: NewMessageRequest,
    others: Seq<(u64, C)>,
    h: u64,
    c: C,
    gone: u64,
)
    requires
        !is_file_message(m),
        gone != h,
    ensures
        run(m, IngestStage::Validating, seq![IngestEvent::Begin, IngestEvent::PersistSucceeded, IngestEvent::BroadcastDone])
            == seq![Step::Persist, Step::Broadcast, Step::Finish],
        without_handle(others.push((h, c)), gone).contains((h, c)),
{
    lemma_text_message_is_persisted_then_broadcast(m);
    lemma_registered_client_stays_recipient(others, h, c, gone);
}

} // verus!
