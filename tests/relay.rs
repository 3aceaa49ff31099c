use chat_relay::attachment::{attachment_path, decode_attachment, AttachmentError};
use chat_relay::catchers::unauthorized;
use chat_relay::messages::{normalize_id, IdError, NewMessageRequest, WireId, WireMessage};
use chat_relay::pipeline::{ingest_step, is_file, IngestAction, IngestEvent, IngestStage, RejectReason};
use chat_relay::registry::ClientRegistry;
use chat_relay::session::{on_inbound, on_write_result, InboundDecision, InboundFrame, OutboundDecision};
use std::collections::HashMap;

fn wire(chat: WireId, user: WireId, content: &str, data: Option<&str>, path: Option<&str>, kind: &str) -> WireMessage {
    WireMessage {
        chat_id: chat,
        user_id: user,
        content: content.to_string(),
        file_data: data.map(|s| s.to_string()),
        file_path: path.map(|s| s.to_string()),
        message_type: kind.to_string(),
    }
}

fn request(content: &str, data: Option<&str>, path: Option<&str>, kind: &str) -> NewMessageRequest {
    NewMessageRequest::from_wire(wire(WireId::Int(1), WireId::Int(1), content, data, path, kind)).unwrap()
}

/// Persisted records, as the message store would hold them.
#[derive(Debug, Clone, PartialEq)]
struct Record {
    chat_id: i32,
    user_id: i32,
    content: String,
    file_path: Option<String>,
    message_type: String,
}

/// Drives one message through the pipeline against in-memory stores, and
/// delivers a broadcast to every registered inbox.
fn ingest(
    m: &NewMessageRequest,
    registry: &ClientRegistry<usize>,
    inboxes: &mut Vec<Vec<NewMessageRequest>>,
    store: &mut Vec<Record>,
    files: &mut HashMap<String, Vec<u8>>,
    persist_ok: bool,
) -> Vec<IngestAction> {
    let mut taken = Vec::new();
    let (mut stage, mut action) = ingest_step(m, IngestStage::Validating, IngestEvent::Begin);
    loop {
        let event = match &action {
            IngestAction::WriteAttachment(bytes) => {
                files.insert(m.file_path.clone().unwrap(), bytes.clone());
                IngestEvent::AttachmentStored
            }
            IngestAction::Persist => {
                if persist_ok {
                    store.push(Record {
                        chat_id: m.chat_id,
                        user_id: m.user_id,
                        content: m.content.clone(),
                        file_path: m.file_path.clone(),
                        message_type: m.message_type.clone(),
                    });
                    IngestEvent::PersistSucceeded
                } else {
                    IngestEvent::PersistFailed
                }
            }
            IngestAction::Broadcast => {
                for (_, inbox) in registry.entries().iter() {
                    inboxes[*inbox].push(m.clone());
                }
                IngestEvent::BroadcastDone
            }
            _ => {
                taken.push(action);
                return taken;
            }
        };
        let next = ingest_step(m, stage, event);
        taken.push(action);
        stage = next.0;
        action = next.1;
    }
}

#[test]
fn unauthorized_body() {
    assert_eq!(unauthorized().message, "User unauthorized!");
}

#[test]
fn id_from_number_and_string_agree() {
    assert_eq!(normalize_id(&WireId::Int(42)), Ok(42));
    assert_eq!(normalize_id(&WireId::Text("42".to_string())), Ok(42));
    for v in [0, 7, -7, 1000, i32::MAX, i32::MIN] {
        assert_eq!(normalize_id(&WireId::Text(v.to_string())), normalize_id(&WireId::Int(v as i64)));
        assert_eq!(normalize_id(&WireId::Int(v as i64)), Ok(v));
    }
}

#[test]
fn id_string_forms() {
    assert_eq!(normalize_id(&WireId::Text("+7".to_string())), Ok(7));
    assert_eq!(normalize_id(&WireId::Text("-3".to_string())), Ok(-3));
    assert_eq!(normalize_id(&WireId::Text("2147483647".to_string())), Ok(i32::MAX));
    assert_eq!(normalize_id(&WireId::Text("-2147483648".to_string())), Ok(i32::MIN));
}

#[test]
fn id_string_rejections() {
    for s in ["", "abc", " 42", "42 ", "4_2", "-", "+", "2147483648", "1.5"] {
        assert_eq!(normalize_id(&WireId::Text(s.to_string())), Err(IdError::NotANumber), "{}", s);
    }
}

#[test]
fn id_other_types_rejected() {
    assert_eq!(normalize_id(&WireId::Other), Err(IdError::WrongType));
}

#[test]
fn id_wide_number_rejected() {
    assert_eq!(normalize_id(&WireId::Int(4294967338)), Err(IdError::OutOfRange));
    assert_eq!(normalize_id(&WireId::Int(2147483648)), Err(IdError::OutOfRange));
    assert_eq!(normalize_id(&WireId::Int(-2147483649)), Err(IdError::OutOfRange));
    assert_eq!(normalize_id(&WireId::Int(i32::MAX as i64)), Ok(i32::MAX));
    assert_eq!(normalize_id(&WireId::Int(i32::MIN as i64)), Ok(i32::MIN));
    assert_eq!(normalize_id(&WireId::Int(-1)), Ok(-1));
}

#[test]
fn from_wire_keeps_fields() {
    let w = wire(WireId::Text("5".to_string()), WireId::Int(9), "yo", None, Some("a.txt"), "text");
    let m = NewMessageRequest::from_wire(w).unwrap();
    assert_eq!(m.chat_id, 5);
    assert_eq!(m.user_id, 9);
    assert_eq!(m.content, "yo");
    assert_eq!(m.file_data, None);
    assert_eq!(m.file_path, Some("a.txt".to_string()));
    assert_eq!(m.message_type, "text");
}

#[test]
fn from_wire_errors() {
    let w = wire(WireId::Other, WireId::Text("x".to_string()), "", None, None, "text");
    assert_eq!(NewMessageRequest::from_wire(w), Err(IdError::WrongType));
    let w = wire(WireId::Int(1), WireId::Text("x".to_string()), "", None, None, "text");
    assert_eq!(NewMessageRequest::from_wire(w), Err(IdError::NotANumber));
}

#[test]
fn decode_data_url() {
    assert_eq!(decode_attachment("data:;base64,aGVsbG8="), Ok(b"hello".to_vec()));
    assert_eq!(decode_attachment(",aGk="), Ok(b"hi".to_vec()));
    assert_eq!(decode_attachment("meta,"), Ok(Vec::new()));
}

#[test]
fn decode_missing_comma() {
    assert_eq!(decode_attachment("aGVsbG8="), Err(AttachmentError::MissingSeparator));
    assert_eq!(decode_attachment(""), Err(AttachmentError::MissingSeparator));
}

#[test]
fn decode_invalid_base64() {
    assert_eq!(decode_attachment("data:;base64,@@@"), Err(AttachmentError::InvalidBase64));
    assert_eq!(decode_attachment("a,aGk=,aGk="), Err(AttachmentError::InvalidBase64));
}

#[test]
fn storage_path() {
    assert_eq!(attachment_path("note.txt"), "uploads/note.txt");
}

#[test]
fn file_kind() {
    assert!(is_file(&request("", None, None, "file")));
    assert!(!is_file(&request("", None, None, "text")));
    assert!(!is_file(&request("", None, None, "File")));
}

#[test]
fn text_message_persisted_then_broadcast() {
    let m = request("hi", None, None, "text");
    let (s, a) = ingest_step(&m, IngestStage::Validating, IngestEvent::Begin);
    assert_eq!((s, a), (IngestStage::Persisting, IngestAction::Persist));
    let (s, a) = ingest_step(&m, s, IngestEvent::PersistSucceeded);
    assert_eq!((s, a), (IngestStage::Broadcasting, IngestAction::Broadcast));
    let (s, a) = ingest_step(&m, s, IngestEvent::BroadcastDone);
    assert_eq!((s, a), (IngestStage::Finished, IngestAction::Finish));
}

#[test]
fn failed_persistence_is_not_broadcast() {
    let m = request("hi", None, None, "text");
    let (s, a) = ingest_step(&m, IngestStage::Persisting, IngestEvent::PersistFailed);
    assert_eq!((s, a), (IngestStage::Finished, IngestAction::Finish));
}

#[test]
fn file_without_path_is_discarded() {
    let m = request("", Some("data:;base64,aGVsbG8="), None, "file");
    let (s, a) = ingest_step(&m, IngestStage::Validating, IngestEvent::Begin);
    assert_eq!((s, a), (IngestStage::Finished, IngestAction::Discard(RejectReason::IncompleteFile)));
    for e in [IngestEvent::PersistSucceeded, IngestEvent::AttachmentStored, IngestEvent::BroadcastDone] {
        assert_eq!(ingest_step(&m, s, e), (IngestStage::Finished, IngestAction::Finish));
    }
}

#[test]
fn file_without_data_is_discarded() {
    let m = request("", None, Some("a.txt"), "file");
    let r = ingest_step(&m, IngestStage::Validating, IngestEvent::Begin);
    assert_eq!(r, (IngestStage::Finished, IngestAction::Discard(RejectReason::IncompleteFile)));
}

#[test]
fn file_with_bad_payload_is_discarded() {
    let m = request("", Some("no comma"), Some("a.txt"), "file");
    let r = ingest_step(&m, IngestStage::Validating, IngestEvent::Begin);
    let reason = RejectReason::Attachment(AttachmentError::MissingSeparator);
    assert_eq!(r, (IngestStage::Finished, IngestAction::Discard(reason)));
}

#[test]
fn text_message_ignores_file_fields() {
    let m = request("x", Some("garbage"), None, "text");
    let r = ingest_step(&m, IngestStage::Validating, IngestEvent::Begin);
    assert_eq!(r, (IngestStage::Persisting, IngestAction::Persist));
}

#[test]
fn attachment_failure_still_persists() {
    let m = request("", Some("x,aGk="), Some("a.txt"), "file");
    let (s, a) = ingest_step(&m, IngestStage::Validating, IngestEvent::Begin);
    assert_eq!((s, a), (IngestStage::StoringAttachment, IngestAction::WriteAttachment(b"hi".to_vec())));
    let r = ingest_step(&m, s, IngestEvent::AttachmentFailed);
    assert_eq!(r, (IngestStage::Persisting, IngestAction::Persist));
}

#[test]
fn unexpected_event_waits() {
    let m = request("", None, None, "text");
    let r = ingest_step(&m, IngestStage::Persisting, IngestEvent::BroadcastDone);
    assert_eq!(r, (IngestStage::Persisting, IngestAction::Wait));
}

#[test]
fn registry_register_and_deregister() {
    let mut reg: ClientRegistry<&str> = ClientRegistry::new();
    let a = reg.register("a");
    let b = reg.register("b");
    assert_ne!(a, b);
    assert_eq!(reg.len(), 2);
    assert!(reg.contains(a) && reg.contains(b));
    reg.deregister(a);
    assert!(!reg.contains(a));
    assert_eq!(reg.entries().clone(), vec![(b, "b")]);
    reg.deregister(a);
    assert_eq!(reg.len(), 1);
    let c = reg.register("c");
    assert!(c != a && c != b);
    assert_eq!(reg.entries().clone(), vec![(b, "b"), (c, "c")]);
}

#[test]
fn inbound_decisions() {
    assert_eq!(on_inbound(InboundFrame::Text("{}".to_string())), InboundDecision::Decode("{}".to_string()));
    assert_eq!(on_inbound(InboundFrame::NonText), InboundDecision::Skip);
    assert_eq!(on_inbound(InboundFrame::Ended), InboundDecision::EndSession);
}

#[test]
fn outbound_decisions() {
    assert_eq!(on_write_result(true), OutboundDecision::Continue);
    assert_eq!(on_write_result(false), OutboundDecision::EndSession);
}

#[test]
fn two_clients_receive_text_message() {
    let mut reg = ClientRegistry::new();
    let mut inboxes = vec![Vec::new(), Vec::new()];
    reg.register(0usize);
    reg.register(1usize);
    let (mut store, mut files) = (Vec::new(), HashMap::new());
    let w = wire(WireId::Int(1), WireId::Int(1), "hi", None, None, "text");
    let m = NewMessageRequest::from_wire(w).unwrap();
    ingest(&m, &reg, &mut inboxes, &mut store, &mut files, true);
    for inbox in &inboxes {
        assert_eq!(inbox.len(), 1);
        assert_eq!(inbox[0].content, "hi");
        assert_eq!(inbox[0].chat_id, 1);
    }
    assert_eq!(store, vec![Record { chat_id: 1, user_id: 1, content: "hi".to_string(), file_path: None, message_type: "text".to_string() }]);
}

#[test]
fn file_message_stored_and_broadcast() {
    let mut reg = ClientRegistry::new();
    let mut inboxes = vec![Vec::new(), Vec::new()];
    reg.register(0usize);
    reg.register(1usize);
    let (mut store, mut files) = (Vec::new(), HashMap::new());
    let w = wire(WireId::Int(1), WireId::Int(1), "", Some("data:;base64,aGVsbG8="), Some("note.txt"), "file");
    let m = NewMessageRequest::from_wire(w).unwrap();
    ingest(&m, &reg, &mut inboxes, &mut store, &mut files, true);
    assert_eq!(files.get("note.txt"), Some(&b"hello".to_vec()));
    assert_eq!(store.len(), 1);
    assert_eq!(store[0].file_path, Some("note.txt".to_string()));
    for inbox in &inboxes {
        assert_eq!(inbox.len(), 1);
        assert_eq!(inbox[0].file_path, Some("note.txt".to_string()));
    }
}

#[test]
fn incomplete_file_keeps_connection_usable() {
    let mut reg = ClientRegistry::new();
    let mut inboxes = vec![Vec::new()];
    reg.register(0usize);
    let (mut store, mut files) = (Vec::new(), HashMap::new());
    let bad = request("", Some("data:;base64,aGVsbG8="), None, "file");
    let frame = on_inbound(InboundFrame::Text("{}".to_string()));
    assert!(matches!(frame, InboundDecision::Decode(_)));
    ingest(&bad, &reg, &mut inboxes, &mut store, &mut files, true);
    assert!(store.is_empty() && inboxes[0].is_empty() && files.is_empty());
    let good = request("next", None, None, "text");
    ingest(&good, &reg, &mut inboxes, &mut store, &mut files, true);
    assert_eq!(store.len(), 1);
    assert_eq!(inboxes[0].len(), 1);
}

#[test]
fn disconnect_does_not_stop_other_deliveries() {
    let mut reg = ClientRegistry::new();
    let mut inboxes = vec![Vec::new(), Vec::new(), Vec::new()];
    reg.register(0usize);
    let gone = reg.register(1usize);
    reg.register(2usize);
    reg.deregister(gone);
    let (mut store, mut files) = (Vec::new(), HashMap::new());
    ingest(&request("after", None, None, "text"), &reg, &mut inboxes, &mut store, &mut files, true);
    assert_eq!(inboxes[0].len(), 1);
    assert!(inboxes[1].is_empty());
    assert_eq!(inboxes[2].len(), 1);
}

#[test]
fn sender_receives_own_message() {
    let mut reg = ClientRegistry::new();
    let mut inboxes = vec![Vec::new()];
    reg.register(0usize);
    let (mut store, mut files) = (Vec::new(), HashMap::new());
    let m = request("echo", None, None, "text");
    ingest(&m, &reg, &mut inboxes, &mut store, &mut files, true);
    assert_eq!(inboxes[0], vec![m]);
}

#[test]
fn persistence_failure_blocks_broadcast() {
    let mut reg = ClientRegistry::new();
    let mut inboxes = vec![Vec::new()];
    reg.register(0usize);
    let (mut store, mut files) = (Vec::new(), HashMap::new());
    let taken = ingest(&request("x", None, None, "text"), &reg, &mut inboxes, &mut store, &mut files, false);
    assert_eq!(taken, vec![IngestAction::Persist, IngestAction::Finish]);
    assert!(inboxes[0].is_empty());
}
