use std::cell::RefCell;
use std::collections::VecDeque;
use std::rc::Rc;

use dc_rpc_rs::{
    update_client, Backoff, Channel, Client, Connection, Document, Error, Message, MessageType,
    Notification, PendingRequests, RequestStatus, RichPresence, State,
};

#[derive(Default)]
struct Wire {
    open: bool,
    refuse_open: bool,
    refuse_writes: bool,
    inbound: VecDeque<u8>,
    written: Vec<Vec<u8>>,
}

#[derive(Clone, Default)]
struct Scripted(Rc<RefCell<Wire>>);

impl Connection for Scripted {
    fn open(&mut self) -> bool {
        let mut w = self.0.borrow_mut();
        if !w.refuse_open {
            w.open = true;
        }
        w.open
    }

    fn is_open(&self) -> bool {
        self.0.borrow().open
    }

    fn close(&mut self) {
        self.0.borrow_mut().open = false;
    }

    fn read(&mut self, buffer: &mut [u8]) -> bool {
        let mut w = self.0.borrow_mut();
        if !w.open || w.inbound.len() < buffer.len() {
            return false;
        }
        for b in buffer.iter_mut() {
            *b = w.inbound.pop_front().unwrap();
        }
        true
    }

    fn write(&mut self, buffer: &[u8]) -> bool {
        let mut w = self.0.borrow_mut();
        if !w.open || w.refuse_writes {
            return false;
        }
        w.written.push(buffer.to_vec());
        true
    }
}

fn frame(kind: MessageType, doc: Document) -> Vec<u8> {
    Message::new(kind, doc).encode().unwrap()
}

fn ready_frame() -> Vec<u8> {
    let mut doc = Document::new();
    doc.set_str("cmd", "DISPATCH");
    doc.set_str("evt", "READY");
    frame(MessageType::Frame, doc)
}

fn push(wire: &Scripted, bytes: &[u8]) {
    wire.0.borrow_mut().inbound.extend(bytes.iter().copied());
}

fn connected_client(app_id: &str) -> (Client<Scripted>, Scripted) {
    let wire = Scripted::default();
    let mut client = Client::with_connection(wire.clone(), app_id);
    client.open();
    push(&wire, &ready_frame());
    client.open();
    assert!(client.is_open());
    client.take_notifications();
    wire.0.borrow_mut().written.clear();
    (client, wire)
}

#[test]
fn handshake_then_ready_connects() {
    let wire = Scripted::default();
    let mut client = Client::with_connection(wire.clone(), "42");
    assert_eq!(client.state(), State::Disconnected);
    client.open();
    assert_eq!(client.state(), State::SentHandshake);
    let written = wire.0.borrow().written.clone();
    assert_eq!(written.len(), 1);
    let (hs, _) = Message::decode(&written[0]).unwrap().unwrap();
    assert_eq!(hs.ty(), MessageType::Handshake);
    assert_eq!(hs.payload(), "{\"v\":1,\"client_id\":\"42\"}");

    push(&wire, &ready_frame());
    client.open();
    assert_eq!(client.state(), State::Connected);
    assert!(client.is_open());
    assert_eq!(client.take_notifications(), vec![Notification::Connected]);
}

#[test]
fn other_frames_do_not_connect() {
    let wire = Scripted::default();
    let mut client = Client::with_connection(wire.clone(), "42");
    client.open();
    let mut doc = Document::new();
    doc.set_str("cmd", "DISPATCH");
    doc.set_str("evt", "ERROR");
    push(&wire, &frame(MessageType::Frame, doc));
    client.open();
    assert_eq!(client.state(), State::SentHandshake);
    assert!(client.take_notifications().is_empty());
}

#[test]
fn refused_transport_stays_disconnected() {
    let wire = Scripted::default();
    wire.0.borrow_mut().refuse_open = true;
    let mut client = Client::with_connection(wire.clone(), "42");
    client.open();
    assert_eq!(client.state(), State::Disconnected);
    assert!(wire.0.borrow().written.is_empty());
    assert_eq!(
        client.take_notifications(),
        vec![Notification::Failed(Error::PeerUnavailable)]
    );
}

#[test]
fn failed_handshake_write_closes() {
    let wire = Scripted::default();
    wire.0.borrow_mut().refuse_writes = true;
    let mut client = Client::with_connection(wire.clone(), "42");
    client.open();
    assert_eq!(client.state(), State::Disconnected);
    assert!(!wire.0.borrow().open);
    assert!(client.take_notifications().is_empty());
}

#[test]
fn close_frame_reports_code_and_message() {
    let (mut client, wire) = connected_client("42");
    let mut doc = Document::new();
    doc.set_int("code", 4000);
    doc.set_str("message", "Invalid Client ID");
    push(&wire, &frame(MessageType::Close, doc));
    assert!(client.read().is_none());
    assert_eq!(client.state(), State::Disconnected);
    client.close();
    client.close();
    assert_eq!(
        client.take_notifications(),
        vec![
            Notification::Failed(Error::ConnectionClosed {
                code: 4000,
                message: "Invalid Client ID".to_string()
            }),
            Notification::Disconnected,
        ]
    );
}

#[test]
fn close_frame_without_fields_uses_defaults() {
    let (mut client, wire) = connected_client("42");
    push(&wire, &frame(MessageType::Close, Document::new()));
    assert!(client.read().is_none());
    assert_eq!(
        client.take_notifications(),
        vec![
            Notification::Failed(Error::ConnectionClosed { code: 0, message: "<none>".to_string() }),
            Notification::Disconnected,
        ]
    );
}

#[test]
fn close_is_notified_once() {
    let (mut client, _wire) = connected_client("42");
    client.close();
    client.close();
    assert_eq!(client.state(), State::Disconnected);
    assert_eq!(client.take_notifications(), vec![Notification::Disconnected]);
}

#[test]
fn ping_is_answered_with_pong() {
    let (mut client, wire) = connected_client("42");
    let mut doc = Document::new();
    doc.set_str("x", "1");
    push(&wire, &frame(MessageType::Ping, doc));
    let mut doc = Document::new();
    doc.set_str("cmd", "SOMETHING");
    push(&wire, &frame(MessageType::Frame, doc));
    let got = client.read().unwrap();
    assert_eq!(got.value("cmd").as_deref(), Some("SOMETHING"));
    let written = wire.0.borrow().written.clone();
    assert_eq!(written.len(), 1);
    let (pong, _) = Message::decode(&written[0]).unwrap().unwrap();
    assert_eq!(pong.ty(), MessageType::Pong);
    assert_eq!(pong.payload(), "{\"x\":\"1\"}");
    assert_eq!(client.state(), State::Connected);
}

#[test]
fn pong_is_skipped_and_nothing_is_none() {
    let (mut client, wire) = connected_client("42");
    push(&wire, &frame(MessageType::Pong, Document::new()));
    assert!(client.read().is_none());
    assert_eq!(client.state(), State::Connected);
    assert!(wire.0.borrow().written.is_empty());
    assert!(client.take_notifications().is_empty());
}

#[test]
fn handshake_from_peer_is_invalid() {
    let (mut client, wire) = connected_client("42");
    push(&wire, &frame(MessageType::Handshake, Document::new()));
    assert!(client.read().is_none());
    assert_eq!(client.state(), State::Disconnected);
    let notes = client.take_notifications();
    assert_eq!(notes.len(), 2);
    assert!(matches!(notes[0], Notification::Failed(Error::InvalidMessage(_))));
    assert_eq!(notes[1], Notification::Disconnected);
}

#[test]
fn dropped_channel_is_pipe_closed() {
    let (mut client, wire) = connected_client("42");
    wire.0.borrow_mut().open = false;
    assert!(client.read().is_none());
    assert_eq!(client.state(), State::Disconnected);
    let notes = client.take_notifications();
    assert!(matches!(notes[0], Notification::Failed(Error::PipeClosed(_))));
    assert_eq!(notes[1], Notification::Disconnected);
}

#[test]
fn garbage_frame_is_reported() {
    let (mut client, wire) = connected_client("42");
    push(&wire, &[9, 0, 0, 0, 0, 0, 0, 0]);
    assert!(client.read().is_none());
    assert_eq!(client.state(), State::Disconnected);
    let notes = client.take_notifications();
    assert_eq!(notes[0], Notification::Failed(Error::FormatError(9)));
}

#[test]
fn cycle_answers_ping_before_queued_frames() {
    let (mut client, wire) = connected_client("42");
    let mut backoff = Backoff::new(1000);
    let mut outbox = VecDeque::new();
    let mut doc = Document::new();
    doc.set_str("cmd", "FIRST");
    outbox.push_back(Message::new(MessageType::Frame, doc));
    let mut doc = Document::new();
    doc.set_str("cmd", "SECOND");
    outbox.push_back(Message::new(MessageType::Frame, doc));
    push(&wire, &frame(MessageType::Ping, Document::new()));
    let mut doc = Document::new();
    doc.set_str("evt", "ACTIVITY_JOIN");
    push(&wire, &frame(MessageType::Frame, doc));

    let frames = update_client(&mut client, &mut backoff, 10_000, &mut outbox);
    assert_eq!(frames.len(), 1);
    assert_eq!(frames[0].value("evt").as_deref(), Some("ACTIVITY_JOIN"));
    assert!(outbox.is_empty());
    let written = wire.0.borrow().written.clone();
    assert_eq!(written.len(), 3);
    let kinds: Vec<MessageType> =
        written.iter().map(|b| Message::decode(b).unwrap().unwrap().0.ty()).collect();
    assert_eq!(kinds, vec![MessageType::Pong, MessageType::Frame, MessageType::Frame]);
    let second = Message::decode(&written[1]).unwrap().unwrap().0;
    assert_eq!(second.value("cmd").as_deref(), Some("FIRST"));
}

#[test]
fn refused_write_keeps_message_queued() {
    let (mut client, wire) = connected_client("42");
    let mut backoff = Backoff::new(1000);
    let mut outbox = VecDeque::new();
    outbox.push_back(Message::new(MessageType::Frame, Document::new()));
    wire.0.borrow_mut().refuse_writes = true;
    let frames = update_client(&mut client, &mut backoff, 0, &mut outbox);
    assert!(frames.is_empty());
    assert_eq!(outbox.len(), 1);
    wire.0.borrow_mut().refuse_writes = false;
    update_client(&mut client, &mut backoff, 0, &mut outbox);
    assert!(outbox.is_empty());
    assert_eq!(wire.0.borrow().written.len(), 1);
}

#[test]
fn cycle_reconnects_only_after_backoff() {
    let wire = Scripted::default();
    wire.0.borrow_mut().refuse_open = true;
    let mut client = Client::with_connection(wire.clone(), "42");
    let mut backoff = Backoff::new(1000);
    let mut outbox = VecDeque::new();
    update_client(&mut client, &mut backoff, 5_000, &mut outbox);
    assert_eq!(backoff.last_attempt(), Some(5_000));
    update_client(&mut client, &mut backoff, 5_999, &mut outbox);
    assert_eq!(backoff.last_attempt(), Some(5_000));
    wire.0.borrow_mut().refuse_open = false;
    update_client(&mut client, &mut backoff, 6_000, &mut outbox);
    assert_eq!(backoff.last_attempt(), Some(6_000));
    assert_eq!(client.state(), State::SentHandshake);
}

#[test]
fn backoff_spaces_attempts() {
    let mut b = Backoff::new(1000);
    assert_eq!(b.last_attempt(), None);
    assert!(b.try_attempt(0));
    assert!(!b.try_attempt(999));
    assert!(b.try_attempt(1000));
    assert!(!b.try_attempt(500));
    assert!(b.try_attempt(2500));
    assert_eq!(b.last_attempt(), Some(2500));
}

#[test]
fn response_goes_only_to_its_waiter() {
    let mut table = PendingRequests::new();
    assert!(table.register("abc", None));
    assert!(table.register("xyz", None));
    assert!(!table.register("abc", None));
    let mut doc = Document::new();
    doc.set_str("nonce", "abc");
    doc.set_str("evt", "DONE");
    assert!(table.deliver(Message::new(MessageType::Frame, doc)));
    assert!(matches!(table.poll("xyz", 0), RequestStatus::Waiting));
    match table.poll("abc", 0) {
        RequestStatus::Delivered(m) => assert_eq!(m.value("evt").as_deref(), Some("DONE")),
        _ => panic!("expected the response"),
    }
    assert!(!table.contains("abc"));
    assert!(table.contains("xyz"));
}

#[test]
fn unmatched_response_is_dropped_quietly() {
    let mut table = PendingRequests::new();
    assert!(table.register("abc", None));
    let mut doc = Document::new();
    doc.set_str("nonce", "zzz");
    assert!(!table.deliver(Message::new(MessageType::Frame, doc)));
    assert!(!table.deliver(Message::new(MessageType::Frame, Document::new())));
    assert_eq!(table.len(), 1);
    assert!(matches!(table.poll("abc", 0), RequestStatus::Waiting));
    assert!(matches!(table.poll("nope", 0), RequestStatus::Unknown));
}

#[test]
fn second_response_is_not_delivered_twice() {
    let mut table = PendingRequests::new();
    table.register("abc", None);
    let mut doc = Document::new();
    doc.set_str("nonce", "abc");
    assert!(table.deliver(Message::new(MessageType::Frame, doc)));
    let mut doc = Document::new();
    doc.set_str("nonce", "abc");
    assert!(!table.deliver(Message::new(MessageType::Frame, doc)));
}

#[test]
fn request_without_response_times_out() {
    let mut table = PendingRequests::new();
    let mut payload = Document::new();
    payload.set_int("v", 1);
    let m = table.request(MessageType::Handshake, payload, "n1", Some(50)).unwrap();
    assert_eq!(m.ty(), MessageType::Handshake);
    assert_eq!(m.value("nonce").as_deref(), Some("n1"));
    assert_eq!(m.payload(), "{\"v\":1,\"nonce\":\"n1\"}");
    assert!(table.contains("n1"));
    assert!(matches!(table.poll("n1", 49), RequestStatus::Waiting));
    assert!(matches!(table.poll("n1", 50), RequestStatus::TimedOut));
    assert!(!table.contains("n1"));
    assert!(table.request(MessageType::Frame, Document::new(), "n1", None).is_some());
    assert!(table.request(MessageType::Frame, Document::new(), "n1", None).is_none());
}

#[test]
fn delivery_wins_over_a_passed_deadline() {
    let mut table = PendingRequests::new();
    table.register("n2", Some(10));
    let mut doc = Document::new();
    doc.set_str("nonce", "n2");
    table.deliver(Message::new(MessageType::Frame, doc));
    assert!(matches!(table.poll("n2", 100), RequestStatus::Delivered(_)));
}

#[test]
fn fresh_requests_carry_their_nonce() {
    let mut table = PendingRequests::new();
    let (n, m) = table.request_fresh(MessageType::Frame, Document::new(), None);
    let m = m.expect("an empty table takes any nonce");
    assert_eq!(n.len(), 36);
    assert_eq!(m.value("nonce"), Some(n.clone()));
    assert!(table.contains(&n));
    table.clear();
    assert_eq!(table.len(), 0);
}

#[test]
fn presence_request_payload() {
    let mut rp = RichPresence::default();
    rp.state = "Doing stuff".to_string();
    rp.start_timestamp = Some(1_600_000_000);
    rp.party_size = 2;
    rp.party_max = 4;
    let m = Message::rich_presence_with_nonce(Some(rp), 77, "n");
    assert_eq!(m.ty(), MessageType::Frame);
    assert_eq!(
        m.payload(),
        "{\"nonce\":\"n\",\"cmd\":\"SET_ACTIVITY\",\"args\":{\"pid\":77,\"activity\":{\"state\":\"Doing stuff\",\"instance\":false,\"timestamps\":{\"start\":1600000000},\"party\":{\"size\":[2,4]}}}}"
    );
}

#[test]
fn clearing_presence_sends_no_activity() {
    let m = Message::rich_presence_with_nonce(None, 5, "k");
    assert_eq!(m.payload(), "{\"nonce\":\"k\",\"cmd\":\"SET_ACTIVITY\",\"args\":{\"pid\":5}}");
    let fresh = Message::rich_presence(None, 5);
    assert_eq!(fresh.value("cmd").as_deref(), Some("SET_ACTIVITY"));
    assert_eq!(fresh.value("nonce").map(|n| n.len()), Some(36));
}

#[test]
fn default_connection_client() {
    let client: Client<Scripted> = Client::new("app");
    assert_eq!(client.state(), State::Disconnected);
}

#[test]
fn refused_pong_is_a_transport_error() {
    let (mut client, wire) = connected_client("42");
    push(&wire, &frame(MessageType::Ping, Document::new()));
    wire.0.borrow_mut().refuse_writes = true;
    assert!(client.read().is_none());
    assert_eq!(client.state(), State::Disconnected);
    assert_eq!(
        client.take_notifications(),
        vec![Notification::Failed(Error::TransportError), Notification::Disconnected]
    );
}

#[test]
fn ready_frame_without_handshake_does_not_connect() {
    let wire = Scripted::default();
    wire.0.borrow_mut().open = true;
    push(&wire, &ready_frame());
    let mut client = Client::with_connection(wire.clone(), "42");
    assert!(client.read().is_none());
    assert_eq!(client.state(), State::Disconnected);
    assert_eq!(wire.0.borrow().inbound.len(), ready_frame().len());
}

#[test]
fn decode_from_takes_one_frame_from_the_stream() {
    let wire = Scripted::default();
    wire.0.borrow_mut().open = true;
    let mut doc = Document::new();
    doc.set_str("cmd", "X");
    let bytes = frame(MessageType::Frame, doc);
    push(&wire, &bytes);
    push(&wire, &frame(MessageType::Ping, Document::new()));
    let mut channel = Channel::new(wire.clone());
    let m = Message::decode_from(&mut channel).unwrap().unwrap();
    assert_eq!(m.ty(), MessageType::Frame);
    assert_eq!(m.value("cmd").as_deref(), Some("X"));
    let next = Message::decode_from(&mut channel).unwrap().unwrap();
    assert_eq!(next.ty(), MessageType::Ping);
    assert!(matches!(Message::decode_from(&mut channel), Ok(None)));
}

#[test]
fn decode_from_partial_frame_is_truncated() {
    let wire = Scripted::default();
    wire.0.borrow_mut().open = true;
    let mut doc = Document::new();
    doc.set_str("cmd", "X");
    let bytes = frame(MessageType::Frame, doc);
    push(&wire, &bytes[..bytes.len() - 1]);
    let mut channel = Channel::new(wire.clone());
    assert!(matches!(Message::decode_from(&mut channel), Err(Error::TruncatedFrame)));
}

#[test]
fn decode_from_unknown_type_is_format_error() {
    let wire = Scripted::default();
    wire.0.borrow_mut().open = true;
    push(&wire, &[6, 0, 0, 0]);
    let mut channel = Channel::new(wire.clone());
    assert!(matches!(Message::decode_from(&mut channel), Err(Error::FormatError(6))));
}

#[test]
fn encode_to_hands_the_frame_to_the_transport() {
    let wire = Scripted::default();
    let mut channel = Channel::new(wire.clone());
    let m = Message::new(MessageType::Pong, Document::new());
    assert!(!m.encode_to(&mut channel));
    assert!(channel.open());
    assert!(m.encode_to(&mut channel));
    assert_eq!(wire.0.borrow().written, vec![vec![4, 0, 0, 0, 2, 0, 0, 0, b'{', b'}']]);
}

#[test]
fn routing_delivers_answers_and_returns_the_rest() {
    let mut table = PendingRequests::new();
    table.register("abc", None);
    table.register("xyz", None);
    let mut answer = Document::new();
    answer.set_str("nonce", "abc");
    answer.set_str("evt", "DONE");
    let mut stranger = Document::new();
    stranger.set_str("nonce", "zzz");
    let mut event = Document::new();
    event.set_str("evt", "ACTIVITY_JOIN");
    let rest = table.route(vec![
        Message::new(MessageType::Frame, stranger),
        Message::new(MessageType::Frame, answer),
        Message::new(MessageType::Frame, event),
    ]);
    assert_eq!(rest.len(), 2);
    assert_eq!(rest[0].value("nonce").as_deref(), Some("zzz"));
    assert_eq!(rest[1].value("evt").as_deref(), Some("ACTIVITY_JOIN"));
    assert!(!table.contains("abc"));
    assert!(table.contains("xyz"));
    assert_eq!(table.len(), 1);
    assert!(matches!(table.poll("xyz", 0), RequestStatus::Waiting));
    assert!(matches!(table.poll("abc", 0), RequestStatus::Delivered(_)));
}
