use dc_rpc_rs::{Document, Error, Message, MessageType};

fn frame(kind: MessageType, doc: Document) -> Vec<u8> {
    Message::new(kind, doc).encode().expect("payload fits")
}

#[test]
fn encode_writes_header_and_payload() {
    let bytes = frame(MessageType::Ping, Document::new());
    assert_eq!(bytes, vec![3, 0, 0, 0, 2, 0, 0, 0, b'{', b'}']);
}

#[test]
fn type_codes_are_fixed() {
    assert_eq!(MessageType::Handshake.code(), 0);
    assert_eq!(MessageType::Frame.code(), 1);
    assert_eq!(MessageType::Close.code(), 2);
    assert_eq!(MessageType::Ping.code(), 3);
    assert_eq!(MessageType::Pong.code(), 4);
    for n in 0..5u32 {
        assert_eq!(MessageType::from_code(n).unwrap().code(), n);
    }
    assert_eq!(MessageType::from_code(5), Err(Error::FormatError(5)));
}

#[test]
fn decode_gives_back_encoded_message() {
    let mut doc = Document::new();
    doc.set_str("cmd", "DISPATCH");
    doc.set_str("text", "h\u{e9}llo \"quoted\" \u{1F600}");
    doc.set_int("n", -12);
    let m = Message::new(MessageType::Frame, doc);
    let mut bytes = m.encode().unwrap();
    let len = bytes.len();
    bytes.extend_from_slice(&[1, 2, 3]);
    let (back, used) = Message::decode(&bytes).unwrap().unwrap();
    assert_eq!(used, len);
    assert_eq!(back.ty(), MessageType::Frame);
    assert_eq!(back.payload(), m.payload());
    assert_eq!(back.value("text").as_deref(), Some("h\u{e9}llo \"quoted\" \u{1F600}"));
    assert_eq!(back.int_value("n"), Some(-12));
}

#[test]
fn decode_of_empty_stream_is_nothing() {
    assert!(matches!(Message::decode(&[]), Ok(None)));
}

#[test]
fn every_proper_prefix_is_truncated() {
    let mut doc = Document::new();
    doc.set_str("evt", "READY");
    let bytes = frame(MessageType::Frame, doc);
    for k in 1..bytes.len() {
        assert!(
            matches!(Message::decode(&bytes[..k]), Err(Error::TruncatedFrame)),
            "prefix of {} bytes",
            k
        );
    }
}

#[test]
fn declared_length_longer_than_stream_is_truncated() {
    let bytes = [1u8, 0, 0, 0, 200, 0, 0, 0, b'{', b'}'];
    assert!(matches!(Message::decode(&bytes), Err(Error::TruncatedFrame)));
}

#[test]
fn unknown_type_is_format_error() {
    let bytes = [7u8, 0, 0, 0, 2, 0, 0, 0, b'{', b'}'];
    assert!(matches!(Message::decode(&bytes), Err(Error::FormatError(7))));
}

#[test]
fn invalid_utf8_is_encoding_error() {
    let bytes = [1u8, 0, 0, 0, 2, 0, 0, 0, 0xff, 0xfe];
    assert!(matches!(Message::decode(&bytes), Err(Error::EncodingError)));
}

#[test]
fn invalid_json_is_payload_error() {
    let bytes = [1u8, 0, 0, 0, 3, 0, 0, 0, b'{', b'x', b'}'];
    assert!(matches!(Message::decode(&bytes), Err(Error::PayloadError)));
}

#[test]
fn set_ty_keeps_payload() {
    let mut doc = Document::new();
    doc.set_str("a", "b");
    let mut m = Message::new(MessageType::Ping, doc);
    m.set_ty(MessageType::Pong);
    assert_eq!(m.ty(), MessageType::Pong);
    assert_eq!(m.payload(), "{\"a\":\"b\"}");
}

#[test]
fn document_writes_members_in_order() {
    let mut doc = Document::new();
    assert!(doc.is_empty());
    doc.set_int("v", 1);
    doc.set_str("client_id", "42");
    doc.set_bool("flag", false);
    doc.set_int_pair("size", 2, 5);
    let mut inner = Document::new();
    inner.set_int("start", 1_700_000_000);
    doc.set_document("times", &inner);
    assert_eq!(
        doc.text(),
        "{\"v\":1,\"client_id\":\"42\",\"flag\":false,\"size\":[2,5],\"times\":{\"start\":1700000000}}"
    );
}

#[test]
fn document_set_replaces_in_place() {
    let mut doc = Document::new();
    doc.set_str("a", "1");
    doc.set_str("b", "2");
    doc.set_str("a", "3");
    assert_eq!(doc.text(), "{\"a\":\"3\",\"b\":\"2\"}");
}

#[test]
fn strings_are_escaped() {
    let mut doc = Document::new();
    doc.set_str("k", "a\"b\\c\n");
    assert_eq!(doc.text(), "{\"k\":\"a\\\"b\\\\c\\n\"}");
}

#[test]
fn negative_integers_are_written_with_sign() {
    let mut doc = Document::new();
    doc.set_int("n", -4000);
    assert_eq!(doc.text(), "{\"n\":-4000}");
}

#[test]
fn member_reads_distinguish_strings_and_integers() {
    let mut doc = Document::new();
    doc.set_str("s", "x");
    doc.set_int("i", 4000);
    let m = Message::new(MessageType::Frame, doc);
    assert_eq!(m.value("s").as_deref(), Some("x"));
    assert_eq!(m.value("i"), None);
    assert_eq!(m.int_value("i"), Some(4000));
    assert_eq!(m.int_value("s"), None);
    assert_eq!(m.value("missing"), None);
}

#[test]
fn error_descriptions() {
    let e = Error::ConnectionClosed { code: 4000, message: "Invalid Client ID".to_string() };
    assert_eq!(
        e.describe(),
        "Connection forced to close by server (code: 4000): Invalid Client ID"
    );
    assert_eq!(Error::FormatError(9).describe(), "Unknown message-type identifier: 9");
    assert_eq!(Error::PipeClosed("gone".to_string()).describe(), "Connection pipe closed: gone");
    assert_eq!(Error::TimedOut.describe(), "Request timed out");
}

#[test]
fn control_characters_are_escaped() {
    let mut doc = Document::new();
    doc.set_str("k", "\u{1}\u{8}\t\r\u{c}\u{1f}/");
    assert_eq!(doc.text(), "{\"k\":\"\\u0001\\b\\t\\r\\f\\u001f/\"}");
}
