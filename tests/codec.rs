use fcp::decoder::{parse_field_line, strip_trailing_newlines, MessageDecoder};
use fcp::session::client_hello_message;
use fcp::FcpMessage;

fn decode_text(text: &str) -> (FcpMessage, usize) {
    let mut decoder = MessageDecoder::new();
    let mut consumed = 0;
    for line in text.split_inclusive('\n') {
        consumed += 1;
        if decoder.feed_line(line) {
            break;
        }
    }
    (decoder.into_message(), consumed)
}

#[test]
fn encode_client_hello() {
    let mut message = FcpMessage::create("ClientHello");
    message.add_field("Name", "TestClient");
    message.add_field("ExpectedVersion", "2.0");
    assert_eq!(
        message.to_field_set(),
        "ClientHello\nName=TestClient\nExpectedVersion=2.0\nEndMessage\n"
    );
}

#[test]
fn client_hello_message_has_name_and_version() {
    let message = client_hello_message("TestClient");
    assert_eq!(message.name(), "ClientHello");
    assert_eq!(message.field_count(), 2);
    assert_eq!(message.field("Name"), Some("TestClient".to_string()));
    assert_eq!(message.field("ExpectedVersion"), Some("2.0".to_string()));
}

#[test]
fn encode_message_without_fields() {
    let message = FcpMessage::create("Bare");
    assert_eq!(message.to_field_set(), "Bare\nEndMessage\n");
}

#[test]
fn add_field_overwrites_in_place() {
    let mut message = FcpMessage::create("Test");
    message.add_field("A", "1");
    message.add_field("B", "2");
    message.add_field("A", "3");
    assert_eq!(message.field_count(), 2);
    assert_eq!(message.field("A"), Some("3".to_string()));
    assert_eq!(message.field("C"), None);
    assert_eq!(message.to_field_set(), "Test\nA=3\nB=2\nEndMessage\n");
}

#[test]
fn decode_node_hello() {
    let (message, consumed) = decode_text("NodeHello\nVersion=2.0\nNode=TestNode\nEndMessage\n");
    assert_eq!(consumed, 4);
    assert_eq!(message.name(), "NodeHello");
    assert_eq!(message.field_count(), 2);
    assert_eq!(message.field("Version"), Some("2.0".to_string()));
    assert_eq!(message.field("Node"), Some("TestNode".to_string()));
}

#[test]
fn decode_stops_at_terminator() {
    let mut decoder = MessageDecoder::new();
    assert!(!decoder.is_complete());
    assert!(!decoder.feed_line("NodeHello\n"));
    assert!(!decoder.feed_line("A=1\n"));
    assert!(decoder.feed_line("EndMessage\n"));
    assert!(decoder.is_complete());
    assert!(decoder.feed_line("B=2\n"));
    let message = decoder.into_message();
    assert_eq!(message.field_count(), 1);
    assert_eq!(message.field("B"), None);
}

#[test]
fn decode_ends_at_end_of_stream() {
    let mut decoder = MessageDecoder::new();
    assert!(!decoder.feed_line("NodeHello\n"));
    assert!(!decoder.feed_line("A=1\n"));
    assert!(decoder.feed_line(""));
    let message = decoder.into_message();
    assert_eq!(message.name(), "NodeHello");
    assert_eq!(message.field("A"), Some("1".to_string()));
}

#[test]
fn round_trip_keeps_name_and_fields() {
    let mut message = FcpMessage::create("SomeMessage");
    message.add_field("Identifier", "id-1");
    message.add_field("URI", "KSK@test");
    message.add_field("Empty", "");
    let text = message.to_field_set();
    let (decoded, consumed) = decode_text(&text);
    assert_eq!(consumed, 5);
    assert_eq!(decoded.name(), "SomeMessage");
    assert_eq!(decoded.field_count(), 3);
    assert_eq!(decoded.field("Identifier"), Some("id-1".to_string()));
    assert_eq!(decoded.field("URI"), Some("KSK@test".to_string()));
    assert_eq!(decoded.field("Empty"), Some("".to_string()));
    assert_eq!(decoded.to_field_set(), text);
}

#[test]
fn field_line_splits_at_first_equal_sign() {
    assert_eq!(
        parse_field_line("Key=a=b\n"),
        Some(("Key".to_string(), "a=b".to_string()))
    );
    assert_eq!(parse_field_line("=\n"), Some(("".to_string(), "".to_string())));
    assert_eq!(parse_field_line("EndMessage\n"), None);
    assert_eq!(parse_field_line(""), None);
}

#[test]
fn trailing_newlines_are_stripped() {
    assert_eq!(strip_trailing_newlines("Name\n\n"), "Name");
    assert_eq!(strip_trailing_newlines("a\nb"), "a\nb");
    assert_eq!(strip_trailing_newlines("\n"), "");
    assert_eq!(strip_trailing_newlines(""), "");
}
