use fcp::error::Error;
use fcp::{FcpConnection, FcpMessage, MessageDecoder, ToFcpError};

fn decode_reply(decoder: &mut MessageDecoder, text: &str) {
    for line in text.split_inclusive('\n') {
        if decoder.feed_line(line) {
            break;
        }
    }
}

#[test]
fn default_uses_the_fcp_port() {
    let connection = FcpConnection::default("localhost");
    assert_eq!(connection.host(), "localhost");
    assert_eq!(connection.port(), 9481);
    assert!(!connection.is_connected());
}

#[test]
fn create_keeps_host_and_port() {
    let connection = FcpConnection::create("node.test", 12345);
    assert_eq!(connection.host(), "node.test");
    assert_eq!(connection.port(), 12345);
    assert!(!connection.is_connected());
}

#[test]
fn fresh_session_refuses_to_send() {
    let connection = FcpConnection::create("localhost", 9481);
    let result = connection.send_message(FcpMessage::create("Test"));
    assert!(matches!(result, Err(Error::NotConnected)));
}

#[test]
fn fresh_session_refuses_to_receive() {
    let connection = FcpConnection::create("localhost", 9481);
    assert!(matches!(connection.recv_message(), Err(Error::NotConnected)));
}

#[test]
fn disconnect_twice_is_harmless() {
    let mut connection = FcpConnection::create("localhost", 9481);
    assert!(!connection.disconnect());
    assert!(!connection.is_connected());
    assert!(!connection.disconnect());
    assert!(!connection.is_connected());

    connection.connect("TestClient");
    assert!(connection.disconnect());
    assert!(!connection.is_connected());
    assert!(!connection.disconnect());
    assert!(!connection.is_connected());
    assert!(matches!(
        connection.send_message(FcpMessage::create("Test")),
        Err(Error::NotConnected)
    ));
}

#[test]
fn connect_sends_client_hello() {
    let mut connection = FcpConnection::create("localhost", 9481);
    let hello = connection.connect("TestClient");
    assert_eq!(
        hello,
        "ClientHello\nName=TestClient\nExpectedVersion=2.0\nEndMessage\n"
    );
    assert!(connection.is_connected());
}

#[test]
fn handshake_rejects_other_reply() {
    let mut connection = FcpConnection::create("localhost", 9481);
    connection.connect("TestClient");
    let mut decoder = connection.recv_message().ok().unwrap();
    decode_reply(&mut decoder, "Error\nEndMessage\n");
    let reply = decoder.into_message();
    assert!(matches!(
        connection.check_node_hello(&reply),
        Err(Error::ProtocolError)
    ));
}

#[test]
fn full_handshake_leaves_session_connected() {
    let mut connection = FcpConnection::create("localhost", 9481);
    connection.connect("TestClient");
    let mut decoder = connection.recv_message().ok().unwrap();
    decode_reply(&mut decoder, "NodeHello\nEndMessage\n");
    let reply = decoder.into_message();
    assert!(connection.check_node_hello(&reply).is_ok());
    assert!(connection.is_connected());
}

#[test]
fn handshake_check_needs_a_connection() {
    let connection = FcpConnection::create("localhost", 9481);
    let reply = FcpMessage::create("NodeHello");
    assert!(matches!(
        connection.check_node_hello(&reply),
        Err(Error::NotConnected)
    ));
}

#[test]
fn connected_session_sends_encoded_message() {
    let mut connection = FcpConnection::create("localhost", 9481);
    connection.connect("TestClient");
    let mut message = FcpMessage::create("GetNode");
    message.add_field("WithPrivate", "false");
    let text = connection.send_message(message).ok().unwrap();
    assert_eq!(text, "GetNode\nWithPrivate=false\nEndMessage\n");
}

#[test]
fn io_results_become_fcp_results() {
    let ok: Result<u8, std::io::Error> = Ok(7);
    assert!(matches!(ok.to_fcp_error(), Ok(7)));
    let failed: Result<u8, std::io::Error> =
        Err(std::io::Error::new(std::io::ErrorKind::BrokenPipe, "gone"));
    match failed.to_fcp_error() {
        Err(Error::IoError(e)) => assert_eq!(e.kind(), std::io::ErrorKind::BrokenPipe),
        _ => panic!("expected an I/O error"),
    }
}
