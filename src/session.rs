//! The state of a session with a Freenet node.
//!
//! The session decides; the caller owns the TCP stream and does what each
//! decision asks: it writes the text that the session hands out, feeds the
//! lines that it reads to the decoder that the session hands out, and shuts
//! the stream down when the session says so.
use vstd::prelude::*;

use crate::decoder::{initial_state, MessageDecoder};
use crate::error::Error;
use crate::message::{encode, FcpMessage, MessageView};

verus! {

/// The well-known FCP port of a Freenet node.
pub const DEFAULT_PORT: u16 = 9481;

/// The abstract state of a session.
pub struct SessionView {
    pub host: Seq<char>,
    pub port: u16,
    /// A stream to the node is open.
    pub connected: bool,
}

/// A session that has never been connected.
pub open spec fn new_session(host: Seq<char>, port: u16) -> SessionView {
    SessionView { host, port, connected: false }
}

/// A session after disconnecting: the address stays, the stream is gone.
pub open spec fn disconnected(s: SessionView) -> SessionView {
    SessionView { connected: false, ..s }
}

/// The handshake request that announces a client to the node.
pub open spec fn client_hello(client_name: Seq<char>) -> MessageView {
    MessageView {
        name: "ClientHello"@,
        fields: seq![("Name"@, client_name), ("ExpectedVersion"@, "2.0"@)],
    }
}

/// Builds the handshake request that announces the client `client_name`.
pub fn client_hello_message(client_name: &str) -> (r: FcpMessage)
    ensures
        r.wf(),
        r@ == client_hello(client_name@),
{
    let mut m = FcpMessage::create("ClientHello");
    m.add_field("Name", client_name);
    proof {
        reveal_strlit("Name");
        reveal_strlit("ExpectedVersion");
        assert(!crate::message::has_key(m@.fields, "ExpectedVersion"@)) by {
            if crate::message::has_key(m@.fields, "ExpectedVersion"@) {
                assert(m@.fields[0].0 == "Name"@);
                assert("Name"@[0] != "ExpectedVersion"@[0]);
            }
        }
    }
    m.add_field("ExpectedVersion", "2.0");
    assert(m@.fields =~= client_hello(client_name@).fields);
    m
}

/// A connection to a Freenet node.
///
/// Use [default](#method.default) or [create](#method.create) to create
/// new connections.
#[derive(Debug)]
pub struct FcpConnection {
    host: String,
    port: u16,
    connected: bool,
}

impl View for FcpConnection {
    type V = SessionView;

    closed spec fn view(&self) -> SessionView {
        SessionView { host: self.host@, port: self.port, connected: self.connected }
    }
}

impl FcpConnection {
    /// Creates a new connection to a node running on the given
    /// host, using the default FCP port number of `9481`.
    pub fn default(host: &str) -> (r: FcpConnection)
        ensures
            r@ == new_session(host@, 9481),
    {
        FcpConnection { host: host.to_owned(), port: DEFAULT_PORT, connected: false }
    }

    /// Creates a new connection to a node running on the given
    /// host and port number.
    pub fn create(host: &str, port: u16) -> (r: FcpConnection)
        ensures
            r@ == new_session(host@, port),
    {
        FcpConnection { host: host.to_owned(), port, connected: false }
    }

    /// The host of the node.
    pub fn host(&self) -> (r: &str)
        ensures
            r@ == self@.host,
    {
        self.host.as_str()
    }

    /// The port of the node.
    pub fn port(&self) -> (r: u16)
        ensures
            r == self@.port,
    {
        self.port
    }

    /// Whether a stream to the node is open.
    pub fn is_connected(&self) -> (r: bool)
        ensures
            r == self@.connected,
    {
        self.connected
    }

    /// Starts the handshake on a stream to the node that the caller has
    /// just opened: the session counts as connected from here on, and the
    /// result is the wire form of the `ClientHello` message, which the
    /// caller sends before it reads the node's reply.
    pub fn connect(&mut self, client_name: &str) -> (hello: String)
        ensures
            final(self)@ == (SessionView { connected: true, ..old(self)@ }),
            hello@ == encode(client_hello(client_name@)),
    {
        self.connected = true;
        let m = client_hello_message(client_name);
        m.to_field_set()
    }

    /// Judges the node's reply to `ClientHello`: the handshake succeeds
    /// exactly when the reply is named `NodeHello`.
    pub fn check_node_hello(&self, reply: &FcpMessage) -> (r: Result<(), Error>)
        ensures
            !self@.connected ==> r is Err && r->Err_0 is NotConnected,
            self@.connected && reply@.name == "NodeHello"@ ==> r is Ok,
            self@.connected && reply@.name != "NodeHello"@ ==> r is Err && r->Err_0 is ProtocolError,
    {
        if !self.connected {
            return Err(Error::NotConnected);
        }
        let expected = "NodeHello".to_owned();
        if reply.name().to_owned() == expected {
            Ok(())
        } else {
            Err(Error::ProtocolError)
        }
    }

    /// Disconnects this connection from the node. The result tells whether
    /// the caller must shut its stream down: only a connected session has
    /// one. A second call asks for nothing.
    pub fn disconnect(&mut self) -> (shut_down: bool)
        ensures
            final(self)@ == disconnected(old(self)@),
            shut_down == old(self)@.connected,
    {
        let was_connected = self.connected;
        self.connected = false;
        was_connected
    }

    /// Sends the given message to the node: the result is the text that the
    /// caller writes to its stream as one operation. A session that is not
    /// connected refuses, and nothing is to be written.
    pub fn send_message(&self, fcp_message: FcpMessage) -> (r: Result<String, Error>)
        ensures
            self@.connected ==> r is Ok && r->Ok_0@ == encode(fcp_message@),
            !self@.connected ==> r is Err && r->Err_0 is NotConnected,
    {
        if !self.connected {
            return Err(Error::NotConnected);
        }
        Ok(fcp_message.to_field_set())
    }

    /// Receives a message from the node: the result is a fresh decoder, which
    /// the caller feeds the lines that it reads until the message is
    /// complete. A session that is not connected refuses, and nothing is to
    /// be read.
    ///
    /// Messages with payload can not be handled.
    pub fn recv_message(&self) -> (r: Result<MessageDecoder, Error>)
        ensures
            self@.connected ==> r is Ok && r->Ok_0.wf() && r->Ok_0@ == initial_state(),
            !self@.connected ==> r is Err && r->Err_0 is NotConnected,
    {
        if !self.connected {
            return Err(Error::NotConnected);
        }
        Ok(MessageDecoder::new())
    }
}

/// A session that has never been connected has no stream, so it refuses to
/// send or receive and has nothing to shut down.
pub proof fn lemma_fresh_session_is_disconnected(host: Seq<char>, port: u16)
    ensures
        !new_session(host, port).connected,
        disconnected(new_session(host, port)) == new_session(host, port),
{
}

/// Disconnecting twice in a row: both times the session ends disconnected
/// with its address kept, and the second time there is no stream left to shut
/// down, hence nothing that could fail.
pub proof fn lemma_disconnect_idempotent(s: SessionView)
    ensures
        !disconnected(s).connected,
        !disconnected(disconnected(s)).connected,
        disconnected(disconnected(s)) == disconnected(s),
        disconnected(s).host == s.host && disconnected(s).port == s.port,
{
}

} // verus!
