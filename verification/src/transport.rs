//! The Atlas transport over TCP: its messages and what the server answers.
//! Sockets live outside the library.

use vstd::prelude::*;

verus! {

/// Messages exchanged between Atlas nodes.
#[derive(Debug)]
pub enum Message {
    Handshake { device_id: String, device_name: String },
    Ping,
    Pong,
}

/// Connects to a peer's transport server and greets it.
pub struct TransportClient;

impl TransportClient {
    /// Seconds a connection attempt, and a read of the reply, may take.
    pub const CONNECT_TIMEOUT_SECS: u64 = 3;

    /// The greeting a client sends once connected.
    pub const GREETING: &'static str = "Hello from Atlas!\n";
}

/// What a read from a client connection gave.
#[derive(Clone, Copy, Debug, PartialEq, Eq, Structural)]
pub enum ReadEvent {
    /// The client closed the connection (a read of zero bytes).
    Closed,
    /// This many bytes arrived.
    Received(usize),
    /// The read failed.
    Failed,
}

/// What the server does next with a client connection.
#[derive(Clone, Copy, Debug, PartialEq, Eq, Structural)]
pub enum ServerAction {
    /// Send the acknowledgement and keep reading.
    Acknowledge,
    /// Stop serving this client.
    Close,
}

/// Accepts TCP connections and acknowledges every message received.
pub struct TransportServer;

impl TransportServer {
    /// The reply to every message received.
    pub const ACK: &'static str = "ACK\n";

    /// Every message that arrives is acknowledged; a closed connection or a
    /// failed read ends the session.
    pub fn next_action(event: ReadEvent) -> (r: ServerAction)
        ensures
            r == (if event is Received {
                ServerAction::Acknowledge
            } else {
                ServerAction::Close
            }),
    {
        match event {
            ReadEvent::Received(_) => ServerAction::Acknowledge,
            ReadEvent::Closed => ServerAction::Close,
            ReadEvent::Failed => ServerAction::Close,
        }
    }
}

} // verus!
