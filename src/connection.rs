//! The decisions of one connection: the handshake, then the message loop.
//! The caller performs the I/O and hands each inbound event to `on_inbound`,
//! which says what to do and what state comes next.
use vstd::prelude::*;

use crate::proto::{Handshake, MachMessage};

verus! {

/// The one protocol version this server speaks.
pub const PROTOCOL_VERSION: u32 = 0;

/// The protocol versions this server supports, ascending.
pub fn supported_versions() -> (r: Vec<u32>)
    ensures
        r@ == seq![PROTOCOL_VERSION],
{
    let mut v: Vec<u32> = Vec::new();
    v.push(PROTOCOL_VERSION);
    v
}

/// The message sent first on every new connection.
pub fn handshake_message() -> (r: MachMessage)
    ensures
        r is Handshake,
        r->Handshake_0.versions@ == seq![PROTOCOL_VERSION],
{
    MachMessage::Handshake(Handshake { versions: supported_versions() })
}

/// One event read from the transport.
#[derive(Debug)]
pub enum Inbound {
    /// A data frame that decoded to a message.
    Message(MachMessage),
    /// The peer sent a close frame.
    Close,
    /// A frame of another kind (binary, ping, ...).
    Other,
    /// The transport reported an error.
    Error,
    /// The stream ended.
    End,
}

/// Where a connection stands.
#[derive(Debug, Clone, Copy, PartialEq, Eq, Structural)]
pub enum Phase {
    /// The handshake was sent; waiting for the client's answer.
    AwaitingHandshakeAck,
    /// The handshake succeeded with the given version.
    Ready(u32),
    /// Nothing more happens on this connection.
    Closed,
}

/// What the caller does with an inbound event.
#[derive(Debug)]
pub enum Action {
    /// Nothing; read the next event.
    Continue,
    /// Hand the message to the registry, send what comes back, read on.
    Dispatch(MachMessage),
    /// Stop reading.
    Stop,
    /// Close the transport, then stop.
    CloseTransport,
    /// The handshake failed: abort setting up the connection.
    Abort,
}

/// The next phase and the action for `inbound` received in `phase`.
pub open spec fn step(phase: Phase, inbound: Inbound) -> (Phase, Action) {
    match phase {
        Phase::AwaitingHandshakeAck => match inbound {
            Inbound::Message(MachMessage::HandshakeOk(ok)) => (Phase::Ready(ok.version), Action::Continue),
            _ => (Phase::Closed, Action::Abort),
        },
        Phase::Ready(v) => match inbound {
            Inbound::Message(m) => (Phase::Ready(v), Action::Dispatch(m)),
            Inbound::Other => (Phase::Closed, Action::CloseTransport),
            _ => (Phase::Closed, Action::Stop),
        },
        Phase::Closed => (Phase::Closed, Action::Stop),
    }
}

/// Decides what `inbound`, received in `phase`, leads to. While awaiting the
/// handshake answer only `HandshakeOk` moves on, to `Ready` with its version;
/// anything else closes the connection. Once ready, each message is
/// dispatched, a close frame, an error or the end of the stream stops the
/// loop, and another kind of frame closes the transport first.
pub fn on_inbound(phase: Phase, inbound: Inbound) -> (r: (Phase, Action))
    ensures
        r == step(phase, inbound),
{
    match phase {
        Phase::AwaitingHandshakeAck => match inbound {
            Inbound::Message(MachMessage::HandshakeOk(ok)) => (Phase::Ready(ok.version), Action::Continue),
            _ => (Phase::Closed, Action::Abort),
        },
        Phase::Ready(v) => match inbound {
            Inbound::Message(m) => (Phase::Ready(v), Action::Dispatch(m)),
            Inbound::Other => (Phase::Closed, Action::CloseTransport),
            _ => (Phase::Closed, Action::Stop),
        },
        Phase::Closed => (Phase::Closed, Action::Stop),
    }
}

} // verus!
