//! The messages of the protocol.
//!
//! Each message type has a model beside it, in which byte arrays, byte strings and
//! text are sequences. The contracts of the wire format speak of the models.
use vstd::prelude::*;

use crate::device_id::DeviceId;
use crate::token::Token;

verus! {

/// A negotiated connection between two peers. Random, chosen by the requester.
pub type SessionId = u64;

/// X25519 public key (handshake material the relay forwards but never uses).
pub type PublicKey = [u8; 32];

/// Why the relay refuses a request.
#[derive(Clone, Copy, Debug, PartialEq, Eq, Structural)]
pub enum ErrCode {
    TargetOffline,
    BadToken,
    NotRegistered,
    Protocol,
    RelayFull,
    /// The client's [`ClientMsg::Register`] `version` is incompatible with the
    /// relay's protocol version. Registration is refused so a version mismatch
    /// surfaces as a clear "update required" error instead of a later, misleading
    /// rendezvous/handshake timeout. Appended last so existing variant indices
    /// (enums are sent by index) stay stable on the wire.
    IncompatibleVersion,
}

/// The public address of a client as the relay sees it.
#[derive(Clone, Copy, PartialEq, Eq, Hash)]
pub enum SocketAddr {
    /// An IPv4 address, its first octet first, and a port.
    V4 { ip: [u8; 4], port: u16 },
    /// An IPv6 address, its first octet first, and a port. The flow information
    /// and the scope have a meaning on the local machine only, and are not sent.
    V6 { ip: [u8; 16], port: u16, flowinfo: u32, scope_id: u32 },
}

/// Messages sent **client → relay**.
#[derive(Clone, Debug, PartialEq)]
pub enum ClientMsg {
    /// Join the relay; the relay replies with [`RelayMsg::Registered`] (assigns id + token).
    Register { version: u16, pubkey: PublicKey, name: Option<String> },
    /// Keep the registration (and the observed public address) alive.
    Heartbeat { id: DeviceId, token: Token },
    /// Requester asks the relay to reach `target`. `hello` carries the requester's
    /// ephemeral handshake (opaque to the relay).
    Connect { id: DeviceId, token: Token, target: DeviceId, session: SessionId, hello: Vec<u8> },
    /// Target accepts an incoming connection; `answer` carries its handshake reply.
    Accept { id: DeviceId, token: Token, session: SessionId, answer: Vec<u8> },
    /// Tunnel an (already-encrypted) payload through the relay because P2P failed.
    RelayData { id: DeviceId, token: Token, session: SessionId, payload: Vec<u8> },
    /// Gracefully leave.
    Bye { id: DeviceId, token: Token },
}

/// Messages sent **relay → client**.
#[derive(Clone, Debug, PartialEq)]
pub enum RelayMsg {
    /// The reply to [`ClientMsg::Register`].
    Registered { id: DeviceId, token: Token },
    /// The reply to [`ClientMsg::Heartbeat`].
    HeartbeatAck,
    /// Delivered to the **target**: someone wants to connect. Includes the
    /// requester's public address so the target can start hole-punching.
    Incoming { from: DeviceId, from_addr: SocketAddr, session: SessionId, hello: Vec<u8> },
    /// Delivered to the **requester**: the target was found and accepted; includes
    /// the target's public address + handshake answer.
    PeerFound {
        target: DeviceId,
        target_addr: SocketAddr,
        session: SessionId,
        answer: Vec<u8>,
        /// The relay's PER-SESSION forwarding rate cap in **kbit/s** (`0` = unlimited /
        /// not configured). When non-zero, the requester clamps its stream's target
        /// bitrate to (a headroom-discounted) cap so a relayed session starts within the
        /// pipe instead of overshooting and waiting for the loss-driven ABR to ramp down.
        /// Only the relay-fallback path carries a meaningful value; a direct/P2P session
        /// is uncapped (`0`).
        rate_cap_kbps: u32,
    },
    /// A payload tunnelled from the peer (relay-fallback path).
    RelayData { session: SessionId, payload: Vec<u8> },
    /// A refusal.
    Error { code: ErrCode, message: String },
}

/// Messages sent **peer ↔ peer** directly (after hole punching), or wrapped in
/// `RelayData` when relayed.
#[derive(Clone, Debug, PartialEq)]
pub enum PeerMsg {
    /// Hole-punch probe.
    Punch { session: SessionId, seq: u32 },
    /// Hole-punch reply — receiving one confirms the direct path works.
    PunchAck { session: SessionId, seq: u32 },
    /// Encrypted media/control payload.
    Data { session: SessionId, seq: u64, payload: Vec<u8> },
    /// Keeps the path open.
    KeepAlive { session: SessionId },
    /// Direct-IP handshake (relay-less): initiator announces its X25519 public key
    /// plus a fresh per-session salt (mixed into the data key so reconnects don't
    /// reuse a key).
    Hello { session: SessionId, pubkey: PublicKey, salt: [u8; 32] },
    /// Direct-IP handshake reply: responder returns its public key + its own fresh
    /// salt so both sides derive the same per-session key, then hole-punch as usual.
    HelloAck { session: SessionId, pubkey: PublicKey, salt: [u8; 32] },
}

/// What a [`SocketAddr`] stands for.
pub enum SocketAddrModel {
    V4 { ip: Seq<u8>, port: u16 },
    V6 { ip: Seq<u8>, port: u16, flowinfo: u32, scope_id: u32 },
}

/// What a [`ClientMsg`] stands for.
pub enum ClientMsgModel {
    Register { version: u16, pubkey: Seq<u8>, name: Option<Seq<char>> },
    Heartbeat { id: DeviceId, token: Seq<u8> },
    Connect { id: DeviceId, token: Seq<u8>, target: DeviceId, session: u64, hello: Seq<u8> },
    Accept { id: DeviceId, token: Seq<u8>, session: u64, answer: Seq<u8> },
    RelayData { id: DeviceId, token: Seq<u8>, session: u64, payload: Seq<u8> },
    Bye { id: DeviceId, token: Seq<u8> },
}

/// What a [`RelayMsg`] stands for.
pub enum RelayMsgModel {
    Registered { id: DeviceId, token: Seq<u8> },
    HeartbeatAck,
    Incoming { from: DeviceId, from_addr: SocketAddrModel, session: u64, hello: Seq<u8> },
    PeerFound {
        target: DeviceId,
        target_addr: SocketAddrModel,
        session: u64,
        answer: Seq<u8>,
        rate_cap_kbps: u32,
    },
    RelayData { session: u64, payload: Seq<u8> },
    Error { code: ErrCode, message: Seq<char> },
}

/// What a [`PeerMsg`] stands for.
pub enum PeerMsgModel {
    Punch { session: u64, seq: u32 },
    PunchAck { session: u64, seq: u32 },
    Data { session: u64, seq: u64, payload: Seq<u8> },
    KeepAlive { session: u64 },
    Hello { session: u64, pubkey: Seq<u8>, salt: Seq<u8> },
    HelloAck { session: u64, pubkey: Seq<u8>, salt: Seq<u8> },
}

} // verus!
