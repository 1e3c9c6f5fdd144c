//! What each datagram looks like, byte by byte, and what is no datagram.
//!
//! Numbers stand in little-endian order at the offsets given here; a byte string or
//! a text has its length, eight bytes wide, in front of it.
use vstd::prelude::*;
use vstd::utf8::{encode_utf8, valid_utf8};

use crate::device_id::DeviceId;
use crate::le::{
    le_bytes, le_value, lemma_le_bytes_len, lemma_le_limits, lemma_le_value_of_bytes,
};
use crate::message::{
    ClientMsg, ClientMsgModel, ErrCode, PeerMsg, PeerMsgModel, PublicKey, RelayMsg, RelayMsgModel,
    SessionId, SocketAddr, SocketAddrModel,
};
use crate::token::Token;
use crate::wire::{DecodeError, Wire};

verus! {

/// A [`ClientMsg::Register`] without a name: where its parts stand, and that it is read back.
pub proof fn client_register_unnamed(version: u16, pubkey: PublicKey, tail: Seq<u8>)
    ensures
        ({
            let msg = ClientMsg::Register { version, pubkey, name: None };
            let s = ClientMsg::bytes(msg.model());
            &&& s.len() == 39
            &&& s.subrange(0, 4) == le_bytes(0, 4)
            &&& s.subrange(4, 6) == le_bytes(version as nat, 2)
            &&& s.subrange(6, 38) == pubkey@
            &&& s[38] == 0
            &&& ClientMsg::read(s + tail) == Ok::<(ClientMsgModel, nat), DecodeError>(
                (msg.model(), s.len()),
            )
        }),
{
    lemma_le_bytes_len(0, 4);
    lemma_le_bytes_len(version as nat, 2);
    let msg = ClientMsg::Register { version, pubkey, name: None };
    let s = ClientMsg::bytes(msg.model());
    ClientMsg::read_of_bytes(msg.model(), tail);
    assert(s.subrange(0, 4) =~= le_bytes(0, 4));
    assert(s.subrange(4, 6) =~= le_bytes(version as nat, 2));
    assert(s.subrange(6, 38) =~= pubkey@);
}

/// A [`ClientMsg::Register`] with a name: where its parts stand, and that it is read back.
pub proof fn client_register_named(version: u16, pubkey: PublicKey, name: String, tail: Seq<u8>)
    requires
        encode_utf8(name@).len() <= u64::MAX,
    ensures
        ({
            let msg = ClientMsg::Register { version, pubkey, name: Some(name) };
            let s = ClientMsg::bytes(msg.model());
            let utf8 = encode_utf8(name@);
            &&& s.len() == 47 + utf8.len()
            &&& s.subrange(0, 4) == le_bytes(0, 4)
            &&& s.subrange(4, 6) == le_bytes(version as nat, 2)
            &&& s.subrange(6, 38) == pubkey@
            &&& s[38] == 1
            &&& s.subrange(39, 47) == le_bytes(utf8.len(), 8)
            &&& s.skip(47) == utf8
            &&& ClientMsg::read(s + tail) == Ok::<(ClientMsgModel, nat), DecodeError>(
                (msg.model(), s.len()),
            )
        }),
{
    lemma_le_bytes_len(0, 4);
    lemma_le_bytes_len(version as nat, 2);
    lemma_le_bytes_len(encode_utf8(name@).len(), 8);
    let msg = ClientMsg::Register { version, pubkey, name: Some(name) };
    let s = ClientMsg::bytes(msg.model());
    let utf8 = encode_utf8(name@);
    ClientMsg::read_of_bytes(msg.model(), tail);
    assert(s.subrange(0, 4) =~= le_bytes(0, 4));
    assert(s.subrange(4, 6) =~= le_bytes(version as nat, 2));
    assert(s.subrange(6, 38) =~= pubkey@);
    assert(s.subrange(39, 47) =~= le_bytes(utf8.len(), 8));
    assert(s.skip(47) =~= utf8);
}

/// A [`ClientMsg::Heartbeat`]: where its parts stand, and that it is read back.
pub proof fn client_heartbeat(id: DeviceId, token: Token, tail: Seq<u8>)
    ensures
        ({
            let msg = ClientMsg::Heartbeat { id, token };
            let s = ClientMsg::bytes(msg.model());
            &&& s.len() == 24
            &&& s.subrange(0, 4) == le_bytes(1, 4)
            &&& s.subrange(4, 8) == le_bytes(id.0 as nat, 4)
            &&& s.subrange(8, 24) == token.0@
            &&& ClientMsg::read(s + tail) == Ok::<(ClientMsgModel, nat), DecodeError>(
                (msg.model(), s.len()),
            )
        }),
{
    lemma_le_bytes_len(1, 4);
    lemma_le_bytes_len(id.0 as nat, 4);
    let msg = ClientMsg::Heartbeat { id, token };
    let s = ClientMsg::bytes(msg.model());
    ClientMsg::read_of_bytes(msg.model(), tail);
    assert(s.subrange(0, 4) =~= le_bytes(1, 4));
    assert(s.subrange(4, 8) =~= le_bytes(id.0 as nat, 4));
    assert(s.subrange(8, 24) =~= token.0@);
}

/// A [`ClientMsg::Connect`]: where its parts stand, and that it is read back.
pub proof fn client_connect(
    id: DeviceId,
    token: Token,
    target: DeviceId,
    session: SessionId,
    hello: Vec<u8>,
    tail: Seq<u8>,
)
    ensures
        ({
            let msg = ClientMsg::Connect { id, token, target, session, hello };
            let s = ClientMsg::bytes(msg.model());
            &&& s.len() == 44 + hello@.len()
            &&& s.subrange(0, 4) == le_bytes(2, 4)
            &&& s.subrange(4, 8) == le_bytes(id.0 as nat, 4)
            &&& s.subrange(8, 24) == token.0@
            &&& s.subrange(24, 28) == le_bytes(target.0 as nat, 4)
            &&& s.subrange(28, 36) == le_bytes(session as nat, 8)
            &&& s.subrange(36, 44) == le_bytes(hello@.len(), 8)
            &&& s.skip(44) == hello@
            &&& ClientMsg::read(s + tail) == Ok::<(ClientMsgModel, nat), DecodeError>(
                (msg.model(), s.len()),
            )
        }),
{
    lemma_le_bytes_len(2, 4);
    lemma_le_bytes_len(id.0 as nat, 4);
    lemma_le_bytes_len(target.0 as nat, 4);
    lemma_le_bytes_len(session as nat, 8);
    lemma_le_bytes_len(hello@.len(), 8);
    assert(hello.len() == hello@.len());
    let msg = ClientMsg::Connect { id, token, target, session, hello };
    let s = ClientMsg::bytes(msg.model());
    ClientMsg::read_of_bytes(msg.model(), tail);
    assert(s.subrange(0, 4) =~= le_bytes(2, 4));
    assert(s.subrange(4, 8) =~= le_bytes(id.0 as nat, 4));
    assert(s.subrange(8, 24) =~= token.0@);
    assert(s.subrange(24, 28) =~= le_bytes(target.0 as nat, 4));
    assert(s.subrange(28, 36) =~= le_bytes(session as nat, 8));
    assert(s.subrange(36, 44) =~= le_bytes(hello@.len(), 8));
    assert(s.skip(44) =~= hello@);
}

/// A [`ClientMsg::Accept`]: where its parts stand, and that it is read back.
pub proof fn client_accept(
    id: DeviceId,
    token: Token,
    session: SessionId,
    answer: Vec<u8>,
    tail: Seq<u8>,
)
    ensures
        ({
            let msg = ClientMsg::Accept { id, token, session, answer };
            let s = ClientMsg::bytes(msg.model());
            &&& s.len() == 40 + answer@.len()
            &&& s.subrange(0, 4) == le_bytes(3, 4)
            &&& s.subrange(4, 8) == le_bytes(id.0 as nat, 4)
            &&& s.subrange(8, 24) == token.0@
            &&& s.subrange(24, 32) == le_bytes(session as nat, 8)
            &&& s.subrange(32, 40) == le_bytes(answer@.len(), 8)
            &&& s.skip(40) == answer@
            &&& ClientMsg::read(s + tail) == Ok::<(ClientMsgModel, nat), DecodeError>(
                (msg.model(), s.len()),
            )
        }),
{
    lemma_le_bytes_len(3, 4);
    lemma_le_bytes_len(id.0 as nat, 4);
    lemma_le_bytes_len(session as nat, 8);
    lemma_le_bytes_len(answer@.len(), 8);
    assert(answer.len() == answer@.len());
    let msg = ClientMsg::Accept { id, token, session, answer };
    let s = ClientMsg::bytes(msg.model());
    ClientMsg::read_of_bytes(msg.model(), tail);
    assert(s.subrange(0, 4) =~= le_bytes(3, 4));
    assert(s.subrange(4, 8) =~= le_bytes(id.0 as nat, 4));
    assert(s.subrange(8, 24) =~= token.0@);
    assert(s.subrange(24, 32) =~= le_bytes(session as nat, 8));
    assert(s.subrange(32, 40) =~= le_bytes(answer@.len(), 8));
    assert(s.skip(40) =~= answer@);
}

/// A [`ClientMsg::RelayData`]: where its parts stand, and that it is read back.
pub proof fn client_relay_data(
    id: DeviceId,
    token: Token,
    session: SessionId,
    payload: Vec<u8>,
    tail: Seq<u8>,
)
    ensures
        ({
            let msg = ClientMsg::RelayData { id, token, session, payload };
            let s = ClientMsg::bytes(msg.model());
            &&& s.len() == 40 + payload@.len()
            &&& s.subrange(0, 4) == le_bytes(4, 4)
            &&& s.subrange(4, 8) == le_bytes(id.0 as nat, 4)
            &&& s.subrange(8, 24) == token.0@
            &&& s.subrange(24, 32) == le_bytes(session as nat, 8)
            &&& s.subrange(32, 40) == le_bytes(payload@.len(), 8)
            &&& s.skip(40) == payload@
            &&& ClientMsg::read(s + tail) == Ok::<(ClientMsgModel, nat), DecodeError>(
                (msg.model(), s.len()),
            )
        }),
{
    lemma_le_bytes_len(4, 4);
    lemma_le_bytes_len(id.0 as nat, 4);
    lemma_le_bytes_len(session as nat, 8);
    lemma_le_bytes_len(payload@.len(), 8);
    assert(payload.len() == payload@.len());
    let msg = ClientMsg::RelayData { id, token, session, payload };
    let s = ClientMsg::bytes(msg.model());
    ClientMsg::read_of_bytes(msg.model(), tail);
    assert(s.subrange(0, 4) =~= le_bytes(4, 4));
    assert(s.subrange(4, 8) =~= le_bytes(id.0 as nat, 4));
    assert(s.subrange(8, 24) =~= token.0@);
    assert(s.subrange(24, 32) =~= le_bytes(session as nat, 8));
    assert(s.subrange(32, 40) =~= le_bytes(payload@.len(), 8));
    assert(s.skip(40) =~= payload@);
}

/// A [`ClientMsg::Bye`]: where its parts stand, and that it is read back.
pub proof fn client_bye(id: DeviceId, token: Token, tail: Seq<u8>)
    ensures
        ({
            let msg = ClientMsg::Bye { id, token };
            let s = ClientMsg::bytes(msg.model());
            &&& s.len() == 24
            &&& s.subrange(0, 4) == le_bytes(5, 4)
            &&& s.subrange(4, 8) == le_bytes(id.0 as nat, 4)
            &&& s.subrange(8, 24) == token.0@
            &&& ClientMsg::read(s + tail) == Ok::<(ClientMsgModel, nat), DecodeError>(
                (msg.model(), s.len()),
            )
        }),
{
    lemma_le_bytes_len(5, 4);
    lemma_le_bytes_len(id.0 as nat, 4);
    let msg = ClientMsg::Bye { id, token };
    let s = ClientMsg::bytes(msg.model());
    ClientMsg::read_of_bytes(msg.model(), tail);
    assert(s.subrange(0, 4) =~= le_bytes(5, 4));
    assert(s.subrange(4, 8) =~= le_bytes(id.0 as nat, 4));
    assert(s.subrange(8, 24) =~= token.0@);
}

/// A [`RelayMsg::Registered`]: where its parts stand, and that it is read back.
pub proof fn relay_registered(id: DeviceId, token: Token, tail: Seq<u8>)
    ensures
        ({
            let msg = RelayMsg::Registered { id, token };
            let s = RelayMsg::bytes(msg.model());
            &&& s.len() == 24
            &&& s.subrange(0, 4) == le_bytes(0, 4)
            &&& s.subrange(4, 8) == le_bytes(id.0 as nat, 4)
            &&& s.subrange(8, 24) == token.0@
            &&& RelayMsg::read(s + tail) == Ok::<(RelayMsgModel, nat), DecodeError>(
                (msg.model(), s.len()),
            )
        }),
{
    lemma_le_bytes_len(0, 4);
    lemma_le_bytes_len(id.0 as nat, 4);
    let msg = RelayMsg::Registered { id, token };
    let s = RelayMsg::bytes(msg.model());
    RelayMsg::read_of_bytes(msg.model(), tail);
    assert(s.subrange(0, 4) =~= le_bytes(0, 4));
    assert(s.subrange(4, 8) =~= le_bytes(id.0 as nat, 4));
    assert(s.subrange(8, 24) =~= token.0@);
}

/// A [`RelayMsg::HeartbeatAck`]: where its parts stand, and that it is read back.
pub proof fn relay_heartbeat_ack(tail: Seq<u8>)
    ensures
        ({
            let msg = RelayMsg::HeartbeatAck;
            let s = RelayMsg::bytes(msg.model());
            &&& s.len() == 4
            &&& s.subrange(0, 4) == le_bytes(1, 4)
            &&& RelayMsg::read(s + tail) == Ok::<(RelayMsgModel, nat), DecodeError>(
                (msg.model(), s.len()),
            )
        }),
{
    lemma_le_bytes_len(1, 4);
    let msg = RelayMsg::HeartbeatAck;
    let s = RelayMsg::bytes(msg.model());
    RelayMsg::read_of_bytes(msg.model(), tail);
    assert(s.subrange(0, 4) =~= le_bytes(1, 4));
}

/// A [`RelayMsg::Incoming`] with an IPv4 address: where its parts stand, and that it is read back.
pub proof fn relay_incoming_v4(
    from: DeviceId,
    ip: [u8; 4],
    port: u16,
    session: SessionId,
    hello: Vec<u8>,
    tail: Seq<u8>,
)
    ensures
        ({
            let from_addr = SocketAddr::V4 { ip, port };
            let msg = RelayMsg::Incoming { from, from_addr, session, hello };
            let s = RelayMsg::bytes(msg.model());
            &&& s.len() == 34 + hello@.len()
            &&& s.subrange(0, 4) == le_bytes(2, 4)
            &&& s.subrange(4, 8) == le_bytes(from.0 as nat, 4)
            &&& s.subrange(8, 12) == le_bytes(0, 4)
            &&& s.subrange(12, 16) == ip@
            &&& s.subrange(16, 18) == le_bytes(port as nat, 2)
            &&& s.subrange(18, 26) == le_bytes(session as nat, 8)
            &&& s.subrange(26, 34) == le_bytes(hello@.len(), 8)
            &&& s.skip(34) == hello@
            &&& RelayMsg::read(s + tail) == Ok::<(RelayMsgModel, nat), DecodeError>(
                (msg.model(), s.len()),
            )
        }),
{
    lemma_le_bytes_len(2, 4);
    lemma_le_bytes_len(from.0 as nat, 4);
    lemma_le_bytes_len(session as nat, 8);
    lemma_le_bytes_len(hello@.len(), 8);
    lemma_le_bytes_len(0, 4);
    lemma_le_bytes_len(port as nat, 2);
    assert(hello.len() == hello@.len());
    let from_addr = SocketAddr::V4 { ip, port };
    let msg = RelayMsg::Incoming { from, from_addr, session, hello };
    let s = RelayMsg::bytes(msg.model());
    RelayMsg::read_of_bytes(msg.model(), tail);
    assert(s.subrange(0, 4) =~= le_bytes(2, 4));
    assert(s.subrange(4, 8) =~= le_bytes(from.0 as nat, 4));
    assert(s.subrange(8, 12) =~= le_bytes(0, 4));
    assert(s.subrange(12, 16) =~= ip@);
    assert(s.subrange(16, 18) =~= le_bytes(port as nat, 2));
    assert(s.subrange(18, 26) =~= le_bytes(session as nat, 8));
    assert(s.subrange(26, 34) =~= le_bytes(hello@.len(), 8));
    assert(s.skip(34) =~= hello@);
}

/// A [`RelayMsg::Incoming`] with an IPv6 address: where its parts stand, and that it is read back,
/// the local parts of the address set to zero.
pub proof fn relay_incoming_v6(
    from: DeviceId,
    ip: [u8; 16],
    port: u16,
    flowinfo: u32,
    scope_id: u32,
    session: SessionId,
    hello: Vec<u8>,
    tail: Seq<u8>,
)
    ensures
        ({
            let from_addr = SocketAddr::V6 { ip, port, flowinfo, scope_id };
            let msg = RelayMsg::Incoming { from, from_addr, session, hello };
            let s = RelayMsg::bytes(msg.model());
            let from_addr = SocketAddr::V6 { ip, port, flowinfo: 0, scope_id: 0 };
            let seen = RelayMsg::Incoming { from, from_addr, session, hello };
            &&& s.len() == 46 + hello@.len()
            &&& s.subrange(0, 4) == le_bytes(2, 4)
            &&& s.subrange(4, 8) == le_bytes(from.0 as nat, 4)
            &&& s.subrange(8, 12) == le_bytes(1, 4)
            &&& s.subrange(12, 28) == ip@
            &&& s.subrange(28, 30) == le_bytes(port as nat, 2)
            &&& s.subrange(30, 38) == le_bytes(session as nat, 8)
            &&& s.subrange(38, 46) == le_bytes(hello@.len(), 8)
            &&& s.skip(46) == hello@
            &&& RelayMsg::read(s + tail) == Ok::<(RelayMsgModel, nat), DecodeError>(
                (seen.model(), s.len()),
            )
        }),
{
    lemma_le_bytes_len(2, 4);
    lemma_le_bytes_len(from.0 as nat, 4);
    lemma_le_bytes_len(session as nat, 8);
    lemma_le_bytes_len(hello@.len(), 8);
    lemma_le_bytes_len(1, 4);
    lemma_le_bytes_len(port as nat, 2);
    assert(hello.len() == hello@.len());
    let from_addr = SocketAddr::V6 { ip, port, flowinfo, scope_id };
    let msg = RelayMsg::Incoming { from, from_addr, session, hello };
    let s = RelayMsg::bytes(msg.model());
    let from_addr = SocketAddr::V6 { ip, port, flowinfo: 0, scope_id: 0 };
    let seen = RelayMsg::Incoming { from, from_addr, session, hello };
    RelayMsg::read_of_bytes(seen.model(), tail);
    assert(s.subrange(0, 4) =~= le_bytes(2, 4));
    assert(s.subrange(4, 8) =~= le_bytes(from.0 as nat, 4));
    assert(s.subrange(8, 12) =~= le_bytes(1, 4));
    assert(s.subrange(12, 28) =~= ip@);
    assert(s.subrange(28, 30) =~= le_bytes(port as nat, 2));
    assert(s.subrange(30, 38) =~= le_bytes(session as nat, 8));
    assert(s.subrange(38, 46) =~= le_bytes(hello@.len(), 8));
    assert(s.skip(46) =~= hello@);
}

/// A [`RelayMsg::PeerFound`] with an IPv4 address: where its parts stand, and that it is read back.
pub proof fn relay_peer_found_v4(
    target: DeviceId,
    ip: [u8; 4],
    port: u16,
    session: SessionId,
    answer: Vec<u8>,
    rate_cap_kbps: u32,
    tail: Seq<u8>,
)
    ensures
        ({
            let target_addr = SocketAddr::V4 { ip, port };
            let msg = RelayMsg::PeerFound { target, target_addr, session, answer, rate_cap_kbps };
            let s = RelayMsg::bytes(msg.model());
            &&& s.len() == 38 + answer@.len()
            &&& s.subrange(0, 4) == le_bytes(3, 4)
            &&& s.subrange(4, 8) == le_bytes(target.0 as nat, 4)
            &&& s.subrange(8, 12) == le_bytes(0, 4)
            &&& s.subrange(12, 16) == ip@
            &&& s.subrange(16, 18) == le_bytes(port as nat, 2)
            &&& s.subrange(18, 26) == le_bytes(session as nat, 8)
            &&& s.subrange(26, 34) == le_bytes(answer@.len(), 8)
            &&& s.subrange(34, 34 + answer@.len() as int) == answer@
            &&& s.subrange(34 + answer@.len() as int, 38 + answer@.len() as int)
                == le_bytes(rate_cap_kbps as nat, 4)
            &&& RelayMsg::read(s + tail) == Ok::<(RelayMsgModel, nat), DecodeError>(
                (msg.model(), s.len()),
            )
        }),
{
    lemma_le_bytes_len(3, 4);
    lemma_le_bytes_len(target.0 as nat, 4);
    lemma_le_bytes_len(session as nat, 8);
    lemma_le_bytes_len(answer@.len(), 8);
    lemma_le_bytes_len(rate_cap_kbps as nat, 4);
    lemma_le_bytes_len(0, 4);
    lemma_le_bytes_len(port as nat, 2);
    assert(answer.len() == answer@.len());
    let target_addr = SocketAddr::V4 { ip, port };
    let msg = RelayMsg::PeerFound { target, target_addr, session, answer, rate_cap_kbps };
    let s = RelayMsg::bytes(msg.model());
    RelayMsg::read_of_bytes(msg.model(), tail);
    assert(s.subrange(0, 4) =~= le_bytes(3, 4));
    assert(s.subrange(4, 8) =~= le_bytes(target.0 as nat, 4));
    assert(s.subrange(8, 12) =~= le_bytes(0, 4));
    assert(s.subrange(12, 16) =~= ip@);
    assert(s.subrange(16, 18) =~= le_bytes(port as nat, 2));
    assert(s.subrange(18, 26) =~= le_bytes(session as nat, 8));
    assert(s.subrange(26, 34) =~= le_bytes(answer@.len(), 8));
    assert(s.subrange(34, 34 + answer@.len() as int) =~= answer@);
    assert(s.subrange(34 + answer@.len() as int, 38 + answer@.len() as int)
        =~= le_bytes(rate_cap_kbps as nat, 4));
}

/// A [`RelayMsg::PeerFound`] with an IPv6 address: where its parts stand, and that it is read back,
/// the local parts of the address set to zero.
pub proof fn relay_peer_found_v6(
    target: DeviceId,
    ip: [u8; 16],
    port: u16,
    flowinfo: u32,
    scope_id: u32,
    session: SessionId,
    answer: Vec<u8>,
    rate_cap_kbps: u32,
    tail: Seq<u8>,
)
    ensures
        ({
            let target_addr = SocketAddr::V6 { ip, port, flowinfo, scope_id };
            let msg = RelayMsg::PeerFound { target, target_addr, session, answer, rate_cap_kbps };
            let s = RelayMsg::bytes(msg.model());
            let target_addr = SocketAddr::V6 { ip, port, flowinfo: 0, scope_id: 0 };
            let seen = RelayMsg::PeerFound { target, target_addr, session, answer, rate_cap_kbps };
            &&& s.len() == 50 + answer@.len()
            &&& s.subrange(0, 4) == le_bytes(3, 4)
            &&& s.subrange(4, 8) == le_bytes(target.0 as nat, 4)
            &&& s.subrange(8, 12) == le_bytes(1, 4)
            &&& s.subrange(12, 28) == ip@
            &&& s.subrange(28, 30) == le_bytes(port as nat, 2)
            &&& s.subrange(30, 38) == le_bytes(session as nat, 8)
            &&& s.subrange(38, 46) == le_bytes(answer@.len(), 8)
            &&& s.subrange(46, 46 + answer@.len() as int) == answer@
            &&& s.subrange(46 + answer@.len() as int, 50 + answer@.len() as int)
                == le_bytes(rate_cap_kbps as nat, 4)
            &&& RelayMsg::read(s + tail) == Ok::<(RelayMsgModel, nat), DecodeError>(
                (seen.model(), s.len()),
            )
        }),
{
    lemma_le_bytes_len(3, 4);
    lemma_le_bytes_len(target.0 as nat, 4);
    lemma_le_bytes_len(session as nat, 8);
    lemma_le_bytes_len(answer@.len(), 8);
    lemma_le_bytes_len(rate_cap_kbps as nat, 4);
    lemma_le_bytes_len(1, 4);
    lemma_le_bytes_len(port as nat, 2);
    assert(answer.len() == answer@.len());
    let target_addr = SocketAddr::V6 { ip, port, flowinfo, scope_id };
    let msg = RelayMsg::PeerFound { target, target_addr, session, answer, rate_cap_kbps };
    let s = RelayMsg::bytes(msg.model());
    let target_addr = SocketAddr::V6 { ip, port, flowinfo: 0, scope_id: 0 };
    let seen = RelayMsg::PeerFound { target, target_addr, session, answer, rate_cap_kbps };
    RelayMsg::read_of_bytes(seen.model(), tail);
    assert(s.subrange(0, 4) =~= le_bytes(3, 4));
    assert(s.subrange(4, 8) =~= le_bytes(target.0 as nat, 4));
    assert(s.subrange(8, 12) =~= le_bytes(1, 4));
    assert(s.subrange(12, 28) =~= ip@);
    assert(s.subrange(28, 30) =~= le_bytes(port as nat, 2));
    assert(s.subrange(30, 38) =~= le_bytes(session as nat, 8));
    assert(s.subrange(38, 46) =~= le_bytes(answer@.len(), 8));
    assert(s.subrange(46, 46 + answer@.len() as int) =~= answer@);
    assert(s.subrange(46 + answer@.len() as int, 50 + answer@.len() as int)
        =~= le_bytes(rate_cap_kbps as nat, 4));
}

/// A [`RelayMsg::RelayData`]: where its parts stand, and that it is read back.
pub proof fn relay_relay_data(session: SessionId, payload: Vec<u8>, tail: Seq<u8>)
    ensures
        ({
            let msg = RelayMsg::RelayData { session, payload };
            let s = RelayMsg::bytes(msg.model());
            &&& s.len() == 20 + payload@.len()
            &&& s.subrange(0, 4) == le_bytes(4, 4)
            &&& s.subrange(4, 12) == le_bytes(session as nat, 8)
            &&& s.subrange(12, 20) == le_bytes(payload@.len(), 8)
            &&& s.skip(20) == payload@
            &&& RelayMsg::read(s + tail) == Ok::<(RelayMsgModel, nat), DecodeError>(
                (msg.model(), s.len()),
            )
        }),
{
    lemma_le_bytes_len(4, 4);
    lemma_le_bytes_len(session as nat, 8);
    lemma_le_bytes_len(payload@.len(), 8);
    assert(payload.len() == payload@.len());
    let msg = RelayMsg::RelayData { session, payload };
    let s = RelayMsg::bytes(msg.model());
    RelayMsg::read_of_bytes(msg.model(), tail);
    assert(s.subrange(0, 4) =~= le_bytes(4, 4));
    assert(s.subrange(4, 12) =~= le_bytes(session as nat, 8));
    assert(s.subrange(12, 20) =~= le_bytes(payload@.len(), 8));
    assert(s.skip(20) =~= payload@);
}

/// A [`RelayMsg::Error`] with the code at place `k` among the codes: where its parts stand, and
/// that it is read back.
pub proof fn relay_error(k: nat, message: String, tail: Seq<u8>)
    requires
        k < 6,
        encode_utf8(message@).len() <= u64::MAX,
    ensures
        ({
            let codes = seq![
                ErrCode::TargetOffline,
                ErrCode::BadToken,
                ErrCode::NotRegistered,
                ErrCode::Protocol,
                ErrCode::RelayFull,
                ErrCode::IncompatibleVersion,
            ];
            let code = codes[k as int];
            let msg = RelayMsg::Error { code, message };
            let s = RelayMsg::bytes(msg.model());
            &&& s.len() == 16 + encode_utf8(message@).len()
            &&& s.subrange(0, 4) == le_bytes(5, 4)
            &&& s.subrange(4, 8) == le_bytes(k, 4)
            &&& s.subrange(8, 16) == le_bytes(encode_utf8(message@).len(), 8)
            &&& s.skip(16) == encode_utf8(message@)
            &&& RelayMsg::read(s + tail) == Ok::<(RelayMsgModel, nat), DecodeError>(
                (msg.model(), s.len()),
            )
        }),
{
    lemma_le_bytes_len(5, 4);
    lemma_le_bytes_len(k, 4);
    lemma_le_bytes_len(encode_utf8(message@).len(), 8);
    let codes = seq![
        ErrCode::TargetOffline,
        ErrCode::BadToken,
        ErrCode::NotRegistered,
        ErrCode::Protocol,
        ErrCode::RelayFull,
        ErrCode::IncompatibleVersion,
    ];
    let code = codes[k as int];
    let msg = RelayMsg::Error { code, message };
    let s = RelayMsg::bytes(msg.model());
    RelayMsg::read_of_bytes(msg.model(), tail);
    assert(s.subrange(0, 4) =~= le_bytes(5, 4));
    assert(s.subrange(4, 8) =~= le_bytes(k, 4));
    assert(s.subrange(8, 16) =~= le_bytes(encode_utf8(message@).len(), 8));
    assert(s.skip(16) =~= encode_utf8(message@));
}

/// A [`PeerMsg::Punch`]: where its parts stand, and that it is read back.
pub proof fn peer_punch(session: SessionId, seq: u32, tail: Seq<u8>)
    ensures
        ({
            let msg = PeerMsg::Punch { session, seq };
            let s = PeerMsg::bytes(msg.model());
            &&& s.len() == 16
            &&& s.subrange(0, 4) == le_bytes(0, 4)
            &&& s.subrange(4, 12) == le_bytes(session as nat, 8)
            &&& s.subrange(12, 16) == le_bytes(seq as nat, 4)
            &&& PeerMsg::read(s + tail) == Ok::<(PeerMsgModel, nat), DecodeError>(
                (msg.model(), s.len()),
            )
        }),
{
    lemma_le_bytes_len(0, 4);
    lemma_le_bytes_len(session as nat, 8);
    lemma_le_bytes_len(seq as nat, 4);
    let msg = PeerMsg::Punch { session, seq };
    let s = PeerMsg::bytes(msg.model());
    PeerMsg::read_of_bytes(msg.model(), tail);
    assert(s.subrange(0, 4) =~= le_bytes(0, 4));
    assert(s.subrange(4, 12) =~= le_bytes(session as nat, 8));
    assert(s.subrange(12, 16) =~= le_bytes(seq as nat, 4));
}

/// A [`PeerMsg::PunchAck`]: where its parts stand, and that it is read back.
pub proof fn peer_punch_ack(session: SessionId, seq: u32, tail: Seq<u8>)
    ensures
        ({
            let msg = PeerMsg::PunchAck { session, seq };
            let s = PeerMsg::bytes(msg.model());
            &&& s.len() == 16
            &&& s.subrange(0, 4) == le_bytes(1, 4)
            &&& s.subrange(4, 12) == le_bytes(session as nat, 8)
            &&& s.subrange(12, 16) == le_bytes(seq as nat, 4)
            &&& PeerMsg::read(s + tail) == Ok::<(PeerMsgModel, nat), DecodeError>(
                (msg.model(), s.len()),
            )
        }),
{
    lemma_le_bytes_len(1, 4);
    lemma_le_bytes_len(session as nat, 8);
    lemma_le_bytes_len(seq as nat, 4);
    let msg = PeerMsg::PunchAck { session, seq };
    let s = PeerMsg::bytes(msg.model());
    PeerMsg::read_of_bytes(msg.model(), tail);
    assert(s.subrange(0, 4) =~= le_bytes(1, 4));
    assert(s.subrange(4, 12) =~= le_bytes(session as nat, 8));
    assert(s.subrange(12, 16) =~= le_bytes(seq as nat, 4));
}

/// A [`PeerMsg::Data`]: where its parts stand, and that it is read back.
pub proof fn peer_data(session: SessionId, seq: u64, payload: Vec<u8>, tail: Seq<u8>)
    ensures
        ({
            let msg = PeerMsg::Data { session, seq, payload };
            let s = PeerMsg::bytes(msg.model());
            &&& s.len() == 28 + payload@.len()
            &&& s.subrange(0, 4) == le_bytes(2, 4)
            &&& s.subrange(4, 12) == le_bytes(session as nat, 8)
            &&& s.subrange(12, 20) == le_bytes(seq as nat, 8)
            &&& s.subrange(20, 28) == le_bytes(payload@.len(), 8)
            &&& s.skip(28) == payload@
            &&& PeerMsg::read(s + tail) == Ok::<(PeerMsgModel, nat), DecodeError>(
                (msg.model(), s.len()),
            )
        }),
{
    lemma_le_bytes_len(2, 4);
    lemma_le_bytes_len(session as nat, 8);
    lemma_le_bytes_len(seq as nat, 8);
    lemma_le_bytes_len(payload@.len(), 8);
    assert(payload.len() == payload@.len());
    let msg = PeerMsg::Data { session, seq, payload };
    let s = PeerMsg::bytes(msg.model());
    PeerMsg::read_of_bytes(msg.model(), tail);
    assert(s.subrange(0, 4) =~= le_bytes(2, 4));
    assert(s.subrange(4, 12) =~= le_bytes(session as nat, 8));
    assert(s.subrange(12, 20) =~= le_bytes(seq as nat, 8));
    assert(s.subrange(20, 28) =~= le_bytes(payload@.len(), 8));
    assert(s.skip(28) =~= payload@);
}

/// A [`PeerMsg::KeepAlive`]: where its parts stand, and that it is read back.
pub proof fn peer_keep_alive(session: SessionId, tail: Seq<u8>)
    ensures
        ({
            let msg = PeerMsg::KeepAlive { session };
            let s = PeerMsg::bytes(msg.model());
            &&& s.len() == 12
            &&& s.subrange(0, 4) == le_bytes(3, 4)
            &&& s.subrange(4, 12) == le_bytes(session as nat, 8)
            &&& PeerMsg::read(s + tail) == Ok::<(PeerMsgModel, nat), DecodeError>(
                (msg.model(), s.len()),
            )
        }),
{
    lemma_le_bytes_len(3, 4);
    lemma_le_bytes_len(session as nat, 8);
    let msg = PeerMsg::KeepAlive { session };
    let s = PeerMsg::bytes(msg.model());
    PeerMsg::read_of_bytes(msg.model(), tail);
    assert(s.subrange(0, 4) =~= le_bytes(3, 4));
    assert(s.subrange(4, 12) =~= le_bytes(session as nat, 8));
}

/// A [`PeerMsg::Hello`]: where its parts stand, and that it is read back.
pub proof fn peer_hello(session: SessionId, pubkey: PublicKey, salt: [u8; 32], tail: Seq<u8>)
    ensures
        ({
            let msg = PeerMsg::Hello { session, pubkey, salt };
            let s = PeerMsg::bytes(msg.model());
            &&& s.len() == 76
            &&& s.subrange(0, 4) == le_bytes(4, 4)
            &&& s.subrange(4, 12) == le_bytes(session as nat, 8)
            &&& s.subrange(12, 44) == pubkey@
            &&& s.subrange(44, 76) == salt@
            &&& PeerMsg::read(s + tail) == Ok::<(PeerMsgModel, nat), DecodeError>(
                (msg.model(), s.len()),
            )
        }),
{
    lemma_le_bytes_len(4, 4);
    lemma_le_bytes_len(session as nat, 8);
    let msg = PeerMsg::Hello { session, pubkey, salt };
    let s = PeerMsg::bytes(msg.model());
    PeerMsg::read_of_bytes(msg.model(), tail);
    assert(s.subrange(0, 4) =~= le_bytes(4, 4));
    assert(s.subrange(4, 12) =~= le_bytes(session as nat, 8));
    assert(s.subrange(12, 44) =~= pubkey@);
    assert(s.subrange(44, 76) =~= salt@);
}

/// A [`PeerMsg::HelloAck`]: where its parts stand, and that it is read back.
pub proof fn peer_hello_ack(session: SessionId, pubkey: PublicKey, salt: [u8; 32], tail: Seq<u8>)
    ensures
        ({
            let msg = PeerMsg::HelloAck { session, pubkey, salt };
            let s = PeerMsg::bytes(msg.model());
            &&& s.len() == 76
            &&& s.subrange(0, 4) == le_bytes(5, 4)
            &&& s.subrange(4, 12) == le_bytes(session as nat, 8)
            &&& s.subrange(12, 44) == pubkey@
            &&& s.subrange(44, 76) == salt@
            &&& PeerMsg::read(s + tail) == Ok::<(PeerMsgModel, nat), DecodeError>(
                (msg.model(), s.len()),
            )
        }),
{
    lemma_le_bytes_len(5, 4);
    lemma_le_bytes_len(session as nat, 8);
    let msg = PeerMsg::HelloAck { session, pubkey, salt };
    let s = PeerMsg::bytes(msg.model());
    PeerMsg::read_of_bytes(msg.model(), tail);
    assert(s.subrange(0, 4) =~= le_bytes(5, 4));
    assert(s.subrange(4, 12) =~= le_bytes(session as nat, 8));
    assert(s.subrange(12, 44) =~= pubkey@);
    assert(s.subrange(44, 76) =~= salt@);
}

/// Numbers stand alone as their little-endian bytes.
pub proof fn numbers(a: u16, b: u32, c: u64, tail: Seq<u8>)
    ensures
        u16::bytes(a.model()) == le_bytes(a as nat, 2),
        u32::bytes(b.model()) == le_bytes(b as nat, 4),
        u64::bytes(c.model()) == le_bytes(c as nat, 8),
        u16::read(le_bytes(a as nat, 2) + tail) == Ok::<(u16, nat), DecodeError>((a, 2)),
        u32::read(le_bytes(b as nat, 4) + tail) == Ok::<(u32, nat), DecodeError>((b, 4)),
        u64::read(le_bytes(c as nat, 8) + tail) == Ok::<(u64, nat), DecodeError>((c, 8)),
{
    lemma_le_bytes_len(a as nat, 2);
    lemma_le_bytes_len(b as nat, 4);
    lemma_le_bytes_len(c as nat, 8);
    u16::read_of_bytes(a, tail);
    u32::read_of_bytes(b, tail);
    u64::read_of_bytes(c, tail);
}

/// An identity stands alone as its number, whatever the number; a token as its bytes.
pub proof fn identity_and_token(id: DeviceId, token: Token, tail: Seq<u8>)
    ensures
        DeviceId::bytes(id.model()) == le_bytes(id.0 as nat, 4),
        DeviceId::read(le_bytes(id.0 as nat, 4) + tail) == Ok::<(DeviceId, nat), DecodeError>(
            (id, 4),
        ),
        Token::bytes(token.model()) == token.0@,
        Token::read(token.0@ + tail) == Ok::<(Seq<u8>, nat), DecodeError>((token.0@, 16)),
{
    lemma_le_bytes_len(id.0 as nat, 4);
    DeviceId::read_of_bytes(id, tail);
    Token::read_of_bytes(token.0@, tail);
}

/// The code at place `k` stands alone as that place. Other numbers are no codes.
pub proof fn error_code(k: u32, tail: Seq<u8>)
    ensures
        ({
            let codes = seq![
                ErrCode::TargetOffline,
                ErrCode::BadToken,
                ErrCode::NotRegistered,
                ErrCode::Protocol,
                ErrCode::RelayFull,
                ErrCode::IncompatibleVersion,
            ];
            let s = le_bytes(k as nat, 4) + tail;
            if k < 6 {
                &&& ErrCode::bytes(codes[k as int].model()) == le_bytes(k as nat, 4)
                &&& ErrCode::read(s) == Ok::<(ErrCode, nat), DecodeError>((codes[k as int], 4))
            } else {
                ErrCode::read(s) == Err::<(ErrCode, nat), DecodeError>(
                    DecodeError::UnknownVariant(k),
                )
            }
        }),
{
    lemma_le_bytes_len(k as nat, 4);
    u32::read_of_bytes(k, tail);
}

/// A byte array stands alone as it is.
pub proof fn byte_array<const N: usize>(a: [u8; N], tail: Seq<u8>)
    ensures
        <[u8; N]>::bytes(a.model()) == a@,
        <[u8; N]>::read(a@ + tail) == Ok::<(Seq<u8>, nat), DecodeError>((a@, N as nat)),
{
    <[u8; N]>::read_of_bytes(a@, tail);
}

/// A byte string stands behind its length. If bytes are missing, it is incomplete.
pub proof fn byte_string(v: Vec<u8>, len: u64, part: Seq<u8>, tail: Seq<u8>)
    ensures
        Vec::<u8>::bytes(v.model()) == le_bytes(v@.len(), 8) + v@,
        Vec::<u8>::read(le_bytes(v@.len(), 8) + v@ + tail) == Ok::<(Seq<u8>, nat), DecodeError>(
            (v@, 8 + v@.len()),
        ),
        part.len() < len ==> Vec::<u8>::read(le_bytes(len as nat, 8) + part) == Err::<
            (Seq<u8>, nat),
            DecodeError,
        >(DecodeError::UnexpectedEnd),
{
    assert(v.len() == v@.len());
    lemma_le_bytes_len(v@.len(), 8);
    lemma_le_bytes_len(len as nat, 8);
    Vec::<u8>::read_of_bytes(v@, tail);
    u64::read_of_bytes(len, part);
    lemma_le_value_of_front(len, part);
}

/// The length in front of a byte string is read as it was written.
proof fn lemma_le_value_of_front(len: u64, rest: Seq<u8>)
    ensures
        le_bytes(len as nat, 8).len() == 8,
        le_value((le_bytes(len as nat, 8) + rest).take(8)) == len,
{
    lemma_le_limits();
    lemma_le_bytes_len(len as nat, 8);
    lemma_le_value_of_bytes(len as nat, 8);
    assert((le_bytes(len as nat, 8) + rest).take(8) =~= le_bytes(len as nat, 8));
}

/// A text stands as its UTF-8 form behind the length of that form. If bytes are
/// missing, it is incomplete; bytes that are not UTF-8 are no text.
pub proof fn text(t: String, len: u64, part: Seq<u8>, tail: Seq<u8>)
    requires
        encode_utf8(t@).len() <= u64::MAX,
    ensures
        ({
            let utf8 = encode_utf8(t@);
            &&& String::bytes(t.model()) == le_bytes(utf8.len(), 8) + utf8
            &&& String::read(le_bytes(utf8.len(), 8) + utf8 + tail) == Ok::<
                (Seq<char>, nat),
                DecodeError,
            >((t@, 8 + utf8.len()))
        }),
        part.len() < len ==> String::read(le_bytes(len as nat, 8) + part) == Err::<
            (Seq<char>, nat),
            DecodeError,
        >(DecodeError::UnexpectedEnd),
        part.len() == len && !valid_utf8(part) ==> String::read(
            le_bytes(len as nat, 8) + part + tail,
        ) == Err::<(Seq<char>, nat), DecodeError>(DecodeError::InvalidUtf8),
{
    lemma_le_bytes_len(encode_utf8(t@).len(), 8);
    String::read_of_bytes(t@, tail);
    lemma_le_value_of_front(len, part);
    lemma_le_value_of_front(len, part + tail);
    let s = le_bytes(len as nat, 8) + part + tail;
    assert(s =~= le_bytes(len as nat, 8) + (part + tail));
    if part.len() == len {
        assert(s.subrange(8, 8 + len as int) =~= part);
    }
}

/// An optional value stands as 0, or as itself behind a 1. Other marks are rejected.
pub proof fn optional<T: Wire>(inner: T, mark: u8, tail: Seq<u8>)
    ensures
        Option::<T>::bytes(None::<T>.model()) == seq![0u8],
        Option::<T>::bytes(Some(inner).model()) == seq![1u8] + T::bytes(inner.model()),
        Option::<T>::read(seq![0u8] + tail) == Ok::<(Option<T::Model>, nat), DecodeError>(
            (None, 1),
        ),
        T::sendable(inner.model()) ==> Option::<T>::read(
            seq![1u8] + T::bytes(inner.model()) + tail,
        ) == Ok::<(Option<T::Model>, nat), DecodeError>(
            (Some(inner.model()), 1 + T::bytes(inner.model()).len()),
        ),
        mark > 1 ==> Option::<T>::read(seq![mark] + tail) == Err::<
            (Option<T::Model>, nat),
            DecodeError,
        >(DecodeError::InvalidTag(mark)),
{
    if T::sendable(inner.model()) {
        Option::<T>::read_of_bytes(Some(inner.model()), tail);
    }
}

/// Two values stand one after the other, and nothing stands as no bytes.
pub proof fn pair<A: Wire, B: Wire>(a: A, b: B, tail: Seq<u8>)
    ensures
        ({
            let s = A::bytes(a.model()) + B::bytes(b.model());
            &&& <(A, B)>::bytes((a, b).model()) == s
            &&& A::sendable(a.model()) && B::sendable(b.model()) ==> <(A, B)>::read(s + tail)
                == Ok::<((A::Model, B::Model), nat), DecodeError>(
                ((a.model(), b.model()), s.len()),
            )
        }),
        <()>::bytes(()) == Seq::<u8>::empty(),
        <()>::read(tail) == Ok::<((), nat), DecodeError>(((), 0)),
{
    if A::sendable(a.model()) && B::sendable(b.model()) {
        <(A, B)>::read_of_bytes((a, b).model(), tail);
    }
}

/// An address stands as its kind, its octets and its port. The local parts of an
/// IPv6 address are not sent, and other kinds are rejected.
pub proof fn address(
    v4: [u8; 4],
    v6: [u8; 16],
    port: u16,
    flowinfo: u32,
    scope_id: u32,
    kind: u32,
    tail: Seq<u8>,
)
    ensures
        ({
            let addr = SocketAddr::V4 { ip: v4, port };
            let s = le_bytes(0, 4) + v4@ + le_bytes(port as nat, 2);
            &&& SocketAddr::bytes(addr.model()) == s
            &&& SocketAddr::read(s + tail) == Ok::<(SocketAddrModel, nat), DecodeError>(
                (addr.model(), 10),
            )
        }),
        ({
            let addr = SocketAddr::V6 { ip: v6, port, flowinfo, scope_id };
            let seen = SocketAddr::V6 { ip: v6, port, flowinfo: 0, scope_id: 0 };
            let s = le_bytes(1, 4) + v6@ + le_bytes(port as nat, 2);
            &&& SocketAddr::bytes(addr.model()) == s
            &&& SocketAddr::read(s + tail) == Ok::<(SocketAddrModel, nat), DecodeError>(
                (seen.model(), 22),
            )
        }),
        kind > 1 ==> SocketAddr::read(le_bytes(kind as nat, 4) + tail) == Err::<
            (SocketAddrModel, nat),
            DecodeError,
        >(DecodeError::UnknownVariant(kind)),
{
    lemma_le_bytes_len(0, 4);
    lemma_le_bytes_len(1, 4);
    lemma_le_bytes_len(port as nat, 2);
    u32::read_of_bytes(kind, tail);
    let a = SocketAddr::V4 { ip: v4, port };
    let b = SocketAddr::V6 { ip: v6, port, flowinfo: 0, scope_id: 0 };
    SocketAddr::read_of_bytes(a.model(), tail);
    SocketAddr::read_of_bytes(b.model(), tail);
    assert(SocketAddr::bytes(a.model()) =~= le_bytes(0, 4) + v4@ + le_bytes(port as nat, 2));
    assert(SocketAddr::bytes(b.model()) =~= le_bytes(1, 4) + v6@ + le_bytes(port as nat, 2));
}

/// Addresses that stand for the same have the same parts.
pub proof fn address_models_tell_addresses_apart(a: SocketAddr, b: SocketAddr)
    requires
        a.model() == b.model(),
    ensures
        match (a, b) {
            (SocketAddr::V4 { ip, port }, SocketAddr::V4 { ip: other, port: p }) => {
                ip@ == other@ && port == p
            },
            (
                SocketAddr::V6 { ip, port, flowinfo, scope_id },
                SocketAddr::V6 { ip: other, port: p, flowinfo: f, scope_id: s },
            ) => ip@ == other@ && port == p && flowinfo == f && scope_id == s,
            _ => false,
        },
{
}

/// An address that is decoded, alone or in a message, has no local parts.
pub proof fn decoded_addresses_have_no_local_parts(addr: SocketAddr, msg: RelayMsg, s: Seq<u8>)
    ensures
        (SocketAddr::read(s) matches Ok((v, _)) && v == addr.model()) ==> match addr {
            SocketAddr::V4 { .. } => true,
            SocketAddr::V6 { flowinfo, scope_id, .. } => flowinfo == 0 && scope_id == 0,
        },
        (RelayMsg::read(s) matches Ok((v, _)) && v == msg.model()) ==> match msg {
            RelayMsg::Incoming { from_addr: SocketAddr::V6 { flowinfo, scope_id, .. }, .. } => {
                flowinfo == 0 && scope_id == 0
            },
            RelayMsg::PeerFound { target_addr: SocketAddr::V6 { flowinfo, scope_id, .. }, .. } => {
                flowinfo == 0 && scope_id == 0
            },
            _ => true,
        },
{
    SocketAddr::bytes_of_read(s);
    RelayMsg::bytes_of_read(s);
}

/// A datagram with an index beyond the variants is rejected, whatever follows the index.
pub proof fn unknown_index(index: u32, tail: Seq<u8>)
    requires
        index >= 6,
    ensures
        ({
            let s = le_bytes(index as nat, 4) + tail;
            let e = DecodeError::UnknownVariant(index);
            &&& ClientMsg::read(s) == Err::<(ClientMsgModel, nat), DecodeError>(e)
            &&& RelayMsg::read(s) == Err::<(RelayMsgModel, nat), DecodeError>(e)
            &&& PeerMsg::read(s) == Err::<(PeerMsgModel, nat), DecodeError>(e)
        }),
{
    u32::read_of_bytes(index, tail);
}

/// A registration whose name is marked neither absent nor present is rejected.
#[verifier::rlimit(40)]
pub proof fn register_with_bad_mark(version: u16, pubkey: PublicKey, mark: u8, tail: Seq<u8>)
    requires
        mark > 1,
    ensures
        ClientMsg::read(
            le_bytes(0, 4) + le_bytes(version as nat, 2) + pubkey@ + seq![mark] + tail,
        ) == Err::<(ClientMsgModel, nat), DecodeError>(DecodeError::InvalidTag(mark)),
{
    lemma_register_up_to_name(version, pubkey, seq![mark] + tail);
    let s = le_bytes(0, 4) + le_bytes(version as nat, 2) + pubkey@ + seq![mark] + tail;
    assert(s =~= le_bytes(0, 4) + le_bytes(version as nat, 2) + pubkey@ + (seq![mark] + tail));
}

/// A registration whose name is cut short, or is not UTF-8, is rejected.
#[verifier::rlimit(40)]
pub proof fn register_with_bad_name(
    version: u16,
    pubkey: PublicKey,
    len: u64,
    part: Seq<u8>,
    tail: Seq<u8>,
)
    ensures
        ({
            let head = le_bytes(0, 4) + le_bytes(version as nat, 2) + pubkey@ + seq![1u8];
            let name = le_bytes(len as nat, 8) + part;
            &&& part.len() < len ==> ClientMsg::read(head + name) == Err::<
                (ClientMsgModel, nat),
                DecodeError,
            >(DecodeError::UnexpectedEnd)
            &&& part.len() == len && !valid_utf8(part) ==> ClientMsg::read(head + (name + tail))
                == Err::<(ClientMsgModel, nat), DecodeError>(DecodeError::InvalidUtf8)
        }),
{
    let name = le_bytes(len as nat, 8) + part;
    lemma_not_a_text(len, part, tail);
    lemma_register_up_to_text(version, pubkey, name);
    lemma_register_up_to_text(version, pubkey, name + tail);
}

/// The message from the relay whose address is of an unknown kind is rejected.
pub proof fn relay_address_of_unknown_kind(id: DeviceId, kind: u32, tail: Seq<u8>)
    requires
        kind > 1,
    ensures
        ({
            let e = DecodeError::UnknownVariant(kind);
            let rest = le_bytes(id.0 as nat, 4) + le_bytes(kind as nat, 4) + tail;
            &&& RelayMsg::read(le_bytes(2, 4) + rest) == Err::<(RelayMsgModel, nat), DecodeError>(e)
            &&& RelayMsg::read(le_bytes(3, 4) + rest) == Err::<(RelayMsgModel, nat), DecodeError>(e)
        }),
{
    let rest = le_bytes(id.0 as nat, 4) + le_bytes(kind as nat, 4) + tail;
    lemma_le_bytes_len(2, 4);
    lemma_le_bytes_len(3, 4);
    lemma_le_bytes_len(id.0 as nat, 4);
    u32::read_of_bytes(2, rest);
    u32::read_of_bytes(3, rest);
    u32::read_of_bytes(id.0, le_bytes(kind as nat, 4) + tail);
    u32::read_of_bytes(kind, tail);
    assert((le_bytes(2, 4) + rest).skip(4) =~= rest);
    assert((le_bytes(3, 4) + rest).skip(4) =~= rest);
    assert(rest =~= le_bytes(id.0 as nat, 4) + (le_bytes(kind as nat, 4) + tail));
    assert(rest.skip(4) =~= le_bytes(kind as nat, 4) + tail);
}

/// A refusal with an unknown code, or whose message is cut short or is not UTF-8, is
/// rejected.
#[verifier::rlimit(40)]
pub proof fn refusal_with_bad_parts(code: u32, len: u64, part: Seq<u8>, tail: Seq<u8>)
    ensures
        ({
            let front = le_bytes(5, 4) + le_bytes(code as nat, 4);
            let name = le_bytes(len as nat, 8) + part;
            &&& code >= 6 ==> RelayMsg::read(front + tail) == Err::<
                (RelayMsgModel, nat),
                DecodeError,
            >(DecodeError::UnknownVariant(code))
            &&& code < 6 && part.len() < len ==> RelayMsg::read(front + name) == Err::<
                (RelayMsgModel, nat),
                DecodeError,
            >(DecodeError::UnexpectedEnd)
            &&& code < 6 && part.len() == len && !valid_utf8(part) ==> RelayMsg::read(
                front + name + tail,
            ) == Err::<(RelayMsgModel, nat), DecodeError>(DecodeError::InvalidUtf8)
        }),
{
    let front = le_bytes(5, 4) + le_bytes(code as nat, 4);
    let name = le_bytes(len as nat, 8) + part;
    lemma_not_a_text(len, part, tail);
    lemma_refusal_up_to_message(code, tail);
    lemma_refusal_up_to_message(code, name);
    lemma_refusal_up_to_message(code, name + tail);
    assert(front + name + tail =~= front + (name + tail));
}

proof fn lemma_not_a_text(len: u64, part: Seq<u8>, tail: Seq<u8>)
    ensures
        ({
            let name = le_bytes(len as nat, 8) + part;
            &&& part.len() < len ==> String::read(name) == Err::<(Seq<char>, nat), DecodeError>(
                DecodeError::UnexpectedEnd,
            )
            &&& part.len() == len && !valid_utf8(part) ==> String::read(name + tail) == Err::<
                (Seq<char>, nat),
                DecodeError,
            >(DecodeError::InvalidUtf8)
        }),
{
    let name = le_bytes(len as nat, 8) + part;
    lemma_le_value_of_front(len, part);
    lemma_le_value_of_front(len, part + tail);
    assert(name + tail =~= le_bytes(len as nat, 8) + (part + tail));
    if part.len() == len {
        assert((name + tail).subrange(8, 8 + len as int) =~= part);
    }
}

proof fn lemma_register_up_to_name(version: u16, pubkey: PublicKey, rest: Seq<u8>)
    ensures
        ({
            let s = le_bytes(0, 4) + le_bytes(version as nat, 2) + pubkey@ + rest;
            Option::<String>::read(rest) matches Err(e) ==> ClientMsg::read(s) == Err::<
                (ClientMsgModel, nat),
                DecodeError,
            >(e)
        }),
{
    let s = le_bytes(0, 4) + le_bytes(version as nat, 2) + pubkey@ + rest;
    let fields = le_bytes(version as nat, 2) + (pubkey@ + rest);
    lemma_le_bytes_len(0, 4);
    lemma_le_bytes_len(version as nat, 2);
    u32::read_of_bytes(0, fields);
    u16::read_of_bytes(version, pubkey@ + rest);
    <[u8; 32]>::read_of_bytes(pubkey@, rest);
    assert(s =~= le_bytes(0, 4) + fields);
    assert(s.skip(4) =~= fields);
    assert(fields.skip(2) =~= pubkey@ + rest);
    assert((pubkey@ + rest).skip(32) =~= rest);
}

proof fn lemma_register_up_to_text(version: u16, pubkey: PublicKey, name: Seq<u8>)
    ensures
        ({
            let s = le_bytes(0, 4) + le_bytes(version as nat, 2) + pubkey@ + seq![1u8] + name;
            String::read(name) matches Err(e) ==> ClientMsg::read(s) == Err::<
                (ClientMsgModel, nat),
                DecodeError,
            >(e)
        }),
{
    let head = le_bytes(0, 4) + le_bytes(version as nat, 2) + pubkey@;
    lemma_register_up_to_name(version, pubkey, seq![1u8] + name);
    assert((seq![1u8] + name).skip(1) =~= name);
    assert(head + seq![1u8] + name =~= head + (seq![1u8] + name));
}

proof fn lemma_refusal_up_to_message(code: u32, rest: Seq<u8>)
    ensures
        ({
            let s = le_bytes(5, 4) + le_bytes(code as nat, 4) + rest;
            if code >= 6 {
                RelayMsg::read(s) == Err::<(RelayMsgModel, nat), DecodeError>(
                    DecodeError::UnknownVariant(code),
                )
            } else {
                String::read(rest) matches Err(e) ==> RelayMsg::read(s) == Err::<
                    (RelayMsgModel, nat),
                    DecodeError,
                >(e)
            }
        }),
{
    let s = le_bytes(5, 4) + le_bytes(code as nat, 4) + rest;
    let fields = le_bytes(code as nat, 4) + rest;
    lemma_le_bytes_len(5, 4);
    lemma_le_bytes_len(code as nat, 4);
    u32::read_of_bytes(5, fields);
    u32::read_of_bytes(code, rest);
    assert(s =~= le_bytes(5, 4) + fields);
    assert(s.skip(4) =~= fields);
    assert(fields.skip(4) =~= rest);
}

} // verus!
