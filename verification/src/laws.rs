//! What the protocol as a whole promises.
use vstd::prelude::*;
use vstd::utf8::encode_utf8;

use crate::layout::RelayErrorFields;
use crate::message::{
    ClientMsg, ClientMsgModel, ErrCode, PeerMsg, PeerMsgModel, RelayMsg, RelayMsgModel,
    SocketAddr, SocketAddrModel,
};
use crate::wire::{lemma_tagged_read, DecodeError, ReadResult, Wire};

verus! {

/// Decoding what was encoded gives the message back, and does so too when other
/// bytes follow it in the datagram.
pub proof fn decode_of_encode<T: Wire>(v: T::Model, tail: Seq<u8>)
    requires
        T::sendable(v),
    ensures
        T::read(T::bytes(v)) == Ok::<(T::Model, nat), DecodeError>((v, T::bytes(v).len())),
        T::read(T::bytes(v) + tail) == Ok::<(T::Model, nat), DecodeError>((v, T::bytes(v).len())),
{
    T::read_of_bytes(v, tail);
    T::read_of_bytes(v, Seq::empty());
    assert(T::bytes(v) + Seq::<u8>::empty() =~= T::bytes(v));
}

/// Encoding what was decoded gives the bytes back from which it was decoded: a
/// message has one spelling only.
pub proof fn encode_of_decode<T: Wire>(s: Seq<u8>)
    ensures
        T::read(s) matches Ok((v, n)) ==> n <= s.len() && T::bytes(v) == s.take(n as int),
{
    T::bytes_of_read(s);
}

/// Different messages have different bytes.
pub proof fn encode_is_injective<T: Wire>(v: T::Model, w: T::Model)
    requires
        T::sendable(v),
        T::sendable(w),
        T::bytes(v) == T::bytes(w),
    ensures
        v == w,
{
    T::read_of_bytes(v, Seq::empty());
    T::read_of_bytes(w, Seq::empty());
}

/// No message starts with the bytes of another one.
pub proof fn encode_is_prefix_free<T: Wire>(v: T::Model, w: T::Model, tail: Seq<u8>)
    requires
        T::sendable(v),
        T::sendable(w),
        T::bytes(v) + tail == T::bytes(w),
    ensures
        v == w,
        tail.len() == 0,
{
    T::read_of_bytes(v, tail);
    T::read_of_bytes(w, Seq::empty());
    assert(T::bytes(w) + Seq::<u8>::empty() =~= T::bytes(w));
}

/// Bytes after a message do not change what is decoded.
pub proof fn decode_ignores_trailing_bytes<T: Wire>(s: Seq<u8>, tail: Seq<u8>)
    requires
        T::read(s) is Ok,
    ensures
        T::read(s + tail) == T::read(s),
{
    let (v, n) = T::read(s)->Ok_0;
    T::bytes_of_read(s);
    T::read_of_bytes(v, s.skip(n as int) + tail);
    assert(s + tail =~= T::bytes(v) + (s.skip(n as int) + tail));
}

/// A datagram that lost its end is never taken for a message.
pub proof fn decode_rejects_truncation<T: Wire>(v: T::Model, len: nat)
    requires
        T::sendable(v),
        len < T::bytes(v).len(),
    ensures
        T::read(T::bytes(v).take(len as int)) == Err::<(T::Model, nat), DecodeError>(
            DecodeError::UnexpectedEnd,
        ),
{
    T::read_of_cut(v, len);
}

/// Whether the length of a text's UTF-8 form can be sent. It always can be for a
/// text that is in memory.
pub open spec fn text_fits(text: Seq<char>) -> bool {
    encode_utf8(text).len() <= u64::MAX
}

/// Every message from a client is decoded as it was encoded.
pub proof fn client_messages_round_trip(msg: ClientMsg, tail: Seq<u8>)
    requires
        msg matches ClientMsg::Register { name: Some(name), .. } ==> text_fits(name@),
    ensures
        ClientMsg::sendable(msg.model()),
        ClientMsg::read(ClientMsg::bytes(msg.model()) + tail) == Ok::<
            (ClientMsgModel, nat),
            DecodeError,
        >((msg.model(), ClientMsg::bytes(msg.model()).len())),
{
    match msg {
        ClientMsg::Connect { hello, .. } => {
            assert(hello.len() == hello@.len());
        },
        ClientMsg::Accept { answer, .. } => {
            assert(answer.len() == answer@.len());
        },
        ClientMsg::RelayData { payload, .. } => {
            assert(payload.len() == payload@.len());
        },
        _ => {},
    }
    ClientMsg::read_of_bytes(msg.model(), tail);
}

/// Every message from the relay is decoded as it was encoded, but for the local
/// parts of an IPv6 address.
pub proof fn relay_messages_round_trip(msg: RelayMsg, tail: Seq<u8>)
    requires
        RelayMsg::whole(msg.model()),
        msg matches RelayMsg::Error { message, .. } ==> text_fits(message@),
    ensures
        RelayMsg::sendable(msg.model()),
        RelayMsg::read(RelayMsg::bytes(msg.model()) + tail) == Ok::<
            (RelayMsgModel, nat),
            DecodeError,
        >((msg.model(), RelayMsg::bytes(msg.model()).len())),
{
    match msg {
        RelayMsg::Incoming { hello, .. } => {
            assert(hello.len() == hello@.len());
        },
        RelayMsg::PeerFound { answer, .. } => {
            assert(answer.len() == answer@.len());
        },
        RelayMsg::RelayData { payload, .. } => {
            assert(payload.len() == payload@.len());
        },
        _ => {},
    }
    RelayMsg::read_of_bytes(msg.model(), tail);
}

/// The local parts of an IPv6 address make no difference on the wire: it is
/// decoded without them.
pub proof fn local_address_parts_are_not_sent(
    ip: Seq<u8>,
    port: u16,
    flowinfo: u32,
    scope_id: u32,
    tail: Seq<u8>,
)
    requires
        ip.len() == 16,
    ensures
        ({
            let sent = SocketAddr::bytes(SocketAddrModel::V6 { ip, port, flowinfo, scope_id });
            let seen = SocketAddrModel::V6 { ip, port, flowinfo: 0, scope_id: 0 };
            SocketAddr::read(sent + tail) == Ok::<(SocketAddrModel, nat), DecodeError>(
                (seen, sent.len()),
            )
        }),
{
    SocketAddr::read_of_bytes(SocketAddrModel::V6 { ip, port, flowinfo: 0, scope_id: 0 }, tail);
}

/// An address as the other end sees it.
pub open spec fn address_seen(addr: SocketAddrModel) -> SocketAddrModel {
    match addr {
        SocketAddrModel::V4 { .. } => addr,
        SocketAddrModel::V6 { ip, port, .. } => {
            SocketAddrModel::V6 { ip, port, flowinfo: 0, scope_id: 0 }
        },
    }
}

/// A message from the relay as the client sees it.
pub open spec fn relay_message_seen(msg: RelayMsgModel) -> RelayMsgModel {
    match msg {
        RelayMsgModel::Incoming { from, from_addr, session, hello } => {
            RelayMsgModel::Incoming { from, from_addr: address_seen(from_addr), session, hello }
        },
        RelayMsgModel::PeerFound { target, target_addr, session, answer, rate_cap_kbps } => {
            let target_addr = address_seen(target_addr);
            RelayMsgModel::PeerFound { target, target_addr, session, answer, rate_cap_kbps }
        },
        _ => msg,
    }
}

/// Whatever address a message from the relay carries, the message is decoded with
/// everything in it but the local parts of that address.
pub proof fn relay_messages_lose_local_address_parts_only(msg: RelayMsg, tail: Seq<u8>)
    requires
        msg matches RelayMsg::Error { message, .. } ==> text_fits(message@),
    ensures
        RelayMsg::read(RelayMsg::bytes(msg.model()) + tail) == Ok::<
            (RelayMsgModel, nat),
            DecodeError,
        >((relay_message_seen(msg.model()), RelayMsg::bytes(msg.model()).len())),
{
    match msg {
        RelayMsg::Incoming { hello, .. } => {
            assert(hello.len() == hello@.len());
        },
        RelayMsg::PeerFound { answer, .. } => {
            assert(answer.len() == answer@.len());
        },
        RelayMsg::RelayData { payload, .. } => {
            assert(payload.len() == payload@.len());
        },
        _ => {},
    }
    RelayMsg::read_of_bytes(relay_message_seen(msg.model()), tail);
}

/// Every message between peers is decoded as it was encoded.
pub proof fn peer_messages_round_trip(msg: PeerMsg, tail: Seq<u8>)
    ensures
        PeerMsg::sendable(msg.model()),
        PeerMsg::read(PeerMsg::bytes(msg.model()) + tail) == Ok::<
            (PeerMsgModel, nat),
            DecodeError,
        >((msg.model(), PeerMsg::bytes(msg.model()).len())),
{
    if let PeerMsg::Data { payload, .. } = msg {
        assert(payload.len() == payload@.len());
    }
    PeerMsg::read_of_bytes(msg.model(), tail);
}

/// The error code as a client reads it that knows only the first `known` codes.
pub open spec fn read_code_knowing(known: u32, s: Seq<u8>) -> ReadResult<ErrCode> {
    match u32::read(s) {
        Ok((index, _)) => if index < known {
            ErrCode::read(s)
        } else {
            Err(DecodeError::UnknownVariant(index))
        },
        Err(e) => Err(e),
    }
}

/// A refusal as a client reads it that knows only the first `known` codes.
pub open spec fn read_refusal_knowing(known: u32, s: Seq<u8>) -> ReadResult<(ErrCode, Seq<char>)> {
    match u32::read(s) {
        Ok((index, n)) => if index == 5 {
            match read_code_knowing(known, s.skip(4)) {
                Ok((code, _)) => match String::read(s.skip(8)) {
                    Ok((message, len)) => Ok(((code, message), 8 + len)),
                    Err(e) => Err(e),
                },
                Err(e) => Err(e),
            }
        } else {
            Err(DecodeError::UnknownVariant(index))
        },
        Err(e) => Err(e),
    }
}

/// A client that knows only the first codes reads every refusal with one of
/// those codes, whatever codes were appended since, and rejects the others.
pub proof fn refusal_reaches_clients_that_know_its_code(
    known: u32,
    code: ErrCode,
    message: Seq<char>,
    tail: Seq<u8>,
)
    requires
        text_fits(message),
    ensures
        ({
            let refusal = RelayMsg::bytes(RelayMsgModel::Error { code, message });
            let seen = read_refusal_knowing(known, refusal + tail);
            if code.index() < known {
                seen == Ok::<((ErrCode, Seq<char>), nat), DecodeError>(
                    ((code, message), refusal.len()),
                )
            } else {
                seen == Err::<((ErrCode, Seq<char>), nat), DecodeError>(
                    DecodeError::UnknownVariant(code.index()),
                )
            }
        }),
{
    let refusal = RelayMsg::bytes(RelayMsgModel::Error { code, message });
    let s = refusal + tail;
    lemma_tagged_read::<RelayErrorFields>(5, (code, message), tail);
    lemma_tagged_read::<String>(code.index(), message, tail);
    assert(s.skip(4) =~= u32::bytes(code.index()) + String::bytes(message) + tail);
    assert(s.skip(8) =~= s.skip(4).skip(4));
}

/// A version mismatch that is reported as `Protocol` reaches clients that were
/// built before `IncompatibleVersion` was appended to the codes;
/// `IncompatibleVersion` is the one code that does not.
pub proof fn only_the_newest_code_is_unknown_to_older_clients(
    code: ErrCode,
    message: Seq<char>,
    tail: Seq<u8>,
)
    requires
        text_fits(message),
    ensures
        ({
            let refusal = RelayMsg::bytes(RelayMsgModel::Error { code, message });
            read_refusal_knowing(5, refusal + tail) is Ok <==> code
                != ErrCode::IncompatibleVersion
        }),
{
    refusal_reaches_clients_that_know_its_code(5, code, message, tail);
}

} // verus!
