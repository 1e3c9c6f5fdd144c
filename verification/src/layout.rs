//! Where the parts of each message stand on the wire.
//!
//! An enum is sent as the index of its variant, four bytes wide, followed by the
//! variant's fields in the order of their declaration.
use vstd::prelude::*;
use vstd::slice::slice_subrange;

use crate::device_id::DeviceId;
use crate::message::{
    ClientMsg, ClientMsgModel, ErrCode, PeerMsg, PeerMsgModel, PublicKey, RelayMsg, RelayMsgModel,
    SessionId, SocketAddr, SocketAddrModel,
};
use crate::token::Token;
use crate::wire::{
    lemma_tagged_bytes, lemma_tagged_cut, lemma_tagged_read, DecodeError, ReadResult, Wire,
};

verus! {

/// The fields of [`SocketAddr::V4`], in the order in which they are sent.
pub type AddrV4Fields = ([u8; 4], u16);

/// The fields of [`SocketAddr::V6`], in the order in which they are sent.
pub type AddrV6Fields = ([u8; 16], u16);

/// The fields of [`ClientMsg::Register`], in the order in which they are sent.
pub type ClientRegisterFields = (u16, (PublicKey, Option<String>));

/// The fields of [`ClientMsg::Heartbeat`], in the order in which they are sent.
pub type ClientHeartbeatFields = (DeviceId, Token);

/// The fields of [`ClientMsg::Connect`], in the order in which they are sent.
pub type ClientConnectFields = (DeviceId, (Token, (DeviceId, (SessionId, Vec<u8>))));

/// The fields of [`ClientMsg::Accept`], in the order in which they are sent.
pub type ClientAcceptFields = (DeviceId, (Token, (SessionId, Vec<u8>)));

/// The fields of [`ClientMsg::RelayData`], in the order in which they are sent.
pub type ClientRelayDataFields = (DeviceId, (Token, (SessionId, Vec<u8>)));

/// The fields of [`ClientMsg::Bye`], in the order in which they are sent.
pub type ClientByeFields = (DeviceId, Token);

/// The fields of [`RelayMsg::Registered`], in the order in which they are sent.
pub type RelayRegisteredFields = (DeviceId, Token);

/// The fields of [`RelayMsg::HeartbeatAck`], in the order in which they are sent.
pub type RelayHeartbeatAckFields = ();

/// The fields of [`RelayMsg::Incoming`], in the order in which they are sent.
pub type RelayIncomingFields = (DeviceId, (SocketAddr, (SessionId, Vec<u8>)));

/// The fields of [`RelayMsg::PeerFound`], in the order in which they are sent.
pub type RelayPeerFoundFields = (DeviceId, (SocketAddr, (SessionId, (Vec<u8>, u32))));

/// The fields of [`RelayMsg::RelayData`], in the order in which they are sent.
pub type RelayRelayDataFields = (SessionId, Vec<u8>);

/// The fields of [`RelayMsg::Error`], in the order in which they are sent.
pub type RelayErrorFields = (ErrCode, String);

/// The fields of [`PeerMsg::Punch`], in the order in which they are sent.
pub type PeerPunchFields = (SessionId, u32);

/// The fields of [`PeerMsg::PunchAck`], in the order in which they are sent.
pub type PeerPunchAckFields = (SessionId, u32);

/// The fields of [`PeerMsg::Data`], in the order in which they are sent.
pub type PeerDataFields = (SessionId, (u64, Vec<u8>));

/// The fields of [`PeerMsg::KeepAlive`], in the order in which they are sent.
pub type PeerKeepAliveFields = SessionId;

/// The fields of [`PeerMsg::Hello`], in the order in which they are sent.
pub type PeerHelloFields = (SessionId, (PublicKey, [u8; 32]));

/// The fields of [`PeerMsg::HelloAck`], in the order in which they are sent.
pub type PeerHelloAckFields = (SessionId, (PublicKey, [u8; 32]));

/// The variant that a payload belongs to, read behind its index.
pub open spec fn behind_index<P, V>(payload: ReadResult<P>, variant: spec_fn(P) -> V) -> ReadResult<
    V,
> {
    match payload {
        Ok((p, n)) => Ok((variant(p), 4 + n)),
        Err(e) => Err(e),
    }
}

/// An identity is sent as its number. Nothing checks the range when it is read.
impl Wire for DeviceId {
    type Model = DeviceId;

    open spec fn model(&self) -> DeviceId {
        *self
    }

    open spec fn sendable(v: DeviceId) -> bool {
        true
    }

    open spec fn bytes(v: DeviceId) -> Seq<u8> {
        u32::bytes(v.0)
    }

    open spec fn read(s: Seq<u8>) -> ReadResult<DeviceId> {
        match u32::read(s) {
            Ok((n, len)) => Ok((DeviceId(n), len)),
            Err(e) => Err(e),
        }
    }

    proof fn read_of_bytes(v: DeviceId, tail: Seq<u8>) {
        u32::read_of_bytes(v.0, tail);
    }

    proof fn bytes_of_read(s: Seq<u8>) {
        u32::bytes_of_read(s);
    }

    proof fn read_of_cut(v: DeviceId, len: nat) {
        u32::read_of_cut(v.0, len);
    }

    fn put(&self, out: &mut Vec<u8>) {
        self.0.put(out);
    }

    fn get(buf: &[u8]) -> (r: Result<(DeviceId, usize), DecodeError>) {
        match u32::get(buf) {
            Ok((n, len)) => Ok((DeviceId(n), len)),
            Err(e) => Err(e),
        }
    }
}

/// A token is sent as its 16 bytes.
impl Wire for Token {
    type Model = Seq<u8>;

    open spec fn model(&self) -> Seq<u8> {
        self.0@
    }

    open spec fn sendable(v: Seq<u8>) -> bool {
        v.len() == 16
    }

    open spec fn bytes(v: Seq<u8>) -> Seq<u8> {
        v
    }

    open spec fn read(s: Seq<u8>) -> ReadResult<Seq<u8>> {
        <[u8; 16]>::read(s)
    }

    proof fn read_of_bytes(v: Seq<u8>, tail: Seq<u8>) {
        <[u8; 16]>::read_of_bytes(v, tail);
    }

    proof fn bytes_of_read(s: Seq<u8>) {
        <[u8; 16]>::bytes_of_read(s);
    }

    proof fn read_of_cut(v: Seq<u8>, len: nat) {
        <[u8; 16]>::read_of_cut(v, len);
    }

    fn put(&self, out: &mut Vec<u8>) {
        self.0.put(out);
    }

    fn get(buf: &[u8]) -> (r: Result<(Token, usize), DecodeError>) {
        match <[u8; 16]>::get(buf) {
            Ok((bytes, len)) => Ok((Token(bytes), len)),
            Err(e) => Err(e),
        }
    }
}

impl ErrCode {
    /// The index by which a code is sent.
    pub open spec fn index(self) -> u32 {
        match self {
            ErrCode::TargetOffline => 0,
            ErrCode::BadToken => 1,
            ErrCode::NotRegistered => 2,
            ErrCode::Protocol => 3,
            ErrCode::RelayFull => 4,
            ErrCode::IncompatibleVersion => 5,
        }
    }
}

/// An error code is sent as its index.
impl Wire for ErrCode {
    type Model = ErrCode;

    open spec fn model(&self) -> ErrCode {
        *self
    }

    open spec fn sendable(v: ErrCode) -> bool {
        true
    }

    open spec fn bytes(v: ErrCode) -> Seq<u8> {
        u32::bytes(v.index())
    }

    open spec fn read(s: Seq<u8>) -> ReadResult<ErrCode> {
        match u32::read(s) {
            Ok((index, len)) => match index {
                0 => Ok((ErrCode::TargetOffline, len)),
                1 => Ok((ErrCode::BadToken, len)),
                2 => Ok((ErrCode::NotRegistered, len)),
                3 => Ok((ErrCode::Protocol, len)),
                4 => Ok((ErrCode::RelayFull, len)),
                5 => Ok((ErrCode::IncompatibleVersion, len)),
                _ => Err(DecodeError::UnknownVariant(index)),
            },
            Err(e) => Err(e),
        }
    }

    proof fn read_of_bytes(v: ErrCode, tail: Seq<u8>) {
        u32::read_of_bytes(v.index(), tail);
    }

    proof fn bytes_of_read(s: Seq<u8>) {
        u32::bytes_of_read(s);
    }

    proof fn read_of_cut(v: ErrCode, len: nat) {
        u32::read_of_cut(v.index(), len);
    }

    fn put(&self, out: &mut Vec<u8>) {
        let index: u32 = match self {
            ErrCode::TargetOffline => 0,
            ErrCode::BadToken => 1,
            ErrCode::NotRegistered => 2,
            ErrCode::Protocol => 3,
            ErrCode::RelayFull => 4,
            ErrCode::IncompatibleVersion => 5,
        };
        index.put(out);
    }

    fn get(buf: &[u8]) -> (r: Result<(ErrCode, usize), DecodeError>) {
        match u32::get(buf) {
            Ok((index, len)) => match index {
                0 => Ok((ErrCode::TargetOffline, len)),
                1 => Ok((ErrCode::BadToken, len)),
                2 => Ok((ErrCode::NotRegistered, len)),
                3 => Ok((ErrCode::Protocol, len)),
                4 => Ok((ErrCode::RelayFull, len)),
                5 => Ok((ErrCode::IncompatibleVersion, len)),
                _ => Err(DecodeError::UnknownVariant(index)),
            },
            Err(e) => Err(e),
        }
    }
}

/// An address is sent as its kind, its octets and its port.
impl Wire for SocketAddr {
    type Model = SocketAddrModel;

    open spec fn model(&self) -> SocketAddrModel {
        match self {
            SocketAddr::V4 { ip, port } => SocketAddrModel::V4 {
                ip: ip.model(),
                port: *port,
            },
            SocketAddr::V6 { ip, port, flowinfo, scope_id } => SocketAddrModel::V6 {
                ip: ip.model(),
                port: *port,
                flowinfo: *flowinfo,
                scope_id: *scope_id,
            },
        }
    }

    open spec fn whole(v: SocketAddrModel) -> bool {
        v matches SocketAddrModel::V6 { flowinfo, scope_id, .. } ==> flowinfo == 0 && scope_id == 0
    }

    open spec fn sendable(v: SocketAddrModel) -> bool {
        match v {
            SocketAddrModel::V4 { ip, port } => AddrV4Fields::sendable((ip, port)),
            SocketAddrModel::V6 { ip, port, flowinfo, scope_id } => {
                &&& AddrV6Fields::sendable((ip, port))
                &&& flowinfo == 0
                &&& scope_id == 0
            },
        }
    }

    open spec fn bytes(v: SocketAddrModel) -> Seq<u8> {
        match v {
            SocketAddrModel::V4 { ip, port } => u32::bytes(0) + AddrV4Fields::bytes((ip, port)),
            SocketAddrModel::V6 { ip, port, .. } => u32::bytes(1) + AddrV6Fields::bytes((ip, port)),
        }
    }

    open spec fn read(s: Seq<u8>) -> ReadResult<SocketAddrModel> {
        match u32::read(s) {
            Ok((index, _)) => match index {
                0 => behind_index(
                    AddrV4Fields::read(s.skip(4)),
                    |p: <AddrV4Fields as Wire>::Model| SocketAddrModel::V4 { ip: p.0, port: p.1 },
                ),
                1 => behind_index(
                    AddrV6Fields::read(s.skip(4)),
                    |p: <AddrV6Fields as Wire>::Model| SocketAddrModel::V6 {
                        ip: p.0,
                        port: p.1,
                        flowinfo: 0,
                        scope_id: 0,
                    },
                ),
                _ => Err(DecodeError::UnknownVariant(index)),
            },
            Err(e) => Err(e),
        }
    }

    proof fn read_of_bytes(v: SocketAddrModel, tail: Seq<u8>) {
        match v {
            SocketAddrModel::V4 { ip, port } => {
                lemma_tagged_read::<AddrV4Fields>(0, (ip, port), tail);
            },
            SocketAddrModel::V6 { ip, port, .. } => {
                lemma_tagged_read::<AddrV6Fields>(1, (ip, port), tail);
            },
        }
    }

    proof fn bytes_of_read(s: Seq<u8>) {
        u32::bytes_of_read(s);
        lemma_tagged_bytes::<AddrV4Fields>(s);
        lemma_tagged_bytes::<AddrV6Fields>(s);
    }

    proof fn read_of_cut(v: SocketAddrModel, len: nat) {
        match v {
            SocketAddrModel::V4 { ip, port } => {
                lemma_tagged_cut::<AddrV4Fields>(0, (ip, port), len);
            },
            SocketAddrModel::V6 { ip, port, .. } => {
                lemma_tagged_cut::<AddrV6Fields>(1, (ip, port), len);
            },
        }
    }

    fn put(&self, out: &mut Vec<u8>) {
        match self {
            SocketAddr::V4 { ip, port } => {
                0u32.put(out);
                ip.put(out);
                port.put(out);
            },
            SocketAddr::V6 { ip, port, .. } => {
                1u32.put(out);
                ip.put(out);
                port.put(out);
            },
        }
        assert(out@ =~= old(out)@ + Self::bytes(self.model()));
    }

    fn get(buf: &[u8]) -> (r: Result<(SocketAddr, usize), DecodeError>) {
        let index: u32 = match u32::get(buf) {
            Ok((index, _)) => index,
            Err(e) => return Err(e),
        };
        let rest = slice_subrange(buf, 4, buf.len());
        assert(rest@ =~= buf@.skip(4));
        match index {
            0 => match AddrV4Fields::get(rest) {
                Ok(((ip, port), n)) => Ok((SocketAddr::V4 { ip, port }, 4 + n)),
                Err(e) => Err(e),
            },
            1 => match AddrV6Fields::get(rest) {
                Ok(((ip, port), n)) => Ok((
                    SocketAddr::V6 { ip, port, flowinfo: 0, scope_id: 0 },
                    4 + n,
                )),
                Err(e) => Err(e),
            },
            _ => Err(DecodeError::UnknownVariant(index)),
        }
    }
}

/// The layout of the messages from a client to the relay.
impl Wire for ClientMsg {
    type Model = ClientMsgModel;

    open spec fn model(&self) -> ClientMsgModel {
        match self {
            ClientMsg::Register { version, pubkey, name } => ClientMsgModel::Register {
                version: *version,
                pubkey: pubkey.model(),
                name: name.model(),
            },
            ClientMsg::Heartbeat { id, token } => ClientMsgModel::Heartbeat {
                id: *id,
                token: token.model(),
            },
            ClientMsg::Connect { id, token, target, session, hello } => ClientMsgModel::Connect {
                id: *id,
                token: token.model(),
                target: *target,
                session: *session,
                hello: hello.model(),
            },
            ClientMsg::Accept { id, token, session, answer } => ClientMsgModel::Accept {
                id: *id,
                token: token.model(),
                session: *session,
                answer: answer.model(),
            },
            ClientMsg::RelayData { id, token, session, payload } => ClientMsgModel::RelayData {
                id: *id,
                token: token.model(),
                session: *session,
                payload: payload.model(),
            },
            ClientMsg::Bye { id, token } => ClientMsgModel::Bye {
                id: *id,
                token: token.model(),
            },
        }
    }

    open spec fn sendable(v: ClientMsgModel) -> bool {
        match v {
            ClientMsgModel::Register { version, pubkey, name } => {
                ClientRegisterFields::sendable((version, (pubkey, name)))
            },
            ClientMsgModel::Heartbeat { id, token } => ClientHeartbeatFields::sendable((id, token)),
            ClientMsgModel::Connect { id, token, target, session, hello } => {
                ClientConnectFields::sendable((id, (token, (target, (session, hello)))))
            },
            ClientMsgModel::Accept { id, token, session, answer } => {
                ClientAcceptFields::sendable((id, (token, (session, answer))))
            },
            ClientMsgModel::RelayData { id, token, session, payload } => {
                ClientRelayDataFields::sendable((id, (token, (session, payload))))
            },
            ClientMsgModel::Bye { id, token } => ClientByeFields::sendable((id, token)),
        }
    }

    open spec fn bytes(v: ClientMsgModel) -> Seq<u8> {
        match v {
            ClientMsgModel::Register { version, pubkey, name } => {
                u32::bytes(0) + ClientRegisterFields::bytes((version, (pubkey, name)))
            },
            ClientMsgModel::Heartbeat { id, token } => {
                u32::bytes(1) + ClientHeartbeatFields::bytes((id, token))
            },
            ClientMsgModel::Connect { id, token, target, session, hello } => {
                u32::bytes(2) + ClientConnectFields::bytes(
                    (id, (token, (target, (session, hello)))),
                )
            },
            ClientMsgModel::Accept { id, token, session, answer } => {
                u32::bytes(3) + ClientAcceptFields::bytes((id, (token, (session, answer))))
            },
            ClientMsgModel::RelayData { id, token, session, payload } => {
                u32::bytes(4) + ClientRelayDataFields::bytes((id, (token, (session, payload))))
            },
            ClientMsgModel::Bye { id, token } => {
                u32::bytes(5) + ClientByeFields::bytes((id, token))
            },
        }
    }

    open spec fn read(s: Seq<u8>) -> ReadResult<ClientMsgModel> {
        match u32::read(s) {
            Ok((index, _)) => match index {
                0 => behind_index(
                    ClientRegisterFields::read(s.skip(4)),
                    |p: <ClientRegisterFields as Wire>::Model| ClientMsgModel::Register {
                        version: p.0,
                        pubkey: p.1.0,
                        name: p.1.1,
                    },
                ),
                1 => behind_index(
                    ClientHeartbeatFields::read(s.skip(4)),
                    |p: <ClientHeartbeatFields as Wire>::Model| ClientMsgModel::Heartbeat {
                        id: p.0,
                        token: p.1,
                    },
                ),
                2 => behind_index(
                    ClientConnectFields::read(s.skip(4)),
                    |p: <ClientConnectFields as Wire>::Model| ClientMsgModel::Connect {
                        id: p.0,
                        token: p.1.0,
                        target: p.1.1.0,
                        session: p.1.1.1.0,
                        hello: p.1.1.1.1,
                    },
                ),
                3 => behind_index(
                    ClientAcceptFields::read(s.skip(4)),
                    |p: <ClientAcceptFields as Wire>::Model| ClientMsgModel::Accept {
                        id: p.0,
                        token: p.1.0,
                        session: p.1.1.0,
                        answer: p.1.1.1,
                    },
                ),
                4 => behind_index(
                    ClientRelayDataFields::read(s.skip(4)),
                    |p: <ClientRelayDataFields as Wire>::Model| ClientMsgModel::RelayData {
                        id: p.0,
                        token: p.1.0,
                        session: p.1.1.0,
                        payload: p.1.1.1,
                    },
                ),
                5 => behind_index(
                    ClientByeFields::read(s.skip(4)),
                    |p: <ClientByeFields as Wire>::Model| ClientMsgModel::Bye {
                        id: p.0,
                        token: p.1,
                    },
                ),
                _ => Err(DecodeError::UnknownVariant(index)),
            },
            Err(e) => Err(e),
        }
    }

    proof fn read_of_bytes(v: ClientMsgModel, tail: Seq<u8>) {
        match v {
            ClientMsgModel::Register { version, pubkey, name } => {
                lemma_tagged_read::<ClientRegisterFields>(0, (version, (pubkey, name)), tail);
            },
            ClientMsgModel::Heartbeat { id, token } => {
                lemma_tagged_read::<ClientHeartbeatFields>(1, (id, token), tail);
            },
            ClientMsgModel::Connect { id, token, target, session, hello } => {
                lemma_tagged_read::<ClientConnectFields>(
                    2,
                    (id, (token, (target, (session, hello)))),
                    tail,
                );
            },
            ClientMsgModel::Accept { id, token, session, answer } => {
                lemma_tagged_read::<ClientAcceptFields>(3, (id, (token, (session, answer))), tail);
            },
            ClientMsgModel::RelayData { id, token, session, payload } => {
                lemma_tagged_read::<ClientRelayDataFields>(
                    4,
                    (id, (token, (session, payload))),
                    tail,
                );
            },
            ClientMsgModel::Bye { id, token } => {
                lemma_tagged_read::<ClientByeFields>(5, (id, token), tail);
            },
        }
    }

    proof fn bytes_of_read(s: Seq<u8>) {
        u32::bytes_of_read(s);
        lemma_tagged_bytes::<ClientRegisterFields>(s);
        lemma_tagged_bytes::<ClientHeartbeatFields>(s);
        lemma_tagged_bytes::<ClientConnectFields>(s);
        lemma_tagged_bytes::<ClientAcceptFields>(s);
        lemma_tagged_bytes::<ClientRelayDataFields>(s);
        lemma_tagged_bytes::<ClientByeFields>(s);
    }

    proof fn read_of_cut(v: ClientMsgModel, len: nat) {
        match v {
            ClientMsgModel::Register { version, pubkey, name } => {
                lemma_tagged_cut::<ClientRegisterFields>(0, (version, (pubkey, name)), len);
            },
            ClientMsgModel::Heartbeat { id, token } => {
                lemma_tagged_cut::<ClientHeartbeatFields>(1, (id, token), len);
            },
            ClientMsgModel::Connect { id, token, target, session, hello } => {
                lemma_tagged_cut::<ClientConnectFields>(
                    2,
                    (id, (token, (target, (session, hello)))),
                    len,
                );
            },
            ClientMsgModel::Accept { id, token, session, answer } => {
                lemma_tagged_cut::<ClientAcceptFields>(3, (id, (token, (session, answer))), len);
            },
            ClientMsgModel::RelayData { id, token, session, payload } => {
                lemma_tagged_cut::<ClientRelayDataFields>(
                    4,
                    (id, (token, (session, payload))),
                    len,
                );
            },
            ClientMsgModel::Bye { id, token } => {
                lemma_tagged_cut::<ClientByeFields>(5, (id, token), len);
            },
        }
    }

    fn put(&self, out: &mut Vec<u8>) {
        match self {
            ClientMsg::Register { version, pubkey, name } => {
                0u32.put(out);
                version.put(out);
                pubkey.put(out);
                name.put(out);
            },
            ClientMsg::Heartbeat { id, token } => {
                1u32.put(out);
                id.put(out);
                token.put(out);
            },
            ClientMsg::Connect { id, token, target, session, hello } => {
                2u32.put(out);
                id.put(out);
                token.put(out);
                target.put(out);
                session.put(out);
                hello.put(out);
            },
            ClientMsg::Accept { id, token, session, answer } => {
                3u32.put(out);
                id.put(out);
                token.put(out);
                session.put(out);
                answer.put(out);
            },
            ClientMsg::RelayData { id, token, session, payload } => {
                4u32.put(out);
                id.put(out);
                token.put(out);
                session.put(out);
                payload.put(out);
            },
            ClientMsg::Bye { id, token } => {
                5u32.put(out);
                id.put(out);
                token.put(out);
            },
        }
        assert(out@ =~= old(out)@ + Self::bytes(self.model()));
    }

    fn get(buf: &[u8]) -> (r: Result<(ClientMsg, usize), DecodeError>) {
        let index: u32 = match u32::get(buf) {
            Ok((index, _)) => index,
            Err(e) => return Err(e),
        };
        let rest = slice_subrange(buf, 4, buf.len());
        assert(rest@ =~= buf@.skip(4));
        match index {
            0 => match ClientRegisterFields::get(rest) {
                Ok(((version, (pubkey, name)), n)) => Ok((
                    ClientMsg::Register { version, pubkey, name },
                    4 + n,
                )),
                Err(e) => Err(e),
            },
            1 => match ClientHeartbeatFields::get(rest) {
                Ok(((id, token), n)) => Ok((ClientMsg::Heartbeat { id, token }, 4 + n)),
                Err(e) => Err(e),
            },
            2 => match ClientConnectFields::get(rest) {
                Ok(((id, (token, (target, (session, hello)))), n)) => Ok((
                    ClientMsg::Connect { id, token, target, session, hello },
                    4 + n,
                )),
                Err(e) => Err(e),
            },
            3 => match ClientAcceptFields::get(rest) {
                Ok(((id, (token, (session, answer))), n)) => Ok((
                    ClientMsg::Accept { id, token, session, answer },
                    4 + n,
                )),
                Err(e) => Err(e),
            },
            4 => match ClientRelayDataFields::get(rest) {
                Ok(((id, (token, (session, payload))), n)) => Ok((
                    ClientMsg::RelayData { id, token, session, payload },
                    4 + n,
                )),
                Err(e) => Err(e),
            },
            5 => match ClientByeFields::get(rest) {
                Ok(((id, token), n)) => Ok((ClientMsg::Bye { id, token }, 4 + n)),
                Err(e) => Err(e),
            },
            _ => Err(DecodeError::UnknownVariant(index)),
        }
    }
}

/// The layout of the messages from the relay to a client.
impl Wire for RelayMsg {
    type Model = RelayMsgModel;

    open spec fn model(&self) -> RelayMsgModel {
        match self {
            RelayMsg::Registered { id, token } => RelayMsgModel::Registered {
                id: *id,
                token: token.model(),
            },
            RelayMsg::HeartbeatAck => RelayMsgModel::HeartbeatAck,
            RelayMsg::Incoming { from, from_addr, session, hello } => RelayMsgModel::Incoming {
                from: *from,
                from_addr: from_addr.model(),
                session: *session,
                hello: hello.model(),
            },
            RelayMsg::PeerFound { target, target_addr, session, answer, rate_cap_kbps } => {
                RelayMsgModel::PeerFound {
                    target: *target,
                    target_addr: target_addr.model(),
                    session: *session,
                    answer: answer.model(),
                    rate_cap_kbps: *rate_cap_kbps,
                }
            },
            RelayMsg::RelayData { session, payload } => RelayMsgModel::RelayData {
                session: *session,
                payload: payload.model(),
            },
            RelayMsg::Error { code, message } => RelayMsgModel::Error {
                code: *code,
                message: message.model(),
            },
        }
    }

    open spec fn whole(v: RelayMsgModel) -> bool {
        match v {
            RelayMsgModel::Incoming { from_addr, .. } => SocketAddr::whole(from_addr),
            RelayMsgModel::PeerFound { target_addr, .. } => SocketAddr::whole(target_addr),
            _ => true,
        }
    }

    open spec fn sendable(v: RelayMsgModel) -> bool {
        match v {
            RelayMsgModel::Registered { id, token } => RelayRegisteredFields::sendable((id, token)),
            RelayMsgModel::HeartbeatAck => RelayHeartbeatAckFields::sendable(()),
            RelayMsgModel::Incoming { from, from_addr, session, hello } => {
                RelayIncomingFields::sendable((from, (from_addr, (session, hello))))
            },
            RelayMsgModel::PeerFound { target, target_addr, session, answer, rate_cap_kbps } => {
                RelayPeerFoundFields::sendable(
                    (target, (target_addr, (session, (answer, rate_cap_kbps)))),
                )
            },
            RelayMsgModel::RelayData { session, payload } => {
                RelayRelayDataFields::sendable((session, payload))
            },
            RelayMsgModel::Error { code, message } => RelayErrorFields::sendable((code, message)),
        }
    }

    open spec fn bytes(v: RelayMsgModel) -> Seq<u8> {
        match v {
            RelayMsgModel::Registered { id, token } => {
                u32::bytes(0) + RelayRegisteredFields::bytes((id, token))
            },
            RelayMsgModel::HeartbeatAck => u32::bytes(1) + RelayHeartbeatAckFields::bytes(()),
            RelayMsgModel::Incoming { from, from_addr, session, hello } => {
                u32::bytes(2) + RelayIncomingFields::bytes((from, (from_addr, (session, hello))))
            },
            RelayMsgModel::PeerFound { target, target_addr, session, answer, rate_cap_kbps } => {
                u32::bytes(3) + RelayPeerFoundFields::bytes(
                    (target, (target_addr, (session, (answer, rate_cap_kbps)))),
                )
            },
            RelayMsgModel::RelayData { session, payload } => {
                u32::bytes(4) + RelayRelayDataFields::bytes((session, payload))
            },
            RelayMsgModel::Error { code, message } => {
                u32::bytes(5) + RelayErrorFields::bytes((code, message))
            },
        }
    }

    open spec fn read(s: Seq<u8>) -> ReadResult<RelayMsgModel> {
        match u32::read(s) {
            Ok((index, _)) => match index {
                0 => behind_index(
                    RelayRegisteredFields::read(s.skip(4)),
                    |p: <RelayRegisteredFields as Wire>::Model| RelayMsgModel::Registered {
                        id: p.0,
                        token: p.1,
                    },
                ),
                1 => behind_index(
                    RelayHeartbeatAckFields::read(s.skip(4)),
                    |p: <RelayHeartbeatAckFields as Wire>::Model| RelayMsgModel::HeartbeatAck,
                ),
                2 => behind_index(
                    RelayIncomingFields::read(s.skip(4)),
                    |p: <RelayIncomingFields as Wire>::Model| RelayMsgModel::Incoming {
                        from: p.0,
                        from_addr: p.1.0,
                        session: p.1.1.0,
                        hello: p.1.1.1,
                    },
                ),
                3 => behind_index(
                    RelayPeerFoundFields::read(s.skip(4)),
                    |p: <RelayPeerFoundFields as Wire>::Model| RelayMsgModel::PeerFound {
                        target: p.0,
                        target_addr: p.1.0,
                        session: p.1.1.0,
                        answer: p.1.1.1.0,
                        rate_cap_kbps: p.1.1.1.1,
                    },
                ),
                4 => behind_index(
                    RelayRelayDataFields::read(s.skip(4)),
                    |p: <RelayRelayDataFields as Wire>::Model| RelayMsgModel::RelayData {
                        session: p.0,
                        payload: p.1,
                    },
                ),
                5 => behind_index(
                    RelayErrorFields::read(s.skip(4)),
                    |p: <RelayErrorFields as Wire>::Model| RelayMsgModel::Error {
                        code: p.0,
                        message: p.1,
                    },
                ),
                _ => Err(DecodeError::UnknownVariant(index)),
            },
            Err(e) => Err(e),
        }
    }

    proof fn read_of_bytes(v: RelayMsgModel, tail: Seq<u8>) {
        match v {
            RelayMsgModel::Registered { id, token } => {
                lemma_tagged_read::<RelayRegisteredFields>(0, (id, token), tail);
            },
            RelayMsgModel::HeartbeatAck => {
                lemma_tagged_read::<RelayHeartbeatAckFields>(1, (), tail);
            },
            RelayMsgModel::Incoming { from, from_addr, session, hello } => {
                lemma_tagged_read::<RelayIncomingFields>(
                    2,
                    (from, (from_addr, (session, hello))),
                    tail,
                );
            },
            RelayMsgModel::PeerFound { target, target_addr, session, answer, rate_cap_kbps } => {
                lemma_tagged_read::<RelayPeerFoundFields>(
                    3,
                    (target, (target_addr, (session, (answer, rate_cap_kbps)))),
                    tail,
                );
            },
            RelayMsgModel::RelayData { session, payload } => {
                lemma_tagged_read::<RelayRelayDataFields>(4, (session, payload), tail);
            },
            RelayMsgModel::Error { code, message } => {
                lemma_tagged_read::<RelayErrorFields>(5, (code, message), tail);
            },
        }
    }

    proof fn bytes_of_read(s: Seq<u8>) {
        u32::bytes_of_read(s);
        lemma_tagged_bytes::<RelayRegisteredFields>(s);
        lemma_tagged_bytes::<RelayHeartbeatAckFields>(s);
        lemma_tagged_bytes::<RelayIncomingFields>(s);
        lemma_tagged_bytes::<RelayPeerFoundFields>(s);
        lemma_tagged_bytes::<RelayRelayDataFields>(s);
        lemma_tagged_bytes::<RelayErrorFields>(s);
    }

    proof fn read_of_cut(v: RelayMsgModel, len: nat) {
        match v {
            RelayMsgModel::Registered { id, token } => {
                lemma_tagged_cut::<RelayRegisteredFields>(0, (id, token), len);
            },
            RelayMsgModel::HeartbeatAck => {
                lemma_tagged_cut::<RelayHeartbeatAckFields>(1, (), len);
            },
            RelayMsgModel::Incoming { from, from_addr, session, hello } => {
                lemma_tagged_cut::<RelayIncomingFields>(
                    2,
                    (from, (from_addr, (session, hello))),
                    len,
                );
            },
            RelayMsgModel::PeerFound { target, target_addr, session, answer, rate_cap_kbps } => {
                lemma_tagged_cut::<RelayPeerFoundFields>(
                    3,
                    (target, (target_addr, (session, (answer, rate_cap_kbps)))),
                    len,
                );
            },
            RelayMsgModel::RelayData { session, payload } => {
                lemma_tagged_cut::<RelayRelayDataFields>(4, (session, payload), len);
            },
            RelayMsgModel::Error { code, message } => {
                lemma_tagged_cut::<RelayErrorFields>(5, (code, message), len);
            },
        }
    }

    fn put(&self, out: &mut Vec<u8>) {
        match self {
            RelayMsg::Registered { id, token } => {
                0u32.put(out);
                id.put(out);
                token.put(out);
            },
            RelayMsg::HeartbeatAck => {
                1u32.put(out);
            },
            RelayMsg::Incoming { from, from_addr, session, hello } => {
                2u32.put(out);
                from.put(out);
                from_addr.put(out);
                session.put(out);
                hello.put(out);
            },
            RelayMsg::PeerFound { target, target_addr, session, answer, rate_cap_kbps } => {
                3u32.put(out);
                target.put(out);
                target_addr.put(out);
                session.put(out);
                answer.put(out);
                rate_cap_kbps.put(out);
            },
            RelayMsg::RelayData { session, payload } => {
                4u32.put(out);
                session.put(out);
                payload.put(out);
            },
            RelayMsg::Error { code, message } => {
                5u32.put(out);
                code.put(out);
                message.put(out);
            },
        }
        assert(out@ =~= old(out)@ + Self::bytes(self.model()));
    }

    fn get(buf: &[u8]) -> (r: Result<(RelayMsg, usize), DecodeError>) {
        let index: u32 = match u32::get(buf) {
            Ok((index, _)) => index,
            Err(e) => return Err(e),
        };
        let rest = slice_subrange(buf, 4, buf.len());
        assert(rest@ =~= buf@.skip(4));
        match index {
            0 => match RelayRegisteredFields::get(rest) {
                Ok(((id, token), n)) => Ok((RelayMsg::Registered { id, token }, 4 + n)),
                Err(e) => Err(e),
            },
            1 => Ok((RelayMsg::HeartbeatAck, 4)),
            2 => match RelayIncomingFields::get(rest) {
                Ok(((from, (from_addr, (session, hello))), n)) => Ok((
                    RelayMsg::Incoming { from, from_addr, session, hello },
                    4 + n,
                )),
                Err(e) => Err(e),
            },
            3 => match RelayPeerFoundFields::get(rest) {
                Ok(((target, (target_addr, (session, (answer, rate_cap_kbps)))), n)) => Ok((
                    RelayMsg::PeerFound { target, target_addr, session, answer, rate_cap_kbps },
                    4 + n,
                )),
                Err(e) => Err(e),
            },
            4 => match RelayRelayDataFields::get(rest) {
                Ok(((session, payload), n)) => Ok((
                    RelayMsg::RelayData { session, payload },
                    4 + n,
                )),
                Err(e) => Err(e),
            },
            5 => match RelayErrorFields::get(rest) {
                Ok(((code, message), n)) => Ok((RelayMsg::Error { code, message }, 4 + n)),
                Err(e) => Err(e),
            },
            _ => Err(DecodeError::UnknownVariant(index)),
        }
    }
}

/// The layout of the messages between peers.
impl Wire for PeerMsg {
    type Model = PeerMsgModel;

    open spec fn model(&self) -> PeerMsgModel {
        match self {
            PeerMsg::Punch { session, seq } => PeerMsgModel::Punch {
                session: *session,
                seq: *seq,
            },
            PeerMsg::PunchAck { session, seq } => PeerMsgModel::PunchAck {
                session: *session,
                seq: *seq,
            },
            PeerMsg::Data { session, seq, payload } => PeerMsgModel::Data {
                session: *session,
                seq: *seq,
                payload: payload.model(),
            },
            PeerMsg::KeepAlive { session } => PeerMsgModel::KeepAlive {
                session: *session,
            },
            PeerMsg::Hello { session, pubkey, salt } => PeerMsgModel::Hello {
                session: *session,
                pubkey: pubkey.model(),
                salt: salt.model(),
            },
            PeerMsg::HelloAck { session, pubkey, salt } => PeerMsgModel::HelloAck {
                session: *session,
                pubkey: pubkey.model(),
                salt: salt.model(),
            },
        }
    }

    open spec fn sendable(v: PeerMsgModel) -> bool {
        match v {
            PeerMsgModel::Punch { session, seq } => PeerPunchFields::sendable((session, seq)),
            PeerMsgModel::PunchAck { session, seq } => PeerPunchAckFields::sendable((session, seq)),
            PeerMsgModel::Data { session, seq, payload } => {
                PeerDataFields::sendable((session, (seq, payload)))
            },
            PeerMsgModel::KeepAlive { session } => PeerKeepAliveFields::sendable(session),
            PeerMsgModel::Hello { session, pubkey, salt } => {
                PeerHelloFields::sendable((session, (pubkey, salt)))
            },
            PeerMsgModel::HelloAck { session, pubkey, salt } => {
                PeerHelloAckFields::sendable((session, (pubkey, salt)))
            },
        }
    }

    open spec fn bytes(v: PeerMsgModel) -> Seq<u8> {
        match v {
            PeerMsgModel::Punch { session, seq } => {
                u32::bytes(0) + PeerPunchFields::bytes((session, seq))
            },
            PeerMsgModel::PunchAck { session, seq } => {
                u32::bytes(1) + PeerPunchAckFields::bytes((session, seq))
            },
            PeerMsgModel::Data { session, seq, payload } => {
                u32::bytes(2) + PeerDataFields::bytes((session, (seq, payload)))
            },
            PeerMsgModel::KeepAlive { session } => {
                u32::bytes(3) + PeerKeepAliveFields::bytes(session)
            },
            PeerMsgModel::Hello { session, pubkey, salt } => {
                u32::bytes(4) + PeerHelloFields::bytes((session, (pubkey, salt)))
            },
            PeerMsgModel::HelloAck { session, pubkey, salt } => {
                u32::bytes(5) + PeerHelloAckFields::bytes((session, (pubkey, salt)))
            },
        }
    }

    open spec fn read(s: Seq<u8>) -> ReadResult<PeerMsgModel> {
        match u32::read(s) {
            Ok((index, _)) => match index {
                0 => behind_index(
                    PeerPunchFields::read(s.skip(4)),
                    |p: <PeerPunchFields as Wire>::Model| PeerMsgModel::Punch {
                        session: p.0,
                        seq: p.1,
                    },
                ),
                1 => behind_index(
                    PeerPunchAckFields::read(s.skip(4)),
                    |p: <PeerPunchAckFields as Wire>::Model| PeerMsgModel::PunchAck {
                        session: p.0,
                        seq: p.1,
                    },
                ),
                2 => behind_index(
                    PeerDataFields::read(s.skip(4)),
                    |p: <PeerDataFields as Wire>::Model| PeerMsgModel::Data {
                        session: p.0,
                        seq: p.1.0,
                        payload: p.1.1,
                    },
                ),
                3 => behind_index(
                    PeerKeepAliveFields::read(s.skip(4)),
                    |p: <PeerKeepAliveFields as Wire>::Model| PeerMsgModel::KeepAlive {
                        session: p,
                    },
                ),
                4 => behind_index(
                    PeerHelloFields::read(s.skip(4)),
                    |p: <PeerHelloFields as Wire>::Model| PeerMsgModel::Hello {
                        session: p.0,
                        pubkey: p.1.0,
                        salt: p.1.1,
                    },
                ),
                5 => behind_index(
                    PeerHelloAckFields::read(s.skip(4)),
                    |p: <PeerHelloAckFields as Wire>::Model| PeerMsgModel::HelloAck {
                        session: p.0,
                        pubkey: p.1.0,
                        salt: p.1.1,
                    },
                ),
                _ => Err(DecodeError::UnknownVariant(index)),
            },
            Err(e) => Err(e),
        }
    }

    proof fn read_of_bytes(v: PeerMsgModel, tail: Seq<u8>) {
        match v {
            PeerMsgModel::Punch { session, seq } => {
                lemma_tagged_read::<PeerPunchFields>(0, (session, seq), tail);
            },
            PeerMsgModel::PunchAck { session, seq } => {
                lemma_tagged_read::<PeerPunchAckFields>(1, (session, seq), tail);
            },
            PeerMsgModel::Data { session, seq, payload } => {
                lemma_tagged_read::<PeerDataFields>(2, (session, (seq, payload)), tail);
            },
            PeerMsgModel::KeepAlive { session } => {
                lemma_tagged_read::<PeerKeepAliveFields>(3, session, tail);
            },
            PeerMsgModel::Hello { session, pubkey, salt } => {
                lemma_tagged_read::<PeerHelloFields>(4, (session, (pubkey, salt)), tail);
            },
            PeerMsgModel::HelloAck { session, pubkey, salt } => {
                lemma_tagged_read::<PeerHelloAckFields>(5, (session, (pubkey, salt)), tail);
            },
        }
    }

    proof fn bytes_of_read(s: Seq<u8>) {
        u32::bytes_of_read(s);
        lemma_tagged_bytes::<PeerPunchFields>(s);
        lemma_tagged_bytes::<PeerPunchAckFields>(s);
        lemma_tagged_bytes::<PeerDataFields>(s);
        lemma_tagged_bytes::<PeerKeepAliveFields>(s);
        lemma_tagged_bytes::<PeerHelloFields>(s);
        lemma_tagged_bytes::<PeerHelloAckFields>(s);
    }

    proof fn read_of_cut(v: PeerMsgModel, len: nat) {
        match v {
            PeerMsgModel::Punch { session, seq } => {
                lemma_tagged_cut::<PeerPunchFields>(0, (session, seq), len);
            },
            PeerMsgModel::PunchAck { session, seq } => {
                lemma_tagged_cut::<PeerPunchAckFields>(1, (session, seq), len);
            },
            PeerMsgModel::Data { session, seq, payload } => {
                lemma_tagged_cut::<PeerDataFields>(2, (session, (seq, payload)), len);
            },
            PeerMsgModel::KeepAlive { session } => {
                lemma_tagged_cut::<PeerKeepAliveFields>(3, session, len);
            },
            PeerMsgModel::Hello { session, pubkey, salt } => {
                lemma_tagged_cut::<PeerHelloFields>(4, (session, (pubkey, salt)), len);
            },
            PeerMsgModel::HelloAck { session, pubkey, salt } => {
                lemma_tagged_cut::<PeerHelloAckFields>(5, (session, (pubkey, salt)), len);
            },
        }
    }

    fn put(&self, out: &mut Vec<u8>) {
        match self {
            PeerMsg::Punch { session, seq } => {
                0u32.put(out);
                session.put(out);
                seq.put(out);
            },
            PeerMsg::PunchAck { session, seq } => {
                1u32.put(out);
                session.put(out);
                seq.put(out);
            },
            PeerMsg::Data { session, seq, payload } => {
                2u32.put(out);
                session.put(out);
                seq.put(out);
                payload.put(out);
            },
            PeerMsg::KeepAlive { session } => {
                3u32.put(out);
                session.put(out);
            },
            PeerMsg::Hello { session, pubkey, salt } => {
                4u32.put(out);
                session.put(out);
                pubkey.put(out);
                salt.put(out);
            },
            PeerMsg::HelloAck { session, pubkey, salt } => {
                5u32.put(out);
                session.put(out);
                pubkey.put(out);
                salt.put(out);
            },
        }
        assert(out@ =~= old(out)@ + Self::bytes(self.model()));
    }

    fn get(buf: &[u8]) -> (r: Result<(PeerMsg, usize), DecodeError>) {
        let index: u32 = match u32::get(buf) {
            Ok((index, _)) => index,
            Err(e) => return Err(e),
        };
        let rest = slice_subrange(buf, 4, buf.len());
        assert(rest@ =~= buf@.skip(4));
        match index {
            0 => match PeerPunchFields::get(rest) {
                Ok(((session, seq), n)) => Ok((PeerMsg::Punch { session, seq }, 4 + n)),
                Err(e) => Err(e),
            },
            1 => match PeerPunchAckFields::get(rest) {
                Ok(((session, seq), n)) => Ok((PeerMsg::PunchAck { session, seq }, 4 + n)),
                Err(e) => Err(e),
            },
            2 => match PeerDataFields::get(rest) {
                Ok(((session, (seq, payload)), n)) => Ok((
                    PeerMsg::Data { session, seq, payload },
                    4 + n,
                )),
                Err(e) => Err(e),
            },
            3 => match PeerKeepAliveFields::get(rest) {
                Ok((session, n)) => Ok((PeerMsg::KeepAlive { session }, 4 + n)),
                Err(e) => Err(e),
            },
            4 => match PeerHelloFields::get(rest) {
                Ok(((session, (pubkey, salt)), n)) => Ok((
                    PeerMsg::Hello { session, pubkey, salt },
                    4 + n,
                )),
                Err(e) => Err(e),
            },
            5 => match PeerHelloAckFields::get(rest) {
                Ok(((session, (pubkey, salt)), n)) => Ok((
                    PeerMsg::HelloAck { session, pubkey, salt },
                    4 + n,
                )),
                Err(e) => Err(e),
            },
            _ => Err(DecodeError::UnknownVariant(index)),
        }
    }
}

} // verus!
