use pulsar_proto::{
    decode, encode, ClientMsg, DecodeError, DeviceId, ErrCode, PeerMsg, RelayMsg, SocketAddr, Token,
    PROTOCOL_VERSION,
};
use serde::de::{Deserialize, Deserializer, EnumAccess, Error, SeqAccess, VariantAccess, Visitor};

#[test]
fn client_messages_round_trip() {
    let mut rng = rand::thread_rng();
    let id = DeviceId::random(&mut rng);
    let token = Token::random(&mut rng);
    let msgs = vec![
        ClientMsg::Register {
            version: PROTOCOL_VERSION,
            pubkey: [7u8; 32],
            name: Some("Ev PC’si".into()),
        },
        ClientMsg::Heartbeat { id, token },
        ClientMsg::Connect {
            id,
            token,
            target: DeviceId::new(719_204_663).unwrap(),
            session: 42,
            hello: vec![1, 2, 3],
        },
        ClientMsg::RelayData { id, token, session: 42, payload: vec![9; 200] },
        ClientMsg::Bye { id, token },
    ];
    for m in msgs {
        let bytes = encode(&m);
        let back: ClientMsg = decode(&bytes).unwrap();
        assert_eq!(m, back);
    }
}

#[test]
fn relay_messages_round_trip() {
    let id = DeviceId::new(305_881_027).unwrap();
    // 203.0.113.5:51820
    let addr = SocketAddr::V4 { ip: [203, 0, 113, 5], port: 51820 };
    let msgs = vec![
        RelayMsg::Registered { id, token: Token([3u8; 16]) },
        RelayMsg::HeartbeatAck,
        RelayMsg::Incoming { from: id, from_addr: addr, session: 7, hello: vec![4, 5] },
        RelayMsg::PeerFound {
            target: id,
            target_addr: addr,
            session: 7,
            answer: vec![6, 7],
            rate_cap_kbps: 10_000,
        },
        RelayMsg::Error { code: ErrCode::TargetOffline, message: "offline".into() },
    ];
    for m in msgs {
        assert_eq!(decode::<RelayMsg>(&encode(&m)).unwrap(), m);
    }
}

#[test]
fn peer_messages_round_trip() {
    let msgs = vec![
        PeerMsg::Punch { session: 1, seq: 0 },
        PeerMsg::PunchAck { session: 1, seq: 0 },
        PeerMsg::Data { session: 1, seq: 99, payload: vec![0xAB; 512] },
        PeerMsg::KeepAlive { session: 1 },
        PeerMsg::Hello { session: 1, pubkey: [9u8; 32], salt: [3u8; 32] },
        PeerMsg::HelloAck { session: 1, pubkey: [8u8; 32], salt: [4u8; 32] },
    ];
    for m in msgs {
        assert_eq!(decode::<PeerMsg>(&encode(&m)).unwrap(), m);
    }
}

/// The error codes as a build knows them that predates `IncompatibleVersion`.
#[derive(Debug, PartialEq)]
enum OldErrCode {
    TargetOffline,
    BadToken,
    NotRegistered,
    Protocol,
    RelayFull,
}

/// The messages from the relay as such a build knows them.
#[derive(Debug, PartialEq)]
enum OldRelayMsg {
    Registered { id: u32, token: [u8; 16] },
    HeartbeatAck,
    Incoming { from: u32, from_addr: (u32, [u8; 4], u16), session: u64, hello: Vec<u8> },
    PeerFound { target: u32, target_addr: (u32, [u8; 4], u16), session: u64, answer: Vec<u8> },
    RelayData { session: u64, payload: Vec<u8> },
    Error { code: OldErrCode, message: String },
}

impl<'de> Deserialize<'de> for OldErrCode {
    fn deserialize<D: Deserializer<'de>>(deserializer: D) -> Result<Self, D::Error> {
        struct Codes;
        impl<'de> Visitor<'de> for Codes {
            type Value = OldErrCode;
            fn expecting(&self, f: &mut std::fmt::Formatter) -> std::fmt::Result {
                f.write_str("an error code")
            }
            fn visit_enum<A: EnumAccess<'de>>(self, data: A) -> Result<OldErrCode, A::Error> {
                let (index, variant) = data.variant::<u32>()?;
                variant.unit_variant()?;
                match index {
                    0 => Ok(OldErrCode::TargetOffline),
                    1 => Ok(OldErrCode::BadToken),
                    2 => Ok(OldErrCode::NotRegistered),
                    3 => Ok(OldErrCode::Protocol),
                    4 => Ok(OldErrCode::RelayFull),
                    _ => Err(A::Error::custom("unknown error code")),
                }
            }
        }
        deserializer.deserialize_enum("OldErrCode", &["0", "1", "2", "3", "4"], Codes)
    }
}

struct RefusalFields;
impl<'de> Visitor<'de> for RefusalFields {
    type Value = (OldErrCode, String);
    fn expecting(&self, f: &mut std::fmt::Formatter) -> std::fmt::Result {
        f.write_str("a code and a message")
    }
    fn visit_seq<A: SeqAccess<'de>>(self, mut seq: A) -> Result<Self::Value, A::Error> {
        let code = seq.next_element()?.ok_or_else(|| A::Error::custom("no code"))?;
        let message = seq.next_element()?.ok_or_else(|| A::Error::custom("no message"))?;
        Ok((code, message))
    }
}

impl<'de> Deserialize<'de> for OldRelayMsg {
    fn deserialize<D: Deserializer<'de>>(deserializer: D) -> Result<Self, D::Error> {
        struct Messages;
        impl<'de> Visitor<'de> for Messages {
            type Value = OldRelayMsg;
            fn expecting(&self, f: &mut std::fmt::Formatter) -> std::fmt::Result {
                f.write_str("a message from the relay")
            }
            fn visit_enum<A: EnumAccess<'de>>(self, data: A) -> Result<OldRelayMsg, A::Error> {
                let (index, variant) = data.variant::<u32>()?;
                match index {
                    0 => {
                        let (id, token) = variant.newtype_variant()?;
                        Ok(OldRelayMsg::Registered { id, token })
                    }
                    1 => {
                        variant.unit_variant()?;
                        Ok(OldRelayMsg::HeartbeatAck)
                    }
                    2 => {
                        let (from, from_addr, session, hello) = variant.newtype_variant()?;
                        Ok(OldRelayMsg::Incoming { from, from_addr, session, hello })
                    }
                    3 => {
                        let (target, target_addr, session, answer) = variant.newtype_variant()?;
                        Ok(OldRelayMsg::PeerFound { target, target_addr, session, answer })
                    }
                    4 => {
                        let (session, payload) = variant.newtype_variant()?;
                        Ok(OldRelayMsg::RelayData { session, payload })
                    }
                    5 => {
                        let (code, message) =
                            variant.struct_variant(&["code", "message"], RefusalFields)?;
                        Ok(OldRelayMsg::Error { code, message })
                    }
                    _ => Err(A::Error::custom("unknown message")),
                }
            }
        }
        deserializer.deserialize_enum("OldRelayMsg", &["0", "1", "2", "3", "4", "5"], Messages)
    }
}

/// Wire-compat regression: a relay that rejects an old-protocol client MUST send a
/// `RelayMsg::Error` whose `ErrCode` variant is decodable by the old client.
///
/// Old clients only know indices 0..=4 and drop a datagram with index 5, so that the
/// "update required" path is never reached. The correct reply uses
/// `ErrCode::Protocol` (variant index 3), which every build can decode.
#[test]
fn version_mismatch_error_decodable_by_old_client() {
    let wire = encode(&RelayMsg::Error {
        code: ErrCode::Protocol,
        message: "incompatible protocol version".into(),
    });

    let decoded = bincode::deserialize::<OldRelayMsg>(&wire)
        .expect("old-client ErrCode (5 variants) must decode Protocol (index 3) without error");
    assert!(
        matches!(decoded, OldRelayMsg::Error { code: OldErrCode::Protocol, .. }),
        "expected Protocol error, got {decoded:?}"
    );

    // IncompatibleVersion (index 5) is undecodable by a 5-variant enum.
    let buggy_wire = encode(&RelayMsg::Error {
        code: ErrCode::IncompatibleVersion,
        message: "incompatible protocol version".into(),
    });
    assert!(
        bincode::deserialize::<OldRelayMsg>(&buggy_wire).is_err(),
        "ErrCode index 5 must be an error for a 5-variant enum (proves the pre-fix bug)"
    );
}

#[test]
fn old_clients_read_the_other_relay_messages_that_did_not_change() {
    let wire = encode(&RelayMsg::Registered { id: DeviceId(305_881_027), token: Token([3; 16]) });
    assert_eq!(
        bincode::deserialize::<OldRelayMsg>(&wire).unwrap(),
        OldRelayMsg::Registered { id: 305_881_027, token: [3; 16] }
    );
    let wire = encode(&RelayMsg::HeartbeatAck);
    assert_eq!(bincode::deserialize::<OldRelayMsg>(&wire).unwrap(), OldRelayMsg::HeartbeatAck);
    let wire = encode(&RelayMsg::RelayData { session: 7, payload: vec![1, 2] });
    assert_eq!(
        bincode::deserialize::<OldRelayMsg>(&wire).unwrap(),
        OldRelayMsg::RelayData { session: 7, payload: vec![1, 2] }
    );
}

/// Every code but the newest reaches an old client unchanged.
#[test]
fn refusals_reach_clients_that_know_the_code() {
    let known = [
        (ErrCode::TargetOffline, OldErrCode::TargetOffline),
        (ErrCode::BadToken, OldErrCode::BadToken),
        (ErrCode::NotRegistered, OldErrCode::NotRegistered),
        (ErrCode::Protocol, OldErrCode::Protocol),
        (ErrCode::RelayFull, OldErrCode::RelayFull),
    ];
    for (code, old) in known {
        let wire = encode(&RelayMsg::Error { code, message: "no".into() });
        assert_eq!(
            bincode::deserialize::<OldRelayMsg>(&wire).unwrap(),
            OldRelayMsg::Error { code: old, message: "no".into() }
        );
    }
}

fn v6(flowinfo: u32, scope_id: u32) -> SocketAddr {
    let ip = [0x20, 1, 0x0d, 0xb8, 0, 0, 0, 0, 0, 0, 0, 0, 0, 0, 0, 1];
    SocketAddr::V6 { ip, port: 443, flowinfo, scope_id }
}

fn client_samples() -> Vec<ClientMsg> {
    let (id, token) = (DeviceId(482_913_056), Token([0x5a; 16]));
    vec![
        ClientMsg::Register { version: 3, pubkey: [7; 32], name: None },
        ClientMsg::Register { version: 0xfffe, pubkey: [0; 32], name: Some("Ev PC’si".into()) },
        ClientMsg::Register { version: 1, pubkey: [1; 32], name: Some(String::new()) },
        ClientMsg::Heartbeat { id, token },
        ClientMsg::Connect { id, token, target: DeviceId(5), session: u64::MAX, hello: vec![1, 2, 3] },
        ClientMsg::Accept { id, token, session: 42, answer: vec![] },
        ClientMsg::RelayData { id, token, session: 42, payload: vec![9; 1300] },
        ClientMsg::Bye { id, token },
    ]
}

fn relay_samples() -> Vec<RelayMsg> {
    let (id, token) = (DeviceId(u32::MAX), Token([0xa5; 16]));
    let mut msgs = vec![
        RelayMsg::Registered { id, token },
        RelayMsg::HeartbeatAck,
        RelayMsg::Incoming { from: id, from_addr: v6(0, 0), session: 7, hello: vec![4, 5] },
        RelayMsg::PeerFound {
            target: id,
            target_addr: SocketAddr::V4 { ip: [1, 2, 3, 4], port: 65535 },
            session: 7,
            answer: vec![6, 7],
            rate_cap_kbps: u32::MAX,
        },
        RelayMsg::RelayData { session: 0, payload: vec![255; 3] },
    ];
    for code in [
        ErrCode::TargetOffline,
        ErrCode::BadToken,
        ErrCode::NotRegistered,
        ErrCode::Protocol,
        ErrCode::RelayFull,
        ErrCode::IncompatibleVersion,
    ] {
        msgs.push(RelayMsg::Error { code, message: "π".into() });
    }
    msgs
}

fn peer_samples() -> Vec<PeerMsg> {
    vec![
        PeerMsg::Punch { session: 1, seq: 0x01020304 },
        PeerMsg::PunchAck { session: 0x0102030405060708, seq: 1 },
        PeerMsg::Data { session: 1, seq: u64::MAX, payload: vec![0xAB; 512] },
        PeerMsg::KeepAlive { session: 1 },
        PeerMsg::Hello { session: 1, pubkey: [9; 32], salt: [3; 32] },
        PeerMsg::HelloAck { session: 1, pubkey: [8; 32], salt: [4; 32] },
    ]
}

#[test]
fn every_variant_round_trips() {
    for m in client_samples() {
        assert_eq!(decode::<ClientMsg>(&encode(&m)), Ok(m));
    }
    for m in relay_samples() {
        assert_eq!(decode::<RelayMsg>(&encode(&m)), Ok(m));
    }
    for m in peer_samples() {
        assert_eq!(decode::<PeerMsg>(&encode(&m)), Ok(m));
    }
}

#[test]
fn trailing_bytes_are_ignored() {
    for m in client_samples() {
        let mut bytes = encode(&m);
        bytes.extend([1, 2, 3]);
        assert_eq!(decode::<ClientMsg>(&bytes), Ok(m));
    }
    for m in relay_samples() {
        let mut bytes = encode(&m);
        bytes.push(0);
        assert_eq!(decode::<RelayMsg>(&bytes), Ok(m));
    }
}

#[test]
fn every_truncation_is_recognised() {
    for m in client_samples() {
        let bytes = encode(&m);
        for len in 0..bytes.len() {
            assert_eq!(decode::<ClientMsg>(&bytes[..len]), Err(DecodeError::UnexpectedEnd));
        }
    }
    for m in relay_samples() {
        let bytes = encode(&m);
        for len in 0..bytes.len() {
            assert_eq!(decode::<RelayMsg>(&bytes[..len]), Err(DecodeError::UnexpectedEnd));
        }
    }
    for m in peer_samples() {
        let bytes = encode(&m);
        for len in 0..bytes.len() {
            assert_eq!(decode::<PeerMsg>(&bytes[..len]), Err(DecodeError::UnexpectedEnd));
        }
    }
}

#[test]
fn different_messages_have_different_bytes_and_none_starts_another() {
    let all: Vec<Vec<u8>> = client_samples().iter().map(|m| encode(m)).collect();
    for (i, a) in all.iter().enumerate() {
        for (j, b) in all.iter().enumerate() {
            assert!(i == j || !b.starts_with(a));
        }
    }
}

#[test]
fn encoding_a_decoded_datagram_gives_its_bytes() {
    let datagram = [3u8, 0, 0, 0, 9, 8, 7, 6, 5, 4, 3, 2, 77, 78];
    let msg = decode::<PeerMsg>(&datagram).unwrap();
    assert_eq!(msg, PeerMsg::KeepAlive { session: 0x0203040506070809 });
    assert_eq!(encode(&msg), &datagram[..12]);
}

#[test]
fn local_parts_of_an_ipv6_address_are_not_sent() {
    let msg = |addr| RelayMsg::Incoming {
        from: DeviceId(482_913_056),
        from_addr: addr,
        session: 7,
        hello: vec![],
    };
    assert_eq!(encode(&msg(v6(1, 2))), encode(&msg(v6(0, 0))));
    assert_eq!(decode::<RelayMsg>(&encode(&msg(v6(1, 2)))), Ok(msg(v6(0, 0))));
}

#[test]
fn wire_ids_are_not_range_checked() {
    let bytes = encode(&ClientMsg::Bye { id: DeviceId(5), token: Token([0; 16]) });
    let back = decode::<ClientMsg>(&bytes).unwrap();
    assert_eq!(back, ClientMsg::Bye { id: DeviceId(5), token: Token([0; 16]) });
    assert_eq!(format!("{:?}", back), "Bye { id: DeviceId(5), token: Token(00000000…) }");
}
