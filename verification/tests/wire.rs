use pulsar_proto::{
    decode, encode, ClientMsg, DecodeError, DeviceId, ErrCode, PeerMsg, RelayMsg, SocketAddr, Token,
    DEFAULT_NODE_PORT, DEFAULT_RELAY_PORT, MAX_DATAGRAM, PROTOCOL_VERSION,
};

/// What bincode itself makes of a value.
fn bin<T: serde::Serialize>(value: &T) -> Vec<u8> {
    bincode::serialize(value).unwrap()
}

const ID: u32 = 482_913_056;
const TOKEN: [u8; 16] = [0, 1, 2, 3, 4, 5, 6, 7, 8, 9, 10, 11, 12, 13, 14, 255];

#[test]
fn constants_of_the_protocol() {
    assert_eq!(PROTOCOL_VERSION, 3);
    assert_eq!(MAX_DATAGRAM, 1400);
    assert_eq!(DEFAULT_RELAY_PORT, 21116);
    assert_eq!(DEFAULT_NODE_PORT, 21118);
}

#[test]
fn client_messages_have_the_bytes_that_bincode_gives() {
    let (id, token) = (DeviceId(ID), Token(TOKEN));
    let pubkey = [7u8; 32];
    assert_eq!(
        encode(&ClientMsg::Register { version: 0x0102, pubkey, name: Some("Ev PC’si".into()) }),
        bin(&(0u32, 0x0102u16, pubkey, Some("Ev PC’si")))
    );
    assert_eq!(
        encode(&ClientMsg::Register { version: 3, pubkey, name: None }),
        bin(&(0u32, 3u16, pubkey, None::<String>))
    );
    assert_eq!(encode(&ClientMsg::Heartbeat { id, token }), bin(&(1u32, ID, TOKEN)));
    assert_eq!(
        encode(&ClientMsg::Connect {
            id,
            token,
            target: DeviceId(719_204_663),
            session: 42,
            hello: vec![1, 2, 3],
        }),
        bin(&(2u32, ID, TOKEN, 719_204_663u32, 42u64, vec![1u8, 2, 3]))
    );
    assert_eq!(
        encode(&ClientMsg::Accept { id, token, session: 42, answer: vec![] }),
        bin(&(3u32, ID, TOKEN, 42u64, Vec::<u8>::new()))
    );
    assert_eq!(
        encode(&ClientMsg::RelayData { id, token, session: 42, payload: vec![9; 200] }),
        bin(&(4u32, ID, TOKEN, 42u64, vec![9u8; 200]))
    );
    assert_eq!(encode(&ClientMsg::Bye { id, token }), bin(&(5u32, ID, TOKEN)));
}

#[test]
fn relay_messages_have_the_bytes_that_bincode_gives() {
    let (id, token) = (DeviceId(ID), Token(TOKEN));
    let v4 = SocketAddr::V4 { ip: [203, 0, 113, 5], port: 51820 };
    let ip: [u8; 16] = [0x20, 1, 0x0d, 0xb8, 0, 0, 0, 0, 0, 0, 0, 0, 0, 0, 0, 1];
    let v6 = SocketAddr::V6 { ip, port: 443, flowinfo: 0, scope_id: 0 };
    assert_eq!(encode(&RelayMsg::Registered { id, token }), bin(&(0u32, ID, TOKEN)));
    assert_eq!(encode(&RelayMsg::HeartbeatAck), bin(&1u32));
    assert_eq!(
        encode(&RelayMsg::Incoming { from: id, from_addr: v4, session: 7, hello: vec![4, 5] }),
        bin(&(2u32, ID, (0u32, [203u8, 0, 113, 5], 51820u16), 7u64, vec![4u8, 5]))
    );
    assert_eq!(
        encode(&RelayMsg::PeerFound {
            target: id,
            target_addr: v6,
            session: 7,
            answer: vec![6, 7],
            rate_cap_kbps: 10_000,
        }),
        bin(&(3u32, ID, (1u32, ip, 443u16), 7u64, vec![6u8, 7], 10_000u32))
    );
    assert_eq!(
        encode(&RelayMsg::RelayData { session: 7, payload: vec![1] }),
        bin(&(4u32, 7u64, vec![1u8]))
    );
    let codes = [
        ErrCode::TargetOffline,
        ErrCode::BadToken,
        ErrCode::NotRegistered,
        ErrCode::Protocol,
        ErrCode::RelayFull,
        ErrCode::IncompatibleVersion,
    ];
    for (index, code) in codes.into_iter().enumerate() {
        assert_eq!(
            encode(&RelayMsg::Error { code, message: "offline".into() }),
            bin(&(5u32, index as u32, "offline"))
        );
    }
}

#[test]
fn peer_messages_have_the_bytes_that_bincode_gives() {
    assert_eq!(encode(&PeerMsg::Punch { session: 1, seq: 2 }), bin(&(0u32, 1u64, 2u32)));
    assert_eq!(encode(&PeerMsg::PunchAck { session: 1, seq: 2 }), bin(&(1u32, 1u64, 2u32)));
    assert_eq!(
        encode(&PeerMsg::Data { session: 1, seq: 99, payload: vec![0xAB; 512] }),
        bin(&(2u32, 1u64, 99u64, vec![0xABu8; 512]))
    );
    assert_eq!(encode(&PeerMsg::KeepAlive { session: 1 }), bin(&(3u32, 1u64)));
    assert_eq!(
        encode(&PeerMsg::Hello { session: 1, pubkey: [9; 32], salt: [3; 32] }),
        bin(&(4u32, 1u64, [9u8; 32], [3u8; 32]))
    );
    assert_eq!(
        encode(&PeerMsg::HelloAck { session: 1, pubkey: [8; 32], salt: [4; 32] }),
        bin(&(5u32, 1u64, [8u8; 32], [4u8; 32]))
    );
}

#[test]
fn layout_of_single_messages() {
    assert_eq!(encode(&RelayMsg::HeartbeatAck), [1, 0, 0, 0]);
    assert_eq!(
        encode(&PeerMsg::Punch { session: 1, seq: 258 }),
        [0, 0, 0, 0, 1, 0, 0, 0, 0, 0, 0, 0, 2, 1, 0, 0]
    );
    assert_eq!(
        encode(&RelayMsg::Error { code: ErrCode::Protocol, message: "né".into() }),
        [5, 0, 0, 0, 3, 0, 0, 0, 3, 0, 0, 0, 0, 0, 0, 0, b'n', 0xc3, 0xa9]
    );
}

#[test]
fn parts_of_messages_travel_alone_too() {
    assert_eq!(encode(&0x0102u16), [2, 1]);
    assert_eq!(encode(&0x01020304u32), [4, 3, 2, 1]);
    assert_eq!(encode(&0x0102030405060708u64), [8, 7, 6, 5, 4, 3, 2, 1]);
    assert_eq!(decode::<u16>(&[2, 1]), Ok(0x0102));
    assert_eq!(decode::<u32>(&[4, 3, 2, 1]), Ok(0x01020304));
    assert_eq!(decode::<u64>(&[8, 7, 6, 5, 4, 3, 2, 1, 0]), Ok(0x0102030405060708));
    assert_eq!(decode::<DeviceId>(&encode(&DeviceId(ID))), Ok(DeviceId(ID)));
    assert_eq!(decode::<Token>(&encode(&Token(TOKEN))), Ok(Token(TOKEN)));
    assert_eq!(decode::<ErrCode>(&encode(&ErrCode::RelayFull)), Ok(ErrCode::RelayFull));
    assert_eq!(decode::<String>(&encode(&"π".to_string())), Ok("π".to_string()));
    assert_eq!(decode::<Option<String>>(&[0]), Ok(None));
}

#[test]
fn unknown_indices_are_rejected() {
    assert_eq!(decode::<ClientMsg>(&[6, 0, 0, 0]), Err(DecodeError::UnknownVariant(6)));
    assert_eq!(decode::<RelayMsg>(&[0, 0, 0, 1]), Err(DecodeError::UnknownVariant(0x01000000)));
    assert_eq!(decode::<PeerMsg>(&[255; 4]), Err(DecodeError::UnknownVariant(u32::MAX)));
    assert_eq!(
        decode::<RelayMsg>(&bin(&(5u32, 6u32, "x"))),
        Err(DecodeError::UnknownVariant(6))
    );
    assert_eq!(
        decode::<RelayMsg>(&bin(&(2u32, ID, 2u32, [0u8; 4], 1u16, 7u64, Vec::<u8>::new()))),
        Err(DecodeError::UnknownVariant(2))
    );
}

#[test]
fn text_must_be_utf8() {
    let good = bin(&(5u32, 0u32, vec![0xc3u8, 0xa9]));
    assert_eq!(
        decode::<RelayMsg>(&good),
        Ok(RelayMsg::Error { code: ErrCode::TargetOffline, message: "é".into() })
    );
    let bad = bin(&(5u32, 0u32, vec![0xc3u8, 0x28]));
    assert_eq!(decode::<RelayMsg>(&bad), Err(DecodeError::InvalidUtf8));
    let overlong = bin(&(5u32, 0u32, vec![0xc0u8, 0x80]));
    assert_eq!(decode::<RelayMsg>(&overlong), Err(DecodeError::InvalidUtf8));
    let surrogate = bin(&(5u32, 0u32, vec![0xedu8, 0xa0, 0x80]));
    assert_eq!(decode::<RelayMsg>(&surrogate), Err(DecodeError::InvalidUtf8));
}

#[test]
fn optional_fields_are_marked_with_zero_or_one() {
    let mut bytes = encode(&ClientMsg::Register { version: 3, pubkey: [7; 32], name: None });
    assert_eq!(bytes.pop(), Some(0));
    bytes.push(2);
    assert_eq!(decode::<ClientMsg>(&bytes), Err(DecodeError::InvalidTag(2)));
    bytes.pop();
    bytes.push(255);
    assert_eq!(decode::<ClientMsg>(&bytes), Err(DecodeError::InvalidTag(255)));
}

#[test]
fn a_length_beyond_the_datagram_is_incomplete() {
    assert_eq!(
        decode::<RelayMsg>(&bin(&(4u32, 7u64, u64::MAX, 1u8))),
        Err(DecodeError::UnexpectedEnd)
    );
    assert_eq!(
        decode::<RelayMsg>(&bin(&(5u32, 0u32, u64::MAX, 1u8))),
        Err(DecodeError::UnexpectedEnd)
    );
    assert_eq!(
        decode::<RelayMsg>(&bin(&(4u32, 7u64, 2u64, 1u8))),
        Err(DecodeError::UnexpectedEnd)
    );
    assert_eq!(
        decode::<RelayMsg>(&bin(&(4u32, 7u64, 1u64, 1u8))),
        Ok(RelayMsg::RelayData { session: 7, payload: vec![1] })
    );
}

#[test]
fn empty_datagrams_are_incomplete() {
    assert_eq!(decode::<ClientMsg>(&[]), Err(DecodeError::UnexpectedEnd));
    assert_eq!(decode::<RelayMsg>(&[]), Err(DecodeError::UnexpectedEnd));
    assert_eq!(decode::<PeerMsg>(&[]), Err(DecodeError::UnexpectedEnd));
}
