use engineio::packet::{Packet, PacketData, PacketType, PROTOCOL};
use engineio::parser::{
    decode_packet, encode_packet, fallback_packet, fallback_text, PacketError,
};

const ALL_TYPES: [PacketType; 7] = [
    PacketType::Open,
    PacketType::Close,
    PacketType::Ping,
    PacketType::Pong,
    PacketType::Message,
    PacketType::Upgrade,
    PacketType::Noop,
];

fn text(s: &str) -> PacketData {
    PacketData::Text(s.to_string())
}

fn bytes(b: &[u8]) -> PacketData {
    PacketData::Bytes(b.to_vec())
}

#[test]
fn round_trip_every_type_and_payload_shape() {
    let payloads: Vec<Option<PacketData>> = vec![
        None,
        Some(text("x")),
        Some(text("hello world")),
        Some(text("€ é ✓ 日本")),
        Some(text("b4AA")),
        Some(bytes(&[])),
        Some(bytes(&[255])),
        Some(bytes(&[0, 1, 2, 3, 4, 5, 6, 7, 8, 9, 250])),
    ];
    for typ in ALL_TYPES {
        for payload in &payloads {
            for supports_binary in [true, false] {
                let input = Packet { typ, data: payload.clone_data() };
                let encoded = encode_packet(&input, supports_binary);
                assert_eq!(decode_packet(&encoded), Ok(input));
            }
        }
    }
}

trait CloneData {
    fn clone_data(&self) -> Option<PacketData>;
}

impl CloneData for Option<PacketData> {
    fn clone_data(&self) -> Option<PacketData> {
        match self {
            None => None,
            Some(PacketData::Text(s)) => Some(PacketData::Text(s.clone())),
            Some(PacketData::Bytes(b)) => Some(PacketData::Bytes(b.clone())),
        }
    }
}

#[test]
fn empty_text_payload_comes_back_as_no_payload() {
    let input = Packet { typ: PacketType::Message, data: Some(text("")) };
    let encoded = encode_packet(&input, true);
    assert_eq!(encoded, text("4"));
    assert_eq!(decode_packet(&encoded), Ok(Packet { typ: PacketType::Message, data: None }));
}

#[test]
fn id_bijection() {
    for i in 0u8..=6 {
        assert_eq!(PacketType::from_raw(i).unwrap().id(), i);
    }
    for i in 7u8..=255 {
        assert_eq!(PacketType::from_raw(i), None);
    }
    assert_eq!(PacketType::from_raw(4), Some(PacketType::Message));
    assert_eq!(PacketType::Noop.id(), 6);
}

#[test]
fn from_ascii_reads_digits_only() {
    assert_eq!(PacketType::from_ascii(b'0'), Some(PacketType::Open));
    assert_eq!(PacketType::from_ascii(b'6'), Some(PacketType::Noop));
    assert_eq!(PacketType::from_ascii(b'7'), None);
    assert_eq!(PacketType::from_ascii(b'b'), None);
    assert_eq!(PacketType::from_ascii(3), None);
    assert_eq!(PROTOCOL, 3);
}

#[test]
fn binary_payload_as_binary_frame() {
    let input = Packet { typ: PacketType::Message, data: Some(bytes(&[0, 1, 1, 2, 3, 5, 8])) };
    assert_eq!(encode_packet(&input, true), bytes(&[4, 0, 1, 1, 2, 3, 5, 8]));
}

#[test]
fn binary_payload_as_base64_text() {
    let input = Packet { typ: PacketType::Message, data: Some(bytes(&[0, 1, 1, 2, 3, 5, 8])) };
    assert_eq!(encode_packet(&input, false), text("b4AAEBAgMFCA=="));
    let empty = Packet { typ: PacketType::Ping, data: Some(bytes(&[])) };
    assert_eq!(encode_packet(&empty, false), text("b2"));
    let hello = Packet { typ: PacketType::Open, data: Some(bytes(b"hi")) };
    assert_eq!(encode_packet(&hello, false), text("b0aGk="));
}

#[test]
fn no_payload_encoding() {
    assert_eq!(encode_packet(&Packet { typ: PacketType::Message, data: None }, true), text("4"));
    assert_eq!(encode_packet(&Packet { typ: PacketType::Close, data: None }, true), text("1"));
    assert_eq!(encode_packet(&Packet { typ: PacketType::Noop, data: None }, false), text("6"));
}

#[test]
fn malformed_text_fails() {
    assert_eq!(decode_packet(&text(":::")), Err(PacketError::InvalidPacketType));
    assert_eq!(decode_packet(&text("94103")), Err(PacketError::InvalidPacketType));
    assert_eq!(decode_packet(&text("€4")), Err(PacketError::InvalidPacketType));
}

#[test]
fn empty_text_fails() {
    assert_eq!(decode_packet(&text("")), Err(PacketError::EmptyInput));
}

#[test]
fn fallback_marker_alone_is_too_short() {
    assert_eq!(decode_packet(&text("b")), Err(PacketError::TooShort));
}

#[test]
fn fallback_with_bad_type_fails() {
    assert_eq!(decode_packet(&text("b9AAEC")), Err(PacketError::InvalidPacketType));
    assert_eq!(decode_packet(&text("bxAAEC")), Err(PacketError::InvalidPacketType));
    assert_eq!(decode_packet(&text("b€AAEC")), Err(PacketError::InvalidPacketType));
}

#[test]
fn fallback_with_bad_base64_fails() {
    assert_eq!(decode_packet(&text("b4!!!!")), Err(PacketError::InvalidEncoding));
    assert_eq!(decode_packet(&text("b4A")), Err(PacketError::InvalidEncoding));
}

#[test]
fn fallback_decodes_base64() {
    assert_eq!(
        decode_packet(&text("b0aGk=")),
        Ok(Packet { typ: PacketType::Open, data: Some(bytes(b"hi")) })
    );
    assert_eq!(
        decode_packet(&text("b5")),
        Ok(Packet { typ: PacketType::Upgrade, data: Some(bytes(&[])) })
    );
}

#[test]
fn binary_frames() {
    assert_eq!(decode_packet(&bytes(&[])), Err(PacketError::TooShort));
    assert_eq!(decode_packet(&bytes(&[7, 1])), Err(PacketError::InvalidPacketType));
    assert_eq!(decode_packet(&bytes(&[b'4', 1])), Err(PacketError::InvalidPacketType));
    assert_eq!(
        decode_packet(&bytes(&[3])),
        Ok(Packet { typ: PacketType::Pong, data: Some(bytes(&[])) })
    );
    assert_eq!(
        decode_packet(&bytes(&[2, 9, 8])),
        Ok(Packet { typ: PacketType::Ping, data: Some(bytes(&[9, 8])) })
    );
}

#[test]
fn text_frames() {
    assert_eq!(decode_packet(&text("3")), Ok(Packet { typ: PacketType::Pong, data: None }));
    assert_eq!(
        decode_packet(&text("4héllo")),
        Ok(Packet { typ: PacketType::Message, data: Some(text("héllo")) })
    );
    assert_eq!(
        decode_packet(&text("2b")),
        Ok(Packet { typ: PacketType::Ping, data: Some(text("b")) })
    );
}

#[test]
fn fallback_text_frame() {
    assert_eq!(fallback_text(PacketType::Message, "AAEC"), "b4AAEC".to_string());
    assert_eq!(fallback_text(PacketType::Open, ""), "b0".to_string());
}

#[test]
fn fallback_packet_from_decoded_bytes() {
    assert_eq!(
        fallback_packet(PacketType::Noop, Ok(vec![1, 2])),
        Ok(Packet { typ: PacketType::Noop, data: Some(bytes(&[1, 2])) })
    );
    assert_eq!(
        fallback_packet(PacketType::Noop, Err(base64::DecodeError::InvalidLength)),
        Err(PacketError::InvalidEncoding)
    );
}
