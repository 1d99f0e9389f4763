use parustiko::message::SshMessageID;
use parustiko::packet::BinaryProtocolPacket;
use parustiko::protocol::{DecodeRaw, Encode};
use parustiko::stream::MemoryStream;

#[test]
fn build_protocol_message() {
    let payload = vec![20u8, 30, 40, 50];
    let mac = vec![0u8; 5];

    let message = BinaryProtocolPacket::try_build(20, payload, mac).unwrap();

    assert_eq!(message.message_id, SshMessageID::KexInit);
    assert_eq!(message.packet_length, 4 + 20 + 1)
}

#[test]
fn try_build_rejects_long_payload() {
    let err = BinaryProtocolPacket::try_build(25, vec![0u8; 33000], vec![0u8; 5])
        .unwrap_err()
        .message();

    assert_eq!(err, "entity preconditions are not met: (payload is too long for SSH message)");
}

#[test]
fn try_build_rejects_short_padding() {
    let err = BinaryProtocolPacket::try_build(3, vec![0u8; 5], vec![0u8; 5])
        .unwrap_err()
        .message();

    assert_eq!(err, "entity preconditions are not met: (padding is too short for SSH message)");
}

#[test]
fn try_build_rejects_unknown_message_id() {
    let err = BinaryProtocolPacket::try_build(25, vec![0u8; 5], vec![0u8; 5])
        .unwrap_err()
        .message();

    assert_eq!(err, "entity preconditions are not met: (unknown SSH message ID)");
}

#[test]
fn try_build_rejects_empty_payload() {
    let err = BinaryProtocolPacket::try_build(25, vec![], vec![]).unwrap_err().message();

    assert_eq!(err, "entity preconditions are not met: (unknown SSH message ID)");
}

#[test]
fn build_random_padding_length_shows_in_encoding() {
    let message = BinaryProtocolPacket {
        message_id: SshMessageID::KexInit,
        packet_length: 50,
        padding_length: 25,
        mac_length: 8,
        payload: vec![0u8; 24],
        mac: vec![1u8; 8],
    };

    let buff = message.to_be_bytes().unwrap();

    assert_eq!(buff.len(), 4 + 50 + 8);
}

#[test]
fn encode_to_bytes_wrong_final_length() {
    let message = BinaryProtocolPacket {
        message_id: SshMessageID::KexInit,
        packet_length: 50,
        padding_length: 25,
        mac_length: 13,
        payload: vec![0u8; 24],
        mac: vec![1u8; 8],
    };

    let err = message.to_be_bytes().unwrap_err().message();

    assert_eq!(err, "encoding message to bytes failed: (final buffer has incorrect length)");
}

#[test]
fn encode_to_bytes_layout() {
    let payload = vec![0u8; 24];
    let mac = vec![1u8; 8];
    let message = BinaryProtocolPacket {
        message_id: SshMessageID::KexInit,
        packet_length: 50,
        padding_length: 25,
        mac_length: 8,
        payload: payload.clone(),
        mac: mac.clone(),
    };

    let buff = message.to_be_bytes().unwrap();

    assert_eq!(buff[..4], [0, 0, 0, 50]);
    assert_eq!(buff[4..5], [25]);
    assert_eq!(buff[5..29], payload[..]);
    assert_eq!(buff[54..], mac[..]);
}

#[test]
fn calculate_encoded_length() {
    let message = BinaryProtocolPacket {
        message_id: SshMessageID::KexInit,
        packet_length: 50,
        padding_length: 25,
        mac_length: 8,
        payload: vec![0u8; 24],
        mac: vec![1u8; 8],
    };

    let length = message.size();

    assert_eq!(length, 4 + 1 + 24 + 25 + 8);
}

#[test]
fn decode_short_length_field() {
    let raw = vec![0u8, 0, 0];
    let mut stream = MemoryStream::new(raw);
    let err = BinaryProtocolPacket::from_be_bytes(&mut stream, 2).unwrap_err().message();

    assert_eq!(err, "decoding binary protocol from message failed: (unexpected end of stream)");
}

#[test]
fn decode_short_padding_field() {
    let raw = vec![0u8, 0, 0, 6];
    let mut stream = MemoryStream::new(raw);
    let err = BinaryProtocolPacket::from_be_bytes(&mut stream, 2).unwrap_err().message();

    assert_eq!(err, "decoding binary protocol from message failed: (unexpected end of stream)");
}

#[test]
fn decode_short_payload() {
    let raw = vec![0u8, 0, 0, 6, 4];
    let mut stream = MemoryStream::new(raw);
    let err = BinaryProtocolPacket::from_be_bytes(&mut stream, 2).unwrap_err().message();

    assert_eq!(err, "decoding binary protocol from message failed: (unexpected end of stream)");
}

#[test]
fn decode_short_padding_bytes() {
    let raw = vec![0u8, 0, 0, 6, 4, 20, 2, 3, 4];
    let mut stream = MemoryStream::new(raw);
    let err = BinaryProtocolPacket::from_be_bytes(&mut stream, 2).unwrap_err().message();

    assert_eq!(err, "decoding binary protocol from message failed: (unexpected end of stream)");
}

#[test]
fn decode_short_mac() {
    let raw = vec![0u8, 0, 0, 6, 4, 20, 2, 3, 4, 5, 6];
    let mut stream = MemoryStream::new(raw);
    let err = BinaryProtocolPacket::from_be_bytes(&mut stream, 2).unwrap_err().message();

    assert_eq!(err, "decoding binary protocol from message failed: (unexpected end of stream)");
}

#[test]
fn decode_length_below_padding() {
    let raw = vec![0u8, 0, 0, 2, 10, 20, 2, 3, 4, 5, 6];
    let mut stream = MemoryStream::new(raw);
    let err = BinaryProtocolPacket::from_be_bytes(&mut stream, 0).unwrap_err().message();

    assert_eq!(
        err,
        "decoding binary protocol from message failed: (packet length is smaller than its padding)"
    );
}

#[test]
fn decode_buffer_into_packet_object() {
    let raw = vec![
        0u8, 0, 0, 6, // packet size
        4,  // padding size
        20, // payload
        2, 3, 4, 5, // padding
        6, 7, // mac
    ];
    let mut stream = MemoryStream::new(raw);
    let message = BinaryProtocolPacket::from_be_bytes(&mut stream, 2).unwrap();

    assert_eq!(message.message_id, SshMessageID::KexInit);
    assert_eq!(message.packet_length, 6);
    assert_eq!(message.padding_length, 4);
    assert_eq!(message.payload, [20]);
    assert_eq!(message.mac_length, 2);
    assert_eq!(message.mac, [6, 7]);
}
