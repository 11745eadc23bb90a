use minecraft_motd::agent::protocol::{
    check_packet_length, decode_varint, encode_varint, expect_status_request, frame_packet,
    is_ping, json_packet, parse_handshake, read_string, write_string, ProtocolError,
};

#[test]
fn varint_round_trip() {
    for value in [0, 1, 127, 128, 255, 2_097_151, -1] {
        let mut encoded = Vec::new();
        encode_varint(value, &mut encoded);
        assert_eq!(decode_varint(&encoded, 0).unwrap().0, value);
    }
}

#[test]
fn parses_handshake_and_port() {
    let mut packet = Vec::new();
    encode_varint(0, &mut packet);
    encode_varint(769, &mut packet);
    write_string("mc.example.test", &mut packet);
    packet.extend_from_slice(&25565u16.to_be_bytes());
    encode_varint(2, &mut packet);
    let handshake = parse_handshake(&packet).unwrap();
    assert_eq!(handshake.protocol_version, 769);
    assert_eq!(handshake.server_port, 25565);
    assert_eq!(handshake.next_state, 2);
}

#[test]
fn rejects_oversized_handshake_string() {
    let mut packet = vec![0, 1];
    encode_varint(40_000, &mut packet);
    assert!(parse_handshake(&packet).is_err());
}

#[test]
fn varint_encodings_have_the_documented_bytes() {
    let cases: [(i32, &[u8]); 7] = [
        (0, &[0x00]),
        (1, &[0x01]),
        (127, &[0x7f]),
        (128, &[0x80, 0x01]),
        (255, &[0xff, 0x01]),
        (2_097_151, &[0xff, 0xff, 0x7f]),
        (-1, &[0xff, 0xff, 0xff, 0xff, 0x0f]),
    ];
    for (value, bytes) in cases {
        let mut encoded = Vec::new();
        encode_varint(value, &mut encoded);
        assert_eq!(encoded, bytes);
    }
    let mut encoded = vec![9u8];
    encode_varint(i32::MIN, &mut encoded);
    assert_eq!(encoded, vec![9, 0x80, 0x80, 0x80, 0x80, 0x08]);
}

#[test]
fn varint_decoding_reports_position_and_errors() {
    assert_eq!(decode_varint(&[5, 0x80, 0x01, 7], 1), Ok((128, 3)));
    assert_eq!(decode_varint(&[0x80, 0x80], 0), Err(ProtocolError::UnexpectedEndOfVarInt));
    assert_eq!(decode_varint(&[], 0), Err(ProtocolError::UnexpectedEndOfVarInt));
    assert_eq!(decode_varint(&[1, 2], 5), Err(ProtocolError::UnexpectedEndOfVarInt));
    assert_eq!(
        decode_varint(&[0xff, 0xff, 0xff, 0xff, 0xff, 0x01], 0),
        Err(ProtocolError::VarIntTooLarge)
    );
    // Bits beyond 32 are dropped, as the reference decoder does.
    assert_eq!(decode_varint(&[0xff, 0xff, 0xff, 0xff, 0x7f], 0), Ok((-1, 5)));
}

#[test]
fn strings_round_trip_and_report_each_error() {
    let mut bytes = Vec::new();
    write_string("héllo", &mut bytes);
    assert_eq!(bytes[0], 6);
    let (text, next) = read_string(&bytes, 0).unwrap();
    assert_eq!(text, "héllo");
    assert_eq!(next, bytes.len());

    let mut negative = Vec::new();
    encode_varint(-1, &mut negative);
    assert_eq!(read_string(&negative, 0), Err(ProtocolError::InvalidStringLength));
    assert_eq!(read_string(&[3, b'a', b'b'], 0), Err(ProtocolError::TruncatedString));
    assert_eq!(read_string(&[2, 0xc3, 0x28], 0), Err(ProtocolError::InvalidUtf8));

    let mut limit = Vec::new();
    encode_varint(32767, &mut limit);
    limit.extend(std::iter::repeat(b'a').take(32767));
    assert_eq!(read_string(&limit, 0).unwrap().0.len(), 32767);
    let mut over = Vec::new();
    encode_varint(32768, &mut over);
    assert_eq!(read_string(&over, 0), Err(ProtocolError::InvalidStringLength));
}

fn handshake_bytes(id: i32, next_state: i32) -> Vec<u8> {
    let mut packet = Vec::new();
    encode_varint(id, &mut packet);
    encode_varint(765, &mut packet);
    write_string("play.example", &mut packet);
    packet.extend_from_slice(&[0x63, 0xdd]);
    encode_varint(next_state, &mut packet);
    packet
}

#[test]
fn handshake_errors_each_have_their_input() {
    assert_eq!(parse_handshake(&handshake_bytes(1, 1)).unwrap_err(), ProtocolError::ExpectedHandshake);
    assert_eq!(parse_handshake(&handshake_bytes(0, 3)).unwrap_err(), ProtocolError::InvalidNextState);
    let status = parse_handshake(&handshake_bytes(0, 1)).unwrap();
    assert_eq!(status.server_address, "play.example");
    assert_eq!(status.server_port, 25565);
    assert_eq!(status.next_state, 1);
    let mut truncated = handshake_bytes(0, 1);
    truncated.truncate(truncated.len() - 2);
    assert_eq!(parse_handshake(&truncated).unwrap_err(), ProtocolError::TruncatedHandshakePort);
    let mut no_state = handshake_bytes(0, 1);
    no_state.pop();
    assert_eq!(parse_handshake(&no_state).unwrap_err(), ProtocolError::UnexpectedEndOfVarInt);
}

#[test]
fn packet_framing_and_status_exchange() {
    assert_eq!(check_packet_length(-1), Err(ProtocolError::InvalidPacketSize));
    assert_eq!(check_packet_length(1_048_577), Err(ProtocolError::InvalidPacketSize));
    assert_eq!(check_packet_length(1_048_576), Ok(1_048_576));
    assert_eq!(check_packet_length(0), Ok(0));

    assert_eq!(frame_packet(&[1, 2, 3]), vec![3, 1, 2, 3]);
    let body = json_packet("{\"text\":\"hi\"}");
    assert_eq!(body[0], 0);
    assert_eq!(body[1], 13);
    assert_eq!(&body[2..], b"{\"text\":\"hi\"}");

    assert_eq!(expect_status_request(&[0]), Ok(()));
    assert_eq!(expect_status_request(&[1]), Err(ProtocolError::ExpectedStatusRequest));
    assert_eq!(expect_status_request(&[]), Err(ProtocolError::UnexpectedEndOfVarInt));
    assert_eq!(is_ping(&[1, 0, 0, 0, 0, 0, 0, 0, 42]), Ok(true));
    assert_eq!(is_ping(&[0]), Ok(false));
}

#[test]
fn varint_bytes_have_the_documented_shape() {
    for value in [0, 1, 127, 128, 300, 2_097_151, i32::MAX, -1, i32::MIN] {
        let mut out = Vec::new();
        encode_varint(value, &mut out);
        assert!((1..=5).contains(&out.len()));
        let (last, head) = out.split_last().unwrap();
        assert!(head.iter().all(|b| b & 0x80 != 0));
        assert_eq!(last & 0x80, 0);
        assert!(out.len() == 1 || *last != 0);
        if value < 0 {
            assert_eq!(out.len(), 5);
        }
        let sum = out.iter().enumerate().fold(0u64, |acc, (i, b)| acc | (((b & 0x7f) as u64) << (7 * i)));
        assert_eq!(sum as u32, value as u32);
    }
    // A non-canonical form within five bytes is read too; a sixth byte is not.
    assert_eq!(decode_varint(&[0x81, 0x80, 0x00, 9], 0), Ok((1, 3)));
    assert_eq!(decode_varint(&[0x80, 0x80, 0x80, 0x80, 0x80, 0x00], 0), Err(ProtocolError::VarIntTooLarge));
}

#[test]
fn handshake_with_non_canonical_varints_is_read() {
    // id 0 as two bytes, version 5, length 1, "a", port 25565, next state 2, then extra bytes.
    let packet = [0x80, 0x00, 0x05, 0x81, 0x00, b'a', 0x63, 0xdd, 0x02, 0xff];
    let handshake = parse_handshake(&packet).unwrap();
    assert_eq!(handshake.protocol_version, 5);
    assert_eq!(handshake.server_address, "a");
    assert_eq!(handshake.server_port, 25565);
    assert_eq!(handshake.next_state, 2);
}
