use mcping::errors::{EncodingError, PingError};
use mcping::packet::{
    body_length, handshake_packet, packet, parse_response_body, status_request_packet,
    validate_packet_id,
};
use mcping::strings::{read_string, write_string};
use mcping::varint::{read_var_int, write_var_int};

#[test]
fn status_request_packet_bytes() {
    assert_eq!(status_request_packet(), vec![1, 0]);
}

#[test]
fn packet_frames_id_and_payload() {
    let payload: Vec<u8> = vec![0xaa, 0xbb];
    let pkt = packet(0x42, payload.as_slice());
    assert_eq!(pkt, vec![3, 0x42, 0xaa, 0xbb]);
}

#[test]
fn handshake_packet_layout() {
    let pkt = handshake_packet(770, "example.com", 25565).unwrap();
    let mut expected: Vec<u8> = Vec::new();
    // Body: packet ID 0, protocol 770, the address, the port, state 1.
    expected.push(0);
    write_var_int(&mut expected, &770);
    write_string(&mut expected, "example.com").unwrap();
    expected.push(0x63);
    expected.push(0xdd);
    write_var_int(&mut expected, &1);
    let body_len = expected.len() as i32;
    let mut framed: Vec<u8> = Vec::new();
    write_var_int(&mut framed, &body_len);
    framed.extend_from_slice(&expected);
    assert_eq!(pkt, framed);
}

#[test]
fn handshake_packet_parses_back() {
    let pkt = handshake_packet(770, "example.com", 25565).unwrap();
    let mut idx: usize = 0;
    let body_len = read_var_int(pkt.as_slice(), &mut idx).unwrap();
    assert_eq!(body_len as usize, pkt.len() - idx);
    let id = read_var_int(pkt.as_slice(), &mut idx).unwrap();
    assert_eq!(id, 0);
    let version = read_var_int(pkt.as_slice(), &mut idx).unwrap();
    assert_eq!(version, 770);
    let address = read_string(pkt.as_slice(), &mut idx).unwrap();
    assert_eq!(address, "example.com");
    let port = (pkt[idx] as u16) * 256 + pkt[idx + 1] as u16;
    assert_eq!(port, 25565);
    idx += 2;
    let next_state = read_var_int(pkt.as_slice(), &mut idx).unwrap();
    assert_eq!(next_state, 1);
    assert_eq!(idx, pkt.len());
}

#[test]
fn handshake_packet_rejects_oversized_address() {
    let long: String = "a".repeat(40000);
    assert!(handshake_packet(770, long.as_str(), 25565).is_err());
}

#[test]
fn response_body_splits_id_and_payload() {
    let mut body: Vec<u8> = Vec::new();
    write_var_int(&mut body, &0);
    write_string(&mut body, "{\"x\":1}").unwrap();
    let (id, text) = parse_response_body(body.as_slice()).unwrap();
    assert_eq!(id, 0);
    assert_eq!(text, "{\"x\":1}");
}

#[test]
fn response_body_truncated_is_an_error() {
    let body: Vec<u8> = vec![0, 9, b'x'];
    assert!(parse_response_body(body.as_slice()).is_err());
}

#[test]
fn packet_id_validation() {
    assert_eq!(validate_packet_id(0), Ok(()));
    assert_eq!(validate_packet_id(1), Err(PingError::UnexpectedPacketId(1)));
    assert_eq!(
        validate_packet_id(-3),
        Err(PingError::UnexpectedPacketId(-3))
    );
}

#[test]
fn body_length_rejects_negative_counts() {
    assert_eq!(body_length(17), Ok(17));
    assert_eq!(body_length(0), Ok(0));
    assert_eq!(
        body_length(-1),
        Err(PingError::Encoding(EncodingError::UnexpectedEof))
    );
}
