use cobot_comms::checksum::{crc8, crc8_check};
use cobot_comms::codec::{
    build_request_body, decode_body, decode_error_payload, decode_joints_payload, encode,
    parse_response_body, u32_from_le,
};
use cobot_comms::types::error_code_name;

fn wire_response_body(kind: u8, id: u32, payload: &[u8]) -> Vec<u8> {
    let mut body = vec![cobot_comms::MSG_RESPONSE, kind];
    body.extend_from_slice(&id.to_le_bytes());
    body.extend_from_slice(payload);
    body
}

#[test]
fn crc8_of_empty_is_zero() {
    assert_eq!(crc8(&[]), 0);
}

#[test]
fn crc8_check_accepts_own_checksum() {
    let data = [0x01u8, 0x02, 0x03, 0xff, 0x24];
    let c = crc8(&data);
    assert!(crc8_check(&data, c));
}

#[test]
fn crc8_detects_every_single_bit_flip() {
    let data = [0x13u8, 0x00, 0xa5, 0x7e];
    let c = crc8(&data);
    for i in 0..data.len() {
        for bit in 0..8 {
            let mut corrupted = data;
            corrupted[i] ^= 1u8 << bit;
            assert!(!crc8_check(&corrupted, c), "flip at byte {} bit {} went undetected", i, bit);
        }
    }
}

#[test]
fn frame_round_trip_plain_body() {
    let body = vec![0x01u8, 0x00, 0x07, 0x24, 0x24, 0xff];
    let wire = encode(&body);
    assert_eq!(wire[0], 0x24);
    assert_eq!(wire[1] as usize, body.len());
    assert_eq!(decode_body(&wire), Some(body));
}

#[test]
fn frame_round_trip_empty_body() {
    let body: Vec<u8> = Vec::new();
    let wire = encode(&body);
    assert_eq!(wire.len(), 3);
    assert_eq!(decode_body(&wire), Some(body));
}

#[test]
fn frame_round_trip_longest_body() {
    let body: Vec<u8> = (0..255u32).map(|i| (i % 256) as u8).collect();
    let wire = encode(&body);
    assert_eq!(decode_body(&wire), Some(body));
}

#[test]
fn frame_round_trip_outbound_layout() {
    let body = build_request_body(cobot_comms::REQ_MOVE_TO, 0x01020304, &[9, 8, 7]);
    assert_eq!(body[0], cobot_comms::REQ_MOVE_TO);
    assert_eq!(&body[1..5], &[0x04, 0x03, 0x02, 0x01]);
    assert_eq!(&body[5..], &[9, 8, 7]);
    let wire = encode(&body);
    assert_eq!(decode_body(&wire), Some(body));
}

#[test]
fn frame_round_trip_inbound_layout() {
    let body = wire_response_body(cobot_comms::RESP_ACK, 42, &[1, 2]);
    let wire = encode(&body);
    let decoded = decode_body(&wire).unwrap();
    let resp = parse_response_body(&decoded).unwrap();
    assert_eq!(resp.command_id, 42);
    assert_eq!(resp.response_type, cobot_comms::RESP_ACK);
    assert_eq!(resp.payload, vec![1, 2]);
}

#[test]
fn decode_rejects_corrupted_checksum() {
    let body = vec![5u8, 6, 7];
    let mut wire = encode(&body);
    wire[4] ^= 0x01;
    assert_eq!(decode_body(&wire), None);
}

#[test]
fn decode_rejects_wrong_marker() {
    let body = vec![5u8, 6, 7];
    let mut wire = encode(&body);
    wire[0] = 0x25;
    assert_eq!(decode_body(&wire), None);
}

#[test]
fn decode_rejects_wrong_length() {
    let body = vec![5u8, 6, 7];
    let mut wire = encode(&body);
    wire[1] = 2;
    assert_eq!(decode_body(&wire), None);
}

#[test]
fn parse_response_body_rejects_short_body() {
    assert!(parse_response_body(&[cobot_comms::MSG_RESPONSE, 0, 1, 2, 3]).is_none());
    assert!(parse_response_body(&[]).is_none());
}

#[test]
fn parse_response_body_rejects_log_discriminator() {
    assert!(parse_response_body(&[cobot_comms::MSG_LOG, 0, 1, 2, 3, 4, 5]).is_none());
}

#[test]
fn u32_from_le_reads_little_endian() {
    assert_eq!(u32_from_le(0x78, 0x56, 0x34, 0x12), 0x12345678);
    assert_eq!(u32_from_le(0, 0, 0, 0), 0);
    assert_eq!(u32_from_le(0xff, 0xff, 0xff, 0xff), u32::MAX);
}

#[test]
fn joints_payload_decodes_two_joints() {
    let mut payload = vec![2u8];
    payload.extend_from_slice(&1000i32.to_le_bytes());
    payload.extend_from_slice(&0i32.to_le_bytes());
    payload.extend_from_slice(&(-2500i32).to_le_bytes());
    payload.extend_from_slice(&500i32.to_le_bytes());
    let joints = decode_joints_payload(&payload).unwrap();
    assert_eq!(joints, vec![(1000, 0), (-2500, 500)]);
    let degrees: Vec<(f32, f32)> =
        joints.iter().map(|&(a, s)| (a as f32 / 1000.0, s as f32 / 1000.0)).collect();
    assert_eq!(degrees, vec![(1.0, 0.0), (-2.5, 0.5)]);
}

#[test]
fn joints_payload_rejects_short_payload() {
    assert!(decode_joints_payload(&[]).is_none());
    let mut payload = vec![2u8];
    payload.extend_from_slice(&1000i32.to_le_bytes());
    payload.extend_from_slice(&0i32.to_le_bytes());
    assert!(decode_joints_payload(&payload).is_none());
}

#[test]
fn joints_payload_decodes_zero_joints() {
    let joints = decode_joints_payload(&[0u8]).unwrap();
    assert!(joints.is_empty());
}

#[test]
fn error_payload_surfaces_code_and_text() {
    let mut payload = vec![4u8, 7u8];
    payload.extend_from_slice(b"no init");
    let e = decode_error_payload(&payload).unwrap();
    assert_eq!(e.code, 4);
    assert_eq!(e.message, "no init");
}

#[test]
fn error_payload_ignores_declared_length() {
    let mut payload = vec![2u8, 1u8];
    payload.extend_from_slice(b"whole text kept");
    let e = decode_error_payload(&payload).unwrap();
    assert_eq!(e.message, "whole text kept");
}

#[test]
fn error_payload_rejects_short_payload() {
    assert!(decode_error_payload(&[]).is_none());
    assert!(decode_error_payload(&[4]).is_none());
}

#[test]
fn error_code_names_match_table() {
    assert_eq!(error_code_name(0), "Other");
    assert_eq!(error_code_name(1), "Malformed request");
    assert_eq!(error_code_name(2), "Out of range");
    assert_eq!(error_code_name(3), "Invalid joint");
    assert_eq!(error_code_name(4), "Not initialized");
    assert_eq!(error_code_name(5), "Not calibrated");
    assert_eq!(error_code_name(6), "Cancelled");
    assert_eq!(error_code_name(7), "Invalid firmware version");
    assert_eq!(error_code_name(8), "Unknown error");
    assert_eq!(error_code_name(255), "Unknown error");
}
