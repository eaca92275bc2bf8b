use cobot_comms::codec::{build_request_body, encode};
use cobot_comms::engine::CobotConnection;
use cobot_comms::transport::ScriptedTransport;
use cobot_comms::types::{CommandError, Response};

fn response_frame(kind: u8, id: u32, payload: &[u8]) -> Vec<u8> {
    let mut body = vec![cobot_comms::MSG_RESPONSE, kind];
    body.extend_from_slice(&id.to_le_bytes());
    body.extend_from_slice(payload);
    encode(&body)
}

fn log_frame(level: u8, text: &[u8]) -> Vec<u8> {
    let mut body = vec![cobot_comms::MSG_LOG, level, text.len() as u8];
    body.extend_from_slice(text);
    encode(&body)
}

fn connection(feed: Vec<u8>) -> CobotConnection<ScriptedTransport> {
    CobotConnection::new(ScriptedTransport::new(feed, 0, 1), 5, 100)
}

fn expected_request_wire(kind: u8, id: u32, payload: &[u8]) -> Vec<u8> {
    encode(&build_request_body(kind, id, payload))
}

#[test]
fn send_request_writes_framed_request_and_advances_id() {
    let mut conn = connection(Vec::new());
    let id = conn.send_request(cobot_comms::REQ_CALIBRATE, &[0b111111]).unwrap();
    assert_eq!(id, 0);
    assert_eq!(conn.next_command_id, 1);
    let id2 = conn.send_request(cobot_comms::REQ_RESET, &[]).unwrap();
    assert_eq!(id2, 1);
    let mut expected = expected_request_wire(cobot_comms::REQ_CALIBRATE, 0, &[0b111111]);
    expected.extend_from_slice(&expected_request_wire(cobot_comms::REQ_RESET, 1, &[]));
    assert_eq!(conn.port.sent_bytes(), &expected);
}

#[test]
fn wait_returns_matching_response() {
    let mut conn = connection(response_frame(cobot_comms::RESP_ACK, 7, &[]));
    let resp = conn.wait_for_response(7, 100).unwrap().unwrap();
    assert_eq!(resp.command_id, 7);
    assert_eq!(resp.response_type, cobot_comms::RESP_ACK);
    assert!(resp.payload.is_empty());
}

#[test]
fn wait_with_no_frames_times_out() {
    let mut conn = connection(Vec::new());
    let r = conn.wait_for_response(0, 100).unwrap();
    assert!(r.is_none());
}

#[test]
fn request_with_no_reply_is_a_timeout_not_a_hang() {
    let mut conn = connection(Vec::new());
    let id = conn.send_request(cobot_comms::REQ_GET_JOINTS, &[]).unwrap();
    let r = conn.wait_for_ack(id);
    assert!(matches!(r, Err(CommandError::Timeout)));
}

#[test]
fn resynchronizes_after_garbage_without_marker() {
    let mut feed = vec![0x00u8, 0x17, 0x99, 0xfe];
    feed.extend_from_slice(&response_frame(cobot_comms::RESP_ACK, 5, &[3]));
    let mut conn = connection(feed);
    let resp = conn.wait_for_response(5, 100).unwrap().unwrap();
    assert_eq!(resp.command_id, 5);
    assert_eq!(resp.payload, vec![3]);
}

#[test]
fn resynchronizes_after_corrupt_frame_with_one_warning() {
    let mut feed = vec![0x24u8, 3, 0x00, 0xaa, 0xbb, 0xcc];
    feed.extend_from_slice(&response_frame(cobot_comms::RESP_DONE, 9, &[1, 2]));
    let mut conn = connection(feed);
    let resp = conn.wait_for_response(9, 100).unwrap().unwrap();
    assert_eq!(resp.command_id, 9);
    assert_eq!(resp.response_type, cobot_comms::RESP_DONE);
    assert_eq!(resp.payload, vec![1, 2]);
    assert_eq!(conn.port.warning_total(), 1);
}

#[test]
fn next_valid_frame_after_bit_flip_still_decodes() {
    let mut corrupted = response_frame(cobot_comms::RESP_ACK, 1, &[8]);
    let last = corrupted.len() - 1;
    corrupted[last] ^= 0x10;
    let mut feed = corrupted;
    feed.extend_from_slice(&response_frame(cobot_comms::RESP_ACK, 2, &[9]));
    let mut conn = connection(feed);
    let resp = conn.wait_for_response(2, 100).unwrap().unwrap();
    assert_eq!(resp.command_id, 2);
    assert_eq!(resp.payload, vec![9]);
    assert_eq!(conn.port.warning_total(), 1);
    assert!(conn.responses.is_empty());
}

#[test]
fn response_for_other_id_is_buffered_and_claimed_later() {
    let mut feed = response_frame(cobot_comms::RESP_DONE, 11, &[42, 43]);
    feed.extend_from_slice(&response_frame(cobot_comms::RESP_ACK, 10, &[]));
    let mut conn = connection(feed);
    let first = conn.wait_for_response(10, 100).unwrap().unwrap();
    assert_eq!(first.command_id, 10);
    assert_eq!(first.response_type, cobot_comms::RESP_ACK);
    assert_eq!(conn.responses.len(), 1);
    let second = conn.wait_for_response(11, 100).unwrap().unwrap();
    assert_eq!(second.command_id, 11);
    assert_eq!(second.response_type, cobot_comms::RESP_DONE);
    assert_eq!(second.payload, vec![42, 43]);
}

#[test]
fn buffered_response_within_window_is_still_returned() {
    let mut conn = connection(response_frame(cobot_comms::RESP_ACK, 7, &[]));
    assert!(conn.wait_for_response(99, 100).unwrap().is_none());
    assert_eq!(conn.responses.len(), 1);
    conn.port.advance_clock(20_000);
    let resp = conn.wait_for_response(7, 100).unwrap().unwrap();
    assert_eq!(resp.command_id, 7);
}

#[test]
fn stale_buffered_response_is_pruned_not_returned() {
    let mut conn = connection(response_frame(cobot_comms::RESP_ACK, 7, &[]));
    assert!(conn.wait_for_response(99, 100).unwrap().is_none());
    assert_eq!(conn.responses.len(), 1);
    conn.port.advance_clock(40_000);
    let r = conn.wait_for_response(7, 100).unwrap();
    assert!(r.is_none());
    assert!(conn.responses.is_empty());
}

#[test]
fn init_sends_firmware_version_and_takes_ack() {
    let mut conn = connection(response_frame(cobot_comms::RESP_ACK, 0, &[]));
    conn.init().unwrap();
    let expected = expected_request_wire(cobot_comms::REQ_INIT, 0, &5u32.to_le_bytes());
    assert_eq!(conn.port.sent_bytes(), &expected);
}

#[test]
fn calibrate_waits_for_ack_then_done() {
    let mut feed = response_frame(cobot_comms::RESP_ACK, 0, &[]);
    feed.extend_from_slice(&response_frame(cobot_comms::RESP_DONE, 0, &[]));
    let mut conn = connection(feed);
    conn.calibrate(0b111111).unwrap();
    let expected = expected_request_wire(cobot_comms::REQ_CALIBRATE, 0, &[0b111111]);
    assert_eq!(conn.port.sent_bytes(), &expected);
}

#[test]
fn calibrate_without_done_times_out() {
    let mut conn = connection(response_frame(cobot_comms::RESP_ACK, 0, &[]));
    let r = conn.calibrate(0b1);
    assert!(matches!(r, Err(CommandError::Timeout)));
}

#[test]
fn move_to_accepts_done_arriving_after_the_short_timeout_window() {
    // The clock gains 60 ms per read: the DONE frame is fully read well
    // after the 100 ms ack budget has passed, but far inside the fixed
    // 60-second completion budget.
    let mut feed = response_frame(cobot_comms::RESP_ACK, 0, &[]);
    feed.extend_from_slice(&response_frame(cobot_comms::RESP_DONE, 0, &[]));
    let mut conn = CobotConnection::new(ScriptedTransport::new(feed, 0, 60), 5, 100);
    conn.move_to(&[(2, 45_000, Some(5_000))]).unwrap();
    assert!(conn.port.clock_now() > 100);
    let mut payload = vec![2u8];
    payload.extend_from_slice(&45_000i32.to_le_bytes());
    payload.extend_from_slice(&5_000i32.to_le_bytes());
    let expected = expected_request_wire(cobot_comms::REQ_MOVE_TO, 0, &payload);
    assert_eq!(conn.port.sent_bytes(), &expected);
}

#[test]
fn move_to_encodes_missing_speed_as_zero() {
    let mut feed = response_frame(cobot_comms::RESP_ACK, 0, &[]);
    feed.extend_from_slice(&response_frame(cobot_comms::RESP_DONE, 0, &[]));
    let mut conn = connection(feed);
    conn.move_to(&[(1, -2500, None)]).unwrap();
    let mut payload = vec![1u8];
    payload.extend_from_slice(&(-2500i32).to_le_bytes());
    payload.extend_from_slice(&0i32.to_le_bytes());
    let expected = expected_request_wire(cobot_comms::REQ_MOVE_TO, 0, &payload);
    assert_eq!(conn.port.sent_bytes(), &expected);
}

#[test]
fn move_speed_waits_for_ack_then_done() {
    let mut feed = response_frame(cobot_comms::RESP_ACK, 0, &[]);
    feed.extend_from_slice(&response_frame(cobot_comms::RESP_DONE, 0, &[]));
    let mut conn = connection(feed);
    conn.move_speed(&[(3, 1500), (4, -800)]).unwrap();
    let mut payload = vec![3u8];
    payload.extend_from_slice(&1500i32.to_le_bytes());
    payload.push(4);
    payload.extend_from_slice(&(-800i32).to_le_bytes());
    let expected = expected_request_wire(cobot_comms::REQ_MOVE_SPEED, 0, &payload);
    assert_eq!(conn.port.sent_bytes(), &expected);
}

#[test]
fn get_joints_decodes_reported_joints() {
    let mut payload = vec![2u8];
    payload.extend_from_slice(&1000i32.to_le_bytes());
    payload.extend_from_slice(&0i32.to_le_bytes());
    payload.extend_from_slice(&(-2500i32).to_le_bytes());
    payload.extend_from_slice(&500i32.to_le_bytes());
    let mut conn = connection(response_frame(cobot_comms::RESP_JOINTS, 0, &payload));
    let joints = conn.get_joints().unwrap();
    assert_eq!(joints, vec![(1000, 0), (-2500, 500)]);
    let degrees: Vec<(f32, f32)> =
        joints.iter().map(|&(a, s)| (a as f32 / 1000.0, s as f32 / 1000.0)).collect();
    assert_eq!(degrees, vec![(1.0, 0.0), (-2.5, 0.5)]);
    let expected = expected_request_wire(cobot_comms::REQ_GET_JOINTS, 0, &[]);
    assert_eq!(conn.port.sent_bytes(), &expected);
}

#[test]
fn get_joints_surfaces_device_error() {
    let mut payload = vec![4u8, 7u8];
    payload.extend_from_slice(b"no init");
    let mut conn = connection(response_frame(cobot_comms::RESP_ERROR, 0, &payload));
    let r = conn.get_joints();
    match r {
        Err(CommandError::Device(e)) => {
            assert_eq!(e.code, 4);
            assert_eq!(e.message, "no init");
        },
        other => panic!("expected a device error, got {:?}", other),
    }
}

#[test]
fn error_response_to_ack_wait_surfaces_device_error() {
    let mut payload = vec![4u8, 7u8];
    payload.extend_from_slice(b"no init");
    let mut feed = response_frame(cobot_comms::RESP_ERROR, 0, &payload);
    let mut conn = connection(feed.drain(..).collect());
    let id = conn.send_request(cobot_comms::REQ_INIT, &[5, 0, 0, 0]).unwrap();
    let r = conn.wait_for_ack(id);
    match r {
        Err(CommandError::Device(e)) => {
            assert_eq!(e.code, 4);
            assert_eq!(e.message, "no init");
        },
        other => panic!("expected a device error, got {:?}", other),
    }
}

#[test]
fn unexpected_response_kind_is_a_protocol_violation() {
    let mut conn = connection(response_frame(cobot_comms::RESP_DONE, 0, &[]));
    let id = conn.send_request(cobot_comms::REQ_INIT, &[5, 0, 0, 0]).unwrap();
    let r = conn.wait_for_ack(id);
    assert!(matches!(r, Err(CommandError::Protocol)));
}

#[test]
fn stop_sends_immediate_flag_and_bitfield() {
    let mut feed = response_frame(cobot_comms::RESP_ACK, 0, &[]);
    feed.extend_from_slice(&response_frame(cobot_comms::RESP_DONE, 0, &[]));
    let mut conn = connection(feed);
    conn.stop(0b10, false).unwrap();
    let expected = expected_request_wire(cobot_comms::REQ_STOP, 0, &[0, 0b10]);
    assert_eq!(conn.port.sent_bytes(), &expected);
}

#[test]
fn stop_immediately_sets_flag() {
    let mut feed = response_frame(cobot_comms::RESP_ACK, 0, &[]);
    feed.extend_from_slice(&response_frame(cobot_comms::RESP_DONE, 0, &[]));
    let mut conn = connection(feed);
    conn.stop(0b101, true).unwrap();
    let expected = expected_request_wire(cobot_comms::REQ_STOP, 0, &[1, 0b101]);
    assert_eq!(conn.port.sent_bytes(), &expected);
}

#[test]
fn go_home_reset_and_settings_follow_ack_done_pattern() {
    let mut feed = Vec::new();
    for id in 0..4u32 {
        feed.extend_from_slice(&response_frame(cobot_comms::RESP_ACK, id, &[]));
        feed.extend_from_slice(&response_frame(cobot_comms::RESP_DONE, id, &[]));
    }
    let mut conn = connection(feed);
    conn.go_home(0b111).unwrap();
    conn.reset().unwrap();
    conn.set_log_level(2).unwrap();
    conn.set_feedback(0b11).unwrap();
    let mut expected = expected_request_wire(cobot_comms::REQ_GO_HOME, 0, &[0b111]);
    expected.extend_from_slice(&expected_request_wire(cobot_comms::REQ_RESET, 1, &[]));
    expected.extend_from_slice(&expected_request_wire(cobot_comms::REQ_SET_LOG_LEVEL, 2, &[2]));
    expected.extend_from_slice(&expected_request_wire(cobot_comms::REQ_SET_FEEDBACK, 3, &[0b11]));
    assert_eq!(conn.port.sent_bytes(), &expected);
    assert_eq!(conn.next_command_id, 4);
}

#[test]
fn device_log_lines_are_forwarded_with_their_level() {
    let mut feed = log_frame(cobot_comms::LOG_INFO, b"hello");
    feed.extend_from_slice(&log_frame(cobot_comms::LOG_ERROR, b"bad"));
    feed.extend_from_slice(&response_frame(cobot_comms::RESP_ACK, 0, &[]));
    let mut conn = connection(feed);
    assert!(conn.wait_for_response(0, 100).unwrap().is_some());
    let logs = conn.port.recorded_logs();
    assert_eq!(logs.len(), 2);
    assert_eq!(logs[0].0, cobot_comms::LOG_INFO);
    assert_eq!(logs[0].1, "hello");
    assert_eq!(logs[1].0, cobot_comms::LOG_ERROR);
    assert_eq!(logs[1].1, "bad");
    assert_eq!(conn.port.warning_total(), 0);
}

#[test]
fn suppressed_log_lines_are_dropped_silently() {
    let mut feed = log_frame(cobot_comms::LOG_NONE, b"quiet");
    feed.extend_from_slice(&response_frame(cobot_comms::RESP_ACK, 0, &[]));
    let mut conn = connection(feed);
    assert!(conn.wait_for_response(0, 100).unwrap().is_some());
    assert!(conn.port.recorded_logs().is_empty());
    assert_eq!(conn.port.warning_total(), 0);
}

#[test]
fn unrecognized_log_level_is_dropped_with_warning() {
    let mut feed = log_frame(7, b"odd");
    feed.extend_from_slice(&response_frame(cobot_comms::RESP_ACK, 0, &[]));
    let mut conn = connection(feed);
    assert!(conn.wait_for_response(0, 100).unwrap().is_some());
    assert!(conn.port.recorded_logs().is_empty());
    assert_eq!(conn.port.warning_total(), 1);
}

#[test]
fn unrecognized_discriminator_is_dropped_with_warning() {
    let mut feed = encode(&[0x02u8, 1, 2, 3]);
    feed.extend_from_slice(&response_frame(cobot_comms::RESP_ACK, 0, &[]));
    let mut conn = connection(feed);
    assert!(conn.wait_for_response(0, 100).unwrap().is_some());
    assert_eq!(conn.port.warning_total(), 1);
}

#[test]
fn command_ids_allocate_monotonically() {
    let mut conn = connection(Vec::new());
    for expected in 0..5u32 {
        let id = conn.send_request(cobot_comms::REQ_GET_JOINTS, &[]).unwrap();
        assert_eq!(id, expected);
    }
    assert_eq!(conn.next_command_id, 5);
}

#[test]
fn duplicate_ids_are_claimed_in_buffer_order() {
    let mut conn = connection(Vec::new());
    conn.responses.push((
        Response { command_id: 7, response_type: cobot_comms::RESP_ACK, payload: vec![1] },
        0,
    ));
    conn.responses.push((
        Response { command_id: 7, response_type: cobot_comms::RESP_DONE, payload: vec![2] },
        0,
    ));
    let first = conn.wait_from(7, 100, 0).unwrap().unwrap();
    assert_eq!(first.payload, vec![1]);
    assert_eq!(conn.responses.len(), 1);
    let second = conn.wait_from(7, 100, 0).unwrap().unwrap();
    assert_eq!(second.payload, vec![2]);
}

#[test]
fn retention_window_boundary_is_exclusive() {
    let mut conn = connection(Vec::new());
    conn.responses.push((
        Response { command_id: 3, response_type: cobot_comms::RESP_ACK, payload: Vec::new() },
        1000,
    ));
    // A wait starting exactly at receipt + 30 000 ms no longer sees the entry...
    let r = conn.wait_from(3, 10, 31_000).unwrap();
    assert!(r.is_none());
    assert!(conn.responses.is_empty());
    // ...one starting a millisecond earlier still does.
    conn.responses.push((
        Response { command_id: 3, response_type: cobot_comms::RESP_ACK, payload: Vec::new() },
        1000,
    ));
    let r = conn.wait_from(3, 10, 30_999).unwrap();
    assert!(r.is_some());
}
