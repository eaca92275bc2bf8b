//! The typed command operations: each encodes its payload, sends one
//! request, and waits according to its fixed pattern — ACK only, ACK then
//! DONE, or a single wait for a JOINTS answer.
use vstd::prelude::*;
use crate::codec::{encode_spec, i32_as_u32, i32_to_u32, le32_bytes, push_u32_le, request_body_spec};
use crate::engine::{CobotConnection, DONE_TIMEOUT_MS, resolve_expected, resolve_joints};
use crate::transport::Transport;
use crate::types::CommandError;

verus! {

/// The speed actually encoded for a joint: zero stands for "use the
/// device's default speed".
pub open spec fn speed_or_zero(s: Option<i32>) -> i32 {
    match s {
        Some(v) => v,
        None => 0,
    }
}

/// The move-to request payload: per joint, its id, then its target angle
/// and speed in milli-degrees as little-endian two's-complement fields.
pub open spec fn move_to_payload_spec(joints: Seq<(u8, i32, Option<i32>)>) -> Seq<u8>
    decreases joints.len(),
{
    if joints.len() == 0 {
        Seq::empty()
    } else {
        seq![joints[0].0] + le32_bytes(i32_as_u32(joints[0].1)) + le32_bytes(
            i32_as_u32(speed_or_zero(joints[0].2)),
        ) + move_to_payload_spec(joints.skip(1))
    }
}

pub proof fn lemma_move_to_payload_len(joints: Seq<(u8, i32, Option<i32>)>)
    ensures
        move_to_payload_spec(joints).len() == 9 * joints.len(),
    decreases joints.len(),
{
    if joints.len() > 0 {
        lemma_move_to_payload_len(joints.skip(1));
    }
}

/// Builds the move-to request payload.
#[verifier::loop_isolation(false)]
pub fn build_move_to_payload(joints: &[(u8, i32, Option<i32>)]) -> (r: Vec<u8>)
    ensures
        r@ == move_to_payload_spec(joints@),
{
    let mut out: Vec<u8> = Vec::new();
    let mut i: usize = 0;
    proof {
        assert(joints@.skip(0) =~= joints@);
    }
    while i < joints.len()
        invariant
            0 <= i <= joints@.len(),
            out@ + move_to_payload_spec(joints@.skip(i as int)) == move_to_payload_spec(joints@),
        decreases joints@.len() - i,
    {
        let ghost pre = out@;
        let (id, angle, speed) = joints[i];
        out.push(id);
        push_u32_le(&mut out, i32_to_u32(angle));
        let sp = match speed {
            Some(v) => v,
            None => 0,
        };
        push_u32_le(&mut out, i32_to_u32(sp));
        proof {
            assert(joints@.skip(i as int)[0] == joints@[i as int]);
            assert(joints@.skip(i as int).skip(1) =~= joints@.skip(i + 1));
            let chunk = seq![joints@[i as int].0] + le32_bytes(i32_as_u32(joints@[i as int].1))
                + le32_bytes(i32_as_u32(speed_or_zero(joints@[i as int].2)));
            assert(out@ =~= pre + chunk);
            assert((pre + chunk) + move_to_payload_spec(joints@.skip(i + 1)) =~= pre + (chunk
                + move_to_payload_spec(joints@.skip(i + 1))));
        }
        i = i + 1;
    }
    proof {
        assert(joints@.skip(joints@.len() as int) =~= Seq::<(u8, i32, Option<i32>)>::empty());
        assert(out@ + Seq::<u8>::empty() =~= out@);
    }
    out
}

/// The move-speed request payload: per joint, its id, then its speed in
/// milli-degrees per second as a little-endian two's-complement field.
pub open spec fn move_speed_payload_spec(joints: Seq<(u8, i32)>) -> Seq<u8>
    decreases joints.len(),
{
    if joints.len() == 0 {
        Seq::empty()
    } else {
        seq![joints[0].0] + le32_bytes(i32_as_u32(joints[0].1)) + move_speed_payload_spec(
            joints.skip(1),
        )
    }
}

pub proof fn lemma_move_speed_payload_len(joints: Seq<(u8, i32)>)
    ensures
        move_speed_payload_spec(joints).len() == 5 * joints.len(),
    decreases joints.len(),
{
    if joints.len() > 0 {
        lemma_move_speed_payload_len(joints.skip(1));
    }
}

/// Builds the move-speed request payload.
#[verifier::loop_isolation(false)]
pub fn build_move_speed_payload(joints: &[(u8, i32)]) -> (r: Vec<u8>)
    ensures
        r@ == move_speed_payload_spec(joints@),
{
    let mut out: Vec<u8> = Vec::new();
    let mut i: usize = 0;
    proof {
        assert(joints@.skip(0) =~= joints@);
    }
    while i < joints.len()
        invariant
            0 <= i <= joints@.len(),
            out@ + move_speed_payload_spec(joints@.skip(i as int)) == move_speed_payload_spec(
                joints@,
            ),
        decreases joints@.len() - i,
    {
        let ghost pre = out@;
        let (id, speed) = joints[i];
        out.push(id);
        push_u32_le(&mut out, i32_to_u32(speed));
        proof {
            assert(joints@.skip(i as int)[0] == joints@[i as int]);
            assert(joints@.skip(i as int).skip(1) =~= joints@.skip(i + 1));
            let chunk = seq![joints@[i as int].0] + le32_bytes(i32_as_u32(joints@[i as int].1));
            assert(out@ =~= pre + chunk);
            assert((pre + chunk) + move_speed_payload_spec(joints@.skip(i + 1)) =~= pre + (chunk
                + move_speed_payload_spec(joints@.skip(i + 1))));
        }
        i = i + 1;
    }
    proof {
        assert(joints@.skip(joints@.len() as int) =~= Seq::<(u8, i32)>::empty());
        assert(out@ + Seq::<u8>::empty() =~= out@);
    }
    out
}

impl<T: Transport> CobotConnection<T> {
    /// Waits for the device to acknowledge `command_id`, using the
    /// configured default timeout; an ERROR response surfaces as the
    /// device-reported error, a response of any other kind as a protocol
    /// violation, and silence as a timeout.
    pub fn wait_for_ack(&mut self, command_id: u32) -> (r: Result<(), CommandError>)
        ensures
            final(self).firmware_version == old(self).firmware_version,
            final(self).next_command_id == old(self).next_command_id,
            final(self).timeout_ms == old(self).timeout_ms,
            final(self).port.sent() == old(self).port.sent(),
    {
        let t = self.timeout_ms;
        let w = match self.wait_for_response(command_id, t) {
            Ok(w) => w,
            Err(e) => {
                return Err(e);
            },
        };
        resolve_expected(w, crate::RESP_ACK)
    }

    /// Waits for the device to report completion of `command_id`, using the
    /// fixed long timeout — physical motions may take far longer than the
    /// initial acknowledgment.
    pub fn wait_for_done(&mut self, command_id: u32) -> (r: Result<(), CommandError>)
        ensures
            final(self).firmware_version == old(self).firmware_version,
            final(self).next_command_id == old(self).next_command_id,
            final(self).timeout_ms == old(self).timeout_ms,
            final(self).port.sent() == old(self).port.sent(),
    {
        let w = match self.wait_for_response(command_id, DONE_TIMEOUT_MS) {
            Ok(w) => w,
            Err(e) => {
                return Err(e);
            },
        };
        resolve_expected(w, crate::RESP_DONE)
    }

    /// Initializes the device against the expected firmware version and
    /// waits for its acknowledgment.
    pub fn init(&mut self) -> (r: Result<(), CommandError>)
        requires
            old(self).next_command_id < u32::MAX,
        ensures
            final(self).next_command_id == old(self).next_command_id + 1,
            final(self).firmware_version == old(self).firmware_version,
            final(self).timeout_ms == old(self).timeout_ms,
            (!(r matches Err(CommandError::Transport)) ==> final(self).port.sent() == old(
                self,
            ).port.sent() + encode_spec(
                request_body_spec(
                    crate::REQ_INIT,
                    old(self).next_command_id,
                    le32_bytes(old(self).firmware_version),
                ),
            )),
    {
        let fw = self.firmware_version;
        let mut payload: Vec<u8> = Vec::new();
        push_u32_le(&mut payload, fw);
        proof {
            assert(payload@ =~= le32_bytes(fw));
        }
        let id = match self.send_request(crate::REQ_INIT, payload.as_slice()) {
            Ok(id) => id,
            Err(e) => {
                return Err(e);
            },
        };
        self.wait_for_ack(id)
    }

    /// Calibrates the selected joints: waits for the acknowledgment, then
    /// for physical completion.
    pub fn calibrate(&mut self, joints: u8) -> (r: Result<(), CommandError>)
        requires
            old(self).next_command_id < u32::MAX,
        ensures
            final(self).next_command_id == old(self).next_command_id + 1,
            final(self).firmware_version == old(self).firmware_version,
            final(self).timeout_ms == old(self).timeout_ms,
            (!(r matches Err(CommandError::Transport)) ==> final(self).port.sent() == old(
                self,
            ).port.sent() + encode_spec(
                request_body_spec(crate::REQ_CALIBRATE, old(self).next_command_id, seq![joints]),
            )),
    {
        let mut payload: Vec<u8> = Vec::new();
        payload.push(joints);
        proof {
            assert(payload@ =~= seq![joints]);
        }
        let id = match self.send_request(crate::REQ_CALIBRATE, payload.as_slice()) {
            Ok(id) => id,
            Err(e) => {
                return Err(e);
            },
        };
        match self.wait_for_ack(id) {
            Ok(()) => {
            },
            Err(e) => {
                return Err(e);
            },
        }
        self.wait_for_done(id)
    }

    /// Reads the joint states: a single wait with the configured timeout
    /// expecting JOINTS or ERROR directly — no separate acknowledgment.
    /// Angles and speeds come back in milli-degrees and milli-degrees per
    /// second.
    pub fn get_joints(&mut self) -> (r: Result<Vec<(i32, i32)>, CommandError>)
        requires
            old(self).next_command_id < u32::MAX,
        ensures
            final(self).next_command_id == old(self).next_command_id + 1,
            final(self).firmware_version == old(self).firmware_version,
            final(self).timeout_ms == old(self).timeout_ms,
            (!(r matches Err(CommandError::Transport)) ==> final(self).port.sent() == old(
                self,
            ).port.sent() + encode_spec(
                request_body_spec(
                    crate::REQ_GET_JOINTS,
                    old(self).next_command_id,
                    Seq::<u8>::empty(),
                ),
            )),
    {
        let payload: Vec<u8> = Vec::new();
        let id = match self.send_request(crate::REQ_GET_JOINTS, payload.as_slice()) {
            Ok(id) => id,
            Err(e) => {
                return Err(e);
            },
        };
        let t = self.timeout_ms;
        let w = match self.wait_for_response(id, t) {
            Ok(w) => w,
            Err(e) => {
                return Err(e);
            },
        };
        resolve_joints(w)
    }

    /// Moves the given joints to the given angles at the given speeds, all
    /// in milli-degrees; an unspecified speed asks for the device's default.
    /// Waits for the acknowledgment, then for physical completion.
    pub fn move_to(&mut self, joints: &[(u8, i32, Option<i32>)]) -> (r: Result<(), CommandError>)
        requires
            old(self).next_command_id < u32::MAX,
            9 * joints@.len() + 5 <= 255,
        ensures
            final(self).next_command_id == old(self).next_command_id + 1,
            final(self).firmware_version == old(self).firmware_version,
            final(self).timeout_ms == old(self).timeout_ms,
            (!(r matches Err(CommandError::Transport)) ==> final(self).port.sent() == old(
                self,
            ).port.sent() + encode_spec(
                request_body_spec(
                    crate::REQ_MOVE_TO,
                    old(self).next_command_id,
                    move_to_payload_spec(joints@),
                ),
            )),
    {
        let payload = build_move_to_payload(joints);
        proof {
            lemma_move_to_payload_len(joints@);
        }
        let id = match self.send_request(crate::REQ_MOVE_TO, payload.as_slice()) {
            Ok(id) => id,
            Err(e) => {
                return Err(e);
            },
        };
        match self.wait_for_ack(id) {
            Ok(()) => {
            },
            Err(e) => {
                return Err(e);
            },
        }
        self.wait_for_done(id)
    }

    /// Moves the given joints at the given speeds in milli-degrees per
    /// second. Waits for the acknowledgment, then for physical completion.
    pub fn move_speed(&mut self, joints: &[(u8, i32)]) -> (r: Result<(), CommandError>)
        requires
            old(self).next_command_id < u32::MAX,
            5 * joints@.len() + 5 <= 255,
        ensures
            final(self).next_command_id == old(self).next_command_id + 1,
            final(self).firmware_version == old(self).firmware_version,
            final(self).timeout_ms == old(self).timeout_ms,
            (!(r matches Err(CommandError::Transport)) ==> final(self).port.sent() == old(
                self,
            ).port.sent() + encode_spec(
                request_body_spec(
                    crate::REQ_MOVE_SPEED,
                    old(self).next_command_id,
                    move_speed_payload_spec(joints@),
                ),
            )),
    {
        let payload = build_move_speed_payload(joints);
        proof {
            lemma_move_speed_payload_len(joints@);
        }
        let id = match self.send_request(crate::REQ_MOVE_SPEED, payload.as_slice()) {
            Ok(id) => id,
            Err(e) => {
                return Err(e);
            },
        };
        match self.wait_for_ack(id) {
            Ok(()) => {
            },
            Err(e) => {
                return Err(e);
            },
        }
        self.wait_for_done(id)
    }

    /// Stops the selected joints, immediately or by decelerating. Waits for
    /// the acknowledgment, then for physical completion.
    pub fn stop(&mut self, joints: u8, immediately: bool) -> (r: Result<(), CommandError>)
        requires
            old(self).next_command_id < u32::MAX,
        ensures
            final(self).next_command_id == old(self).next_command_id + 1,
            final(self).firmware_version == old(self).firmware_version,
            final(self).timeout_ms == old(self).timeout_ms,
            (!(r matches Err(CommandError::Transport)) ==> final(self).port.sent() == old(
                self,
            ).port.sent() + encode_spec(
                request_body_spec(
                    crate::REQ_STOP,
                    old(self).next_command_id,
                    seq![if immediately { 1u8 } else { 0u8 }, joints],
                ),
            )),
    {
        let mut payload: Vec<u8> = Vec::new();
        payload.push(if immediately {
            1
        } else {
            0
        });
        payload.push(joints);
        proof {
            assert(payload@ =~= seq![if immediately { 1u8 } else { 0u8 }, joints]);
        }
        let id = match self.send_request(crate::REQ_STOP, payload.as_slice()) {
            Ok(id) => id,
            Err(e) => {
                return Err(e);
            },
        };
        match self.wait_for_ack(id) {
            Ok(()) => {
            },
            Err(e) => {
                return Err(e);
            },
        }
        self.wait_for_done(id)
    }

    /// Homes the selected joints. Waits for the acknowledgment, then for
    /// physical completion.
    pub fn go_home(&mut self, joints: u8) -> (r: Result<(), CommandError>)
        requires
            old(self).next_command_id < u32::MAX,
        ensures
            final(self).next_command_id == old(self).next_command_id + 1,
            final(self).firmware_version == old(self).firmware_version,
            final(self).timeout_ms == old(self).timeout_ms,
            (!(r matches Err(CommandError::Transport)) ==> final(self).port.sent() == old(
                self,
            ).port.sent() + encode_spec(
                request_body_spec(crate::REQ_GO_HOME, old(self).next_command_id, seq![joints]),
            )),
    {
        let mut payload: Vec<u8> = Vec::new();
        payload.push(joints);
        proof {
            assert(payload@ =~= seq![joints]);
        }
        let id = match self.send_request(crate::REQ_GO_HOME, payload.as_slice()) {
            Ok(id) => id,
            Err(e) => {
                return Err(e);
            },
        };
        match self.wait_for_ack(id) {
            Ok(()) => {
            },
            Err(e) => {
                return Err(e);
            },
        }
        self.wait_for_done(id)
    }

    /// Resets the device. Waits for the acknowledgment, then for
    /// completion.
    pub fn reset(&mut self) -> (r: Result<(), CommandError>)
        requires
            old(self).next_command_id < u32::MAX,
        ensures
            final(self).next_command_id == old(self).next_command_id + 1,
            final(self).firmware_version == old(self).firmware_version,
            final(self).timeout_ms == old(self).timeout_ms,
            (!(r matches Err(CommandError::Transport)) ==> final(self).port.sent() == old(
                self,
            ).port.sent() + encode_spec(
                request_body_spec(crate::REQ_RESET, old(self).next_command_id, Seq::<u8>::empty()),
            )),
    {
        let payload: Vec<u8> = Vec::new();
        let id = match self.send_request(crate::REQ_RESET, payload.as_slice()) {
            Ok(id) => id,
            Err(e) => {
                return Err(e);
            },
        };
        match self.wait_for_ack(id) {
            Ok(()) => {
            },
            Err(e) => {
                return Err(e);
            },
        }
        self.wait_for_done(id)
    }

    /// Sets the device's log level. Waits for the acknowledgment, then for
    /// completion.
    pub fn set_log_level(&mut self, log_level: u8) -> (r: Result<(), CommandError>)
        requires
            old(self).next_command_id < u32::MAX,
        ensures
            final(self).next_command_id == old(self).next_command_id + 1,
            final(self).firmware_version == old(self).firmware_version,
            final(self).timeout_ms == old(self).timeout_ms,
            (!(r matches Err(CommandError::Transport)) ==> final(self).port.sent() == old(
                self,
            ).port.sent() + encode_spec(
                request_body_spec(
                    crate::REQ_SET_LOG_LEVEL,
                    old(self).next_command_id,
                    seq![log_level],
                ),
            )),
    {
        let mut payload: Vec<u8> = Vec::new();
        payload.push(log_level);
        proof {
            assert(payload@ =~= seq![log_level]);
        }
        let id = match self.send_request(crate::REQ_SET_LOG_LEVEL, payload.as_slice()) {
            Ok(id) => id,
            Err(e) => {
                return Err(e);
            },
        };
        match self.wait_for_ack(id) {
            Ok(()) => {
            },
            Err(e) => {
                return Err(e);
            },
        }
        self.wait_for_done(id)
    }

    /// Enables or disables feedback for the selected joints. Waits for the
    /// acknowledgment, then for completion.
    pub fn set_feedback(&mut self, joints: u8) -> (r: Result<(), CommandError>)
        requires
            old(self).next_command_id < u32::MAX,
        ensures
            final(self).next_command_id == old(self).next_command_id + 1,
            final(self).firmware_version == old(self).firmware_version,
            final(self).timeout_ms == old(self).timeout_ms,
            (!(r matches Err(CommandError::Transport)) ==> final(self).port.sent() == old(
                self,
            ).port.sent() + encode_spec(
                request_body_spec(crate::REQ_SET_FEEDBACK, old(self).next_command_id, seq![joints]),
            )),
    {
        let mut payload: Vec<u8> = Vec::new();
        payload.push(joints);
        proof {
            assert(payload@ =~= seq![joints]);
        }
        let id = match self.send_request(crate::REQ_SET_FEEDBACK, payload.as_slice()) {
            Ok(id) => id,
            Err(e) => {
                return Err(e);
            },
        };
        match self.wait_for_ack(id) {
            Ok(()) => {
            },
            Err(e) => {
                return Err(e);
            },
        }
        self.wait_for_done(id)
    }
}

} // verus!
