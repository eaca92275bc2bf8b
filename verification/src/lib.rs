pub mod checksum;
pub mod codec;
pub mod commands;
pub mod engine;
pub mod transport;
pub mod types;

use vstd::prelude::*;

// Implementors of the transport capability outside this crate need to name
// the type of its specification-level byte streams.
pub use vstd::seq::Seq;

verus! {

/// Start-of-frame marker for every wire-level transmission unit.
pub const START_MARKER: u8 = 0x24;

/// Inbound body discriminator: a device log line.
pub const MSG_LOG: u8 = 0x00;

/// Inbound body discriminator: a command response.
pub const MSG_RESPONSE: u8 = 0x01;

/// Response kind: the device accepted the request for processing.
pub const RESP_ACK: u8 = 0x00;

/// Response kind: a long-running operation has physically completed.
pub const RESP_DONE: u8 = 0x01;

/// Response kind: the device reports an error for the request.
pub const RESP_ERROR: u8 = 0x02;

/// Response kind: the device reports its joint states.
pub const RESP_JOINTS: u8 = 0x03;

/// Request kind: initialize against an expected firmware version.
pub const REQ_INIT: u8 = 0x00;

/// Request kind: calibrate a bitfield of joints.
pub const REQ_CALIBRATE: u8 = 0x01;

/// Request kind: override a joint angle (reserved, unused by the commands).
pub const REQ_OVERRIDE: u8 = 0x02;

/// Request kind: report joint angles and speeds.
pub const REQ_GET_JOINTS: u8 = 0x03;

/// Request kind: move joints to angles at speeds.
pub const REQ_MOVE_TO: u8 = 0x04;

/// Request kind: move joints at speeds.
pub const REQ_MOVE_SPEED: u8 = 0x05;

/// Request kind: follow a trajectory (reserved, unused by the commands).
pub const REQ_FOLLOW_TRAJECTORY: u8 = 0x06;

/// Request kind: stop a bitfield of joints, smoothly or immediately.
pub const REQ_STOP: u8 = 0x07;

/// Request kind: home a bitfield of joints.
pub const REQ_GO_HOME: u8 = 0x08;

/// Request kind: reset the device.
pub const REQ_RESET: u8 = 0x09;

/// Request kind: set the device's log level.
pub const REQ_SET_LOG_LEVEL: u8 = 0x0A;

/// Request kind: enable or disable feedback for a bitfield of joints.
pub const REQ_SET_FEEDBACK: u8 = 0x0B;

/// Device log level: debug.
pub const LOG_DEBUG: u8 = 0x00;

/// Device log level: info.
pub const LOG_INFO: u8 = 0x01;

/// Device log level: warning.
pub const LOG_WARN: u8 = 0x02;

/// Device log level: error.
pub const LOG_ERROR: u8 = 0x03;

/// Device log level: suppressed; such lines are dropped, not forwarded.
pub const LOG_NONE: u8 = 0x04;

} // verus!
