//! Message and error values that cross the protocol engine's boundary.
use vstd::prelude::*;

verus! {

/// A response received from the device: the command it answers, its kind
/// (ACK, DONE, ERROR or JOINTS), and the kind-specific payload bytes.
#[derive(Clone, Debug)]
pub struct Response {
    /// Command id of the request that this response answers.
    pub command_id: u32,
    /// Response kind tag.
    pub response_type: u8,
    /// Kind-specific payload bytes.
    pub payload: Vec<u8>,
}

/// An error reported by the device: a numeric cause code and free text.
#[derive(Clone, Debug)]
pub struct CobotError {
    /// Error code, indexing the fixed table of named causes.
    pub code: u8,
    /// Free-text message sent by the device.
    pub message: String,
}

/// A failure of one protocol operation, by cause.
#[derive(Debug)]
pub enum CommandError {
    /// The device answered with an ERROR response.
    Device(CobotError),
    /// A response of an unexpected kind or shape arrived for the awaited id.
    Protocol,
    /// No matching response arrived within the allotted time.
    Timeout,
    /// The byte link itself failed (an I/O fault other than a timeout).
    Transport,
}

/// The name of each device error cause, by code.
pub open spec fn error_code_name_spec(code: u8) -> Seq<char> {
    if code == 0 {
        "Other"@
    } else if code == 1 {
        "Malformed request"@
    } else if code == 2 {
        "Out of range"@
    } else if code == 3 {
        "Invalid joint"@
    } else if code == 4 {
        "Not initialized"@
    } else if code == 5 {
        "Not calibrated"@
    } else if code == 6 {
        "Cancelled"@
    } else if code == 7 {
        "Invalid firmware version"@
    } else {
        "Unknown error"@
    }
}

/// Renders a device error code as its named cause; any code outside the
/// table of eight named causes renders as unknown.
pub fn error_code_name(code: u8) -> (r: &'static str)
    ensures
        r@ == error_code_name_spec(code),
{
    if code == 0 {
        "Other"
    } else if code == 1 {
        "Malformed request"
    } else if code == 2 {
        "Out of range"
    } else if code == 3 {
        "Invalid joint"
    } else if code == 4 {
        "Not initialized"
    } else if code == 5 {
        "Not calibrated"
    } else if code == 6 {
        "Cancelled"
    } else if code == 7 {
        "Invalid firmware version"
    } else {
        "Unknown error"
    }
}

/// What `String::from_utf8_lossy` returns for the given bytes: the result
/// depends on the bytes alone.
pub uninterp spec fn utf8_lossy_of(b: Seq<u8>) -> Seq<char>;

/// Relies on `String::from_utf8_lossy`: decodes bytes as UTF-8, replacing
/// invalid sequences; the result is a function of the bytes alone.
#[verifier::external_body]
pub fn bytes_to_text(b: &[u8]) -> (r: String)
    ensures
        r@ == utf8_lossy_of(b@),
{
    String::from_utf8_lossy(b).to_string()
}

} // verus!
