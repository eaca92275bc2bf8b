//! Frame codec: the wire-level frame (start marker, length, checksum,
//! body), little-endian integer fields, and the direction-dependent body
//! layouts that the higher layers interpret.
use vstd::prelude::*;
use crate::checksum::{crc8, crc8_check, crc8_spec};
use crate::types::Response;
use crate::START_MARKER;

verus! {

// ------------------------------------------------------------------
// Little-endian 32-bit fields
// ------------------------------------------------------------------

/// The value carried by four little-endian bytes.
pub open spec fn le32_val(b0: u8, b1: u8, b2: u8, b3: u8) -> u32 {
    (b0 as u32) | ((b1 as u32) << 8) | ((b2 as u32) << 16) | ((b3 as u32) << 24)
}

/// The four little-endian bytes of a 32-bit value.
pub open spec fn le32_bytes(x: u32) -> Seq<u8> {
    seq![
        (x & 0xff) as u8,
        ((x >> 8) & 0xff) as u8,
        ((x >> 16) & 0xff) as u8,
        ((x >> 24) & 0xff) as u8,
    ]
}

pub proof fn lemma_le32_round_trip(x: u32)
    ensures
        le32_val(
            (x & 0xff) as u8,
            ((x >> 8) & 0xff) as u8,
            ((x >> 16) & 0xff) as u8,
            ((x >> 24) & 0xff) as u8,
        ) == x,
{
    assert(((x & 0xff) as u8 as u32) | ((((x >> 8) & 0xff) as u8 as u32) << 8)
        | ((((x >> 16) & 0xff) as u8 as u32) << 16) | ((((x >> 24) & 0xff) as u8 as u32) << 24)
        == x) by (bit_vector);
}

/// Reads a 32-bit value from four little-endian bytes.
pub fn u32_from_le(b0: u8, b1: u8, b2: u8, b3: u8) -> (r: u32)
    ensures
        r == le32_val(b0, b1, b2, b3),
{
    (b0 as u32) | ((b1 as u32) << 8) | ((b2 as u32) << 16) | ((b3 as u32) << 24)
}

/// Appends the four little-endian bytes of `x` to `out`.
pub fn push_u32_le(out: &mut Vec<u8>, x: u32)
    ensures
        final(out)@ == old(out)@ + le32_bytes(x),
{
    proof {
        assert(x & 0xff < 256 && (x >> 8) & 0xff < 256 && (x >> 16) & 0xff < 256 && (x >> 24)
            & 0xff < 256) by (bit_vector);
    }
    out.push((x & 0xff) as u8);
    out.push(((x >> 8) & 0xff) as u8);
    out.push(((x >> 16) & 0xff) as u8);
    out.push(((x >> 24) & 0xff) as u8);
    proof {
        assert(final(out)@ =~= old(out)@ + le32_bytes(x));
    }
}

/// The unsigned 32-bit wire representation of a signed value (two's
/// complement).
pub open spec fn i32_as_u32(v: i32) -> u32 {
    if v >= 0 {
        v as u32
    } else {
        (v + 0x1_0000_0000) as u32
    }
}

/// The signed value carried by an unsigned 32-bit wire field (two's
/// complement).
pub open spec fn u32_as_i32(u: u32) -> i32 {
    if u < 0x8000_0000 {
        u as i32
    } else {
        (u - 0x1_0000_0000) as i32
    }
}

pub proof fn lemma_i32_round_trip(v: i32)
    ensures
        u32_as_i32(i32_as_u32(v)) == v,
{
}

/// Converts a signed value to its unsigned wire representation.
pub fn i32_to_u32(v: i32) -> (r: u32)
    ensures
        r == i32_as_u32(v),
{
    if v >= 0 {
        v as u32
    } else {
        ((v as i64) + 0x1_0000_0000i64) as u32
    }
}

/// Converts an unsigned wire field back to the signed value it carries.
pub fn u32_to_i32(u: u32) -> (r: i32)
    ensures
        r == u32_as_i32(u),
{
    if u < 0x8000_0000 {
        u as i32
    } else {
        ((u as i64) - 0x1_0000_0000i64) as i32
    }
}

// ------------------------------------------------------------------
// Frame encode / decode
// ------------------------------------------------------------------

/// The wire bytes of a frame carrying `body`: start marker, one length
/// byte, one checksum byte, then the body.
pub open spec fn encode_spec(body: Seq<u8>) -> Seq<u8>
    recommends
        body.len() <= 255,
{
    seq![START_MARKER, body.len() as u8, crc8_spec(body)] + body
}

/// Encodes `body` as one wire frame.
#[verifier::loop_isolation(false)]
pub fn encode(body: &[u8]) -> (r: Vec<u8>)
    requires
        body@.len() <= 255,
    ensures
        r@ == encode_spec(body@),
{
    let crc = crc8(body);
    let mut out: Vec<u8> = Vec::new();
    out.push(START_MARKER);
    out.push(body.len() as u8);
    out.push(crc);
    let mut i: usize = 0;
    while i < body.len()
        invariant
            i <= body@.len(),
            out@ == seq![START_MARKER, body@.len() as u8, crc8_spec(body@)] + body@.take(i as int),
        decreases body@.len() - i,
    {
        out.push(body[i]);
        proof {
            assert(body@.take(i as int).push(body@[i as int]) =~= body@.take(i + 1));
            assert(out@ =~= seq![START_MARKER, body@.len() as u8, crc8_spec(body@)] + body@.take(
                i + 1,
            ));
        }
        i = i + 1;
    }
    proof {
        assert(body@.take(body@.len() as int) =~= body@);
    }
    out
}

/// The body carried by a complete wire frame, or nothing if the frame is
/// corrupt: wrong marker, wrong length, or a checksum mismatch.
pub open spec fn decode_spec(w: Seq<u8>) -> Option<Seq<u8>> {
    if w.len() >= 3 && w[0] == START_MARKER && w.len() == 3 + (w[1] as int) && crc8_spec(w.skip(3))
        == w[2] {
        Some(w.skip(3))
    } else {
        None
    }
}

/// Decodes one isolated wire frame, recomputing the checksum over the body;
/// a corrupt frame yields nothing rather than an error.
#[verifier::loop_isolation(false)]
pub fn decode_body(wire: &[u8]) -> (r: Option<Vec<u8>>)
    ensures
        match r {
            Some(b) => decode_spec(wire@) == Some(b@),
            None => decode_spec(wire@) is None,
        },
{
    if wire.len() < 3 {
        return None;
    }
    if wire[0] != START_MARKER {
        return None;
    }
    let length = wire[1];
    if wire.len() - 3 != length as usize {
        return None;
    }
    let mut body: Vec<u8> = Vec::new();
    let mut i: usize = 3;
    while i < wire.len()
        invariant
            3 <= i <= wire@.len(),
            body@ == wire@.subrange(3, i as int),
        decreases wire@.len() - i,
    {
        body.push(wire[i]);
        proof {
            assert(wire@.subrange(3, i as int).push(wire@[i as int]) =~= wire@.subrange(
                3,
                i + 1,
            ));
        }
        i = i + 1;
    }
    proof {
        assert(wire@.subrange(3, wire@.len() as int) =~= wire@.skip(3));
    }
    if !crc8_check(body.as_slice(), wire[2]) {
        return None;
    }
    Some(body)
}

/// Law: decoding an encoded frame yields the original body, for any body
/// that fits the one-byte length field.
pub proof fn lemma_frame_round_trip(body: Seq<u8>)
    requires
        body.len() <= 255,
    ensures
        decode_spec(encode_spec(body)) == Some(body),
{
    let w = encode_spec(body);
    assert(w.skip(3) =~= body);
}

// ------------------------------------------------------------------
// Frame isolation from a raw byte stream
// ------------------------------------------------------------------

/// The position of the first start marker in a raw byte stream.
pub open spec fn find_marker(s: Seq<u8>) -> Option<int>
    decreases s.len(),
{
    if s.len() == 0 {
        None
    } else if s[0] == START_MARKER {
        Some(0)
    } else {
        match find_marker(s.skip(1)) {
            Some(i) => Some(i + 1),
            None => None,
        }
    }
}

pub proof fn lemma_find_marker_props(s: Seq<u8>)
    ensures
        match find_marker(s) {
            Some(i) => 0 <= i < s.len() && s[i] == START_MARKER,
            None => true,
        },
    decreases s.len(),
{
    if s.len() > 0 && s[0] != START_MARKER {
        lemma_find_marker_props(s.skip(1));
    }
}

/// A marker at `i` with no marker before it is the first marker.
pub proof fn lemma_find_marker_first(s: Seq<u8>, i: int)
    requires
        0 <= i < s.len(),
        s[i] == START_MARKER,
        forall|j: int| 0 <= j < i ==> s[j] != START_MARKER,
    ensures
        find_marker(s) == Some(i),
    decreases i,
{
    if i > 0 {
        assert(forall|j: int| 0 <= j < i - 1 ==> s.skip(1)[j] == s[j + 1]);
        lemma_find_marker_first(s.skip(1), i - 1);
    }
}

/// The first marker-delimited frame attempt in a raw byte stream: its body,
/// its declared checksum, and how many stream bytes it spans (everything up
/// to and including the frame). Nothing while the stream holds no complete
/// frame yet.
pub open spec fn frame_split(s: Seq<u8>) -> Option<(Seq<u8>, u8, int)> {
    match find_marker(s) {
        None => None,
        Some(i) => {
            if i + 3 <= s.len() && i + 3 + (s[i + 1] as int) <= s.len() {
                Some(
                    (
                        s.subrange(i + 3, i + 3 + (s[i + 1] as int)),
                        s[i + 2],
                        i + 3 + (s[i + 1] as int),
                    ),
                )
            } else {
                None
            }
        },
    }
}

/// Scanning one non-marker byte off the front shifts the frame attempt by
/// one and changes nothing else.
pub proof fn lemma_frame_split_shift(s: Seq<u8>)
    requires
        s.len() > 0,
        s[0] != START_MARKER,
    ensures
        frame_split(s) == match frame_split(s.skip(1)) {
            Some(f) => Some((f.0, f.1, f.2 + 1)),
            None => None::<(Seq<u8>, u8, int)>,
        },
{
    let t = s.skip(1);
    lemma_find_marker_props(s);
    lemma_find_marker_props(t);
    match find_marker(t) {
        None => {
        },
        Some(i) => {
            assert(find_marker(s) == Some(i + 1));
            if i + 3 <= t.len() {
                assert(s[i + 2] == t[i + 1]);
                if i + 3 + (t[i + 1] as int) <= t.len() {
                    assert(s[i + 3] == t[i + 2]);
                    assert(s.subrange(i + 4, i + 4 + (s[i + 2] as int)) =~= t.subrange(
                        i + 3,
                        i + 3 + (t[i + 1] as int),
                    ));
                }
            }
        },
    }
}

/// A stream that begins with a well-formed encoded frame splits into
/// exactly that frame.
pub proof fn lemma_frame_split_at_front(body: Seq<u8>, rest: Seq<u8>)
    requires
        body.len() <= 255,
    ensures
        frame_split(encode_spec(body) + rest) == Some(
            (body, crc8_spec(body), 3 + body.len() as int),
        ),
{
    let s = encode_spec(body) + rest;
    assert(s[0] == START_MARKER);
    assert(find_marker(s) == Some(0int));
    assert(s[1] == body.len() as u8);
    assert(s[1] as int == body.len());
    assert(s.subrange(3, 3 + body.len() as int) =~= body);
}

/// Law (resynchronization, leading garbage): any bytes free of the start
/// marker before a well-formed frame are skipped, and the frame itself is
/// isolated intact.
pub proof fn lemma_resync_skips_garbage(junk: Seq<u8>, body: Seq<u8>)
    requires
        forall|j: int| 0 <= j < junk.len() ==> junk[j] != START_MARKER,
        body.len() <= 255,
    ensures
        frame_split(junk + encode_spec(body)) == Some(
            (body, crc8_spec(body), junk.len() + 3 + body.len() as int),
        ),
    decreases junk.len(),
{
    if junk.len() == 0 {
        assert(junk + encode_spec(body) =~= encode_spec(body) + Seq::<u8>::empty());
        lemma_frame_split_at_front(body, Seq::<u8>::empty());
    } else {
        let s = junk + encode_spec(body);
        lemma_frame_split_shift(s);
        assert(s.skip(1) =~= junk.skip(1) + encode_spec(body));
        lemma_resync_skips_garbage(junk.skip(1), body);
    }
}

/// Law (resynchronization, corrupt frame): a complete frame whose checksum
/// byte does not match its body is isolated first — and rejected by the
/// checksum — and the well-formed frame after it is then isolated intact
/// from the rest of the stream.
pub proof fn lemma_resync_after_corrupt_frame(junk_body: Seq<u8>, junk_crc: u8, body: Seq<u8>)
    requires
        junk_body.len() <= 255,
        junk_crc != crc8_spec(junk_body),
        body.len() <= 255,
    ensures
        ({
            let s = seq![START_MARKER, junk_body.len() as u8, junk_crc] + junk_body + encode_spec(
                body,
            );
            &&& frame_split(s) == Some((junk_body, junk_crc, 3 + junk_body.len() as int))
            &&& frame_split(s.skip(3 + junk_body.len() as int)) == Some(
                (body, crc8_spec(body), 3 + body.len() as int),
            )
        }),
{
    let s = seq![START_MARKER, junk_body.len() as u8, junk_crc] + junk_body + encode_spec(body);
    assert(s[0] == START_MARKER);
    assert(find_marker(s) == Some(0int));
    assert(s[1] as int == junk_body.len());
    assert(s.subrange(3, 3 + junk_body.len() as int) =~= junk_body);
    assert(s.skip(3 + junk_body.len() as int) =~= encode_spec(body) + Seq::<u8>::empty());
    lemma_frame_split_at_front(body, Seq::<u8>::empty());
}

// ------------------------------------------------------------------
// Body layouts
// ------------------------------------------------------------------

/// Appends all of `data` to `out`.
#[verifier::loop_isolation(false)]
pub fn push_bytes(out: &mut Vec<u8>, data: &[u8])
    ensures
        final(out)@ == old(out)@ + data@,
{
    let mut i: usize = 0;
    while i < data.len()
        invariant
            i <= data@.len(),
            out@ == old(out)@ + data@.take(i as int),
        decreases data@.len() - i,
    {
        out.push(data[i]);
        proof {
            assert(old(out)@ + data@.take(i as int).push(data@[i as int]) =~= old(out)@
                + data@.take(i + 1));
        }
        i = i + 1;
    }
    proof {
        assert(out@ =~= old(out)@ + data@);
    }
}

/// The outbound body layout: request kind, command id (little-endian), then
/// the kind-specific request payload.
pub open spec fn request_body_spec(kind: u8, id: u32, payload: Seq<u8>) -> Seq<u8> {
    seq![kind] + le32_bytes(id) + payload
}

/// Builds one outbound request body.
pub fn build_request_body(kind: u8, id: u32, payload: &[u8]) -> (r: Vec<u8>)
    ensures
        r@ == request_body_spec(kind, id, payload@),
{
    let mut out: Vec<u8> = Vec::new();
    out.push(kind);
    push_u32_le(&mut out, id);
    push_bytes(&mut out, payload);
    proof {
        assert(out@ =~= request_body_spec(kind, id, payload@));
    }
    out
}

/// The request kind of an outbound body.
pub open spec fn req_kind_of(s: Seq<u8>) -> u8 {
    s[0]
}

/// The command id of an outbound body.
pub open spec fn req_id_of(s: Seq<u8>) -> u32 {
    le32_val(s[1], s[2], s[3], s[4])
}

/// The kind-specific payload of an outbound body.
pub open spec fn req_payload_of(s: Seq<u8>) -> Seq<u8> {
    s.skip(5)
}

/// Law: reading an outbound request body back yields the kind, the command
/// id and the payload that it was built from.
pub proof fn lemma_request_body_round_trip(kind: u8, id: u32, payload: Seq<u8>)
    ensures
        req_kind_of(request_body_spec(kind, id, payload)) == kind,
        req_id_of(request_body_spec(kind, id, payload)) == id,
        req_payload_of(request_body_spec(kind, id, payload)) == payload,
{
    let s = request_body_spec(kind, id, payload);
    lemma_le32_round_trip(id);
    assert(s.skip(5) =~= payload);
}

/// An inbound body announcing a response: leading discriminator, response
/// kind, command id (little-endian), then the response payload.
pub open spec fn body_is_response(s: Seq<u8>) -> bool {
    s.len() >= 6 && s[0] == crate::MSG_RESPONSE
}

pub open spec fn resp_kind_of(s: Seq<u8>) -> u8 {
    s[1]
}

pub open spec fn resp_id_of(s: Seq<u8>) -> u32 {
    le32_val(s[2], s[3], s[4], s[5])
}

pub open spec fn resp_payload_of(s: Seq<u8>) -> Seq<u8> {
    s.skip(6)
}

/// An inbound body announcing a device log line.
pub open spec fn body_is_log(s: Seq<u8>) -> bool {
    s.len() >= 2 && s[0] == crate::MSG_LOG
}

pub open spec fn log_level_of(s: Seq<u8>) -> u8 {
    s[1]
}

/// The text of a log body: everything after the level byte and the
/// (unenforced) declared-length byte, taken verbatim.
pub open spec fn log_text_of(s: Seq<u8>) -> Seq<u8> {
    if s.len() >= 3 {
        s.skip(3)
    } else {
        Seq::empty()
    }
}

/// Parses one checksum-valid inbound body as a command response; anything
/// not shaped as a response yields nothing.
#[verifier::loop_isolation(false)]
pub fn parse_response_body(body: &[u8]) -> (r: Option<Response>)
    ensures
        match r {
            Some(resp) => body_is_response(body@) && resp.command_id == resp_id_of(body@)
                && resp.response_type == resp_kind_of(body@) && resp.payload@ == resp_payload_of(
                body@,
            ),
            None => !body_is_response(body@),
        },
{
    if body.len() < 6 {
        return None;
    }
    if body[0] != crate::MSG_RESPONSE {
        return None;
    }
    let command_id = u32_from_le(body[2], body[3], body[4], body[5]);
    let response_type = body[1];
    let payload = vstd::slice::slice_to_vec(vstd::slice::slice_subrange(body, 6, body.len()));
    proof {
        assert(body@.subrange(6, body@.len() as int) =~= resp_payload_of(body@));
    }
    Some(Response { command_id, response_type, payload })
}

/// The inbound body layout of a response, as the device would send it.
pub open spec fn response_body_spec(kind: u8, id: u32, payload: Seq<u8>) -> Seq<u8> {
    seq![crate::MSG_RESPONSE, kind] + le32_bytes(id) + payload
}

/// Law: reading an inbound response body back yields the kind, the command
/// id and the payload that it was built from.
pub proof fn lemma_response_body_round_trip(kind: u8, id: u32, payload: Seq<u8>)
    ensures
        body_is_response(response_body_spec(kind, id, payload)),
        resp_kind_of(response_body_spec(kind, id, payload)) == kind,
        resp_id_of(response_body_spec(kind, id, payload)) == id,
        resp_payload_of(response_body_spec(kind, id, payload)) == payload,
{
    let s = response_body_spec(kind, id, payload);
    lemma_le32_round_trip(id);
    assert(s.skip(6) =~= payload);
}

// ------------------------------------------------------------------
// Kind-specific payloads
// ------------------------------------------------------------------

/// A JOINTS payload is a joint count followed by that many angle/speed
/// pairs of little-endian 32-bit fixed-point values.
pub open spec fn joints_well_formed(p: Seq<u8>) -> bool {
    p.len() >= 1 && p.len() >= 1 + 8 * (p[0] as int)
}

pub open spec fn joints_count_of(p: Seq<u8>) -> int {
    p[0] as int
}

/// The angle of joint `i`, in milli-degrees.
pub open spec fn joint_angle_of(p: Seq<u8>, i: int) -> i32 {
    u32_as_i32(le32_val(p[1 + 8 * i], p[2 + 8 * i], p[3 + 8 * i], p[4 + 8 * i]))
}

/// The speed of joint `i`, in milli-degrees per second.
pub open spec fn joint_speed_of(p: Seq<u8>, i: int) -> i32 {
    u32_as_i32(le32_val(p[5 + 8 * i], p[6 + 8 * i], p[7 + 8 * i], p[8 + 8 * i]))
}

/// Decodes a JOINTS payload into (angle, speed) pairs in milli-degrees and
/// milli-degrees per second; a payload shorter than its own joint count
/// declares yields nothing.
#[verifier::loop_isolation(false)]
pub fn decode_joints_payload(p: &[u8]) -> (r: Option<Vec<(i32, i32)>>)
    ensures
        match r {
            Some(v) => joints_well_formed(p@) && v@.len() == joints_count_of(p@) && (forall|i: int|
                0 <= i < v@.len() ==> v@[i].0 == joint_angle_of(p@, i) && v@[i].1
                    == joint_speed_of(p@, i)),
            None => !joints_well_formed(p@),
        },
{
    if p.len() < 1 {
        return None;
    }
    let count = p[0] as usize;
    if p.len() < 1 + 8 * count {
        return None;
    }
    let mut joints: Vec<(i32, i32)> = Vec::new();
    let mut i: usize = 0;
    while i < count
        invariant
            i <= count,
            joints@.len() == i,
            forall|j: int|
                0 <= j < i ==> joints@[j].0 == joint_angle_of(p@, j) && joints@[j].1
                    == joint_speed_of(p@, j),
        decreases count - i,
    {
        let base = 1 + 8 * i;
        let angle = u32_to_i32(u32_from_le(p[base], p[base + 1], p[base + 2], p[base + 3]));
        let speed = u32_to_i32(u32_from_le(p[base + 4], p[base + 5], p[base + 6], p[base + 7]));
        joints.push((angle, speed));
        i = i + 1;
    }
    Some(joints)
}

/// An ERROR payload is a cause code, a declared (unenforced) text length,
/// then the message text.
pub open spec fn error_well_formed(p: Seq<u8>) -> bool {
    p.len() >= 2
}

pub open spec fn error_code_of(p: Seq<u8>) -> u8 {
    p[0]
}

/// The message bytes of an ERROR payload: everything after the code and the
/// declared-length byte, taken verbatim.
pub open spec fn error_text_of(p: Seq<u8>) -> Seq<u8> {
    p.skip(2)
}

/// Decodes an ERROR payload into the device-reported error; a payload too
/// short to hold the code and declared-length bytes yields nothing.
pub fn decode_error_payload(p: &[u8]) -> (r: Option<crate::types::CobotError>)
    ensures
        match r {
            Some(e) => error_well_formed(p@) && e.code == error_code_of(p@) && e.message@
                == crate::types::utf8_lossy_of(error_text_of(p@)),
            None => !error_well_formed(p@),
        },
{
    if p.len() < 2 {
        return None;
    }
    let text = vstd::slice::slice_subrange(p, 2, p.len());
    proof {
        assert(p@.subrange(2, p@.len() as int) =~= error_text_of(p@));
    }
    Some(crate::types::CobotError { code: p[0], message: crate::types::bytes_to_text(text) })
}

} // verus!
