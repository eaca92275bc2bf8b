//! The correlation engine: allocates command ids, sends requests, demuxes
//! the interleaved inbound stream into buffered responses and forwarded log
//! lines, and implements the blocking wait that reconciles acknowledge-now /
//! complete-later semantics under nested timeout budgets.
use vstd::prelude::*;
use crate::checksum::{crc8_check, crc8_spec};
use crate::codec::{
    body_is_response, build_request_body, decode_error_payload, decode_joints_payload, encode,
    frame_split, joints_count_of, joints_well_formed, joint_angle_of, joint_speed_of,
    lemma_find_marker_first, parse_response_body, request_body_spec, resp_id_of,
    resp_kind_of, resp_payload_of, error_code_of, error_text_of, error_well_formed,
};
use crate::transport::{ReadOutcome, Transport};
use crate::types::{CommandError, Response};

verus! {

/// How long a buffered response is retained, relative to the start of the
/// wait call that inspects it.
pub const RETENTION_MS: u64 = 30_000;

/// The fixed long timeout for DONE responses, which signal physical
/// completion of a motion.
pub const DONE_TIMEOUT_MS: u64 = 60_000;

/// What one attempt to read a frame from the transport came to.
pub enum ReadStep {
    /// A complete frame was consumed (buffered, forwarded or dropped).
    Processed,
    /// The deadline passed before a complete frame arrived.
    TimedOut,
    /// The transport failed.
    Failed,
}

/// A buffered entry is fresh for a wait that started at `start_ms` while
/// the wait's start lies within the retention window after its receipt.
pub open spec fn entry_fresh(e: (Response, u64), start_ms: u64) -> bool {
    start_ms < e.1 + RETENTION_MS
}

/// The buffer entries that survive pruning at `start_ms`, in order.
pub open spec fn retained(s: Seq<(Response, u64)>, start_ms: u64) -> Seq<(Response, u64)>
    decreases s.len(),
{
    if s.len() == 0 {
        Seq::empty()
    } else if entry_fresh(s[0], start_ms) {
        seq![s[0]] + retained(s.skip(1), start_ms)
    } else {
        retained(s.skip(1), start_ms)
    }
}

/// Every retained entry is fresh and was in the buffer.
pub proof fn lemma_retained_elems(s: Seq<(Response, u64)>, start_ms: u64)
    ensures
        forall|i: int|
            0 <= i < retained(s, start_ms).len() ==> entry_fresh(
                #[trigger] retained(s, start_ms)[i],
                start_ms,
            ) && s.contains(retained(s, start_ms)[i]),
    decreases s.len(),
{
    if s.len() > 0 {
        lemma_retained_elems(s.skip(1), start_ms);
        assert forall|i: int| 0 <= i < retained(s, start_ms).len() implies entry_fresh(
            #[trigger] retained(s, start_ms)[i],
            start_ms,
        ) && s.contains(retained(s, start_ms)[i]) by {
            let r = retained(s, start_ms);
            let rr = retained(s.skip(1), start_ms);
            if entry_fresh(s[0], start_ms) {
                if i == 0 {
                    assert(s.contains(s[0]));
                } else {
                    assert(rr[i - 1] == r[i]);
                    let j = choose|j: int| 0 <= j < s.skip(1).len() && s.skip(1)[j] == rr[i - 1];
                    assert(s[j + 1] == rr[i - 1]);
                }
            } else {
                let j = choose|j: int| 0 <= j < s.skip(1).len() && s.skip(1)[j] == rr[i];
                assert(s[j + 1] == rr[i]);
            }
        }
    }
}

/// Pruning keeps every fresh entry.
pub proof fn lemma_retained_contains(s: Seq<(Response, u64)>, start_ms: u64, e: (Response, u64))
    requires
        s.contains(e),
        entry_fresh(e, start_ms),
    ensures
        retained(s, start_ms).contains(e),
    decreases s.len(),
{
    let i = choose|i: int| 0 <= i < s.len() && s[i] == e;
    if i == 0 {
        assert(retained(s, start_ms)[0] == e);
    } else {
        assert(s.skip(1)[i - 1] == e);
        assert(s.skip(1).contains(e));
        lemma_retained_contains(s.skip(1), start_ms, e);
        let j = choose|j: int|
            0 <= j < retained(s.skip(1), start_ms).len() && retained(s.skip(1), start_ms)[j] == e;
        if entry_fresh(s[0], start_ms) {
            assert(retained(s, start_ms)[j + 1] == e);
        }
    }
}

/// The first buffered response for `id`, in buffer order.
pub open spec fn first_match(s: Seq<(Response, u64)>, id: u32) -> Option<Response>
    decreases s.len(),
{
    if s.len() == 0 {
        None
    } else if s[0].0.command_id == id {
        Some(s[0].0)
    } else {
        first_match(s.skip(1), id)
    }
}

/// An entry for `id` with no earlier entry for `id` is the first match.
pub proof fn lemma_first_match_at(s: Seq<(Response, u64)>, id: u32, i: int)
    requires
        0 <= i < s.len(),
        s[i].0.command_id == id,
        forall|j: int| 0 <= j < i ==> (#[trigger] s[j]).0.command_id != id,
    ensures
        first_match(s, id) == Some(s[i].0),
    decreases i,
{
    if i > 0 {
        assert(forall|j: int| 0 <= j < i - 1 ==> s.skip(1)[j] == s[j + 1]);
        lemma_first_match_at(s.skip(1), id, i - 1);
    }
}

/// A buffer with no entry for `id` has no first match for it.
pub proof fn lemma_first_match_none(s: Seq<(Response, u64)>, id: u32)
    requires
        forall|j: int| 0 <= j < s.len() ==> (#[trigger] s[j]).0.command_id != id,
    ensures
        first_match(s, id) is None,
    decreases s.len(),
{
    if s.len() > 0 {
        assert(forall|j: int| 0 <= j < s.len() - 1 ==> s.skip(1)[j] == s[j + 1]);
        lemma_first_match_none(s.skip(1), id);
    }
}

/// Removing one entry keeps every other entry.
pub proof fn lemma_remove_contains(s: Seq<(Response, u64)>, i: int, e: (Response, u64))
    requires
        0 <= i < s.len(),
        s.contains(e),
        s[i] != e,
    ensures
        s.remove(i).contains(e),
{
    let j = choose|j: int| 0 <= j < s.len() && s[j] == e;
    if j < i {
        assert(s.remove(i)[j] == e);
    } else {
        assert(s.remove(i)[j - 1] == e);
    }
}

/// A sequence that extends another keeps every entry of the prefix.
pub proof fn lemma_prefix_contains(s1: Seq<(Response, u64)>, s2: Seq<(Response, u64)>, e: (Response, u64))
    requires
        s1.len() <= s2.len(),
        s2.subrange(0, s1.len() as int) == s1,
        s1.contains(e),
    ensures
        s2.contains(e),
{
    let j = choose|j: int| 0 <= j < s1.len() && s1[j] == e;
    assert(s2[j] == s1[j]);
}

/// The connection to the device: the exclusively owned transport, the
/// negotiated firmware version, the monotonic command id counter, the
/// configured default timeout, and the response buffer with receipt times.
pub struct CobotConnection<T: Transport> {
    /// The transport this connection owns for its whole lifetime.
    pub port: T,
    /// Firmware version expected of the device.
    pub firmware_version: u32,
    /// Command id to allocate next; never reused within a session.
    pub next_command_id: u32,
    /// Default time to wait for a response, in milliseconds.
    pub timeout_ms: u64,
    /// Buffered responses, each with the clock reading at its receipt.
    pub responses: Vec<(Response, u64)>,
}

impl<T: Transport> CobotConnection<T> {
    /// Creates a new connection over `port`.
    pub fn new(port: T, firmware_version: u32, timeout_ms: u64) -> (c: CobotConnection<T>)
        ensures
            c.port == port,
            c.firmware_version == firmware_version,
            c.next_command_id == 0,
            c.timeout_ms == timeout_ms,
            c.responses@ =~= Seq::<(Response, u64)>::empty(),
    {
        CobotConnection { port, firmware_version, next_command_id: 0, timeout_ms, responses: Vec::new() }
    }

    /// Allocates the next command id, encodes the request body around it and
    /// writes the framed request to the device. Fire-and-forget: it never
    /// waits for the device's reaction. The id is consumed even when the
    /// write fails.
    pub fn send_request(&mut self, request_type: u8, payload: &[u8]) -> (r: Result<u32, CommandError>)
        requires
            old(self).next_command_id < u32::MAX,
            payload@.len() + 5 <= 255,
        ensures
            final(self).next_command_id == old(self).next_command_id + 1,
            final(self).firmware_version == old(self).firmware_version,
            final(self).timeout_ms == old(self).timeout_ms,
            final(self).responses@ == old(self).responses@,
            final(self).port.incoming() == old(self).port.incoming(),
            (r matches Ok(id) ==> id == old(self).next_command_id && final(self).port.sent()
                == old(self).port.sent() + crate::codec::encode_spec(
                request_body_spec(request_type, old(self).next_command_id, payload@),
            )),
            (r matches Err(e) ==> e matches CommandError::Transport),
    {
        let command_id = self.next_command_id;
        self.next_command_id = self.next_command_id + 1;
        let body = build_request_body(request_type, command_id, payload);
        let wire = encode(body.as_slice());
        if self.port.write_all(wire.as_slice()) {
            Ok(command_id)
        } else {
            Err(CommandError::Transport)
        }
    }

    /// The time left of a budget of `timeout_ms` that started at `start_ms`,
    /// by the transport's clock; zero once the budget is exhausted.
    pub fn remaining_timeout(&mut self, start_ms: u64, timeout_ms: u64) -> (r: u64)
        ensures
            final(self).port.incoming() == old(self).port.incoming(),
            final(self).port.sent() == old(self).port.sent(),
            final(self).firmware_version == old(self).firmware_version,
            final(self).next_command_id == old(self).next_command_id,
            final(self).timeout_ms == old(self).timeout_ms,
            final(self).responses@ == old(self).responses@,
            r <= timeout_ms,
    {
        let now = self.port.now_ms();
        let elapsed = if now >= start_ms {
            now - start_ms
        } else {
            0
        };
        if elapsed >= timeout_ms {
            0
        } else {
            timeout_ms - elapsed
        }
    }

    /// Reads one frame from the transport within the budget and demuxes it:
    /// a checksum-valid response body is buffered with its receipt time; a
    /// checksum-valid log body is forwarded to the logging collaborator
    /// (suppressed levels are dropped silently); everything else — checksum
    /// mismatch, unrecognized discriminator, unrecognized level, truncated
    /// body — is dropped with a local warning. The scan is marker-driven:
    /// bytes before the next start marker are discarded.
    #[verifier::loop_isolation(false)]
    pub fn read_response(&mut self, timeout_ms: u64) -> (r: ReadStep)
        ensures
            final(self).firmware_version == old(self).firmware_version,
            final(self).next_command_id == old(self).next_command_id,
            final(self).timeout_ms == old(self).timeout_ms,
            final(self).port.sent() == old(self).port.sent(),
            (!(r matches ReadStep::Processed) ==> final(self).responses@ == old(self).responses@),
            (r matches ReadStep::Processed ==> (frame_split(old(self).port.incoming())
                matches Some(f) && {
                &&& final(self).port.incoming() == old(self).port.incoming().skip(f.2)
                &&& final(self).port.incoming().len() < old(self).port.incoming().len()
                &&& (if crc8_spec(f.0) == f.1 && body_is_response(f.0) {
                    &&& final(self).responses@.len() == old(self).responses@.len() + 1
                    &&& final(self).responses@.subrange(0, old(self).responses@.len() as int)
                        == old(self).responses@
                    &&& final(self).responses@.last().0.command_id == resp_id_of(f.0)
                    &&& final(self).responses@.last().0.response_type == resp_kind_of(f.0)
                    &&& final(self).responses@.last().0.payload@ == resp_payload_of(f.0)
                } else {
                    final(self).responses@ == old(self).responses@
                })
            })),
    {
        let ghost orig = self.port.incoming();
        let start_ms = self.port.now_ms();
        let ghost mut k: int = 0;

        let mut found = false;
        while !found
            invariant
                0 <= k <= orig.len(),
                found ==> (k < orig.len() && orig[k] == crate::START_MARKER
                    && self.port.incoming() == orig.skip(k + 1)),
                !found ==> self.port.incoming() == orig.skip(k),
                forall|j: int| 0 <= j < k ==> orig[j] != crate::START_MARKER,
                self.responses@ == old(self).responses@,
                self.firmware_version == old(self).firmware_version,
                self.next_command_id == old(self).next_command_id,
                self.timeout_ms == old(self).timeout_ms,
                self.port.sent() == old(self).port.sent(),
            decreases self.port.incoming().len(),
        {
            let rem = self.remaining_timeout(start_ms, timeout_ms);
            match self.port.read_exact(1, rem) {
                ReadOutcome::Filled(v) => {
                    let b = v[0];
                    proof {
                        assert(v@[0] == orig.skip(k)[0]);
                        assert(orig.skip(k)[0] == orig[k]);
                        assert(orig.skip(k).skip(1) =~= orig.skip(k + 1));
                    }
                    if b == crate::START_MARKER {
                        found = true;
                    } else {
                        proof {
                            k = k + 1;
                        }
                    }
                },
                ReadOutcome::TimedOut => {
                    return ReadStep::TimedOut;
                },
                ReadOutcome::Failed => {
                    return ReadStep::Failed;
                },
            }
        }

        let rem = self.remaining_timeout(start_ms, timeout_ms);
        let hdr = match self.port.read_exact(2, rem) {
            ReadOutcome::Filled(v) => v,
            ReadOutcome::TimedOut => {
                return ReadStep::TimedOut;
            },
            ReadOutcome::Failed => {
                return ReadStep::Failed;
            },
        };
        let length = hdr[0];
        let crc_byte = hdr[1];
        proof {
            assert(hdr@[0] == orig.skip(k + 1)[0]);
            assert(hdr@[1] == orig.skip(k + 1)[1]);
            assert(orig.skip(k + 1)[0] == orig[k + 1]);
            assert(orig.skip(k + 1)[1] == orig[k + 2]);
            assert(orig.skip(k + 1).skip(2) =~= orig.skip(k + 3));
        }

        let rem = self.remaining_timeout(start_ms, timeout_ms);
        let payload = match self.port.read_exact(length as usize, rem) {
            ReadOutcome::Filled(v) => v,
            ReadOutcome::TimedOut => {
                return ReadStep::TimedOut;
            },
            ReadOutcome::Failed => {
                return ReadStep::Failed;
            },
        };
        let ghost len_i = length as int;
        proof {
            lemma_find_marker_first(orig, k);
            assert(payload@ =~= orig.subrange(k + 3, k + 3 + len_i));
            assert(orig.skip(k + 3).skip(len_i) =~= orig.skip(k + 3 + len_i));
            assert(frame_split(orig) == Some(
                (orig.subrange(k + 3, k + 3 + len_i), orig[k + 2], k + 3 + len_i),
            ));
        }

        if !crc8_check(payload.as_slice(), crc_byte) {
            self.port.warn_local("received frame with invalid checksum");
            return ReadStep::Processed;
        }

        if payload.len() == 0 {
            self.port.warn_local("received frame with an empty body");
            return ReadStep::Processed;
        }

        if payload[0] == crate::MSG_LOG {
            if payload.len() < 2 {
                self.port.warn_local("received log line without a level");
                return ReadStep::Processed;
            }
            let level = payload[1];
            if level == crate::LOG_NONE {
                return ReadStep::Processed;
            }
            if level > crate::LOG_NONE {
                self.port.warn_local("received log line with an invalid level");
                return ReadStep::Processed;
            }
            let text_bytes = if payload.len() >= 3 {
                vstd::slice::slice_subrange(payload.as_slice(), 3, payload.len())
            } else {
                vstd::slice::slice_subrange(payload.as_slice(), 0, 0)
            };
            let text = crate::types::bytes_to_text(text_bytes);
            self.port.forward_log(level, text);
            return ReadStep::Processed;
        }

        if payload[0] == crate::MSG_RESPONSE {
            match parse_response_body(payload.as_slice()) {
                Some(resp) => {
                    let t = self.port.now_ms();
                    self.responses.push((resp, t));
                    proof {
                        assert(self.responses@.subrange(0, old(self).responses@.len() as int)
                            =~= old(self).responses@);
                    }
                    return ReadStep::Processed;
                },
                None => {
                    self.port.warn_local("received truncated response body");
                    return ReadStep::Processed;
                },
            }
        }

        self.port.warn_local("received frame with an unrecognized discriminator");
        ReadStep::Processed
    }

    /// Discards every buffered entry whose receipt lies outside the
    /// retention window before `start_ms`, keeping the rest in order.
    #[verifier::loop_isolation(false)]
    pub fn prune_buffer(&mut self, start_ms: u64)
        ensures
            final(self).responses@ == retained(old(self).responses@, start_ms),
            final(self).firmware_version == old(self).firmware_version,
            final(self).next_command_id == old(self).next_command_id,
            final(self).timeout_ms == old(self).timeout_ms,
            final(self).port == old(self).port,
    {
        let ghost pre = self.responses@;
        proof {
            assert(pre.skip(0) =~= pre);
        }
        let mut i: usize = 0;
        while i < self.responses.len()
            invariant
                0 <= i <= self.responses@.len(),
                self.responses@.take(i as int) + retained(self.responses@.skip(i as int), start_ms)
                    == retained(pre, start_ms),
                self.firmware_version == old(self).firmware_version,
                self.next_command_id == old(self).next_command_id,
                self.timeout_ms == old(self).timeout_ms,
                self.port == old(self).port,
            decreases self.responses@.len() - i,
        {
            let ghost cur = self.responses@;
            let t = self.responses[i].1;
            let keep = if t >= start_ms {
                true
            } else {
                start_ms - t < RETENTION_MS
            };
            proof {
                assert(cur.skip(i as int)[0] == cur[i as int]);
                assert(cur.skip(i as int).skip(1) =~= cur.skip(i + 1));
            }
            if keep {
                proof {
                    assert(entry_fresh(cur[i as int], start_ms));
                    assert(cur.take(i as int).push(cur[i as int]) =~= cur.take(i + 1));
                    assert(cur.take(i as int) + (seq![cur[i as int]] + retained(
                        cur.skip(i + 1),
                        start_ms,
                    )) =~= cur.take(i + 1) + retained(cur.skip(i + 1), start_ms));
                }
                i = i + 1;
            } else {
                proof {
                    assert(!entry_fresh(cur[i as int], start_ms));
                }
                self.responses.remove(i);
                proof {
                    assert(self.responses@.take(i as int) =~= cur.take(i as int));
                    assert(self.responses@.skip(i as int) =~= cur.skip(i + 1));
                }
            }
        }
        proof {
            assert(self.responses@.take(self.responses@.len() as int) =~= self.responses@);
            assert(self.responses@.skip(self.responses@.len() as int)
                =~= Seq::<(Response, u64)>::empty());
            assert(self.responses@ + Seq::<(Response, u64)>::empty() =~= self.responses@);
        }
    }

    /// Removes and returns the first buffered response for `command_id`, if
    /// any.
    #[verifier::loop_isolation(false)]
    pub fn take_matching(&mut self, command_id: u32) -> (r: Option<Response>)
        ensures
            final(self).firmware_version == old(self).firmware_version,
            final(self).next_command_id == old(self).next_command_id,
            final(self).timeout_ms == old(self).timeout_ms,
            final(self).port == old(self).port,
            (r matches Option::None ==> final(self).responses@ == old(self).responses@ && forall|
                j: int,
            | 0 <= j < old(self).responses@.len() ==> (#[trigger] old(self).responses@[j]).0.command_id != command_id),
            (r matches Some(resp) ==> (exists|i: int|
                {
                    &&& 0 <= i < old(self).responses@.len()
                    &&& (#[trigger] old(self).responses@[i]).0.command_id == command_id
                    &&& resp == old(self).responses@[i].0
                    &&& final(self).responses@ == old(self).responses@.remove(i)
                    &&& forall|j: int|
                        0 <= j < i ==> (#[trigger] old(self).responses@[j]).0.command_id
                            != command_id
                })),
    {
        let mut i: usize = 0;
        while i < self.responses.len()
            invariant
                0 <= i <= self.responses@.len(),
                self.responses@ == old(self).responses@,
                self.firmware_version == old(self).firmware_version,
                self.next_command_id == old(self).next_command_id,
                self.timeout_ms == old(self).timeout_ms,
                self.port == old(self).port,
                forall|j: int|
                    0 <= j < i ==> (#[trigger] old(self).responses@[j]).0.command_id != command_id,
            decreases self.responses@.len() - i,
        {
            if self.responses[i].0.command_id == command_id {
                let entry = self.responses.remove(i);
                return Some(entry.0);
            }
            i = i + 1;
        }
        None
    }

    /// Waits for a response to `command_id` for at most `timeout_ms`
    /// milliseconds, with `start_ms` as the wait's start time. First prunes
    /// entries outside the retention window relative to `start_ms` and
    /// claims a buffered match immediately if one is present; otherwise it
    /// spends the remaining budget reading more frames — buffering
    /// responses for other ids opportunistically along the way — pruning
    /// and polling the buffer after every frame.
    #[verifier::loop_isolation(false)]
    pub fn wait_from(&mut self, command_id: u32, timeout_ms: u64, start_ms: u64) -> (r: Result<
        Option<Response>,
        CommandError,
    >)
        ensures
            final(self).firmware_version == old(self).firmware_version,
            final(self).next_command_id == old(self).next_command_id,
            final(self).timeout_ms == old(self).timeout_ms,
            final(self).port.sent() == old(self).port.sent(),
            (first_match(retained(old(self).responses@, start_ms), command_id) matches Some(m)
                ==> r == Ok::<Option<Response>, CommandError>(Some(m))),
            (r matches Ok(Some(resp)) ==> resp.command_id == command_id),
            (r matches Ok(None) ==> forall|j: int|
                0 <= j < final(self).responses@.len() ==> (#[trigger] final(self).responses@[j]).0.command_id
                    != command_id),
            (r matches Ok(w) ==> (forall|j: int|
                0 <= j < final(self).responses@.len() ==> entry_fresh(
                    #[trigger] final(self).responses@[j],
                    start_ms,
                )) && (forall|e: (Response, u64)|
                old(self).responses@.contains(e) && entry_fresh(e, start_ms) && e.0.command_id
                    != command_id ==> #[trigger] final(self).responses@.contains(e))),
            (r matches Err(e) ==> e matches CommandError::Transport),
    {
        let ghost pre = self.responses@;
        self.prune_buffer(start_ms);
        let ghost pruned0 = self.responses@;
        proof {
            lemma_retained_elems(pre, start_ms);
        }
        match self.take_matching(command_id) {
            Some(resp) => {
                proof {
                    let i = choose|i: int|
                        {
                            &&& 0 <= i < pruned0.len()
                            &&& (#[trigger] pruned0[i]).0.command_id == command_id
                            &&& resp == pruned0[i].0
                            &&& self.responses@ == pruned0.remove(i)
                            &&& forall|j: int|
                                0 <= j < i ==> (#[trigger] pruned0[j]).0.command_id != command_id
                        };
                    lemma_first_match_at(pruned0, command_id, i);
                    assert forall|j: int| 0 <= j < self.responses@.len() implies entry_fresh(
                        #[trigger] self.responses@[j],
                        start_ms,
                    ) by {
                        if j < i {
                            assert(self.responses@[j] == pruned0[j]);
                        } else {
                            assert(self.responses@[j] == pruned0[j + 1]);
                        }
                    }
                    assert forall|e: (Response, u64)|
                        pre.contains(e) && entry_fresh(e, start_ms) && e.0.command_id != command_id
                            implies #[trigger] self.responses@.contains(e) by {
                        lemma_retained_contains(pre, start_ms, e);
                        assert(pruned0[i].0.command_id == command_id);
                        assert(pruned0[i] != e);
                        lemma_remove_contains(pruned0, i, e);
                    }
                }
                return Ok(Some(resp));
            },
            None => {
            },
        }
        proof {
            lemma_first_match_none(pruned0, command_id);
            assert forall|e: (Response, u64)|
                pre.contains(e) && entry_fresh(e, start_ms) && e.0.command_id != command_id
                    implies #[trigger] self.responses@.contains(e) by {
                lemma_retained_contains(pre, start_ms, e);
            }
        }

        loop
            invariant
                self.firmware_version == old(self).firmware_version,
                self.next_command_id == old(self).next_command_id,
                self.timeout_ms == old(self).timeout_ms,
                self.port.sent() == old(self).port.sent(),
                forall|j: int|
                    0 <= j < self.responses@.len() ==> entry_fresh(
                        #[trigger] self.responses@[j],
                        start_ms,
                    ),
                forall|j: int|
                    0 <= j < self.responses@.len() ==> (#[trigger] self.responses@[j]).0.command_id
                        != command_id,
                forall|e: (Response, u64)|
                    pre.contains(e) && entry_fresh(e, start_ms) && e.0.command_id != command_id
                        ==> #[trigger] self.responses@.contains(e),
            decreases self.port.incoming().len(),
        {
            let rem = self.remaining_timeout(start_ms, timeout_ms);
            if rem == 0 {
                return Ok(None);
            }

            let ghost before_read = self.responses@;
            match self.read_response(rem) {
                ReadStep::Processed => {
                },
                ReadStep::TimedOut => {
                    return Ok(None);
                },
                ReadStep::Failed => {
                    return Err(CommandError::Transport);
                },
            }
            proof {
                assert forall|e: (Response, u64)|
                    pre.contains(e) && entry_fresh(e, start_ms) && e.0.command_id != command_id
                        implies #[trigger] self.responses@.contains(e) by {
                    if self.responses@.len() == before_read.len() + 1 {
                        lemma_prefix_contains(before_read, self.responses@, e);
                    }
                }
            }

            let ghost before_prune = self.responses@;
            self.prune_buffer(start_ms);
            let ghost pruned = self.responses@;
            proof {
                lemma_retained_elems(before_prune, start_ms);
                assert forall|e: (Response, u64)|
                    pre.contains(e) && entry_fresh(e, start_ms) && e.0.command_id != command_id
                        implies #[trigger] self.responses@.contains(e) by {
                    lemma_retained_contains(before_prune, start_ms, e);
                }
            }

            match self.take_matching(command_id) {
                Some(resp) => {
                    proof {
                        let i = choose|i: int|
                            {
                                &&& 0 <= i < pruned.len()
                                &&& (#[trigger] pruned[i]).0.command_id == command_id
                                &&& resp == pruned[i].0
                                &&& self.responses@ == pruned.remove(i)
                            };
                        assert forall|j: int| 0 <= j < self.responses@.len() implies entry_fresh(
                            #[trigger] self.responses@[j],
                            start_ms,
                        ) by {
                            if j < i {
                                assert(self.responses@[j] == pruned[j]);
                            } else {
                                assert(self.responses@[j] == pruned[j + 1]);
                            }
                        }
                        assert forall|e: (Response, u64)|
                            pre.contains(e) && entry_fresh(e, start_ms) && e.0.command_id
                                != command_id implies #[trigger] self.responses@.contains(e) by {
                            lemma_retained_contains(before_prune, start_ms, e);
                            assert(pruned[i].0.command_id == command_id);
                            assert(pruned[i] != e);
                            lemma_remove_contains(pruned, i, e);
                        }
                    }
                    return Ok(Some(resp));
                },
                None => {
                },
            }
        }
    }

    /// Waits for a response to `command_id` for at most `timeout_ms`
    /// milliseconds from now. A returned response always answers
    /// `command_id`; when the wait times out, no response for it is left in
    /// the buffer.
    pub fn wait_for_response(&mut self, command_id: u32, timeout_ms: u64) -> (r: Result<
        Option<Response>,
        CommandError,
    >)
        ensures
            final(self).firmware_version == old(self).firmware_version,
            final(self).next_command_id == old(self).next_command_id,
            final(self).timeout_ms == old(self).timeout_ms,
            final(self).port.sent() == old(self).port.sent(),
            (r matches Ok(Some(resp)) ==> resp.command_id == command_id),
            (r matches Ok(None) ==> forall|j: int|
                0 <= j < final(self).responses@.len() ==> (#[trigger] final(self).responses@[j]).0.command_id != command_id),
            (r matches Err(e) ==> e matches CommandError::Transport),
    {
        let start_ms = self.port.now_ms();
        self.wait_from(command_id, timeout_ms, start_ms)
    }
}

/// Resolves the outcome of a wait that expects a response of
/// `expected_kind`: no response is a timeout; the expected kind is success;
/// an ERROR response carrying at least its code and declared-length bytes
/// is the device-reported error; anything else is a protocol violation.
pub fn resolve_expected(w: Option<Response>, expected_kind: u8) -> (r: Result<(), CommandError>)
    ensures
        (match w {
            None => r == Err::<(), CommandError>(CommandError::Timeout),
            Some(resp) => {
                if resp.response_type == expected_kind {
                    r == Ok::<(), CommandError>(())
                } else if resp.response_type == crate::RESP_ERROR {
                    if error_well_formed(resp.payload@) {
                        r matches Err(CommandError::Device(e)) && e.code == error_code_of(
                            resp.payload@,
                        ) && e.message@ == crate::types::utf8_lossy_of(error_text_of(resp.payload@))
                    } else {
                        r == Err::<(), CommandError>(CommandError::Protocol)
                    }
                } else {
                    r == Err::<(), CommandError>(CommandError::Protocol)
                }
            },
        }),
{
    match w {
        None => Err(CommandError::Timeout),
        Some(resp) => {
            if resp.response_type == expected_kind {
                Ok(())
            } else if resp.response_type == crate::RESP_ERROR {
                match decode_error_payload(resp.payload.as_slice()) {
                    Some(e) => Err(CommandError::Device(e)),
                    None => Err(CommandError::Protocol),
                }
            } else {
                Err(CommandError::Protocol)
            }
        },
    }
}

/// Resolves the outcome of a wait that expects a JOINTS response: no
/// response is a timeout; a well-formed JOINTS payload decodes to
/// (angle, speed) pairs in milli-degrees and milli-degrees per second; an
/// ERROR response is the device-reported error; anything else — including a
/// JOINTS payload shorter than its own joint count declares — is a protocol
/// violation.
pub fn resolve_joints(w: Option<Response>) -> (r: Result<Vec<(i32, i32)>, CommandError>)
    ensures
        (match w {
            None => r matches Err(CommandError::Timeout),
            Some(resp) => {
                if resp.response_type == crate::RESP_JOINTS {
                    if joints_well_formed(resp.payload@) {
                        r matches Ok(v) && v@.len() == joints_count_of(resp.payload@) && (forall|
                            i: int,
                        |
                            0 <= i < v@.len() ==> (#[trigger] v@[i]).0 == joint_angle_of(
                                resp.payload@,
                                i,
                            ) && v@[i].1 == joint_speed_of(resp.payload@, i))
                    } else {
                        r matches Err(CommandError::Protocol)
                    }
                } else if resp.response_type == crate::RESP_ERROR {
                    if error_well_formed(resp.payload@) {
                        r matches Err(CommandError::Device(e)) && e.code == error_code_of(
                            resp.payload@,
                        ) && e.message@ == crate::types::utf8_lossy_of(error_text_of(resp.payload@))
                    } else {
                        r matches Err(CommandError::Protocol)
                    }
                } else {
                    r matches Err(CommandError::Protocol)
                }
            },
        }),
{
    match w {
        None => Err(CommandError::Timeout),
        Some(resp) => {
            if resp.response_type == crate::RESP_JOINTS {
                match decode_joints_payload(resp.payload.as_slice()) {
                    Some(v) => Ok(v),
                    None => Err(CommandError::Protocol),
                }
            } else if resp.response_type == crate::RESP_ERROR {
                match decode_error_payload(resp.payload.as_slice()) {
                    Some(e) => Err(CommandError::Device(e)),
                    None => Err(CommandError::Protocol),
                }
            } else {
                Err(CommandError::Protocol)
            }
        },
    }
}

} // verus!
