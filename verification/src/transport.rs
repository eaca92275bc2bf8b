//! The capabilities the protocol engine needs from its host: a byte link to
//! the device with per-call read deadlines, a millisecond clock, and a sink
//! for diagnostic log lines — plus an in-memory implementation that replays
//! a scripted byte stream.
use vstd::prelude::*;
use crate::codec::push_bytes;

verus! {

/// Outcome of one byte-level read against a deadline.
pub enum ReadOutcome {
    /// Exactly the requested bytes, in stream order.
    Filled(Vec<u8>),
    /// The deadline passed before the bytes arrived.
    TimedOut,
    /// The link itself failed (an I/O fault other than a timeout).
    Failed,
}

/// A transport to the device, together with the host clock and the host's
/// logging collaborator.
///
/// `incoming()` models the bytes the device delivers on this link, in
/// order; `sent()` models every byte written so far. An implementation
/// promises that reads hand out successive bytes of `incoming()`, and that
/// a read consumes what it hands out — so the finitely many modelled bytes
/// bound the engine's read loops.
pub trait Transport {
    /// The bytes still to be delivered by the device.
    spec fn incoming(&self) -> Seq<u8>;

    /// Every byte written to the device so far.
    spec fn sent(&self) -> Seq<u8>;

    /// Writes all of `data` to the device; false on a transport fault.
    fn write_all(&mut self, data: &[u8]) -> (ok: bool)
        ensures
            final(self).incoming() == old(self).incoming(),
            ok ==> final(self).sent() == old(self).sent() + data@,
    ;

    /// Reads exactly `n` bytes, waiting at most `timeout_ms` milliseconds.
    /// A timed-out or failed read may still have consumed some bytes.
    fn read_exact(&mut self, n: usize, timeout_ms: u64) -> (r: ReadOutcome)
        ensures
            final(self).sent() == old(self).sent(),
            match r {
                ReadOutcome::Filled(v) => n <= old(self).incoming().len() && v@ == old(
                    self,
                ).incoming().take(n as int) && final(self).incoming() == old(
                    self,
                ).incoming().skip(n as int),
                _ => exists|k: int|
                    0 <= k <= old(self).incoming().len() && final(self).incoming() == old(
                        self,
                    ).incoming().skip(k),
            },
    ;

    /// The host clock, in milliseconds. Nothing is promised of its value.
    fn now_ms(&mut self) -> (t: u64)
        ensures
            final(self).incoming() == old(self).incoming(),
            final(self).sent() == old(self).sent(),
    ;

    /// Forwards one device log line to the host's logging collaborator.
    fn forward_log(&mut self, level: u8, text: String)
        ensures
            final(self).incoming() == old(self).incoming(),
            final(self).sent() == old(self).sent(),
    ;

    /// Notes a local warning about a recovered protocol hiccup.
    fn warn_local(&mut self, text: &str)
        ensures
            final(self).incoming() == old(self).incoming(),
            final(self).sent() == old(self).sent(),
    ;
}

/// An in-memory transport: delivers a scripted byte stream, records every
/// byte written and every log line forwarded, and drives a deterministic
/// clock that advances by a fixed tick per read call and by the full
/// deadline on a timed-out read.
pub struct ScriptedTransport {
    feed: Vec<u8>,
    cursor: usize,
    outbox: Vec<u8>,
    clock_ms: u64,
    read_tick_ms: u64,
    logs: Vec<(u8, String)>,
    warning_count: usize,
}

impl ScriptedTransport {
    /// Starts a scripted transport that will deliver `feed`, with the clock
    /// at `start_ms`, advancing by `read_tick_ms` per read call.
    pub fn new(feed: Vec<u8>, start_ms: u64, read_tick_ms: u64) -> (t: ScriptedTransport)
        ensures
            t.incoming() == feed@,
            t.sent() == Seq::<u8>::empty(),
            t.clock() == start_ms,
            t.log_lines() =~= Seq::<(u8, Seq<char>)>::empty(),
            t.warnings() == 0,
    {
        let t = ScriptedTransport {
            feed,
            cursor: 0,
            outbox: Vec::new(),
            clock_ms: start_ms,
            read_tick_ms,
            logs: Vec::new(),
            warning_count: 0,
        };
        proof {
            assert(t.incoming() =~= t.feed@);
        }
        t
    }

    /// The clock this transport will report next.
    pub closed spec fn clock(&self) -> u64 {
        self.clock_ms
    }

    /// Every log line forwarded so far, in order.
    pub closed spec fn log_lines(&self) -> Seq<(u8, Seq<char>)> {
        self.logs@.map_values(|e: (u8, String)| (e.0, e.1@))
    }

    /// How many local warnings were noted.
    pub closed spec fn warnings(&self) -> int {
        self.warning_count as int
    }

    /// The bytes written so far.
    pub fn sent_bytes(&self) -> (r: &Vec<u8>)
        ensures
            r@ == self.sent(),
    {
        &self.outbox
    }

    /// The recorded log lines.
    pub fn recorded_logs(&self) -> (r: &Vec<(u8, String)>)
        ensures
            r@.map_values(|e: (u8, String)| (e.0, e.1@)) == self.log_lines(),
    {
        &self.logs
    }

    /// The number of local warnings noted so far.
    pub fn warning_total(&self) -> (r: usize)
        ensures
            r == self.warnings(),
    {
        self.warning_count
    }

    /// The clock reading, without advancing it.
    pub fn clock_now(&self) -> (r: u64)
        ensures
            r == self.clock(),
    {
        self.clock_ms
    }

    /// Moves the clock forward by `ms` (saturating at the maximum).
    pub fn advance_clock(&mut self, ms: u64)
        ensures
            final(self).incoming() == old(self).incoming(),
            final(self).sent() == old(self).sent(),
            final(self).clock() >= old(self).clock(),
    {
        if self.clock_ms <= u64::MAX - ms {
            self.clock_ms = self.clock_ms + ms;
        } else {
            self.clock_ms = u64::MAX;
        }
    }
}

impl Transport for ScriptedTransport {
    closed spec fn incoming(&self) -> Seq<u8> {
        if self.cursor <= self.feed@.len() {
            self.feed@.skip(self.cursor as int)
        } else {
            Seq::empty()
        }
    }

    closed spec fn sent(&self) -> Seq<u8> {
        self.outbox@
    }

    fn write_all(&mut self, data: &[u8]) -> (ok: bool) {
        push_bytes(&mut self.outbox, data);
        true
    }

    fn read_exact(&mut self, n: usize, timeout_ms: u64) -> (r: ReadOutcome) {
        if self.cursor > self.feed.len() || n > self.feed.len() - self.cursor {
            if self.clock_ms <= u64::MAX - timeout_ms {
                self.clock_ms = self.clock_ms + timeout_ms;
            } else {
                self.clock_ms = u64::MAX;
            }
            proof {
                assert(final(self).incoming() == old(self).incoming().skip(0));
            }
            return ReadOutcome::TimedOut;
        }
        let v = vstd::slice::slice_to_vec(
            vstd::slice::slice_subrange(self.feed.as_slice(), self.cursor, self.cursor + n),
        );
        self.cursor = self.cursor + n;
        if self.clock_ms <= u64::MAX - self.read_tick_ms {
            self.clock_ms = self.clock_ms + self.read_tick_ms;
        } else {
            self.clock_ms = u64::MAX;
        }
        proof {
            assert(v@ =~= old(self).incoming().take(n as int));
            assert(final(self).incoming() =~= old(self).incoming().skip(n as int));
        }
        ReadOutcome::Filled(v)
    }

    fn now_ms(&mut self) -> (t: u64) {
        self.clock_ms
    }

    fn forward_log(&mut self, level: u8, text: String) {
        self.logs.push((level, text));
    }

    fn warn_local(&mut self, _text: &str) {
        if self.warning_count < usize::MAX {
            self.warning_count = self.warning_count + 1;
        }
    }
}

} // verus!
