//! The probe loop's state machine: one Echo Request per sequence number,
//! a bounded receive poll per request, cooperative cancellation, and the
//! running statistics of the run. The machine decides; the caller performs
//! the sends, reads, sleeps and clock readings and hands the results back.

use crate::codec::{build_echo_request, echo_request_spec, is_matching_reply, matching_reply_spec, EchoReply};
use vstd::arithmetic::div_mod::{lemma_div_is_ordered, lemma_div_multiples_vanish};
use vstd::arithmetic::mul::lemma_mul_inequality;
use vstd::prelude::*;

verus! {

/// Sum of a sequence of round-trip times.
pub open spec fn seq_sum(s: Seq<u64>) -> nat
    decreases s.len(),
{
    if s.len() == 0 {
        0
    } else {
        (s[0] as nat) + seq_sum(s.skip(1))
    }
}

/// Taking one more element extends the sum by that element.
proof fn lemma_seq_sum_extend(s: Seq<u64>, i: int)
    requires
        0 <= i < s.len(),
    ensures
        seq_sum(s.take(i + 1)) == seq_sum(s.take(i)) + s[i],
    decreases i,
{
    if i == 0 {
        assert(s.take(0) =~= Seq::<u64>::empty());
        assert(s.take(1).skip(1) =~= Seq::<u64>::empty());
    } else {
        assert(s.take(i + 1).skip(1) =~= s.skip(1).take(i));
        assert(s.take(i).skip(1) =~= s.skip(1).take(i - 1));
        lemma_seq_sum_extend(s.skip(1), i - 1);
    }
}

/// What a run has observed so far: attempts made, replies received, and
/// the round-trip time of each reply, in milliseconds, in reply order.
#[derive(Debug)]
pub struct RunStats {
    pub transmitted: u64,
    pub received: u64,
    pub rtts: Vec<u64>,
}

/// The end-of-run round-trip summary, in milliseconds.
#[derive(Clone, Copy, Debug, PartialEq, Eq, Structural)]
pub struct RttSummary {
    pub min_ms: u64,
    pub avg_ms: u64,
    pub max_ms: u64,
}

impl RunStats {
    /// Every reply belongs to an attempt, and every reply left one
    /// round-trip time behind.
    pub open spec fn wf(self) -> bool {
        &&& self.received as nat == self.rtts@.len()
        &&& self.received <= self.transmitted
    }

    /// The share of attempts that got no reply, as a whole percentage
    /// (rounded down); zero when nothing was attempted.
    pub fn loss_percent(&self) -> (p: u64)
        requires
            self.wf(),
        ensures
            self.transmitted == 0 ==> p == 0,
            self.transmitted > 0 ==> p == (self.transmitted - self.received) * 100 / (
            self.transmitted as int),
            p <= 100,
    {
        if self.transmitted == 0 {
            0
        } else {
            let lost: u64 = self.transmitted - self.received;
            let p128: u128 = (lost as u128) * 100 / (self.transmitted as u128);
            proof {
                lemma_mul_inequality(lost as int, self.transmitted as int, 100);
                lemma_div_is_ordered(
                    (lost as int) * 100,
                    (self.transmitted as int) * 100,
                    self.transmitted as int,
                );
                lemma_div_multiples_vanish(100, self.transmitted as int);
            }
            p128 as u64
        }
    }

    /// The minimum, average (rounded down) and maximum round-trip time,
    /// or nothing when no reply was received. Minimum and maximum are
    /// observed values, and the average lies between them.
    pub fn summary(&self) -> (s: Option<RttSummary>)
        ensures
            s is Some <==> self.rtts@.len() > 0,
            s matches Some(v) ==> {
                &&& exists|i: int| 0 <= i < self.rtts@.len() && self.rtts@[i] == v.min_ms
                &&& exists|i: int| 0 <= i < self.rtts@.len() && self.rtts@[i] == v.max_ms
                &&& forall|i: int|
                    0 <= i < self.rtts@.len() ==> v.min_ms <= self.rtts@[i] && self.rtts@[i]
                        <= v.max_ms
                &&& v.avg_ms as nat == seq_sum(self.rtts@) / self.rtts@.len()
                &&& v.min_ms <= v.avg_ms <= v.max_ms
            },
    {
        let n: usize = self.rtts.len();
        if n == 0 {
            return None;
        }
        let first: u64 = self.rtts[0];
        let mut min_ms: u64 = first;
        let mut max_ms: u64 = first;
        let mut sum: u128 = first as u128;
        let mut i: usize = 1;
        proof {
            assert(self.rtts@.take(1).skip(1) =~= Seq::<u64>::empty());
            assert(seq_sum(Seq::<u64>::empty()) == 0);
            assert(self.rtts@.take(1)[0] == self.rtts@[0]);
            assert(seq_sum(self.rtts@.take(1)) == first as nat);
        }
        while i < n
            invariant
                1 <= i <= n,
                n == self.rtts@.len(),
                min_ms <= max_ms,
                exists|k: int| 0 <= k < i && self.rtts@[k] == min_ms,
                exists|k: int| 0 <= k < i && self.rtts@[k] == max_ms,
                forall|k: int|
                    0 <= k < i ==> min_ms <= self.rtts@[k] && self.rtts@[k] <= max_ms,
                sum as nat == seq_sum(self.rtts@.take(i as int)),
                (min_ms as nat) * i <= sum as nat,
                sum as nat <= (max_ms as nat) * i,
            decreases n - i,
        {
            let x: u64 = self.rtts[i];
            proof {
                lemma_seq_sum_extend(self.rtts@, i as int);
                assert(sum + x <= u128::MAX) by {
                    lemma_mul_inequality(max_ms as int, u64::MAX as int, i as int);
                    assert((u64::MAX as nat) * (i as nat) + u64::MAX == (u64::MAX as nat) * (
                    i as nat + 1)) by (nonlinear_arith);
                    lemma_mul_inequality(i as int + 1, u64::MAX as int, u64::MAX as int);
                };
                if x < min_ms {
                    lemma_mul_inequality(x as int, min_ms as int, i as int);
                }
                if x > max_ms {
                    lemma_mul_inequality(max_ms as int, x as int, i as int);
                }
                assert((min_ms as nat) * (i as nat) + min_ms == (min_ms as nat) * (i as nat + 1))
                    by (nonlinear_arith);
                assert((max_ms as nat) * (i as nat) + max_ms == (max_ms as nat) * (i as nat + 1))
                    by (nonlinear_arith);
                assert((x as nat) * (i as nat) + x == (x as nat) * (i as nat + 1))
                    by (nonlinear_arith);
            }
            if x < min_ms {
                min_ms = x;
            }
            if x > max_ms {
                max_ms = x;
            }
            sum = sum + (x as u128);
            i = i + 1;
        }
        proof {
            assert(self.rtts@.take(n as int) =~= self.rtts@);
        }
        let avg128: u128 = sum / (n as u128);
        proof {
            assert((min_ms as int) * (n as int) == (n as int) * (min_ms as int))
                by (nonlinear_arith);
            assert((max_ms as int) * (n as int) == (n as int) * (max_ms as int))
                by (nonlinear_arith);
            lemma_div_multiples_vanish(min_ms as int, n as int);
            lemma_div_is_ordered((n as int) * (min_ms as int), sum as int, n as int);
            lemma_div_is_ordered(sum as int, (n as int) * (max_ms as int), n as int);
            lemma_div_multiples_vanish(max_ms as int, n as int);
        }
        let avg_ms: u64 = avg128 as u64;
        Some(RttSummary { min_ms, avg_ms, max_ms })
    }
}

/// Where the machine stands between calls.
#[derive(Clone, Copy, Debug, PartialEq, Eq, Structural)]
pub enum Phase {
    /// At the top of the run loop, before the next attempt.
    Ready,
    /// A request was built and handed out; its send result is awaited.
    Sending,
    /// The request went out; inbound datagrams are being polled.
    Polling,
    /// The probe's window closed; the run decides how to go on.
    AfterProbe,
    /// The run is over; only the statistics remain.
    Stopped,
}

/// One attempt to read the socket, as the three-way outcome the loop
/// needs: a datagram of `len` bytes at the front of `buf`, a read timeout
/// with no data, or a hard receive error.
#[derive(Debug)]
pub enum RecvOutcome {
    Data { buf: Vec<u8>, len: usize },
    TimedOut,
    HardError,
}

/// What the caller must do after asking whether polling may continue.
#[derive(Clone, Copy, Debug, PartialEq, Eq, Structural)]
pub enum Gate {
    /// Keep polling: read the socket once more.
    Proceed,
    /// The probe's deadline passed with no matching reply; the probe is lost.
    Expired,
    /// Cancellation was observed; the whole run stops.
    Cancelled,
}

/// What one inbound datagram meant to the probe being polled.
#[derive(Clone, Copy, Debug, PartialEq, Eq, Structural)]
pub enum PollStep {
    /// Noise or no data: keep polling.
    KeepPolling,
    /// The awaited reply arrived; the probe succeeded.
    Matched { reply: EchoReply },
    /// A hard receive error; the probe is lost.
    Failed,
}

/// What the caller must do between two attempts.
#[derive(Clone, Copy, Debug, PartialEq, Eq, Structural)]
pub enum NextStep {
    /// The run is over.
    Stop,
    /// Sleep this many milliseconds, then ask for the next action.
    Sleep(u64),
    /// Ask for the next action at once (a count-limited run never sleeps
    /// after its last attempt).
    Immediate,
}

/// The next probe's sequence number: one more, wrapping past 65535 back
/// to 1 so that the reserved value 0 is never emitted.
pub open spec fn next_sequence_spec(seq_no: u16) -> u16 {
    if seq_no == 0xFFFF {
        1
    } else {
        (seq_no + 1) as u16
    }
}

/// Advances a probe sequence number; the result is never 0.
pub fn next_sequence(seq_no: u16) -> (r: u16)
    ensures
        r == next_sequence_spec(seq_no),
        r != 0,
{
    if seq_no == 0xFFFF {
        1
    } else {
        seq_no + 1
    }
}

/// The probe loop's state: the run's fixed parameters, the sequence
/// number of the current probe, the statistics gathered so far, and the
/// phase the machine is in.
pub struct Runner {
    /// Identifier placed in every request and expected in every reply.
    pub ident: u16,
    /// Payload placed in every request.
    pub payload: Vec<u8>,
    /// Bound on the number of attempts; unbounded when absent.
    pub count: Option<u64>,
    /// How long one probe waits for its reply, in milliseconds.
    pub deadline_ms: u64,
    /// How long the loop sleeps between attempts, in milliseconds.
    pub interval_ms: u64,
    /// Sequence number of the current (or next) probe; never 0.
    pub seq_no: u16,
    /// The statistics gathered so far.
    pub stats: RunStats,
    /// Where the machine stands.
    pub phase: Phase,
}

impl Runner {
    /// The machine's invariant: sound statistics, a non-zero sequence
    /// number, a buildable packet, and — while a probe is being polled —
    /// an attempt counted for it that no reply has answered yet.
    pub open spec fn wf(self) -> bool {
        &&& self.stats.wf()
        &&& self.seq_no != 0
        &&& self.payload@.len() + 8 <= usize::MAX
        &&& self.phase is Polling ==> self.stats.received < self.stats.transmitted
    }

    /// The run's fixed parameters are those of `other`.
    pub open spec fn same_config(self, other: Runner) -> bool {
        &&& self.ident == other.ident
        &&& self.payload@ == other.payload@
        &&& self.count == other.count
        &&& self.deadline_ms == other.deadline_ms
        &&& self.interval_ms == other.interval_ms
    }

    /// A count limit is present and as many attempts were already made.
    pub open spec fn limit_reached(self) -> bool {
        self.count matches Some(limit) && self.stats.transmitted >= limit
    }

    /// A fresh run: no attempts yet, sequence numbering starting at 1.
    pub fn new(
        ident: u16,
        payload: Vec<u8>,
        count: Option<u64>,
        deadline_ms: u64,
        interval_ms: u64,
    ) -> (r: Runner)
        requires
            payload@.len() + 8 <= usize::MAX,
        ensures
            r.wf(),
            r.phase is Ready,
            r.seq_no == 1,
            r.stats.transmitted == 0,
            r.stats.received == 0,
            r.stats.rtts@.len() == 0,
            r.ident == ident,
            r.payload@ == payload@,
            r.count == count,
            r.deadline_ms == deadline_ms,
            r.interval_ms == interval_ms,
    {
        Runner {
            ident,
            payload,
            count,
            deadline_ms,
            interval_ms,
            seq_no: 1,
            stats: RunStats { transmitted: 0, received: 0, rtts: Vec::new() },
            phase: Phase::Ready,
        }
    }

    /// The top of the run loop. Stops the run when cancellation was
    /// observed or the count limit is reached; otherwise counts one more
    /// attempt and hands out the Echo Request to transmit for the current
    /// sequence number.
    pub fn next_action(&mut self, cancelled: bool) -> (pkt: Option<Vec<u8>>)
        requires
            old(self).wf(),
            old(self).phase is Ready,
            old(self).stats.transmitted < u64::MAX,
        ensures
            final(self).wf(),
            final(self).same_config(*old(self)),
            final(self).seq_no == old(self).seq_no,
            final(self).stats.received == old(self).stats.received,
            final(self).stats.rtts@ == old(self).stats.rtts@,
            cancelled || old(self).limit_reached() ==> {
                &&& pkt is None
                &&& final(self).phase is Stopped
                &&& final(self).stats.transmitted == old(self).stats.transmitted
            },
            !(cancelled || old(self).limit_reached()) ==> {
                &&& pkt matches Some(p) && p@ == echo_request_spec(
                    old(self).ident,
                    old(self).seq_no,
                    old(self).payload@,
                )
                &&& final(self).phase is Sending
                &&& final(self).stats.transmitted == old(self).stats.transmitted + 1
            },
    {
        let stop = cancelled || match self.count {
            Some(limit) => self.stats.transmitted >= limit,
            None => false,
        };
        if stop {
            self.phase = Phase::Stopped;
            None
        } else {
            self.stats.transmitted = self.stats.transmitted + 1;
            self.phase = Phase::Sending;
            Some(build_echo_request(self.ident, self.seq_no, self.payload.as_slice()))
        }
    }

    /// Takes the send result of the probe's request. A send failure loses
    /// the probe — it stays counted as an attempt — and skips the receive
    /// phase; a successful send opens the receive poll.
    pub fn on_send_result(&mut self, ok: bool) -> (wait: bool)
        requires
            old(self).wf(),
            old(self).phase is Sending,
            old(self).stats.received < old(self).stats.transmitted,
        ensures
            final(self).wf(),
            final(self).same_config(*old(self)),
            final(self).seq_no == old(self).seq_no,
            final(self).stats.transmitted == old(self).stats.transmitted,
            final(self).stats.received == old(self).stats.received,
            final(self).stats.rtts@ == old(self).stats.rtts@,
            wait == ok,
            ok ==> final(self).phase is Polling,
            !ok ==> final(self).phase is AfterProbe,
    {
        if ok {
            self.phase = Phase::Polling;
        } else {
            self.phase = Phase::AfterProbe;
        }
        ok
    }

    /// Asks whether the receive poll may continue, against the probe's
    /// deadline first and the cancellation flag second. A passed deadline
    /// loses the probe; cancellation ends the whole run, not just the
    /// probe.
    pub fn poll_gate(&mut self, elapsed_ms: u64, cancelled: bool) -> (g: Gate)
        requires
            old(self).wf(),
            old(self).phase is Polling,
        ensures
            final(self).wf(),
            final(self).same_config(*old(self)),
            final(self).seq_no == old(self).seq_no,
            final(self).stats.transmitted == old(self).stats.transmitted,
            final(self).stats.received == old(self).stats.received,
            final(self).stats.rtts@ == old(self).stats.rtts@,
            g == if elapsed_ms >= old(self).deadline_ms {
                Gate::Expired
            } else if cancelled {
                Gate::Cancelled
            } else {
                Gate::Proceed
            },
            g is Expired ==> final(self).phase is AfterProbe,
            g is Cancelled ==> final(self).phase is Stopped,
            g is Proceed ==> final(self).phase is Polling,
    {
        if elapsed_ms >= self.deadline_ms {
            self.phase = Phase::AfterProbe;
            Gate::Expired
        } else if cancelled {
            self.phase = Phase::Stopped;
            Gate::Cancelled
        } else {
            Gate::Proceed
        }
    }

    /// Takes one read outcome during the receive poll. The awaited reply
    /// — and only it — closes the probe as received and records its
    /// round-trip time; a timeout or an unrelated datagram keeps the poll
    /// going; a hard receive error loses the probe.
    pub fn on_recv(&mut self, recv: &RecvOutcome, elapsed_ms: u64) -> (step: PollStep)
        requires
            old(self).wf(),
            old(self).phase is Polling,
            recv matches RecvOutcome::Data { buf, len } ==> len <= buf@.len(),
        ensures
            final(self).wf(),
            final(self).same_config(*old(self)),
            final(self).seq_no == old(self).seq_no,
            final(self).stats.transmitted == old(self).stats.transmitted,
            recv is HardError ==> {
                &&& step is Failed
                &&& final(self).phase is AfterProbe
                &&& final(self).stats.received == old(self).stats.received
                &&& final(self).stats.rtts@ == old(self).stats.rtts@
            },
            recv is TimedOut ==> {
                &&& step is KeepPolling
                &&& final(self).phase is Polling
                &&& final(self).stats.received == old(self).stats.received
                &&& final(self).stats.rtts@ == old(self).stats.rtts@
            },
            recv matches RecvOutcome::Data { buf, len } ==> match matching_reply_spec(
                buf@,
                *len as int,
                old(self).ident,
                old(self).seq_no,
            ) {
                Some(reply) => {
                    &&& step == (PollStep::Matched { reply })
                    &&& final(self).phase is AfterProbe
                    &&& final(self).stats.received == old(self).stats.received + 1
                    &&& final(self).stats.rtts@ == old(self).stats.rtts@.push(elapsed_ms)
                },
                None => {
                    &&& step is KeepPolling
                    &&& final(self).phase is Polling
                    &&& final(self).stats.received == old(self).stats.received
                    &&& final(self).stats.rtts@ == old(self).stats.rtts@
                },
            },
    {
        match recv {
            RecvOutcome::HardError => {
                self.phase = Phase::AfterProbe;
                PollStep::Failed
            },
            RecvOutcome::TimedOut => PollStep::KeepPolling,
            RecvOutcome::Data { buf, len } => {
                match is_matching_reply(buf.as_slice(), *len, self.ident, self.seq_no) {
                    Some(reply) => {
                        self.stats.received = self.stats.received + 1;
                        self.stats.rtts.push(elapsed_ms);
                        self.phase = Phase::AfterProbe;
                        PollStep::Matched { reply }
                    },
                    None => PollStep::KeepPolling,
                }
            },
        }
    }

    /// Closes the probe's window. Cancellation stops the run; otherwise
    /// the sequence number advances (wrapping past 65535 to 1, never 0)
    /// and the loop sleeps one interval before the next attempt — except
    /// after the last attempt of a count-limited run, which goes straight
    /// to the stop decision.
    pub fn finish_probe(&mut self, cancelled: bool) -> (d: NextStep)
        requires
            old(self).wf(),
            old(self).phase is AfterProbe,
        ensures
            final(self).wf(),
            final(self).same_config(*old(self)),
            final(self).stats.transmitted == old(self).stats.transmitted,
            final(self).stats.received == old(self).stats.received,
            final(self).stats.rtts@ == old(self).stats.rtts@,
            final(self).seq_no != 0,
            cancelled ==> {
                &&& d == NextStep::Stop
                &&& final(self).phase is Stopped
                &&& final(self).seq_no == old(self).seq_no
            },
            !cancelled ==> {
                &&& final(self).phase is Ready
                &&& final(self).seq_no == next_sequence_spec(old(self).seq_no)
                &&& d == if old(self).limit_reached() {
                    NextStep::Immediate
                } else {
                    NextStep::Sleep(old(self).interval_ms)
                }
            },
    {
        if cancelled {
            self.phase = Phase::Stopped;
            NextStep::Stop
        } else {
            self.seq_no = next_sequence(self.seq_no);
            self.phase = Phase::Ready;
            let limit_hit = match self.count {
                Some(limit) => self.stats.transmitted >= limit,
                None => false,
            };
            if limit_hit {
                NextStep::Immediate
            } else {
                NextStep::Sleep(self.interval_ms)
            }
        }
    }
}

} // verus!
