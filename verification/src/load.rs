//! Decisions of the HTTP load generator and of the sequential streaming
//! probe: what each response does to a worker's counters, how the workers'
//! counters merge, and when the probe keeps, discards or retries.
use vstd::prelude::*;

verus! {

/// Largest latency the histogram holds, in microseconds (60 s).
pub const HIST_MAX_US: u64 = 60_000_000;

/// Per-request timeout, in seconds.
pub const REQUEST_TIMEOUT_SECS: u64 = 30;

/// Pause after a failed request, in milliseconds.
pub const BACKOFF_MS: u64 = 2;

/// A latency clamped into the histogram's range `[1, HIST_MAX_US]`.
pub open spec fn clamped(us: u64) -> u64 {
    if us < 1 {
        1
    } else if us > HIST_MAX_US {
        HIST_MAX_US
    } else {
        us
    }
}

/// Clamps a measured latency into the histogram's range.
pub fn clamp_latency(us: u64) -> (res: u64)
    ensures
        res == clamped(us),
        1 <= res <= HIST_MAX_US,
{
    if us < 1 {
        1
    } else if us > HIST_MAX_US {
        HIST_MAX_US
    } else {
        us
    }
}

/// Requests completed, body bytes read and errors seen by one worker.
#[derive(Clone, Copy, PartialEq, Eq, Debug, Structural)]
pub struct WorkerStats {
    pub count: u64,
    pub bytes: u64,
    pub errors: u64,
}

/// How one request ended.
#[derive(Clone, Copy, PartialEq, Eq, Debug, Structural)]
pub enum RequestOutcome {
    /// The body was read: whether the status was 2xx, the body length and
    /// the elapsed time in microseconds.
    Body { success: bool, body_len: u64, elapsed_us: u64 },
    /// The response came but its body could not be read (or timed out).
    ReadFailed,
    /// Connecting or sending failed (or timed out).
    SendFailed,
}

/// What the worker does after a request.
#[derive(Clone, Copy, PartialEq, Eq, Debug, Structural)]
pub struct WorkerAction {
    /// The latency to record in the histogram, if any.
    pub record_us: Option<u64>,
    /// Whether to pause briefly before the next request.
    pub backoff: bool,
}

impl WorkerStats {
    /// A worker that has done nothing yet.
    pub fn new() -> (res: WorkerStats)
        ensures
            res == (WorkerStats { count: 0, bytes: 0, errors: 0 }),
    {
        WorkerStats { count: 0, bytes: 0, errors: 0 }
    }

    /// The counters after a request that ended with `outcome`: a read body
    /// counts as a completed request with its bytes (and as an error when the
    /// status is not 2xx); a failed read or send counts as an error.
    pub open spec fn after(self, outcome: RequestOutcome) -> (int, int, int) {
        match outcome {
            RequestOutcome::Body { success, body_len, elapsed_us } => (
                self.count + 1,
                self.bytes + body_len,
                self.errors + if success {
                    0int
                } else {
                    1int
                },
            ),
            _ => (self.count as int, self.bytes as int, self.errors + 1),
        }
    }

    /// The counters after `outcome` fit in 64 bits.
    pub open spec fn fits(self, outcome: RequestOutcome) -> bool {
        let (c, b, e) = self.after(outcome);
        c <= u64::MAX && b <= u64::MAX && e <= u64::MAX
    }

    /// Whether the counters after `outcome` fit in 64 bits.
    pub fn outcome_fits(&self, outcome: RequestOutcome) -> (res: bool)
        ensures
            res == self.fits(outcome),
    {
        match outcome {
            RequestOutcome::Body { success, body_len, elapsed_us } => {
                self.count < u64::MAX && body_len <= u64::MAX - self.bytes && (success
                    || self.errors < u64::MAX)
            },
            _ => self.errors < u64::MAX,
        }
    }

    /// Accounts for one request and says what the worker does next: record
    /// the clamped latency of a read body; back off after a failed read or send.
    pub fn record(&mut self, outcome: RequestOutcome) -> (action: WorkerAction)
        requires
            old(self).fits(outcome),
        ensures
            (final(self).count as int, final(self).bytes as int, final(self).errors as int)
                == old(self).after(outcome),
            action == (match outcome {
                RequestOutcome::Body { success, body_len, elapsed_us } => WorkerAction {
                    record_us: Some(clamped(elapsed_us)),
                    backoff: false,
                },
                _ => WorkerAction { record_us: None, backoff: true },
            }),
    {
        match outcome {
            RequestOutcome::Body { success, body_len, elapsed_us } => {
                self.count = self.count + 1;
                self.bytes = self.bytes + body_len;
                if !success {
                    self.errors = self.errors + 1;
                }
                WorkerAction { record_us: Some(clamp_latency(elapsed_us)), backoff: false }
            },
            _ => {
                self.errors = self.errors + 1;
                WorkerAction { record_us: None, backoff: true }
            },
        }
    }

    /// The two workers' counters, summed.
    pub open spec fn sum(self, other: WorkerStats) -> (int, int, int) {
        (
            self.count + other.count,
            self.bytes + other.bytes,
            self.errors + other.errors,
        )
    }

    /// Whether the summed counters fit in 64 bits.
    pub fn can_merge(&self, other: &WorkerStats) -> (res: bool)
        ensures
            res == (self.sum(*other).0 <= u64::MAX && self.sum(*other).1 <= u64::MAX && self.sum(
                *other,
            ).2 <= u64::MAX),
    {
        other.count <= u64::MAX - self.count && other.bytes <= u64::MAX - self.bytes
            && other.errors <= u64::MAX - self.errors
    }

    /// Adds another worker's counters to these (merging a pass's workers).
    pub fn merge(&mut self, other: &WorkerStats)
        requires
            old(self).sum(*other).0 <= u64::MAX,
            old(self).sum(*other).1 <= u64::MAX,
            old(self).sum(*other).2 <= u64::MAX,
        ensures
            (final(self).count as int, final(self).bytes as int, final(self).errors as int)
                == old(self).sum(*other),
    {
        self.count = self.count + other.count;
        self.bytes = self.bytes + other.bytes;
        self.errors = self.errors + other.errors;
    }
}

/// Merging counters does not depend on the order of the workers.
pub proof fn lemma_merge_order(a: WorkerStats, b: WorkerStats, c: WorkerStats)
    ensures
        a.sum(b) == b.sum(a),
        a.sum(b).0 + c.count == a.count + b.sum(c).0,
        a.sum(b).1 + c.bytes == a.bytes + b.sum(c).1,
        a.sum(b).2 + c.errors == a.errors + b.sum(c).2,
{
}

// ── streaming probe ────────────────────────────────────────────────────────

/// Probes at the start that are warm-up and not kept.
pub const PROBE_WARMUP: usize = 3;

/// Consecutive failed attempts of one probe after which the probe gives up.
pub const PROBE_MAX_ATTEMPTS: usize = 60;

/// Pause between attempts of a failed probe, in milliseconds.
pub const PROBE_RETRY_MS: u64 = 250;

/// Where the probe stands: which probe it runs and how many attempts of it
/// have failed.
#[derive(Clone, Copy, PartialEq, Eq, Debug, Structural)]
pub struct ProbeState {
    pub iteration: usize,
    pub attempt: usize,
}

/// How one attempt of a probe ended.
#[derive(Clone, Copy, PartialEq, Eq, Debug, Structural)]
pub enum ProbeEvent {
    Succeeded,
    Failed,
}

/// What the probe does after an attempt.
#[derive(Clone, Copy, PartialEq, Eq, Debug, Structural)]
pub enum ProbeStep {
    /// Keep the measurement and go on with the next probe.
    Keep,
    /// Drop the measurement (warm-up) and go on with the next probe.
    Discard,
    /// Wait, then try the same probe again.
    Retry,
    /// Stop and report the last error.
    GiveUp,
}

/// How many probes a run makes for `samples` kept measurements.
pub fn probe_iterations(samples: usize) -> (res: usize)
    requires
        samples + PROBE_WARMUP <= usize::MAX,
    ensures
        res == samples + PROBE_WARMUP,
{
    samples + PROBE_WARMUP
}

/// The first probe, with no failed attempt.
pub fn probe_start() -> (res: ProbeState)
    ensures
        res == (ProbeState { iteration: 0, attempt: 0 }),
{
    ProbeState { iteration: 0, attempt: 0 }
}

/// Whether all `total` probes are done.
pub fn probe_done(state: ProbeState, total: usize) -> (res: bool)
    ensures
        res == (state.iteration >= total),
{
    state.iteration >= total
}

/// The probe's next state and step after an attempt: a success is kept once
/// the warm-up probes are done and starts the next probe afresh; a failure
/// is retried until the sixtieth consecutive failure of the probe, which
/// gives up.
pub fn probe_next(state: ProbeState, event: ProbeEvent) -> (res: (ProbeState, ProbeStep))
    requires
        state.iteration < usize::MAX,
        state.attempt < PROBE_MAX_ATTEMPTS,
    ensures
        match event {
            ProbeEvent::Succeeded => res.0 == (ProbeState {
                iteration: (state.iteration + 1) as usize,
                attempt: 0,
            }) && res.1 == if state.iteration >= PROBE_WARMUP {
                ProbeStep::Keep
            } else {
                ProbeStep::Discard
            },
            ProbeEvent::Failed => res.0 == (ProbeState {
                iteration: state.iteration,
                attempt: (state.attempt + 1) as usize,
            }) && res.1 == if state.attempt + 1 >= PROBE_MAX_ATTEMPTS {
                ProbeStep::GiveUp
            } else {
                ProbeStep::Retry
            },
        },
{
    match event {
        ProbeEvent::Succeeded => {
            let step = if state.iteration >= PROBE_WARMUP {
                ProbeStep::Keep
            } else {
                ProbeStep::Discard
            };
            (ProbeState { iteration: state.iteration + 1, attempt: 0 }, step)
        },
        ProbeEvent::Failed => {
            let attempt = state.attempt + 1;
            let step = if attempt >= PROBE_MAX_ATTEMPTS {
                ProbeStep::GiveUp
            } else {
                ProbeStep::Retry
            };
            (ProbeState { iteration: state.iteration, attempt }, step)
        },
    }
}

/// How many measurements a run of `total` successful probes keeps.
pub open spec fn kept_of(total: nat) -> nat
    decreases total,
{
    if total == 0 {
        0
    } else {
        kept_of((total - 1) as nat) + if total - 1 >= PROBE_WARMUP {
            1nat
        } else {
            0nat
        }
    }
}

/// A probe run keeps one measurement per requested sample: of
/// `samples + 3` probes, the first three are warm-up.
pub proof fn lemma_probe_keeps_samples(samples: nat)
    ensures
        kept_of(samples + PROBE_WARMUP as nat) == samples,
    decreases samples,
{
    reveal_with_fuel(kept_of, 4);
    if samples > 0 {
        lemma_probe_keeps_samples((samples - 1) as nat);
    }
}

} // verus!
