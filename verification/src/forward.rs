use vstd::prelude::*;

verus! {

/// Timeout of the first probe after a connection is accepted.
pub const INITIAL_PROBE_TIMEOUT_MS: u64 = 500;

/// Timeout of each probe in the wake loop.
pub const REPROBE_TIMEOUT_MS: u64 = 1000;

/// Pause between two probes in the wake loop.
pub const REPROBE_SLEEP_MS: u64 = 1000;

/// Least distance between two wake emissions for one target.
pub const WAKE_THROTTLE_MS: u64 = 2000;

/// Total budget for waking, counted from the session's first probe.
pub const WAKE_DEADLINE_MS: u64 = 60000;

/// The wake loop re-emits the magic packet every this many failed probes.
pub const REEMIT_EVERY_PROBES: u32 = 10;

/// Timeout of the upstream dial.
pub const DIAL_TIMEOUT_MS: u64 = 5000;

/// Pause after a transient accept error.
pub const ACCEPT_RETRY_PAUSE_MS: u64 = 100;

/// A splice half stamps activity at most once per this period.
pub const TOUCH_THROTTLE_MS: u64 = 1000;

/// What a reachability probe reported.
#[derive(Debug, Clone, Copy, PartialEq, Eq, Structural)]
pub enum ProbeResult {
    Reachable,
    Unreachable,
}

/// How a connection's wake-and-splice run ended.
#[derive(Debug, Clone, Copy, PartialEq, Eq, Structural)]
pub enum ConnOutcome {
    RuleRetired,
    WakeTimeout,
    DialFailed,
    Completed,
}

/// Where a connection stands in the wake-and-splice state machine.
#[derive(Debug, Clone, Copy, PartialEq, Eq, Structural)]
pub enum ConnPhase {
    AwaitInitialProbe,
    AwaitReprobe,
    AwaitDial,
    Splicing,
    Done(ConnOutcome),
}

/// The I/O the driver must perform next; the machine itself does none.
#[derive(Debug, Clone, Copy, PartialEq, Eq, Structural)]
pub enum IoStep {
    Probe { timeout_ms: u64 },
    Dial { timeout_ms: u64 },
    StartSplice,
    CloseClient,
}

/// One step's orders: optionally emit a magic packet, optionally sleep, then
/// perform the I/O step.
#[derive(Debug, Clone, Copy, PartialEq, Eq, Structural)]
pub struct Command {
    pub emit_wake: bool,
    pub sleep_ms: u64,
    pub io: IoStep,
}

/// Per-connection state of the wake-and-splice machine.
#[derive(Debug, Clone, Copy, PartialEq, Eq, Structural)]
pub struct ConnState {
    pub phase: ConnPhase,
    /// Instant of the session's first probe; the wake deadline counts from it.
    pub first_probe_at: u64,
    /// Failed probes since the last wake emission attempt.
    pub probes_since_wake: u32,
    /// Whether the upstream dial has already failed once (one retry allowed).
    pub dialed_once: bool,
}

/// Whether a wake emission is allowed: none was attempted yet, or the last
/// attempt lies at least the throttle period in the past.
pub open spec fn wake_allowed_spec(last_wake: Option<u64>, now: u64) -> bool {
    match last_wake {
        None => true,
        Some(t) => now >= t + WAKE_THROTTLE_MS,
    }
}

pub fn wake_allowed(last_wake: Option<u64>, now: u64) -> (r: bool)
    ensures
        r == wake_allowed_spec(last_wake, now),
{
    match last_wake {
        None => true,
        Some(t) => now >= t && now - t >= WAKE_THROTTLE_MS,
    }
}

/// Accept step: a retired rule closes the client at once;
/// otherwise the machine asks for the initial probe.
pub fn on_accept(target_present: bool, now: u64) -> (r: (ConnState, Command))
    ensures
        !target_present ==> r.0.phase == ConnPhase::Done(ConnOutcome::RuleRetired) && r.1 == (
        Command { emit_wake: false, sleep_ms: 0, io: IoStep::CloseClient }),
        target_present ==> r.0 == (ConnState {
            phase: ConnPhase::AwaitInitialProbe,
            first_probe_at: now,
            probes_since_wake: 0,
            dialed_once: false,
        }) && r.1 == (Command {
            emit_wake: false,
            sleep_ms: 0,
            io: IoStep::Probe { timeout_ms: INITIAL_PROBE_TIMEOUT_MS },
        }),
{
    if !target_present {
        let s = ConnState {
            phase: ConnPhase::Done(ConnOutcome::RuleRetired),
            first_probe_at: now,
            probes_since_wake: 0,
            dialed_once: false,
        };
        (s, Command { emit_wake: false, sleep_ms: 0, io: IoStep::CloseClient })
    } else {
        let s = ConnState {
            phase: ConnPhase::AwaitInitialProbe,
            first_probe_at: now,
            probes_since_wake: 0,
            dialed_once: false,
        };
        (
            s,
            Command {
                emit_wake: false,
                sleep_ms: 0,
                io: IoStep::Probe { timeout_ms: INITIAL_PROBE_TIMEOUT_MS },
            },
        )
    }
}

/// Whether this step of the wake loop is one at which the machine tries to
/// emit: on entering the loop, and again every `REEMIT_EVERY_PROBES` probes.
pub open spec fn wake_due_spec(s: ConnState) -> bool {
    s.phase == ConnPhase::AwaitInitialProbe || s.probes_since_wake + 1 >= REEMIT_EVERY_PROBES
}

/// Probe step: reachable moves to dialing; an expired
/// deadline closes the client; otherwise the wake loop continues, emitting a
/// magic packet only when due and allowed by the throttle.
pub fn on_probe(s: ConnState, result: ProbeResult, now: u64, last_wake: Option<u64>) -> (r: (
    ConnState,
    Command,
))
    requires
        s.phase == ConnPhase::AwaitInitialProbe || s.phase == ConnPhase::AwaitReprobe,
        now >= s.first_probe_at,
    ensures
        result == ProbeResult::Reachable ==> r.0 == (ConnState {
            phase: ConnPhase::AwaitDial,
            ..s
        }) && r.1 == (Command {
            emit_wake: false,
            sleep_ms: 0,
            io: IoStep::Dial { timeout_ms: DIAL_TIMEOUT_MS },
        }),
        result == ProbeResult::Unreachable && now - s.first_probe_at >= WAKE_DEADLINE_MS ==> r.0
            == (ConnState { phase: ConnPhase::Done(ConnOutcome::WakeTimeout), ..s }) && r.1 == (
        Command { emit_wake: false, sleep_ms: 0, io: IoStep::CloseClient }),
        result == ProbeResult::Unreachable && now - s.first_probe_at < WAKE_DEADLINE_MS ==> {
            &&& r.0.phase == ConnPhase::AwaitReprobe
            &&& r.0.first_probe_at == s.first_probe_at
            &&& r.0.dialed_once == s.dialed_once
            &&& r.1.io == (IoStep::Probe { timeout_ms: REPROBE_TIMEOUT_MS })
            &&& r.1.sleep_ms == REPROBE_SLEEP_MS
            &&& r.1.emit_wake == (wake_due_spec(s) && wake_allowed_spec(last_wake, now))
            &&& r.0.probes_since_wake == (if wake_due_spec(s) && wake_allowed_spec(
                last_wake,
                now,
            ) {
                0u32
            } else if s.probes_since_wake < u32::MAX {
                (s.probes_since_wake + 1) as u32
            } else {
                u32::MAX
            })
        },
        // The throttle is never overridden: an order to emit proves the gap.
        r.1.emit_wake ==> wake_allowed_spec(last_wake, now),
{
    match result {
        ProbeResult::Reachable => {
            let next = ConnState { phase: ConnPhase::AwaitDial, ..s };
            (
                next,
                Command {
                    emit_wake: false,
                    sleep_ms: 0,
                    io: IoStep::Dial { timeout_ms: DIAL_TIMEOUT_MS },
                },
            )
        }
        ProbeResult::Unreachable => {
            if now - s.first_probe_at >= WAKE_DEADLINE_MS {
                let next = ConnState { phase: ConnPhase::Done(ConnOutcome::WakeTimeout), ..s };
                (next, Command { emit_wake: false, sleep_ms: 0, io: IoStep::CloseClient })
            } else {
                let due = match s.phase {
                    ConnPhase::AwaitInitialProbe => true,
                    _ => s.probes_since_wake >= REEMIT_EVERY_PROBES - 1,
                };
                let emit = due && wake_allowed(last_wake, now);
                let counter: u32 = if emit {
                    0
                } else if s.probes_since_wake < u32::MAX {
                    s.probes_since_wake + 1
                } else {
                    u32::MAX
                };
                let next = ConnState {
                    phase: ConnPhase::AwaitReprobe,
                    probes_since_wake: counter,
                    ..s
                };
                (
                    next,
                    Command {
                        emit_wake: emit,
                        sleep_ms: REPROBE_SLEEP_MS,
                        io: IoStep::Probe { timeout_ms: REPROBE_TIMEOUT_MS },
                    },
                )
            }
        }
    }
}

/// Dial step: success starts the splice; the first failure goes
/// back to probing once; the second closes the client.
pub fn on_dial(s: ConnState, ok: bool, now: u64) -> (r: (ConnState, Command))
    requires
        s.phase == ConnPhase::AwaitDial,
    ensures
        ok ==> r.0 == (ConnState { phase: ConnPhase::Splicing, ..s }) && r.1 == (Command {
            emit_wake: false,
            sleep_ms: 0,
            io: IoStep::StartSplice,
        }),
        !ok && !s.dialed_once ==> r.0 == (ConnState {
            phase: ConnPhase::AwaitReprobe,
            dialed_once: true,
            ..s
        }) && r.1 == (Command {
            emit_wake: false,
            sleep_ms: 0,
            io: IoStep::Probe { timeout_ms: REPROBE_TIMEOUT_MS },
        }),
        !ok && s.dialed_once ==> r.0 == (ConnState {
            phase: ConnPhase::Done(ConnOutcome::DialFailed),
            ..s
        }) && r.1 == (Command { emit_wake: false, sleep_ms: 0, io: IoStep::CloseClient }),
{
    if ok {
        (
            ConnState { phase: ConnPhase::Splicing, ..s },
            Command { emit_wake: false, sleep_ms: 0, io: IoStep::StartSplice },
        )
    } else if !s.dialed_once {
        (
            ConnState { phase: ConnPhase::AwaitReprobe, dialed_once: true, ..s },
            Command {
                emit_wake: false,
                sleep_ms: 0,
                io: IoStep::Probe { timeout_ms: REPROBE_TIMEOUT_MS },
            },
        )
    } else {
        (
            ConnState { phase: ConnPhase::Done(ConnOutcome::DialFailed), ..s },
            Command { emit_wake: false, sleep_ms: 0, io: IoStep::CloseClient },
        )
    }
}

/// Splice end: both halves finished; the connection is done.
pub fn on_splice_end(s: ConnState) -> (r: ConnState)
    requires
        s.phase == ConnPhase::Splicing,
    ensures
        r == (ConnState { phase: ConnPhase::Done(ConnOutcome::Completed), ..s }),
{
    ConnState { phase: ConnPhase::Done(ConnOutcome::Completed), ..s }
}

/// Two wake emissions for one target lie at least the throttle period apart:
/// the first stamped the attempt instant, and the second is only ordered when
/// the throttle allows it.
pub proof fn lemma_wake_throttle(t1: u64, t2: u64)
    requires
        wake_allowed_spec(Some(t1), t2),
    ensures
        t2 >= t1 + WAKE_THROTTLE_MS,
{
}

proof fn lemma_emission_chain(times: Seq<u64>)
    requires
        times.len() >= 1,
        forall|i: int|
            0 <= i < times.len() - 1 ==> #[trigger] times[i + 1] >= times[i] + WAKE_THROTTLE_MS,
    ensures
        times.last() >= times[0] + (times.len() - 1) * WAKE_THROTTLE_MS,
    decreases times.len(),
{
    if times.len() > 1 {
        let head = times.drop_last();
        assert forall|i: int|
            0 <= i < head.len() - 1 implies #[trigger] head[i + 1] >= head[i] + WAKE_THROTTLE_MS by {
            assert(times[i + 1] >= times[i] + WAKE_THROTTLE_MS);
        }
        lemma_emission_chain(head);
        assert(times[times.len() - 2] == head.last());
        assert(times.last() >= times[times.len() - 2] + WAKE_THROTTLE_MS) by {
            assert(times[(times.len() - 2) + 1] >= times[times.len() - 2] + WAKE_THROTTLE_MS);
        }
    }
}

/// Concurrent racers cannot flood: emissions for one target within a window
/// of `elapsed` milliseconds number at most `elapsed / WAKE_THROTTLE_MS + 1`,
/// because consecutive emissions are at least the throttle period apart.
pub proof fn lemma_emission_bound(times: Seq<u64>, window_start: u64, elapsed: u64)
    requires
        forall|i: int|
            0 <= i < times.len() ==> window_start <= #[trigger] times[i] <= window_start + elapsed,
        forall|i: int|
            0 <= i < times.len() - 1 ==> #[trigger] times[i + 1] >= times[i] + WAKE_THROTTLE_MS,
    ensures
        times.len() <= elapsed / WAKE_THROTTLE_MS + 1,
{
    if times.len() >= 2 {
        lemma_emission_chain(times);
        let k = times.len() - 1;
        assert(times.last() <= window_start + elapsed);
        assert(times[0] >= window_start);
        assert(k * WAKE_THROTTLE_MS <= elapsed);
        assert(k <= elapsed / WAKE_THROTTLE_MS) by (nonlinear_arith)
            requires
                k * WAKE_THROTTLE_MS <= elapsed,
                WAKE_THROTTLE_MS == 2000,
                k >= 0,
        ;
    }
}

// ---------------------------------------------------------------------------
// Splice byte accounting
// ---------------------------------------------------------------------------

/// Whether an activity stamp is due: none was made yet, or the last one lies
/// at least the touch throttle in the past.
pub open spec fn touch_due_spec(last_touch: Option<u64>, now: u64) -> bool {
    match last_touch {
        None => true,
        Some(t) => now >= t + TOUCH_THROTTLE_MS,
    }
}

/// One direction of a splice: bytes read from its source, bytes delivered to
/// its sink, and what sits in between.
#[derive(Debug, Clone, Copy, PartialEq, Eq, Structural)]
pub struct SpliceHalf {
    pub read_total: u64,
    pub delivered_total: u64,
    pub pending: u64,
    pub source_eof: bool,
    pub aborted: bool,
    pub last_touch: Option<u64>,
}

impl SpliceHalf {
    /// Bytes are conserved: everything read is delivered or still pending.
    pub open spec fn wf(self) -> bool {
        self.delivered_total + self.pending == self.read_total
    }

    /// The half is drained: its source ended and nothing is pending.
    pub open spec fn finished(self) -> bool {
        self.source_eof && self.pending == 0
    }

    pub fn new() -> (h: SpliceHalf)
        ensures
            h == (SpliceHalf {
                read_total: 0,
                delivered_total: 0,
                pending: 0,
                source_eof: false,
                aborted: false,
                last_touch: None,
            }),
            h.wf(),
    {
        SpliceHalf {
            read_total: 0,
            delivered_total: 0,
            pending: 0,
            source_eof: false,
            aborted: false,
            last_touch: None,
        }
    }

    /// Records `n` bytes read from the source; says whether the driver should
    /// stamp activity now (at most once per throttle period).
    pub fn on_read(&mut self, n: u64, now: u64) -> (touch: bool)
        requires
            old(self).wf(),
            !old(self).source_eof,
            old(self).read_total + n <= u64::MAX,
        ensures
            final(self).wf(),
            final(self).read_total == old(self).read_total + n,
            final(self).pending == old(self).pending + n,
            final(self).delivered_total == old(self).delivered_total,
            final(self).source_eof == old(self).source_eof,
            final(self).aborted == old(self).aborted,
            touch == touch_due_spec(old(self).last_touch, now),
            final(self).last_touch == (if touch {
                Some(now)
            } else {
                old(self).last_touch
            }),
    {
        self.read_total = self.read_total + n;
        self.pending = self.pending + n;
        let touch = match self.last_touch {
            None => true,
            Some(t) => now >= t && now - t >= TOUCH_THROTTLE_MS,
        };
        if touch {
            self.last_touch = Some(now);
        }
        touch
    }

    /// Records `n` bytes delivered to the sink.
    pub fn on_delivered(&mut self, n: u64)
        requires
            old(self).wf(),
            n <= old(self).pending,
        ensures
            final(self).wf(),
            final(self).delivered_total == old(self).delivered_total + n,
            final(self).pending == old(self).pending - n,
            final(self).read_total == old(self).read_total,
            final(self).source_eof == old(self).source_eof,
            final(self).aborted == old(self).aborted,
            final(self).last_touch == old(self).last_touch,
    {
        self.delivered_total = self.delivered_total + n;
        self.pending = self.pending - n;
    }

    /// Records end of the source stream: the sink is half-closed after the
    /// pending bytes drain.
    pub fn on_eof(&mut self)
        ensures
            *final(self) == (SpliceHalf { source_eof: true, ..*old(self) }),
    {
        self.source_eof = true;
    }

    /// Records an I/O error: the session ends; undelivered bytes may be lost.
    pub fn on_error(&mut self)
        ensures
            *final(self) == (SpliceHalf { aborted: true, ..*old(self) }),
    {
        self.aborted = true;
    }
}

/// Byte conservation: a drained, unaborted half delivered to its
/// sink exactly the bytes it read from its source.
pub proof fn lemma_splice_conservation(h: SpliceHalf)
    requires
        h.wf(),
        h.finished(),
        !h.aborted,
    ensures
        h.delivered_total == h.read_total,
{
}

// ---------------------------------------------------------------------------
// Per-rule counters
// ---------------------------------------------------------------------------

/// Counters a forwarder keeps per rule.
#[derive(Debug, Clone, Copy, PartialEq, Eq, Structural)]
pub struct RuleStats {
    pub accepts_total: u64,
    pub wake_timeouts_total: u64,
    pub dial_failures_total: u64,
    pub wol_emissions_total: u64,
}

impl RuleStats {
    pub fn new() -> (r: RuleStats)
        ensures
            r == (RuleStats {
                accepts_total: 0,
                wake_timeouts_total: 0,
                dial_failures_total: 0,
                wol_emissions_total: 0,
            }),
    {
        RuleStats {
            accepts_total: 0,
            wake_timeouts_total: 0,
            dial_failures_total: 0,
            wol_emissions_total: 0,
        }
    }

    pub fn note_accept(&mut self)
        requires
            old(self).accepts_total < u64::MAX,
        ensures
            *final(self) == (RuleStats {
                accepts_total: (old(self).accepts_total + 1) as u64,
                ..*old(self)
            }),
    {
        self.accepts_total = self.accepts_total + 1;
    }

    pub fn note_wake_emitted(&mut self)
        requires
            old(self).wol_emissions_total < u64::MAX,
        ensures
            *final(self) == (RuleStats {
                wol_emissions_total: (old(self).wol_emissions_total + 1) as u64,
                ..*old(self)
            }),
    {
        self.wol_emissions_total = self.wol_emissions_total + 1;
    }

    /// Folds a finished connection's outcome into the counters.
    pub fn note_outcome(&mut self, outcome: ConnOutcome)
        requires
            old(self).wake_timeouts_total < u64::MAX,
            old(self).dial_failures_total < u64::MAX,
        ensures
            *final(self) == (RuleStats {
                wake_timeouts_total: (old(self).wake_timeouts_total + (if outcome
                    == ConnOutcome::WakeTimeout {
                    1u64
                } else {
                    0u64
                })) as u64,
                dial_failures_total: (old(self).dial_failures_total + (if outcome
                    == ConnOutcome::DialFailed {
                    1u64
                } else {
                    0u64
                })) as u64,
                ..*old(self)
            }),
    {
        match outcome {
            ConnOutcome::WakeTimeout => {
                self.wake_timeouts_total = self.wake_timeouts_total + 1;
            }
            ConnOutcome::DialFailed => {
                self.dial_failures_total = self.dial_failures_total + 1;
            }
            _ => {}
        }
    }
}

} // verus!
