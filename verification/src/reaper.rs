use vstd::prelude::*;
use crate::activity::TargetActivity;
use crate::forward::ProbeResult;

verus! {

/// Cadence of the reaper's sweep.
pub const REAPER_TICK_MS: u64 = 10000;

/// What one reaper tick does with one target.
#[derive(Debug, Clone, Copy, PartialEq, Eq, Structural)]
pub enum ReaperDecision {
    /// Not shutdown-eligible, or no shutdown port configured.
    SkipNotEligible,
    /// Live sessions defer shutdown.
    SkipLiveSessions,
    /// Activity within the inactivity period defers shutdown.
    SkipNotIdle,
    /// A recent shutdown attempt is still backing off.
    SkipBackoff,
    /// Probe the shutdown port; a reachable target is asked to shut down.
    ProbeThenShutdown,
}

/// The inactivity period in milliseconds.
pub open spec fn period_ms_spec(inactivity_period_secs: u32) -> int {
    inactivity_period_secs * 1000
}

/// One target's sweep: skip it while ineligible, in use, recently active,
/// or backing off; otherwise probe and, if reachable, request shutdown. A
/// target never referenced has no activity entry and counts as idle forever.
pub open spec fn reaper_decision_spec(
    eligible: bool,
    shutdown_port: Option<u16>,
    inactivity_period_secs: u32,
    act: Option<TargetActivity>,
    now: u64,
) -> ReaperDecision {
    if !eligible || shutdown_port is None {
        ReaperDecision::SkipNotEligible
    } else if act is Some && act->0.live_sessions > 0 {
        ReaperDecision::SkipLiveSessions
    } else if act is Some && now < act->0.last_activity + period_ms_spec(inactivity_period_secs) {
        ReaperDecision::SkipNotIdle
    } else if act is Some && act->0.last_shutdown_attempt is Some && now
        < act->0.last_shutdown_attempt->0 + period_ms_spec(inactivity_period_secs) {
        ReaperDecision::SkipBackoff
    } else {
        ReaperDecision::ProbeThenShutdown
    }
}

/// One reaper tick's decision for one target.
pub fn reaper_decision(
    eligible: bool,
    shutdown_port: Option<u16>,
    inactivity_period_secs: u32,
    act: Option<TargetActivity>,
    now: u64,
) -> (r: ReaperDecision)
    ensures
        r == reaper_decision_spec(eligible, shutdown_port, inactivity_period_secs, act, now),
{
    if !eligible || shutdown_port.is_none() {
        return ReaperDecision::SkipNotEligible;
    }
    let period_ms: u64 = (inactivity_period_secs as u64) * 1000;
    match act {
        None => ReaperDecision::ProbeThenShutdown,
        Some(a) => {
            if a.live_sessions > 0 {
                ReaperDecision::SkipLiveSessions
            } else if now < a.last_activity || now - a.last_activity < period_ms {
                ReaperDecision::SkipNotIdle
            } else {
                let backing_off = match a.last_shutdown_attempt {
                    Some(t) => now < t || now - t < period_ms,
                    None => false,
                };
                if backing_off {
                    ReaperDecision::SkipBackoff
                } else {
                    ReaperDecision::ProbeThenShutdown
                }
            }
        }
    }
}

/// An unreachable shutdown port means the machine is likely
/// off already, so no request is sent; only a reachable one is asked.
pub fn shutdown_due_after_probe(probe: ProbeResult) -> (r: bool)
    ensures
        r <==> probe == ProbeResult::Reachable,
{
    match probe {
        ProbeResult::Reachable => true,
        ProbeResult::Unreachable => false,
    }
}

/// A live session defers shutdown: while the counter is positive, no tick
/// asks the target to shut down.
pub proof fn lemma_live_session_defers(
    shutdown_port: Option<u16>,
    inactivity_period_secs: u32,
    act: TargetActivity,
    now: u64,
)
    requires
        shutdown_port is Some,
        act.live_sessions > 0,
    ensures
        reaper_decision_spec(true, shutdown_port, inactivity_period_secs, Some(act), now)
            == ReaperDecision::SkipLiveSessions,
{
}

/// Activity within the inactivity period defers shutdown: a connection that
/// stamps `last_activity` less than the period before `now` skips the tick.
pub proof fn lemma_recent_activity_defers(
    shutdown_port: Option<u16>,
    inactivity_period_secs: u32,
    act: TargetActivity,
    now: u64,
)
    requires
        shutdown_port is Some,
        act.live_sessions == 0,
        now < act.last_activity + period_ms_spec(inactivity_period_secs),
    ensures
        reaper_decision_spec(true, shutdown_port, inactivity_period_secs, Some(act), now)
            == ReaperDecision::SkipNotIdle,
{
}

/// After a shutdown attempt, successful or not, no further request is made
/// for a full inactivity period: an unresponsive or already-off agent is not
/// hammered.
pub proof fn lemma_shutdown_backoff(
    shutdown_port: Option<u16>,
    inactivity_period_secs: u32,
    act: TargetActivity,
    now: u64,
    attempted_at: u64,
)
    requires
        shutdown_port is Some,
        act.live_sessions == 0,
        act.last_shutdown_attempt == Some(attempted_at),
        now < attempted_at + period_ms_spec(inactivity_period_secs),
    ensures
        reaper_decision_spec(true, shutdown_port, inactivity_period_secs, Some(act), now)
            != ReaperDecision::ProbeThenShutdown,
{
}

} // verus!
