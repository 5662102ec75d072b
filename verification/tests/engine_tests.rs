use wakezilla::activity::Tracker;
use wakezilla::forward::{
    on_accept, on_dial, on_probe, on_splice_end, wake_allowed, Command, ConnOutcome, ConnPhase,
    ConnState, IoStep, ProbeResult, RuleStats, SpliceHalf,
};
use wakezilla::net::{parse_ipv4, parse_mac};
use wakezilla::reaper::{reaper_decision, shutdown_due_after_probe, ReaperDecision};
use wakezilla::registry::{desired_rules, diff_rules, ForwardRule, Registry};
use wakezilla::shutdown::{build_shutdown_request, status_line_is_2xx};
use wakezilla::wol::{build_magic_packet, decode_magic_packet};

fn mac1() -> wakezilla::net::MacAddr {
    parse_mac("AA:BB:CC:DD:EE:01").unwrap()
}

// Magic packet round trip: the 102-byte payload decodes back to exactly the
// MAC it was built from.
#[test]
fn magic_packet_round_trip() {
    let mac = mac1();
    let p = build_magic_packet(&mac);
    assert_eq!(p.len(), 102);
    assert_eq!(&p[0..6], &[0xFF; 6]);
    let decoded = decode_magic_packet(&p).unwrap();
    assert_eq!(decoded.octets, mac.octets);
}

// Reordering the MAC bytes changes the payload.
#[test]
fn magic_packet_differs_for_reordered_mac() {
    let a = parse_mac("AA:BB:CC:DD:EE:01").unwrap();
    let b = parse_mac("01:EE:DD:CC:BB:AA").unwrap();
    let pa = build_magic_packet(&a);
    let pb = build_magic_packet(&b);
    assert_ne!(pa, pb);
}

#[test]
fn magic_packet_rejects_corrupt_payload() {
    let mac = mac1();
    let mut p = build_magic_packet(&mac);
    p[50] ^= 0x01;
    assert!(decode_magic_packet(&p).is_none());
    let short = vec![0xFF; 101];
    assert!(decode_magic_packet(&short).is_none());
}

// Tracker invariant: the per-target counter tracks open and closed sessions.
#[test]
fn tracker_counts_live_sessions() {
    let mac = mac1();
    let mut t = Tracker::new();
    let tok1 = t.open_session(&mac, 1000);
    let tok2 = t.open_session(&mac, 2000);
    assert_eq!(t.snapshot(&mac).unwrap().live_sessions, 2);
    assert!(t.close_session(&mac, tok1, 3000));
    assert_eq!(t.snapshot(&mac).unwrap().live_sessions, 1);
    // Closing the same token again changes nothing.
    assert!(!t.close_session(&mac, tok1, 3500));
    assert_eq!(t.snapshot(&mac).unwrap().live_sessions, 1);
    assert!(t.close_session(&mac, tok2, 4000));
    assert_eq!(t.snapshot(&mac).unwrap().live_sessions, 0);
}

// Tracker invariant: last_activity never moves backwards.
#[test]
fn tracker_last_activity_is_monotonic() {
    let mac = mac1();
    let mut t = Tracker::new();
    t.touch(&mac, 5000);
    assert_eq!(t.snapshot(&mac).unwrap().last_activity, 5000);
    t.touch(&mac, 4000);
    assert_eq!(t.snapshot(&mac).unwrap().last_activity, 5000);
    t.touch(&mac, 6000);
    assert_eq!(t.snapshot(&mac).unwrap().last_activity, 6000);
}

// Wake throttle: under two seconds since the last attempt, no emission.
#[test]
fn wake_throttle_enforces_two_seconds() {
    assert!(wake_allowed(None, 0));
    assert!(!wake_allowed(Some(1000), 2999));
    assert!(wake_allowed(Some(1000), 3000));
}

// Hot path: a reachable target is dialed at once, with no wake emitted.
#[test]
fn hot_path_emits_no_wake() {
    let mut stats = RuleStats::new();
    stats.note_accept();
    let (s, cmd) = on_accept(true, 0);
    assert!(matches!(cmd.io, IoStep::Probe { timeout_ms: 500 }));
    assert!(!cmd.emit_wake);
    let (s, cmd) = on_probe(s, ProbeResult::Reachable, 0, None);
    assert!(matches!(cmd.io, IoStep::Dial { timeout_ms: 5000 }));
    assert!(!cmd.emit_wake);
    let (s, cmd) = on_dial(s, true, 10);
    assert!(matches!(cmd.io, IoStep::StartSplice));
    assert_eq!(s.phase, ConnPhase::Splicing);
    let s = on_splice_end(s);
    assert_eq!(s.phase, ConnPhase::Done(ConnOutcome::Completed));
    assert_eq!(stats.wol_emissions_total, 0);
}

// Cold wake: an offline target gets a wake emission on the first failed
// probe, and the machine keeps probing until the target answers.
#[test]
fn cold_wake_then_forward() {
    let mut tracker = Tracker::new();
    let mut stats = RuleStats::new();
    let mac = mac1();
    let (mut s, _cmd) = on_accept(true, 0);
    let mut now: u64 = 0;
    let mut opened = false;
    loop {
        let reachable = now >= 8000;
        let result = if reachable { ProbeResult::Reachable } else { ProbeResult::Unreachable };
        let last_wake = tracker.snapshot(&mac).and_then(|a| a.last_wake_attempt);
        let (next, cmd) = on_probe(s, result, now, last_wake);
        s = next;
        if cmd.emit_wake {
            tracker.note_wake(&mac, now);
            stats.note_wake_emitted();
        }
        match cmd.io {
            IoStep::Dial { .. } => {
                let (next, cmd2) = on_dial(s, true, now);
                s = next;
                assert!(matches!(cmd2.io, IoStep::StartSplice));
                tracker.open_session(&mac, now);
                opened = true;
                break;
            }
            IoStep::Probe { .. } => {
                now += cmd.sleep_ms;
            }
            _ => panic!("unexpected step"),
        }
    }
    assert!(opened);
    // One emission at t=0; the next would only be due after ten more probes.
    assert_eq!(stats.wol_emissions_total, 1);
    assert_eq!(tracker.snapshot(&mac).unwrap().last_wake_attempt, Some(0));
    assert_eq!(tracker.snapshot(&mac).unwrap().live_sessions, 1);
}

// Wake timeout: a target that stays offline has the client closed at the
// sixty-second deadline, and one wake timeout is counted; no session opens.
#[test]
fn wake_timeout_closes_client() {
    let mut stats = RuleStats::new();
    let (mut s, _) = on_accept(true, 0);
    let mut now: u64 = 0;
    let mut emissions: u64 = 0;
    loop {
        let (next, cmd) = on_probe(s, ProbeResult::Unreachable, now, Some(now));
        s = next;
        if cmd.emit_wake {
            emissions += 1;
        }
        match cmd.io {
            IoStep::CloseClient => break,
            IoStep::Probe { .. } => now += cmd.sleep_ms,
            _ => panic!("unexpected step"),
        }
    }
    assert_eq!(s.phase, ConnPhase::Done(ConnOutcome::WakeTimeout));
    assert!(now >= 60000);
    match s.phase {
        ConnPhase::Done(outcome) => stats.note_outcome(outcome),
        _ => unreachable!(),
    }
    assert_eq!(stats.wake_timeouts_total, 1);
}

// A retired rule closes the client immediately, before any probe.
#[test]
fn retired_rule_closes_client() {
    let (s, cmd) = on_accept(false, 7);
    assert_eq!(s.phase, ConnPhase::Done(ConnOutcome::RuleRetired));
    assert!(matches!(cmd.io, IoStep::CloseClient));
}

// Dial failure: one retry through a probe, then the client is closed.
#[test]
fn dial_failure_retries_once() {
    let (s, _) = on_accept(true, 0);
    let (s, _) = on_probe(s, ProbeResult::Reachable, 0, None);
    let (s, cmd) = on_dial(s, false, 10);
    assert!(matches!(cmd.io, IoStep::Probe { .. }));
    let (s, _) = on_probe(s, ProbeResult::Reachable, 1000, None);
    let (s, cmd) = on_dial(s, false, 1010);
    assert!(matches!(cmd.io, IoStep::CloseClient));
    assert_eq!(s.phase, ConnPhase::Done(ConnOutcome::DialFailed));
}

// Splice accounting: what was read is delivered once the half drains, and
// activity stamps are throttled to one per second.
#[test]
fn splice_conserves_bytes_and_throttles_touches() {
    let mut h = SpliceHalf::new();
    let mut touches: u32 = 0;
    if h.on_read(100, 0) {
        touches += 1;
    }
    h.on_delivered(100);
    if h.on_read(50, 500) {
        touches += 1;
    }
    if h.on_read(50, 1000) {
        touches += 1;
    }
    h.on_delivered(100);
    h.on_eof();
    assert_eq!(touches, 2);
    assert_eq!(h.read_total, 200);
    assert_eq!(h.delivered_total, 200);
    assert!(h.source_eof && h.pending == 0 && !h.aborted);
}

// Idle shutdown: an eligible, idle, session-free target is probed and then
// asked to shut down; the attempt is stamped for backoff.
#[test]
fn reaper_requests_idle_shutdown() {
    let mac = mac1();
    let mut tracker = Tracker::new();
    tracker.touch(&mac, 0);
    let act = tracker.snapshot(&mac);
    let d = reaper_decision(true, Some(9999), 5, act, 12_000);
    assert_eq!(d, ReaperDecision::ProbeThenShutdown);
    assert!(shutdown_due_after_probe(ProbeResult::Reachable));
    assert!(!shutdown_due_after_probe(ProbeResult::Unreachable));
    tracker.note_shutdown(&mac, 12_000);
    assert_eq!(tracker.snapshot(&mac).unwrap().last_shutdown_attempt, Some(12_000));
    // The next tick within the backoff window does not ask again.
    let act = tracker.snapshot(&mac);
    let d = reaper_decision(true, Some(9999), 5, act, 15_000);
    assert_eq!(d, ReaperDecision::SkipBackoff);
}

// A live session defers shutdown past the inactivity period.
#[test]
fn reaper_defers_for_live_session() {
    let mac = mac1();
    let mut tracker = Tracker::new();
    tracker.touch(&mac, 0);
    tracker.open_session(&mac, 0);
    let act = tracker.snapshot(&mac);
    let d = reaper_decision(true, Some(9999), 5, act, 60_000);
    assert_eq!(d, ReaperDecision::SkipLiveSessions);
}

// A connection arriving one second before the threshold prevents shutdown.
#[test]
fn reaper_skips_after_late_activity() {
    let mac = mac1();
    let mut tracker = Tracker::new();
    tracker.touch(&mac, 0);
    tracker.touch(&mac, 4_999);
    let act = tracker.snapshot(&mac);
    let d = reaper_decision(true, Some(9999), 5, act, 5_000);
    assert_eq!(d, ReaperDecision::SkipNotIdle);
}

// Ineligible targets and targets without a shutdown port are never asked.
#[test]
fn reaper_skips_ineligible_targets() {
    let d = reaper_decision(false, Some(9999), 5, None, 1_000_000);
    assert_eq!(d, ReaperDecision::SkipNotEligible);
    let d = reaper_decision(true, None, 5, None, 1_000_000);
    assert_eq!(d, ReaperDecision::SkipNotEligible);
}

// Bind conflict: the second rule on one local port fails with that port,
// and the first stays bound.
#[test]
fn registry_reports_bind_conflict() {
    let mac = mac1();
    let ip = parse_ipv4("192.168.1.10").unwrap();
    let r1 = ForwardRule { mac, ip, local_port: 2222, target_port: 22 };
    let r2 = ForwardRule { mac, ip, local_port: 2222, target_port: 80 };
    let mut reg = Registry::new();
    assert!(reg.start_rule(r1).is_ok());
    assert_eq!(reg.start_rule(r2), Err(2222));
    assert_eq!(reg.running_count(), 1);
    assert!(reg.stop_port(2222));
    assert_eq!(reg.running_count(), 0);
    assert!(!reg.stop_port(2222));
}

// An inventory change with a changed address retires the old rule and
// starts a new one.
#[test]
fn registry_diff_treats_changed_ip_as_remove_and_add() {
    let mac = mac1();
    let ip_old = parse_ipv4("192.168.1.10").unwrap();
    let ip_new = parse_ipv4("192.168.1.20").unwrap();
    let old_rule = ForwardRule { mac, ip: ip_old, local_port: 2222, target_port: 22 };
    let new_rule = ForwardRule { mac, ip: ip_new, local_port: 2222, target_port: 22 };
    let current = vec![old_rule];
    let desired = vec![new_rule];
    let (added, removed) = diff_rules(&current, &desired);
    assert_eq!(added, vec![new_rule]);
    assert_eq!(removed, vec![old_rule]);
    let (added, removed) = diff_rules(&current, &current.clone());
    assert!(added.is_empty() && removed.is_empty());
}

#[test]
fn desired_rules_flatten_the_inventory() {
    let m = wakezilla::web::Machine {
        mac: "AA:BB:CC:DD:EE:01".into(),
        ip: parse_ipv4("192.168.1.10").unwrap(),
        name: "desktop".into(),
        description: None,
        turn_off_port: None,
        can_be_turned_off: false,
        inactivity_period: 30,
        port_forwards: vec![
            wakezilla::web::PortForward { name: "ssh".into(), local_port: 2222, target_port: 22 },
            wakezilla::web::PortForward { name: "web".into(), local_port: 8080, target_port: 80 },
        ],
    };
    let bad = wakezilla::web::Machine { mac: "not-a-mac".into(), port_forwards: m.port_forwards.clone(), ..m.clone() };
    let rules = desired_rules(&vec![m, bad]);
    assert_eq!(rules.len(), 2);
    assert_eq!(rules[0].local_port, 2222);
    assert_eq!(rules[0].target_port, 22);
    assert_eq!(rules[1].local_port, 8080);
}

// The shutdown request is the exact minimal POST the agent understands.
#[test]
fn shutdown_request_has_expected_shape() {
    let ip = parse_ipv4("192.168.1.10").unwrap();
    let req = build_shutdown_request(&ip, 9999);
    assert_eq!(
        req,
        "POST /shutdown HTTP/1.1\r\nHost: 192.168.1.10:9999\r\nContent-Length: 0\r\nConnection: close\r\n\r\n"
    );
}

#[test]
fn status_lines_classify_2xx() {
    assert!(status_line_is_2xx("HTTP/1.1 200 OK"));
    assert!(status_line_is_2xx("HTTP/1.0 204 No Content"));
    assert!(!status_line_is_2xx("HTTP/1.1 404 Not Found"));
    assert!(!status_line_is_2xx("HTTP/1.1 500 Internal Server Error"));
    assert!(!status_line_is_2xx("garbage"));
    assert!(!status_line_is_2xx(""));
}

// Many concurrent racers share the tracker's wake stamp, so emissions stay
// bounded by the throttle however many connections arrive.
#[test]
fn concurrent_racers_share_the_wake_throttle() {
    let mac = mac1();
    let mut tracker = Tracker::new();
    let mut emissions: u32 = 0;
    // One hundred racers all probe an offline target at t=0 and again each
    // second for four seconds.
    for now in [0u64, 1000, 2000, 3000, 4000] {
        for _racer in 0..100 {
            let state = ConnState {
                phase: ConnPhase::AwaitInitialProbe,
                first_probe_at: now,
                probes_since_wake: 0,
                dialed_once: false,
            };
            let last_wake = tracker.snapshot(&mac).and_then(|a| a.last_wake_attempt);
            let (_, cmd): (ConnState, Command) =
                on_probe(state, ProbeResult::Unreachable, now, last_wake);
            if cmd.emit_wake {
                tracker.note_wake(&mac, now);
                emissions += 1;
            }
        }
    }
    // Five seconds of racing, throttled to one emission per two seconds.
    assert_eq!(emissions, 3);
}
