use helios::engine::{Command, Effect, Engine, EngineState};
use helios::flood::{sampler_tick, StatsSample};
use helios::scanner::{scan_result, HOSTS_PER_SUBNET};

fn responders(hosts: &[usize]) -> Vec<bool> {
    let mut v = vec![false; HOSTS_PER_SUBNET];
    for &h in hosts {
        v[h - 1] = true;
    }
    v
}

/// An engine that has swept `10.0.0.` and found `.5`, `.10` and `.20`.
fn scanned_engine() -> Engine {
    let mut e = Engine::new("10.0.0.".to_string());
    match e.update(Command::ScanNetwork) {
        Effect::BeginScan(p) => assert_eq!(p, "10.0.0."),
        other => panic!("unexpected {:?}", other),
    }
    assert_eq!(e.state(), EngineState::Scanning);
    let found = scan_result("10.0.0.", &responders(&[5, 10, 20]));
    match e.update(Command::ScanFinished(found)) {
        Effect::ScanCompleted(v) => assert_eq!(v, vec!["10.0.0.10", "10.0.0.20", "10.0.0.5"]),
        other => panic!("unexpected {:?}", other),
    }
    e
}

#[test]
fn sweep_then_flood_then_stop() {
    let mut e = scanned_engine();
    assert_eq!(e.state(), EngineState::Idle);
    e.update(Command::SetThreadCount(4));
    e.update(Command::SetPacketSize(64));
    e.update(Command::SetBasePort(9));
    e.update(Command::SetRandomizePort(false));
    e.update(Command::SelectTarget(2));
    let id = match e.update(Command::StartFlood) {
        Effect::BeginFlood(s) => {
            assert_eq!(s.target, "10.0.0.5");
            assert_eq!(s.params.thread_count, 4);
            assert_eq!(s.params.packet_size, 64);
            assert_eq!(s.params.base_port, 9);
            assert!(!s.params.randomize_port);
            s.id
        }
        other => panic!("unexpected {:?}", other),
    };
    assert_eq!(e.state(), EngineState::Flooding);

    let mut seen: Vec<StatsSample> = Vec::new();
    for (total, ms) in [(400u64, 1000u64), (1000, 2000)] {
        let sample = sampler_tick(true, total, ms).unwrap();
        match e.update(Command::Stats(id, sample)) {
            Effect::StatsUpdated(sid, s) => {
                assert_eq!(sid, id);
                seen.push(s);
            }
            other => panic!("unexpected {:?}", other),
        }
    }
    assert_eq!(seen.len(), 2);
    assert!(seen[0].total_packets <= seen[1].total_packets);
    assert_eq!(seen[1].total_packets, 1000);
    assert_eq!(seen[1].packets_per_second, 500);
    assert_eq!(e.stats(), seen[1]);

    match e.update(Command::StopFlood) {
        Effect::SignalStop(sid) => assert_eq!(sid, id),
        other => panic!("unexpected {:?}", other),
    }
    assert_eq!(e.state(), EngineState::Idle);
    assert!(sampler_tick(false, 1200, 2500).is_none());

    let mut finished = 0;
    for _ in 0..2 {
        if let Effect::FloodFinished(sid) = e.update(Command::FloodFinished(id)) {
            assert_eq!(sid, id);
            finished += 1;
        }
    }
    assert_eq!(finished, 1);
    let late = StatsSample { total_packets: 1200, packets_per_second: 480, elapsed_ms: 2500 };
    assert!(matches!(e.update(Command::Stats(id, late)), Effect::Nothing));
    assert_eq!(e.stats(), seen[1]);
    assert_eq!(e.live_session(), None);
}

#[test]
fn stop_while_idle_changes_nothing() {
    let mut e = scanned_engine();
    let before = (e.state(), e.targets(), e.selected(), e.params(), e.stats(), e.live_session());
    assert!(matches!(e.update(Command::StopFlood), Effect::Nothing));
    let after = (e.state(), e.targets(), e.selected(), e.params(), e.stats(), e.live_session());
    assert_eq!(before, after);
}

#[test]
fn start_while_flooding_changes_nothing() {
    let mut e = scanned_engine();
    assert!(matches!(e.update(Command::StartFlood), Effect::BeginFlood(_)));
    let before = (e.state(), e.targets(), e.selected(), e.params(), e.stats(), e.live_session());
    assert!(matches!(e.update(Command::StartFlood), Effect::Nothing));
    let after = (e.state(), e.targets(), e.selected(), e.params(), e.stats(), e.live_session());
    assert_eq!(before, after);
}

#[test]
fn start_needs_a_sweep_with_hosts_and_a_valid_selection() {
    let mut e = Engine::new("10.0.0.".to_string());
    assert!(matches!(e.update(Command::StartFlood), Effect::Nothing));
    assert_eq!(e.targets(), None);

    e.update(Command::ScanNetwork);
    match e.update(Command::ScanFinished(scan_result("10.0.0.", &responders(&[])))) {
        Effect::ScanCompleted(v) => assert!(v.is_empty()),
        other => panic!("unexpected {:?}", other),
    }
    assert_eq!(e.targets(), Some(Vec::new()));
    assert!(matches!(e.update(Command::StartFlood), Effect::Nothing));

    let mut e = scanned_engine();
    e.update(Command::SelectTarget(3));
    assert!(matches!(e.update(Command::StartFlood), Effect::Nothing));
    assert_eq!(e.state(), EngineState::Idle);
}

#[test]
fn scan_is_refused_unless_idle() {
    let mut e = Engine::new("10.0.0.".to_string());
    e.update(Command::ScanNetwork);
    assert!(matches!(e.update(Command::ScanNetwork), Effect::Nothing));
    let mut e = scanned_engine();
    e.update(Command::StartFlood);
    assert!(matches!(e.update(Command::ScanNetwork), Effect::Nothing));
    assert_eq!(e.state(), EngineState::Flooding);
}

#[test]
fn a_new_sweep_replaces_the_old_result() {
    let mut e = scanned_engine();
    e.update(Command::SelectTarget(1));
    e.update(Command::ScanNetwork);
    e.update(Command::ScanFinished(scan_result("10.0.0.", &responders(&[3]))));
    assert_eq!(e.targets(), Some(vec!["10.0.0.3".to_string()]));
    assert_eq!(e.selected(), 0);
}

#[test]
fn parameters_are_snapshot_at_start() {
    let mut e = scanned_engine();
    e.update(Command::SetThreadCount(4));
    let session = match e.update(Command::StartFlood) {
        Effect::BeginFlood(s) => s,
        other => panic!("unexpected {:?}", other),
    };
    e.update(Command::SetThreadCount(16));
    assert_eq!(session.params.thread_count, 4);
    assert_eq!(e.params().thread_count, 16);
}

#[test]
fn a_new_flood_may_start_while_a_stopped_one_drains() {
    let mut e = scanned_engine();
    let first = match e.update(Command::StartFlood) {
        Effect::BeginFlood(s) => s.id,
        other => panic!("unexpected {:?}", other),
    };
    e.update(Command::StopFlood);
    assert_eq!(e.state(), EngineState::Idle);
    let second = match e.update(Command::StartFlood) {
        Effect::BeginFlood(s) => s.id,
        other => panic!("unexpected {:?}", other),
    };
    assert_ne!(first, second);
    assert_eq!(e.state(), EngineState::Flooding);
    assert_eq!(e.live_session(), Some(second));
    assert!(e.is_draining(first));

    let stale = StatsSample { total_packets: 1, packets_per_second: 1, elapsed_ms: 1000 };
    assert!(matches!(e.update(Command::Stats(first, stale)), Effect::Nothing));
    match e.update(Command::FloodFinished(first)) {
        Effect::FloodFinished(sid) => assert_eq!(sid, first),
        other => panic!("unexpected {:?}", other),
    }
    assert!(!e.is_draining(first));
    assert_eq!(e.state(), EngineState::Flooding);
    assert_eq!(e.live_session(), Some(second));
    assert!(matches!(e.update(Command::FloodFinished(first)), Effect::Nothing));

    let fresh = StatsSample { total_packets: 10, packets_per_second: 10, elapsed_ms: 1000 };
    assert!(matches!(e.update(Command::Stats(second, fresh)), Effect::StatsUpdated(_, _)));
    e.update(Command::StopFlood);
    assert!(matches!(e.update(Command::FloodFinished(second)), Effect::FloodFinished(_)));
    assert_eq!(e.live_session(), None);
}

#[test]
fn late_finish_keeps_a_sweep_running() {
    let mut e = scanned_engine();
    let id = match e.update(Command::StartFlood) {
        Effect::BeginFlood(s) => s.id,
        other => panic!("unexpected {:?}", other),
    };
    e.update(Command::StopFlood);
    assert!(matches!(e.update(Command::ScanNetwork), Effect::BeginScan(_)));
    assert!(matches!(e.update(Command::FloodFinished(id)), Effect::FloodFinished(_)));
    assert_eq!(e.state(), EngineState::Scanning);
}

#[test]
fn workers_that_end_on_their_own_return_the_engine_to_idle() {
    let mut e = scanned_engine();
    let id = match e.update(Command::StartFlood) {
        Effect::BeginFlood(s) => s.id,
        other => panic!("unexpected {:?}", other),
    };
    assert!(matches!(e.update(Command::FloodFinished(id)), Effect::FloodFinished(_)));
    assert_eq!(e.state(), EngineState::Idle);
    assert!(matches!(e.update(Command::StopFlood), Effect::Nothing));
}
