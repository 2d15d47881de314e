use cover_compositor::volume::{Action, Event, VolumeWorker, SETTLE_WINDOW};
use std::time::Duration;

/// Runs a worker over updates at their times and returns what it applies. The settle window starts
/// anew with every update.
fn run(updates: &[(Duration, Option<&str>, u8)]) -> Vec<(Option<String>, u8)> {
    let window = Duration::from_nanos(SETTLE_WINDOW as u64);
    let mut log = Vec::new();
    let (mut worker, mut action) = VolumeWorker::new();
    assert!(matches!(action, Action::AwaitUpdate));
    for (i, (at, device, volume)) in updates.iter().enumerate() {
        let device = device.map(str::to_string);
        (worker, action) = worker.step(Event::Arrived { device, volume: *volume });
        assert!(matches!(action, Action::AwaitQuiet));
        let last = i + 1 == updates.len();
        if last || updates[i + 1].0 - *at >= window {
            (worker, action) = worker.step(Event::Quiet);
            match action {
                Action::Apply { device, volume } => log.push((device, volume)),
                _ => panic!("a settled burst is applied"),
            }
        }
    }
    (_, action) = worker.step(Event::Closed);
    assert!(matches!(action, Action::Stop));
    log
}

fn volumes(applied: Vec<(Option<String>, u8)>) -> Vec<u8> {
    applied.into_iter().map(|(_device, volume)| volume).collect()
}

#[test]
fn collapses_bursts_into_latest_value() {
    let mut updates = Vec::new();
    for (i, volume) in [40_u8, 45, 50, 60].into_iter().enumerate() {
        updates.push((Duration::from_millis(10) * i as u32, None, volume));
    }
    assert_eq!(volumes(run(&updates)), vec![60], "burst should collapse to the last value");
}

#[test]
fn applies_each_value_when_updates_are_spread_out() {
    let window = Duration::from_nanos(SETTLE_WINDOW as u64);
    let updates = [(Duration::ZERO, None, 30), (window * 4, None, 80)];
    assert_eq!(volumes(run(&updates)), vec![30, 80], "isolated updates each apply once");
}

#[test]
fn a_burst_goes_to_the_device_it_began_with() {
    let updates = [
        (Duration::ZERO, Some("desk"), 30),
        (Duration::from_millis(149), Some("phone"), 35),
        (Duration::from_millis(299), Some("phone"), 40),
    ];
    assert_eq!(
        run(&updates),
        vec![(Some("desk".to_string()), 35), (Some("phone".to_string()), 40)]
    );
}

#[test]
fn a_burst_is_applied_when_the_updates_end() {
    let (worker, _) = VolumeWorker::new();
    let (worker, _) = worker.step(Event::Arrived { device: Some("desk".to_string()), volume: 30 });
    let (worker, _) = worker.step(Event::Arrived { device: None, volume: 35 });
    let (worker, action) = worker.step(Event::Closed);
    match action {
        Action::Apply { device, volume } => {
            assert_eq!((device, volume), (Some("desk".to_string()), 35));
        }
        _ => panic!("the burst is applied"),
    }
    let (worker, action) = worker.step(Event::Closed);
    assert!(matches!(action, Action::Stop));
    let (worker, action) = worker.step(Event::Arrived { device: None, volume: 50 });
    assert!(matches!(action, Action::Stop));
    let (_, action) = worker.step(Event::Quiet);
    assert!(matches!(action, Action::Stop));
}

#[test]
fn nothing_is_applied_when_the_updates_end_in_silence() {
    let (worker, _) = VolumeWorker::new();
    let (worker, action) = worker.step(Event::Closed);
    assert!(matches!(action, Action::Stop));
    let (worker, _) = worker.step(Event::Arrived { device: None, volume: 50 });
    let (_, action) = worker.step(Event::Quiet);
    assert!(matches!(action, Action::Stop));
}

#[test]
fn every_run_of_updates_is_applied_once() {
    let at = Duration::from_millis;
    let updates = [
        (at(0), Some("a"), 1),
        (at(149), Some("b"), 2),
        (at(298), Some("c"), 3),
        (at(448), Some("d"), 4),
        (at(600), Some("e"), 5),
        (at(601), None, 6),
    ];
    assert_eq!(
        run(&updates),
        vec![
            (Some("a".to_string()), 3),
            (Some("d".to_string()), 4),
            (Some("e".to_string()), 6),
        ]
    );
}

#[test]
fn quiet_without_updates_applies_nothing() {
    let (worker, _) = VolumeWorker::new();
    let (_, action) = worker.step(Event::Quiet);
    assert!(matches!(action, Action::AwaitUpdate));
}

#[test]
fn the_settle_window_is_150_milliseconds() {
    assert_eq!(SETTLE_WINDOW, Duration::from_millis(150).as_nanos());
}
