use cover_compositor::surface::{refresh_due, TRANSMIT_REFRESH_INTERVAL};
use cover_compositor::time::Instant;
use std::time::Duration;

/// A reading of the machine's clock, late enough for the interval to be subtracted from it.
fn now() -> Instant {
    let since = std::time::SystemTime::UNIX_EPOCH.elapsed().unwrap_or(Duration::ZERO);
    Instant { nanos: (since + Duration::from_secs(60)).as_nanos() }
}

fn checked_sub(from: Instant, nanos: u128) -> Option<Instant> {
    from.nanos.checked_sub(nanos).map(|nanos| Instant { nanos })
}

#[test]
fn refresh_is_due_when_never_drawn() {
    assert!(refresh_due(None, now()));
}

#[test]
fn refresh_is_not_due_inside_the_interval() {
    let now = now();
    let past = checked_sub(now, Duration::from_secs(4).as_nanos()).unwrap();
    assert!(!refresh_due(Some(past), now));
}

#[test]
fn refresh_is_due_once_the_interval_elapses() {
    let now = now();
    let past = checked_sub(now, TRANSMIT_REFRESH_INTERVAL).unwrap();
    assert!(refresh_due(Some(past), now));
}

#[test]
fn refresh_interval_is_five_seconds() {
    assert_eq!(TRANSMIT_REFRESH_INTERVAL, Duration::from_secs(5).as_nanos());
    let start = Instant { nanos: 7 };
    assert!(!refresh_due(Some(start), Instant { nanos: 5_000_000_006 }));
    assert!(refresh_due(Some(start), Instant { nanos: 5_000_000_007 }));
}

#[test]
fn a_reading_from_the_future_counts_as_just_taken() {
    let now = Instant { nanos: 10 };
    let later = Instant { nanos: u128::MAX };
    assert_eq!(now.duration_since(later), 0);
    assert!(!refresh_due(Some(later), now));
}
