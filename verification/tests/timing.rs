use cachoeira::timing::{
    checked_duration_to_nanos, duration_to_nanos, nanos_to_duration, Stopwatch,
};
use std::time::{Duration, Instant};

/// Lets the given time pass.
fn wait(duration: Duration) {
    let start = Instant::now();
    while start.elapsed() < duration {
        std::hint::spin_loop();
    }
}

#[test]
fn elapsed() {
    const DURATION: u64 = 1;
    const UNCERTAINTY: u32 = 10;
    let mut watch = Stopwatch::new();

    watch.start();
    wait(Duration::from_secs(DURATION));
    watch.stop();

    let elapsed = watch.elapsed();
    let duration = Duration::new(DURATION, 0);
    let lower = duration / 100 * (100 - UNCERTAINTY);
    let upper = duration / 100 * (100 + UNCERTAINTY);
    assert!(
        elapsed < upper && elapsed > lower,
        "expected {} +- {}% seconds, got {:?}",
        DURATION,
        UNCERTAINTY,
        elapsed
    );
}

#[test]
fn reset() {
    const DURATION: u64 = 2;
    let mut watch = Stopwatch::new();

    watch.start();
    wait(Duration::from_secs(DURATION));
    watch.stop();
    watch.reset();

    assert_eq!(0, watch.elapsed().subsec_nanos());
}

#[test]
fn restart() {
    const DURATION0: u64 = 2;
    const DURATION: u64 = 1;
    const UNCERTAINTY: u32 = 10;
    let mut watch = Stopwatch::new();

    watch.start();
    wait(Duration::from_secs(DURATION0));
    watch.stop();

    watch.restart();
    wait(Duration::from_secs(DURATION));
    watch.stop();

    let elapsed = watch.elapsed();
    let duration = Duration::new(DURATION, 0);
    let lower = duration / 100 * (100 - UNCERTAINTY);
    let upper = duration / 100 * (100 + UNCERTAINTY);
    assert!(
        elapsed < upper && elapsed > lower,
        "expected {} +- {}% seconds, got {:?}",
        DURATION,
        UNCERTAINTY,
        elapsed
    );
}

#[test]
fn new_stopwatch_waits_and_shows_nothing() {
    let watch = Stopwatch::new();
    assert_eq!(watch, Stopwatch::Waiting);
    assert_eq!(Stopwatch::default(), Stopwatch::Waiting);
    assert_eq!(watch.elapsed(), Duration::new(0, 0));
    assert_eq!(watch.elapsed_after(Duration::from_secs(5)), Duration::new(0, 0));
}

#[test]
fn running_stopwatch_adds_the_running_time() {
    let watch = Stopwatch::Started(Duration::new(3, 500_000_000), Instant::now());
    assert_eq!(
        watch.elapsed_after(Duration::new(1, 700_000_000)),
        Duration::new(5, 200_000_000)
    );
    assert!(watch.elapsed() >= Duration::new(3, 500_000_000));
}

#[test]
fn running_time_stops_at_the_longest_duration() {
    let watch = Stopwatch::Started(Duration::MAX, Instant::now());
    assert_eq!(watch.elapsed_after(Duration::new(1, 0)), Duration::MAX);
    let mut stopped = watch.clone();
    stopped.stop_after(Duration::new(0, 1));
    assert_eq!(stopped, Stopwatch::Ended(Duration::MAX));
}

#[test]
fn stopped_stopwatch_shows_its_total() {
    let watch = Stopwatch::Ended(Duration::new(7, 1));
    assert_eq!(watch.elapsed(), Duration::new(7, 1));
    assert_eq!(watch.elapsed_after(Duration::from_secs(100)), Duration::new(7, 1));
}

#[test]
fn stop_after_ends_a_running_stopwatch_only() {
    let mut running = Stopwatch::Started(Duration::new(2, 0), Instant::now());
    running.stop_after(Duration::new(0, 250));
    assert_eq!(running, Stopwatch::Ended(Duration::new(2, 250)));

    let mut waiting = Stopwatch::Waiting;
    waiting.stop_after(Duration::new(9, 0));
    assert_eq!(waiting, Stopwatch::Waiting);
    waiting.stop();
    assert_eq!(waiting, Stopwatch::Waiting);

    let mut ended = Stopwatch::Ended(Duration::new(4, 0));
    ended.stop_after(Duration::new(9, 0));
    assert_eq!(ended, Stopwatch::Ended(Duration::new(4, 0)));
    ended.stop();
    assert_eq!(ended, Stopwatch::Ended(Duration::new(4, 0)));
}

#[test]
fn start_runs_on_from_the_time_added_up() {
    let mut watch = Stopwatch::Ended(Duration::new(4, 0));
    watch.start();
    match watch {
        Stopwatch::Started(before, _) => assert_eq!(before, Duration::new(4, 0)),
        _ => panic!("the stopwatch does not run"),
    }

    let mut fresh = Stopwatch::new();
    fresh.start();
    match fresh {
        Stopwatch::Started(before, _) => assert_eq!(before, Duration::new(0, 0)),
        _ => panic!("the stopwatch does not run"),
    }
}

#[test]
fn start_leaves_a_running_stopwatch_alone() {
    let at = Instant::now();
    let mut watch = Stopwatch::Started(Duration::new(1, 5), at);
    watch.start();
    assert_eq!(watch, Stopwatch::Started(Duration::new(1, 5), at));
}

#[test]
fn restart_forgets_the_time_added_up() {
    let mut watch = Stopwatch::Ended(Duration::new(4, 0));
    watch.restart();
    match watch {
        Stopwatch::Started(before, _) => assert_eq!(before, Duration::new(0, 0)),
        _ => panic!("the stopwatch does not run"),
    }
}

#[test]
fn duration_to_nanos_counts_seconds_and_the_rest() {
    assert_eq!(duration_to_nanos(Duration::new(0, 0)), 0);
    assert_eq!(duration_to_nanos(Duration::new(2, 5)), 2_000_000_005);
    assert_eq!(duration_to_nanos(Duration::new(0, 999_999_999)), 999_999_999);
    assert_eq!(
        duration_to_nanos(Duration::new(18_446_744_073, 709_551_615)),
        u64::MAX
    );
}

#[test]
fn checked_duration_to_nanos_refuses_what_does_not_fit() {
    assert_eq!(checked_duration_to_nanos(Duration::new(2, 5)), Some(2_000_000_005));
    assert_eq!(
        checked_duration_to_nanos(Duration::new(18_446_744_073, 709_551_615)),
        Some(u64::MAX)
    );
    assert_eq!(
        checked_duration_to_nanos(Duration::new(18_446_744_073, 709_551_616)),
        None
    );
    assert_eq!(checked_duration_to_nanos(Duration::new(18_446_744_074, 0)), None);
    assert_eq!(checked_duration_to_nanos(Duration::MAX), None);
}

#[test]
fn nanos_to_duration_splits_seconds_and_the_rest() {
    assert_eq!(nanos_to_duration(0), Duration::new(0, 0));
    assert_eq!(nanos_to_duration(2_000_000_005), Duration::new(2, 5));
    assert_eq!(nanos_to_duration(999_999_999), Duration::new(0, 999_999_999));
    assert_eq!(nanos_to_duration(1_000_000_000), Duration::new(1, 0));
    assert_eq!(
        nanos_to_duration(u64::MAX),
        Duration::new(18_446_744_073, 709_551_615)
    );
}

#[test]
fn nanos_survive_the_round_trip() {
    for nanos in [0u64, 1, 999_999_999, 1_000_000_000, 123_456_789_012, u64::MAX] {
        assert_eq!(duration_to_nanos(nanos_to_duration(nanos)), nanos);
    }
}
