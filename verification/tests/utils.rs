use pathtrace::utils::EZTimer;
use std::time::Instant;

#[test]
fn timer_starts_now() {
    let before = Instant::now();
    let timer = EZTimer::new();
    let after = Instant::now();
    assert!(before <= timer.start());
    assert!(timer.start() <= after);
}

#[test]
fn later_timer_starts_later() {
    let first = EZTimer::new();
    let second = EZTimer::new();
    assert!(first.start() <= second.start());
}
