//! The delays between attempts.
use purple_wolf::relay::config::RetryConfig;
use purple_wolf::relay::subscribers::retry::RetrySchedule;

fn schedule(base: u64, max: u64) -> RetrySchedule {
    RetrySchedule::from_config(&RetryConfig {
        max_attempts: 8,
        base_delay_ms: base,
        max_delay_ms: max,
    })
}

#[test]
fn delay_grows_then_caps() {
    let s = schedule(100, 10_000);
    let d0 = s.next_delay(0);
    let d3 = s.next_delay(3);
    let d10 = s.next_delay(10);

    assert!(d0 >= 80 && d0 <= 120);
    assert!(d3 >= 640 && d3 <= 960);
    assert!(d10 >= 8000 && d10 <= 12000);
}

#[test]
fn next_delay_is_zero_when_base_or_max_zero() {
    assert_eq!(schedule(0, 1000).next_delay(1), 0);
    assert_eq!(schedule(1000, 0).next_delay(1), 0);
}

#[test]
fn next_delay_does_not_overflow_at_absurd_attempts() {
    let s = schedule(1, u64::MAX);
    let _ = s.next_delay(100);
    let _ = s.next_delay(u32::MAX);
}

#[test]
fn delays_without_chance_are_exact() {
    let s = schedule(100, 10_000);
    assert_eq!(s.capped_delay(0), 100);
    assert_eq!(s.capped_delay(3), 800);
    assert_eq!(s.capped_delay(10), 10_000);
    assert_eq!(s.delay_with(3, 1_000_000), 800);
    assert_eq!(s.delay_with(3, 800_000), 640);
    assert_eq!(s.delay_with(3, 1_200_000), 960);
    assert_eq!(schedule(u64::MAX, u64::MAX).delay_with(1, 1_200_000), u64::MAX);
}
