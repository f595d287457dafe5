use tokio_console::time::{
    busy, idle, nanos_from_parts, total, TimeSpan, Timestamp, NANOS_PER_MILLI, NANOS_PER_SEC,
};

fn at(nanos: u64) -> Timestamp {
    Timestamp::from_nanos(nanos)
}

fn span(nanos: u128) -> TimeSpan {
    TimeSpan::from_nanos(nanos)
}

#[test]
fn timestamp_round_trip() {
    assert_eq!(at(17).as_nanos(), 17);
    assert_eq!(at(u64::MAX).as_nanos(), u64::MAX);
}

#[test]
fn saturating_since_clamps_at_zero() {
    assert_eq!(at(1_000).saturating_since(at(400)), span(600));
    assert_eq!(at(400).saturating_since(at(1_000)), span(0));
    assert_eq!(at(5).saturating_since(at(5)), span(0));
    assert_eq!(at(u64::MAX).saturating_since(at(0)), span(u64::MAX as u128));
}

#[test]
fn span_constructors() {
    assert_eq!(TimeSpan::zero(), span(0));
    assert_eq!(TimeSpan::from_millis(1_000), span(1_000_000_000));
    assert_eq!(TimeSpan::from_secs(1), span(1_000_000_000));
    assert_eq!(TimeSpan::from_secs(u64::MAX).as_nanos(), u64::MAX as u128 * 1_000_000_000);
    assert_eq!(TimeSpan::from_millis(u64::MAX).as_nanos(), u64::MAX as u128 * 1_000_000);
    assert_eq!(NANOS_PER_MILLI, 1_000_000);
    assert_eq!(NANOS_PER_SEC, 1_000_000_000);
}

#[test]
fn span_as_millis_rounds_down() {
    assert_eq!(span(1_999_999).as_millis(), 1);
    assert_eq!(span(999_999).as_millis(), 0);
    assert_eq!(TimeSpan::from_secs(1).as_millis(), 1_000);
}

#[test]
fn span_debug_is_what_std_prints() {
    assert_eq!(span(0).debug(), "0ns");
    assert_eq!(span(5).debug(), "5ns");
    assert_eq!(span(1_500).debug(), "1.5µs");
    assert_eq!(span(20_000_000).debug(), "20ms");
    assert_eq!(span(1_500_000_000).debug(), "1.5s");
    assert_eq!(span(2_000_000_000).debug(), "2s");
    assert_eq!(span(3_000_000_001).debug(), "3.000000001s");
    assert_eq!(
        span(u64::MAX as u128 * 1_000_000_000 + 999_999_999).debug(),
        format!("{:?}", std::time::Duration::new(u64::MAX, 999_999_999))
    );
}

#[test]
fn total_of_active_entity_grows_with_time() {
    let created = at(1_000);
    assert_eq!(total(None, created, at(1_000)), span(0));
    assert_eq!(total(None, created, at(1_500)), span(500));
    assert_eq!(total(None, created, at(9_000)), span(8_000));
    let mut last = 0;
    for now in [0u64, 999, 1_000, 1_001, 5_000, u64::MAX] {
        let t = total(None, created, at(now)).as_nanos();
        assert!(t >= last);
        last = t;
    }
}

#[test]
fn total_of_active_entity_clamps_clock_skew() {
    assert_eq!(total(None, at(1_000), at(10)), span(0));
}

#[test]
fn total_of_completed_entity_is_constant() {
    let fixed = Some(span(1_000_000_000));
    for now in [0u64, 1, 1_000_000_000, u64::MAX] {
        assert_eq!(total(fixed, at(500), at(now)), span(1_000_000_000));
    }
}

#[test]
fn busy_counts_the_poll_in_progress() {
    assert_eq!(busy(400, None, at(10_000)), span(400));
    assert_eq!(busy(400, Some(at(9_000)), at(10_000)), span(1_400));
    assert_eq!(busy(400, Some(at(10_000)), at(9_000)), span(400));
    assert_eq!(busy(0, Some(at(0)), at(0)), span(0));
}

#[test]
fn busy_never_overflows() {
    assert_eq!(
        busy(u64::MAX, Some(at(0)), at(u64::MAX)),
        span(2 * (u64::MAX as u128))
    );
}

#[test]
fn idle_is_what_is_left_of_total() {
    assert_eq!(idle(None, span(1_000), span(400)), span(600));
    assert_eq!(idle(None, span(400), span(400)), span(0));
    assert_eq!(idle(None, span(400), span(1_000)), span(0));
    assert_eq!(idle(Some(span(7)), span(1_000), span(400)), span(7));
}

#[test]
fn idle_and_busy_add_up_to_total() {
    let created = at(1_000);
    for now in [1_000u64, 2_000, 50_000] {
        let t = total(None, created, at(now));
        let b = busy(300, None, at(now));
        let i = idle(None, t, b);
        if b.as_nanos() <= t.as_nanos() {
            assert_eq!(i.as_nanos() + b.as_nanos(), t.as_nanos());
        } else {
            assert_eq!(i.as_nanos(), 0);
        }
    }
}

#[test]
fn timestamp_from_seconds_and_nanoseconds() {
    assert_eq!(Timestamp::from_parts(0, 0), Some(at(0)));
    assert_eq!(Timestamp::from_parts(1, 5), Some(at(1_000_000_005)));
    assert_eq!(Timestamp::from_parts(3, 999_999_999), Some(at(3_999_999_999)));
    assert_eq!(Timestamp::from_parts(3, 1_000_000_000), None);
    assert_eq!(Timestamp::from_parts(-1, 0), None);
    assert_eq!(Timestamp::from_parts(0, -1), None);
    // the last second that fits, and the first that does not
    assert_eq!(
        Timestamp::from_parts(18_446_744_073, 709_551_615),
        Some(at(u64::MAX))
    );
    assert_eq!(Timestamp::from_parts(18_446_744_073, 709_551_616), None);
    assert_eq!(Timestamp::from_parts(18_446_744_074, 0), None);
    assert_eq!(Timestamp::from_parts(i64::MAX, 0), None);
}

#[test]
fn length_from_seconds_and_nanoseconds() {
    assert_eq!(nanos_from_parts(0, 0), Some(0));
    assert_eq!(nanos_from_parts(0, 400_000_000), Some(400_000_000));
    assert_eq!(nanos_from_parts(2, 1_500_000_000), Some(3_500_000_000));
    assert_eq!(nanos_from_parts(-1, 0), None);
    assert_eq!(nanos_from_parts(0, -1), None);
    assert_eq!(nanos_from_parts(18_446_744_073, 709_551_615), Some(u64::MAX));
    assert_eq!(nanos_from_parts(18_446_744_073, 709_551_616), Some(u64::MAX));
    assert_eq!(nanos_from_parts(i64::MAX, i32::MAX), Some(u64::MAX));
}
