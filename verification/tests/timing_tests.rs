use labworks::timing::{Delay, DelayStep, MeasurableFuture};

#[test]
fn delay_spawns_waker_once_then_waits() {
    let mut d = Delay::new(10);
    assert_eq!(d.poll_step(1_000_000), DelayStep::SpawnWaker { nanos: 9_000_000 });
    assert_eq!(d.poll_step(2_000_000), DelayStep::Pending);
    assert_eq!(d.poll_step(10_000_000), DelayStep::Ready);
    assert_eq!(d.poll_step(3_000_000), DelayStep::Pending);
}

#[test]
fn zero_delay_is_ready_at_once() {
    let mut d = Delay::new(0);
    assert_eq!(d.poll_now(), DelayStep::Ready);
}

#[test]
fn long_delay_is_not_ready_at_once() {
    let mut d = Delay::new(60_000);
    assert!(matches!(d.poll_now(), DelayStep::SpawnWaker { .. }));
    assert_eq!(d.poll_now(), DelayStep::Pending);
}

#[test]
fn measurable_future_keeps_inner_and_times_from_first_poll() {
    let mut m = MeasurableFuture::new(41);
    *m.inner_mut() += 1;
    assert_eq!(*m.inner_mut(), 42);
    m.mark_polled();
    let a = m.elapsed_nanos();
    m.mark_polled();
    let b = m.elapsed_nanos();
    assert!(b >= a);
}

#[test]
fn ready_delay_stays_ready_at_later_readings() {
    let mut d = Delay::new(5);
    assert_eq!(d.poll_step(5_000_000), DelayStep::Ready);
    assert_eq!(d.poll_step(5_000_001), DelayStep::Ready);
    assert_eq!(d.poll_step(u128::MAX), DelayStep::Ready);
    assert!(matches!(d.poll_step(0), DelayStep::SpawnWaker { nanos: 5_000_000 }));
}

#[test]
fn polling_the_inner_future_keeps_the_start() {
    let mut m = MeasurableFuture::new(0u8);
    m.mark_polled();
    let a = m.elapsed_nanos();
    for _ in 0..1000 {
        *m.inner_mut() = m.inner_mut().wrapping_add(1);
        m.mark_polled();
    }
    let b = m.elapsed_nanos();
    assert!(b >= a);
    assert_eq!(*m.inner_mut(), 232);
}
