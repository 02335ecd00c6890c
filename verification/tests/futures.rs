use labworks::futures::{MeasurableFuture, SleepFuture, SleepStep};
use std::time::Instant;

#[test]
fn sleep_future_starts_its_timer_once() {
    let mut f = SleepFuture::new(2000);
    assert_eq!(f.duration_ms(), 2000);
    assert_eq!(f.poll_step(false), SleepStep::Pending { start_timer: true });
    assert_eq!(f.poll_step(false), SleepStep::Pending { start_timer: false });
    assert_eq!(f.poll_step(true), SleepStep::Ready);
    assert_eq!(f.poll_step(false), SleepStep::Pending { start_timer: false });
}

#[test]
fn sleep_future_ready_at_once_when_completed() {
    let mut f = SleepFuture::new(0);
    assert_eq!(f.poll_step(true), SleepStep::Ready);
    assert_eq!(f.poll_step(false), SleepStep::Pending { start_timer: true });
}

#[test]
fn measurable_future_keeps_its_first_start() {
    let mut m = MeasurableFuture::new(41u32);
    assert!(m.started_at().is_none());
    let t0 = Instant::now();
    m.note_poll(t0);
    assert_eq!(m.started_at(), Some(t0));
    let t1 = Instant::now();
    m.note_poll(t1);
    assert_eq!(m.started_at(), Some(t0));
    *m.inner_mut() += 1;
    assert_eq!(*m.inner_mut(), 42);
}
