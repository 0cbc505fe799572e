use agentos::keyboard::{add_scancode, ScancodeStream, SCANCODE_CAPACITY};
use std::sync::atomic::{AtomicUsize, Ordering};
use std::sync::Arc;
use std::task::{Wake, Waker};

struct CountingWaker(AtomicUsize);

impl Wake for CountingWaker {
    fn wake(self: Arc<Self>) {
        self.0.fetch_add(1, Ordering::SeqCst);
    }

    fn wake_by_ref(self: &Arc<Self>) {
        self.0.fetch_add(1, Ordering::SeqCst);
    }
}

fn counting_waker() -> (Arc<CountingWaker>, Waker) {
    let c = Arc::new(CountingWaker(AtomicUsize::new(0)));
    let w = Waker::from(c.clone());
    (c, w)
}

#[test]
fn pushed_scancode_is_polled() {
    let (_, w) = counting_waker();
    let mut s = ScancodeStream::new();
    add_scancode(&mut s, 0x1e);
    add_scancode(&mut s, 0x9e);
    assert_eq!(s.poll_next(&w), Some(0x1e));
    assert_eq!(s.poll_next(&w), Some(0x9e));
    assert_eq!(s.poll_next(&w), None);
}

#[test]
fn pending_poll_is_woken_by_next_scancode() {
    let (count, w) = counting_waker();
    let mut s = ScancodeStream::new();
    assert_eq!(s.poll_next(&w), None);
    assert_eq!(count.0.load(Ordering::SeqCst), 0);
    add_scancode(&mut s, 0x10);
    assert_eq!(count.0.load(Ordering::SeqCst), 1);
    add_scancode(&mut s, 0x11);
    // The registration was used up by the first wake.
    assert_eq!(count.0.load(Ordering::SeqCst), 1);
    assert_eq!(s.poll_next(&w), Some(0x10));
    assert_eq!(s.poll_next(&w), Some(0x11));
}

#[test]
fn push_without_registration_wakes_nobody() {
    let (count, w) = counting_waker();
    let mut s = ScancodeStream::new();
    add_scancode(&mut s, 1);
    assert_eq!(count.0.load(Ordering::SeqCst), 0);
    assert_eq!(s.poll_next(&w), Some(1));
    assert_eq!(count.0.load(Ordering::SeqCst), 0);
}

#[test]
fn full_queue_drops_scancodes() {
    let (count, w) = counting_waker();
    let mut s = ScancodeStream::new();
    assert_eq!(s.poll_next(&w), None);
    for i in 0..SCANCODE_CAPACITY {
        add_scancode(&mut s, i as u8);
    }
    add_scancode(&mut s, 0xff);
    for i in 0..SCANCODE_CAPACITY {
        assert_eq!(s.poll_next(&w), Some(i as u8));
    }
    assert_eq!(s.poll_next(&w), None);
    assert_eq!(count.0.load(Ordering::SeqCst), 1);
    assert_eq!(SCANCODE_CAPACITY, 100);
}
