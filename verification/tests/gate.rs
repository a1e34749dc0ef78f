use async_refcell::gate::Gate;
use async_refcell::wakers::{WakerQueue, Wakeups};
use async_refcell::word::BorrowWord;
use std::sync::atomic::{AtomicUsize, Ordering};
use std::sync::Arc;
use std::task::{Context, Wake, Waker};

struct Count(AtomicUsize);

impl Wake for Count {
    fn wake(self: Arc<Self>) {
        self.0.fetch_add(1, Ordering::Relaxed);
    }
}

const WRITER: usize = usize::MAX / 2 + 1;

#[test]
fn word_counts_readers() {
    let mut word = BorrowWord::new();
    assert_eq!(word.load(), 0);
    assert!(word.add_reader());
    assert!(word.add_reader());
    assert_eq!(word.load(), 2);
    assert!(!word.claim());
    assert_eq!(word.load(), 2);
    assert!(!word.drop_reader());
    assert!(word.drop_reader());
    assert_eq!(word.load(), 0);
}

#[test]
fn word_marks_a_writer_by_its_high_bit() {
    let mut word = BorrowWord::new();
    assert!(word.claim());
    assert_eq!(word.load(), WRITER);
    assert!(!word.claim());
    assert!(!word.add_reader());
    assert_eq!(word.load(), WRITER + 1);
    word.drop_writer();
    assert_eq!(word.load(), 0);
    assert!(word.add_reader());
}

#[test]
fn high_bit_has_the_documented_value() {
    if usize::BITS == 64 {
        let mut word = BorrowWord::new();
        assert!(word.claim());
        assert_eq!(format!("{}", word.load()), "9223372036854775808");
    }
}

#[test]
fn queue_is_first_in_first_out() {
    let first = Arc::new(Count(AtomicUsize::new(0)));
    let second = Arc::new(Count(AtomicUsize::new(0)));
    let mut queue = WakerQueue::new();
    queue.register_waker(&Context::from_waker(&Waker::from(first.clone())));
    queue.register_waker(&Context::from_waker(&Waker::from(second.clone())));
    queue.pop().wake();
    assert_eq!(first.0.load(Ordering::Relaxed), 1);
    assert_eq!(second.0.load(Ordering::Relaxed), 0);
    queue.drain().wake();
    assert_eq!(first.0.load(Ordering::Relaxed), 1);
    assert_eq!(second.0.load(Ordering::Relaxed), 1);
    assert_eq!(queue.pop().len(), 0);
    assert_eq!(queue.drain().len(), 0);
}

#[test]
fn nobody_is_nobody() {
    let mut wakeups = Wakeups::none();
    wakeups.wake();
    assert_eq!(wakeups.len(), 0);
}

#[test]
fn gate_lets_readers_or_a_writer_in() {
    let waker = Waker::from(Arc::new(Count(AtomicUsize::new(0))));
    let context = Context::from_waker(&waker);
    let mut gate = Gate::new();
    assert!(gate.poll_read(&context));
    assert!(!gate.poll_write(&context));
    assert!(gate.is_blocked());
    assert!(!gate.poll_read(&context));
    assert_eq!(gate.release_read().len(), 1);
    assert!(gate.poll_write(&context));
    assert_eq!(gate.word(), WRITER);
    gate.unblock();
    assert!(!gate.is_blocked());
    assert!(!gate.poll_read(&context));
    assert_eq!(gate.open_to_readers().len(), 3);
    assert_eq!(gate.word(), 0);
    assert!(gate.poll_write(&context));
    assert_eq!(gate.hand_over().len(), 0);
    assert!(gate.poll_read(&context));
    assert_eq!(gate.drain_readers().len(), 1);
}
