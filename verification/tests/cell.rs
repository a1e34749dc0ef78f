use async_refcell::{AtomicRef, AtomicRefMut, Poll, RefCell};
use std::sync::{Arc, Mutex};
use std::task::{Context, Wake, Waker};

/// A task that writes its name down whenever it is woken.
struct Task {
    name: u32,
    woken: Arc<Mutex<Vec<u32>>>,
}

impl Wake for Task {
    fn wake(self: Arc<Self>) {
        self.woken.lock().unwrap().push(self.name);
    }
}

fn task(name: u32, woken: &Arc<Mutex<Vec<u32>>>) -> Waker {
    Waker::from(Arc::new(Task { name, woken: woken.clone() }))
}

fn log() -> Arc<Mutex<Vec<u32>>> {
    Arc::new(Mutex::new(Vec::new()))
}

fn read(cell: &mut RefCell<u32>, waker: &Waker) -> Option<AtomicRef> {
    match cell.poll_borrow(&Context::from_waker(waker)) {
        Poll::Ready(borrow) => Some(borrow),
        Poll::Pending => None,
    }
}

fn write(cell: &mut RefCell<u32>, waker: &Waker) -> Option<AtomicRefMut> {
    match cell.poll_borrow_mut(&Context::from_waker(waker)) {
        Poll::Ready(borrow) => Some(borrow),
        Poll::Pending => None,
    }
}

const WRITER: usize = usize::MAX / 2 + 1;

#[test]
fn new_cell_gives_its_value_back() {
    assert_eq!(RefCell::new(7).into_inner(), 7);
    assert_eq!(RefCell::<u32>::default().into_inner(), 0);
    assert_eq!(RefCell::from(9).into_inner(), 9);
}

#[test]
fn new_cell_is_free() {
    let cell = RefCell::new(7);
    assert_eq!(cell.borrow_word(), 0);
    assert!(!cell.is_blocked());
}

#[test]
fn get_mut_changes_the_value() {
    let mut cell = RefCell::new(7);
    *cell.get_mut() += 1;
    assert_eq!(cell.into_inner(), 8);
}

#[test]
fn many_readers_share_the_value() {
    let woken = log();
    let waker = task(1, &woken);
    let mut cell = RefCell::new(7);
    let a = read(&mut cell, &waker).unwrap();
    let b = read(&mut cell, &waker).unwrap();
    assert_eq!(cell.borrow_word(), 2);
    assert_eq!(*a.deref(&cell), 7);
    assert_eq!(*b.deref(&cell), 7);
    assert_eq!(a.release(&mut cell).len(), 0);
    assert_eq!(b.release(&mut cell).len(), 0);
    assert_eq!(cell.borrow_word(), 0);
}

#[test]
fn writer_excludes_readers_and_writers() {
    let woken = log();
    let waker = task(1, &woken);
    let mut cell = RefCell::new(7);
    let a = write(&mut cell, &waker).unwrap();
    assert_eq!(cell.borrow_word(), WRITER);
    assert!(read(&mut cell, &waker).is_none());
    assert!(write(&mut cell, &waker).is_none());
    assert_eq!(*a.deref(&cell), 7);
}

#[test]
fn reader_excludes_writers() {
    let woken = log();
    let waker = task(1, &woken);
    let mut cell = RefCell::new(7);
    let _a = read(&mut cell, &waker).unwrap();
    assert!(write(&mut cell, &waker).is_none());
    assert_eq!(cell.borrow_word(), 1);
}

#[test]
fn what_a_writer_wrote_is_read() {
    let woken = log();
    let waker = task(1, &woken);
    let mut cell = RefCell::new(7);
    let mut a = write(&mut cell, &waker).unwrap();
    *a.deref_mut(&mut cell) = 11;
    assert_eq!(*a.deref(&cell), 11);
    let _ = a.release(&mut cell);
    let b = read(&mut cell, &waker).unwrap();
    assert_eq!(*b.deref(&cell), 11);
    let _ = b.release(&mut cell);
    assert_eq!(cell.into_inner(), 11);
}

#[test]
fn refused_readers_are_counted_until_the_writer_leaves() {
    let woken = log();
    let waker = task(1, &woken);
    let mut cell = RefCell::new(7);
    let a = write(&mut cell, &waker).unwrap();
    assert!(read(&mut cell, &waker).is_none());
    assert!(read(&mut cell, &waker).is_none());
    assert_eq!(cell.borrow_word(), WRITER + 2);
    let _ = a.release(&mut cell);
    assert_eq!(cell.borrow_word(), 0);
}

#[test]
fn waiting_writer_holds_off_new_readers() {
    let woken = log();
    let mut cell = RefCell::new(7);
    let a = read(&mut cell, &task(1, &woken)).unwrap();
    assert!(write(&mut cell, &task(2, &woken)).is_none());
    assert!(cell.is_blocked());
    assert!(read(&mut cell, &task(3, &woken)).is_none());
    assert_eq!(cell.borrow_word(), 1);
    assert_eq!(*a.deref(&cell), 7);
}

#[test]
fn last_reader_wakes_the_writer_that_waited_longest() {
    let woken = log();
    let mut cell = RefCell::new(7);
    let a = read(&mut cell, &task(1, &woken)).unwrap();
    let b = read(&mut cell, &task(2, &woken)).unwrap();
    assert!(write(&mut cell, &task(3, &woken)).is_none());
    assert!(write(&mut cell, &task(4, &woken)).is_none());

    let mut wakeups = a.release(&mut cell);
    assert_eq!(wakeups.len(), 0);
    wakeups.wake();
    assert_eq!(*woken.lock().unwrap(), vec![]);

    let mut wakeups = b.release(&mut cell);
    assert_eq!(wakeups.len(), 1);
    wakeups.wake();
    assert_eq!(*woken.lock().unwrap(), vec![3]);
    assert!(write(&mut cell, &task(3, &woken)).is_some());
}

#[test]
fn writer_hands_over_to_the_next_writer() {
    let woken = log();
    let mut cell = RefCell::new(7);
    let a = write(&mut cell, &task(1, &woken)).unwrap();
    assert!(read(&mut cell, &task(2, &woken)).is_none());
    assert!(write(&mut cell, &task(3, &woken)).is_none());
    assert!(write(&mut cell, &task(4, &woken)).is_none());

    a.release(&mut cell).wake();
    assert_eq!(*woken.lock().unwrap(), vec![3]);
    assert!(cell.is_blocked());
    assert!(read(&mut cell, &task(2, &woken)).is_none());

    let b = write(&mut cell, &task(3, &woken)).unwrap();
    b.release(&mut cell).wake();
    assert_eq!(*woken.lock().unwrap(), vec![3, 4]);
}

#[test]
fn last_writer_wakes_all_readers_in_order() {
    let woken = log();
    let mut cell = RefCell::new(7);
    let a = write(&mut cell, &task(1, &woken)).unwrap();
    assert!(read(&mut cell, &task(2, &woken)).is_none());
    assert!(read(&mut cell, &task(3, &woken)).is_none());
    assert!(read(&mut cell, &task(4, &woken)).is_none());

    a.release(&mut cell).wake();
    assert_eq!(*woken.lock().unwrap(), vec![2, 3, 4]);
    assert!(!cell.is_blocked());
    assert!(read(&mut cell, &task(2, &woken)).is_some());
}

#[test]
fn writer_after_readers_lets_the_readers_back_in() {
    let woken = log();
    let mut cell = RefCell::new(7);
    let a = read(&mut cell, &task(1, &woken)).unwrap();
    assert!(write(&mut cell, &task(2, &woken)).is_none());
    assert!(read(&mut cell, &task(3, &woken)).is_none());
    a.release(&mut cell).wake();
    let b = write(&mut cell, &task(2, &woken)).unwrap();
    assert!(cell.is_blocked());
    b.release(&mut cell).wake();
    assert_eq!(*woken.lock().unwrap(), vec![2, 1, 3]);
    assert!(read(&mut cell, &task(3, &woken)).is_some());
}

#[test]
fn every_poll_of_a_reader_queues_it() {
    let woken = log();
    let mut cell = RefCell::new(7);
    let a = read(&mut cell, &task(1, &woken)).unwrap();
    let _ = a.release(&mut cell);
    assert!(read(&mut cell, &task(2, &woken)).is_some());
    let mut wakeups = cell.wake_readers();
    assert_eq!(wakeups.len(), 2);
    wakeups.wake();
    assert_eq!(*woken.lock().unwrap(), vec![1, 2]);
    assert_eq!(cell.wake_readers().len(), 0);
}

#[test]
fn tasks_are_woken_once() {
    let woken = log();
    let mut cell = RefCell::new(7);
    assert!(read(&mut cell, &task(1, &woken)).is_some());
    let mut wakeups = cell.wake_readers();
    wakeups.wake();
    wakeups.wake();
    assert_eq!(*woken.lock().unwrap(), vec![1]);
    assert_eq!(wakeups.len(), 1);
}

#[test]
fn long_queues_keep_their_order() {
    let woken = log();
    let mut cell = RefCell::new(7);
    let a = write(&mut cell, &task(0, &woken)).unwrap();
    for name in 1..200 {
        assert!(read(&mut cell, &task(name, &woken)).is_none());
    }
    a.release(&mut cell).wake();
    let expected: Vec<u32> = (1..200).collect();
    assert_eq!(*woken.lock().unwrap(), expected);
}

#[test]
fn cell_is_shown_without_its_value() {
    assert_eq!(RefCell::new(7).fmt(), "AtomicRefCell { ... }");
}

#[test]
fn tasks_can_be_woken_one_at_a_time() {
    let woken = log();
    let mut cell = RefCell::new(7);
    for name in 1..4 {
        assert!(read(&mut cell, &task(name, &woken)).is_some());
    }
    let mut wakeups = cell.wake_readers();
    assert!(wakeups.wake_next());
    assert_eq!(*woken.lock().unwrap(), vec![1]);
    assert!(wakeups.wake_next());
    assert_eq!(*woken.lock().unwrap(), vec![1, 2]);
    wakeups.wake();
    assert_eq!(*woken.lock().unwrap(), vec![1, 2, 3]);
    assert!(!wakeups.wake_next());
    assert_eq!(*woken.lock().unwrap(), vec![1, 2, 3]);
}
