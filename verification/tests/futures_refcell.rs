use async_refcell::futures_refcell::{AtomicRef, RefCell};
use async_refcell::Poll;
use std::sync::{Arc, Mutex};
use std::task::{Context, Wake, Waker};

/// A task that writes its name down whenever it is woken.
struct Task {
    name: u32,
    woken: Arc<Mutex<Vec<u32>>>,
}

impl Wake for Task {
    fn wake(self: Arc<Self>) {
        self.woken.lock().unwrap().push(self.name);
    }
}

fn task(name: u32, woken: &Arc<Mutex<Vec<u32>>>) -> Waker {
    Waker::from(Arc::new(Task { name, woken: woken.clone() }))
}

fn log() -> Arc<Mutex<Vec<u32>>> {
    Arc::new(Mutex::new(Vec::new()))
}

fn read(cell: &mut RefCell<u32>, waker: &Waker) -> Option<AtomicRef> {
    match cell.borrow(&Context::from_waker(waker)) {
        Poll::Ready(borrow) => Some(borrow),
        Poll::Pending => None,
    }
}

fn claim(cell: &mut RefCell<u32>, waker: &Waker) -> Poll<Result<(), ()>> {
    cell.can_borrow_mut(&Context::from_waker(waker))
}

const WRITER: usize = usize::MAX / 2 + 1;

#[test]
fn polled_cell_gives_its_value_back() {
    assert_eq!(RefCell::new(7).into_inner(), 7);
    assert_eq!(RefCell::<u32>::default().into_inner(), 0);
    assert_eq!(RefCell::from(9).into_inner(), 9);
}

#[test]
fn polled_get_mut_changes_the_value() {
    let mut cell = RefCell::new(7);
    *cell.get_mut() += 1;
    assert_eq!(cell.into_inner(), 8);
}

#[test]
fn claim_comes_before_the_borrow() {
    let woken = log();
    let mut cell = RefCell::new(7);
    assert_eq!(claim(&mut cell, &task(1, &woken)), Poll::Ready(Ok(())));
    assert!(cell.is_claimed());
    assert_eq!(cell.borrow_word(), WRITER);
    let mut a = cell.borrow_mut();
    assert!(!cell.is_claimed());
    *a.deref_mut(&mut cell) = 11;
    assert_eq!(*a.deref(&cell), 11);
    let _ = a.release(&mut cell);
    assert_eq!(cell.borrow_word(), 0);
    assert_eq!(cell.into_inner(), 11);
}

#[test]
fn claim_excludes_readers_and_claims() {
    let woken = log();
    let mut cell = RefCell::new(7);
    assert_eq!(claim(&mut cell, &task(1, &woken)), Poll::Ready(Ok(())));
    assert!(read(&mut cell, &task(2, &woken)).is_none());
    assert_eq!(claim(&mut cell, &task(3, &woken)), Poll::Pending);
    assert_eq!(cell.borrow_word(), WRITER + 1);
}

#[test]
fn polled_reader_excludes_claims() {
    let woken = log();
    let mut cell = RefCell::new(7);
    let a = read(&mut cell, &task(1, &woken)).unwrap();
    assert_eq!(*a.deref(&cell), 7);
    assert_eq!(claim(&mut cell, &task(2, &woken)), Poll::Pending);
    assert!(!cell.is_claimed());
    assert!(cell.is_blocked());
    assert!(read(&mut cell, &task(3, &woken)).is_none());
    assert_eq!(cell.borrow_word(), 1);
}

#[test]
fn last_polled_reader_wakes_the_writer() {
    let woken = log();
    let mut cell = RefCell::new(7);
    let a = read(&mut cell, &task(1, &woken)).unwrap();
    let b = read(&mut cell, &task(2, &woken)).unwrap();
    assert_eq!(claim(&mut cell, &task(3, &woken)), Poll::Pending);
    a.release(&mut cell).wake();
    assert_eq!(*woken.lock().unwrap(), vec![]);
    b.release(&mut cell).wake();
    assert_eq!(*woken.lock().unwrap(), vec![3]);
    assert_eq!(claim(&mut cell, &task(3, &woken)), Poll::Ready(Ok(())));
}

#[test]
fn mutable_borrow_lifts_the_block() {
    let woken = log();
    let mut cell = RefCell::new(7);
    let a = read(&mut cell, &task(1, &woken)).unwrap();
    assert_eq!(claim(&mut cell, &task(2, &woken)), Poll::Pending);
    a.release(&mut cell).wake();
    assert_eq!(claim(&mut cell, &task(2, &woken)), Poll::Ready(Ok(())));
    assert!(cell.is_blocked());
    let b = cell.borrow_mut();
    assert!(!cell.is_blocked());
    assert!(read(&mut cell, &task(3, &woken)).is_none());
    b.release(&mut cell).wake();
    assert_eq!(*woken.lock().unwrap(), vec![2, 1, 3]);
    assert!(read(&mut cell, &task(3, &woken)).is_some());
}

#[test]
fn writer_refused_during_a_borrow_keeps_readers_out() {
    let woken = log();
    let mut cell = RefCell::new(7);
    assert_eq!(claim(&mut cell, &task(1, &woken)), Poll::Ready(Ok(())));
    let a = cell.borrow_mut();
    assert_eq!(claim(&mut cell, &task(2, &woken)), Poll::Pending);
    assert!(read(&mut cell, &task(3, &woken)).is_none());
    a.release(&mut cell).wake();
    assert_eq!(*woken.lock().unwrap(), vec![3]);
    assert!(cell.is_blocked());
    assert!(read(&mut cell, &task(3, &woken)).is_none());
    assert_eq!(claim(&mut cell, &task(2, &woken)), Poll::Ready(Ok(())));
}

#[test]
fn wake_readers_takes_them_all() {
    let woken = log();
    let mut cell = RefCell::new(7);
    assert!(read(&mut cell, &task(1, &woken)).is_some());
    assert!(read(&mut cell, &task(2, &woken)).is_some());
    cell.wake_readers().wake();
    assert_eq!(*woken.lock().unwrap(), vec![1, 2]);
    assert_eq!(cell.wake_readers().len(), 0);
    assert_eq!(cell.borrow_word(), 2);
}

#[test]
fn polled_cell_is_shown_without_its_value() {
    assert_eq!(RefCell::new(7).fmt(), "AtomicRefCell { ... }");
}
