# async_refcell

An analogue to `RefCell` whose borrows are waited for by tasks: many immutable borrows or one
mutable borrow at a time, granted by polling, with the tasks that were refused woken when a borrow
is given back.

- `src/` is the verified library.
  - `model.rs`: what a cell keeps beside its value, and how each operation changes it.
  - `word.rs`: the word that counts the borrows.
  - `wakers.rs`: the queues of tasks that wait, on `crossbeam_queue::SegQueue` and
    `futures_core`'s `AtomicWaker`.
  - `gate.rs`: who may borrow, and who is told when that changes.
  - `cell.rs`: the cell whose mutable borrow is one poll; a mutable borrow that is given back goes
    to the next writer first.
  - `futures_refcell.rs`: the cell whose mutable borrow is claimed and then made; a mutable borrow
    that is given back goes to the readers.
  - `laws.rs`: what holds of a cell over any number of steps by any number of threads.
- `app/` shares the cells between threads and gives them their `async` methods and guards.
- `tests/` runs the library.
