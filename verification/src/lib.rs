pub mod cell;
pub mod futures_refcell;
pub mod gate;
pub mod laws;
pub mod model;
pub mod poll;
pub mod wakers;
pub mod word;

pub use cell::{AtomicRef, AtomicRefMut, RefCell};
pub use poll::Poll;
