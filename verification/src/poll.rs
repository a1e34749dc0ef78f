use vstd::prelude::*;

verus! {

/// What one attempt to borrow comes to.
#[derive(Debug, PartialEq, Eq)]
pub enum Poll<T> {
    /// The borrow was granted.
    Ready(T),
    /// The borrow was refused; the task that asked is queued to be woken.
    Pending,
}

} // verus!
