//! Fixed-capacity, array-backed containers: a bounded LIFO stack and a
//! bounded circular-buffer FIFO queue. Each container owns `N` storage
//! slots fixed at the type level; a slot either holds one live element or
//! is empty, and every operation keeps the live slots exactly where the
//! container's invariant says they are. Each element is owned by exactly
//! one live slot, so dropping a container destroys exactly its live
//! elements, each exactly once.
//!
//! The two containers deliberately differ in their overflow policy:
//! overflowing the stack is a caller error, stated as a precondition of
//! [`stack_vector::StackVector::push`], while overflowing the queue is a
//! recoverable condition that [`stack_queue::StackQueue::push`] reports
//! as an error value, leaving the queue unchanged.

pub mod stack_queue;
pub mod stack_vector;
