//! Amortized constant-time queue of borrowed references, built on two
//! vectors with a lazy flip from the input side to the output side.

mod queue;

pub use queue::AmoQueue;
