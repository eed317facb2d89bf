//! A fixed-size worker thread pool, modeled and verified.
//!
//! The pool is a reusable set of background threads that accept arbitrary
//! units of work over a dispatch channel and run each unit exactly once,
//! with an ordered shutdown that joins every worker.  This crate holds the
//! verified core: the message protocol that the channel carries, the
//! worker-loop decision, and a state model of a whole pool whose contracts
//! pin down worker identities, work conservation and the shutdown outcome.
//! The thread spawning, the real channel and the joins live outside the
//! verified boundary and consult this crate for every decision.

pub mod message;
pub mod dispatch;
pub mod pool;
