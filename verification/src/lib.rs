//! A batching adaptor: groups the items of an asynchronous sequence into
//! bounded batches, releasing a batch when it reaches a configured capacity
//! or when a configured wait time has elapsed since the first item of the
//! current batch arrived, whichever happens first.
//!
//! The crate holds the complete buffering and flush state machine: the
//! [`adaptor::Chunks`] core consumes readiness events for the source and for
//! the deadline timer and decides what the surrounding driver must report to
//! its caller. The driver itself (the code that polls a concrete stream and a
//! concrete timer and hands the outcomes here) stays outside, because polling
//! is inherently unverifiable I/O; everything it needs to decide is in here.

pub mod adaptor;
pub mod laws;
