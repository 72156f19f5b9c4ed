//! How much of a copy has happened, and whether it should stop.

use std::sync::atomic::{AtomicBool, AtomicU64};
use std::sync::Arc;

use vstd::prelude::*;

verus! {

/// How much of a copy has happened, and whether it should stop.
///
/// Two handles onto the same counters, so the thread doing the copying and the
/// one drawing the window can hold one each. What either reads is whatever the
/// other has written by then, so nothing here promises a value: another thread
/// can move the count or ask for a stop between any two calls.
#[derive(Clone)]
pub struct Watch {
    done: Arc<AtomicU64>,
    cancel: Arc<AtomicBool>,
}

impl Watch {
    /// A watch on a copy that has not started.
    pub fn new() -> (w: Self) {
        Watch { done: Arc::new(AtomicU64::new(0)), cancel: Arc::new(AtomicBool::new(false)) }
    }

    /// Bytes written so far.
    pub fn done(&self) -> (n: u64) {
        self.done.load(std::sync::atomic::Ordering::Relaxed)
    }

    /// Ask the copy to stop. It stops at the end of the chunk it is on.
    pub fn cancel(&self) {
        self.cancel.store(true, std::sync::atomic::Ordering::Relaxed);
    }

    /// Whether stopping has been asked for.
    pub fn is_cancelled(&self) -> (b: bool) {
        self.cancel.load(std::sync::atomic::Ordering::Relaxed)
    }

    /// Count `n` more bytes as written.
    pub fn advance(&self, n: u64) {
        self.done.fetch_add(n, std::sync::atomic::Ordering::Relaxed);
    }
}

} // verus!
