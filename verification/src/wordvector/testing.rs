//! A progress observer for tests: sums every reported delta, so a test can
//! check that decoding a source reported exactly its byte length.

use vstd::prelude::*;
use std::sync::atomic::AtomicU64;
use std::sync::atomic::Ordering;
use crate::progressbar::IncSignal;

verus! {

pub struct TestIncCounter {
    value: AtomicU64,
}

impl Default for TestIncCounter {
    fn default() -> TestIncCounter {
        TestIncCounter { value: AtomicU64::new(0) }
    }
}

impl TestIncCounter {
    /// The sum of the deltas reported so far.
    pub fn value(&self) -> u64 {
        self.value.load(Ordering::Relaxed)
    }
}

impl IncSignal for TestIncCounter {
    fn inc(&self, delta: u64) {
        self.value.fetch_add(delta, Ordering::SeqCst);
    }
}

} // verus!
