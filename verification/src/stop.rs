//! The cancellation flag that the front end shares with a running search.
use std::sync::atomic::{AtomicBool, Ordering};
use std::sync::Arc;
use vstd::prelude::*;

verus! {

/// Reads the shared flag. Another thread may raise it at any time, so
/// nothing is known of the answer.
pub fn is_raised(flag: &Arc<AtomicBool>) -> (r: bool) {
    flag.load(Ordering::Relaxed)
}

} // verus!
