//! The flag that a terminal resize sets while the rows are fetched.

use std::sync::atomic::{AtomicBool, Ordering};
use vstd::prelude::*;

verus! {

/// Whether the pane was resized since the flag was last read, clearing the
/// flag. A signal handler may set the flag at any moment, so nothing is
/// promised of the answer.
pub fn resize_seen(resized: &AtomicBool) -> bool {
    resized.swap(false, Ordering::Relaxed)
}

} // verus!
