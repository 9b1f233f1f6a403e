//! Keeping the system awake while recording. On Windows the hold is
//! `SetThreadExecutionState`, a per-thread call the caller makes with the
//! flags below from a thread that lives for the whole recording (the audio
//! thread); on other platforms there is no call to make, and taking and
//! releasing the hold do nothing.

use vstd::prelude::*;

verus! {

/// `ES_CONTINUOUS`: the state set stays in effect until changed.
pub const ES_CONTINUOUS: u32 = 0x8000_0000;

/// `ES_SYSTEM_REQUIRED`: the system must not sleep.
pub const ES_SYSTEM_REQUIRED: u32 = 0x0000_0001;

/// The execution state that holds the system awake.
pub const HOLD_FLAGS: u32 = ES_CONTINUOUS | ES_SYSTEM_REQUIRED;

/// The execution state that releases the hold.
pub const RELEASE_FLAGS: u32 = ES_CONTINUOUS;

/// Holds the system awake for as long as it lives.
#[derive(Debug)]
pub struct WakeGuard {
    _private: (),
}

/// Take the hold where the platform needs no call: nothing to do.
pub fn acquire() {
}

/// Release the hold where the platform needs no call: nothing to do.
pub fn release() {
}

impl WakeGuard {
    pub fn new() -> (r: WakeGuard) {
        acquire();
        WakeGuard { _private: () }
    }
}

impl Default for WakeGuard {
    fn default() -> (r: WakeGuard) {
        WakeGuard::new()
    }
}

} // verus!
