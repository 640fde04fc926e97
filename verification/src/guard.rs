//! The startup guard: for a short interval after process start, new
//! imports are rejected so that initial background scans settle. The
//! clock is handed in by the caller.

use vstd::prelude::*;

verus! {

/// The guard: the instant the process started and the width of the
/// protected window, both in seconds.
pub struct StartupGuard {
    pub started_at: i64,
    pub window_secs: i64,
}

impl StartupGuard {
    pub fn new(started_at: i64, window_secs: i64) -> (r: StartupGuard)
        ensures
            r.started_at == started_at,
            r.window_secs == window_secs,
    {
        StartupGuard { started_at, window_secs }
    }

    /// Whether imports are still rejected at the given instant.
    pub fn active(&self, now: i64) -> (r: bool)
        ensures
            r == ((now as int) - (self.started_at as int) < self.window_secs as int),
    {
        ((now as i128) - (self.started_at as i128)) < (self.window_secs as i128)
    }

    /// How many seconds of the protected window are left at the given
    /// instant (zero once it has passed).
    pub fn remaining_secs(&self, now: i64) -> (r: i64)
        ensures
            ({
                let left = (self.started_at as int) + (self.window_secs as int) - (now as int);
                if left <= 0 {
                    r == 0
                } else if left >= i64::MAX {
                    r == i64::MAX
                } else {
                    r == left
                }
            }),
    {
        let left: i128 = (self.started_at as i128) + (self.window_secs as i128) - (now as i128);
        if left <= 0 {
            0
        } else if left >= (i64::MAX as i128) {
            i64::MAX
        } else {
            left as i64
        }
    }
}

/// Relies on `std::time::SystemTime::now`: the seconds since the Unix
/// epoch, clamped into the non-negative range of `i64`.
#[verifier::external_body]
pub fn unix_now() -> (r: i64)
    ensures
        r >= 0,
{
    std::time::SystemTime::now()
        .duration_since(std::time::UNIX_EPOCH)
        .map(|d| d.as_secs().min(i64::MAX as u64) as i64)
        .unwrap_or(0)
}

} // verus!
