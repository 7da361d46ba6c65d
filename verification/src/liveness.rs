//! The window of timestamps that count as live.
use vstd::prelude::*;

verus! {

/// The timestamps, in unix seconds, that are accepted as live: those from
/// `earliest` to `latest`, both included. The caller derives the window
/// from its clock and its tolerance for skew.
#[derive(Clone, Copy, Debug, PartialEq, Eq, Structural)]
pub struct LivenessWindow {
    pub earliest: i64,
    pub latest: i64,
}

impl LivenessWindow {
    /// `timestamp` lies in the window.
    pub open spec fn admits(self, timestamp: i64) -> bool {
        self.earliest <= timestamp <= self.latest
    }

    /// Every timestamp of `timestamps` is admitted.
    pub open spec fn admits_all(self, timestamps: Seq<i64>) -> bool {
        forall|i: int| 0 <= i < timestamps.len() ==> self.admits(#[trigger] timestamps[i])
    }

    /// Whether `timestamp` lies in the window.
    pub fn is_live(&self, timestamp: i64) -> (live: bool)
        ensures
            live == self.admits(timestamp),
    {
        self.earliest <= timestamp && timestamp <= self.latest
    }
}

/// Checks that `timestamp` is neither too old nor too far in the future.
pub fn check_timestamp_for_liveness(timestamp: i64, window: &LivenessWindow) -> (live: bool)
    ensures
        live == window.admits(timestamp),
{
    window.is_live(timestamp)
}

} // verus!
