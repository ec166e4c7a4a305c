//! What a search is told from outside while it runs: how deep and how long
//! it may go, and when to stop. The block is shared between the thread that
//! searches and the thread that reads commands, so every field is atomic.

use std::sync::atomic::{AtomicBool, AtomicU32, AtomicU8, Ordering};
use vstd::prelude::*;

verus! {

/// Depth limit of a search that was given none.
pub const DEFAULT_DEPTH: u8 = 255;

/// Time limit, in milliseconds, that stands for "no limit".
pub const UNLIMITED_MOVETIME: u32 = 0;

/// The limits of one search, as plain values.
#[derive(Clone, Copy, PartialEq, Eq, Structural, Debug)]
pub struct SearchLimits {
    /// The search does not go deeper than this many plies.
    pub depth: u8,
    /// The search stops after this many milliseconds; 0 is no limit.
    pub movetime: u32,
}

impl SearchLimits {
    /// No limit on time, and the largest depth there is.
    pub fn unlimited() -> (r: SearchLimits)
        ensures
            r.depth == DEFAULT_DEPTH,
            r.movetime == UNLIMITED_MOVETIME,
    {
        SearchLimits { depth: DEFAULT_DEPTH, movetime: UNLIMITED_MOVETIME }
    }
}

/// Whether a search has to stop: it has been told to, or it has a time
/// limit and has run for at least that long.
pub open spec fn stop_is_due(stop_now: bool, movetime: u32, elapsed_millis: u128) -> bool {
    stop_now || (movetime != UNLIMITED_MOVETIME && elapsed_millis >= movetime)
}

/// Decides from what the shared block and the clock say whether a search
/// has to stop.
pub fn should_stop(stop_now: bool, movetime: u32, elapsed_millis: u128) -> (r: bool)
    ensures
        r == stop_is_due(stop_now, movetime, elapsed_millis),
{
    if stop_now {
        return true;
    }
    if movetime != UNLIMITED_MOVETIME {
        if elapsed_millis >= movetime as u128 {
            return true;
        }
    }
    false
}

/// The block through which the two threads talk. Another thread may write
/// to it at any moment, so nothing is known of what a read returns.
pub struct StopConditions {
    pub is_running: AtomicBool,
    pub stop_now: AtomicBool,
    pub depth: AtomicU8,
    pub movetime: AtomicU32,
}

impl StopConditions {
    /// A block for a search without limits that is neither running nor
    /// told to stop.
    pub fn new() -> StopConditions {
        StopConditions::with_limits(SearchLimits::unlimited())
    }

    /// A block like that of `new`, with the given limits.
    pub fn with_limits(limits: SearchLimits) -> StopConditions {
        StopConditions {
            stop_now: AtomicBool::new(false),
            is_running: AtomicBool::new(false),
            depth: AtomicU8::new(limits.depth),
            movetime: AtomicU32::new(limits.movetime),
        }
    }

    /// Takes over the limits of `new`. The two flags stay as they are.
    pub fn assign(&self, new: StopConditions) {
        self.depth.store(new.depth.load(Ordering::Relaxed), Ordering::Release);
        self.movetime.store(new.movetime.load(Ordering::Relaxed), Ordering::Release);
    }

    /// The limits as they stand.
    pub fn limits(&self) -> SearchLimits {
        SearchLimits {
            depth: self.depth.load(Ordering::Relaxed),
            movetime: self.movetime.load(Ordering::Relaxed),
        }
    }

    /// Whether the search has been told to stop.
    pub fn stop_requested(&self) -> bool {
        self.stop_now.load(Ordering::Relaxed)
    }

    /// Tells the search to stop, or takes that back.
    pub fn set_stop_now(&self, value: bool) {
        self.stop_now.store(value, Ordering::Release);
    }

    /// Whether a search is under way.
    pub fn running(&self) -> bool {
        self.is_running.load(Ordering::Acquire)
    }

    /// Says that a search has begun, or has ended.
    pub fn set_running(&self, value: bool) {
        self.is_running.store(value, Ordering::Release);
    }
}

} // verus!
