//! One counted key.

use vstd::prelude::*;

verus! {

/// What the cache remembers of one key: how often it was touched, and when last.
#[derive(Clone, Copy, Debug, PartialEq, Eq, Structural)]
pub struct CacheEntry {
    /// Number of touches since the entry was created. Never zero in a cache.
    pub count: u32,
    /// Milliseconds since the epoch at the most recent touch.
    pub last_touch: u128,
}

impl CacheEntry {
    /// An entry is live at `now` while less than `ttl` milliseconds have passed
    /// since its last touch.
    pub open spec fn is_live(self, now: u128, ttl: u128) -> bool {
        self.last_touch + ttl > now
    }

    /// Decides `is_live` without leaving `u128`.
    pub fn live_at(&self, now: u128, ttl: u128) -> (live: bool)
        ensures
            live == self.is_live(now, ttl),
    {
        now < ttl || self.last_touch > now - ttl
    }
}

} // verus!
