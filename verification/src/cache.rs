//! Regeneration policy of a cached atlas.
//!
//! Each cache scope carries a last-update timestamp behind its own lock.
//! A cold cache blocks the reader until the file exists; a stale file is
//! served immediately while a detached regeneration runs; a fresh file is
//! served as is. A finalized collection additionally invalidates its
//! atlas whenever new uploads arrive.

use vstd::prelude::*;

use crate::REGEN_INTERVAL_SECS;

verus! {

/// The per-scope regeneration trigger: when the cache was last rebuilt.
pub struct RegenTrigger {
    pub last_update: i64,
}

/// What a read request must do about the cached file.
pub enum RegenDecision {
    /// No cached file: build it now, the caller waits.
    BuildBlocking,
    /// A file exists but is stale: serve it and regenerate detached.
    ServeStaleAndRegen,
    /// A file exists and is fresh: serve it.
    ServeFresh,
}

/// Whether the trigger is stale at `now`: the fixed interval has passed
/// since the last successful regeneration.
pub open spec fn is_stale(t: RegenTrigger, now: int) -> bool {
    now - t.last_update > REGEN_INTERVAL_SECS
}

impl RegenTrigger {
    /// Decides a read request: mandatory synchronous build on a cold
    /// cache, detached regeneration behind a stale file, plain serving
    /// otherwise.
    pub fn decide(&self, file_exists: bool, now: i64) -> (r: RegenDecision)
        requires
            now - self.last_update <= i64::MAX,
            now - self.last_update >= i64::MIN,
        ensures
            !file_exists ==> r is BuildBlocking,
            file_exists && is_stale(*self, now as int) ==> r is ServeStaleAndRegen,
            file_exists && !is_stale(*self, now as int) ==> r is ServeFresh,
    {
        if !file_exists {
            RegenDecision::BuildBlocking
        } else if now - self.last_update > REGEN_INTERVAL_SECS {
            RegenDecision::ServeStaleAndRegen
        } else {
            RegenDecision::ServeFresh
        }
    }

    /// Records a successful regeneration; nothing else ever moves the
    /// timestamp.
    pub fn mark_regenerated(&mut self, now: i64)
        ensures
            final(self).last_update == now,
    {
        self.last_update = now;
    }
}

/// Whether an upload into a collection must clear its finalized flag and
/// so invalidate the collection's static atlas.
pub fn upload_invalidates(finalized: bool) -> (r: bool)
    ensures
        r == finalized,
{
    finalized
}

} // verus!
