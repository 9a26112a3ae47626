//! The expiration sweeper: the rule of one sweep and the pauses of its loop.
use crate::backoff::add_jitter;
use crate::configuration::IdempotencySettings;
use crate::idempotency::{unexpired, IdempotencyTable};
use vstd::prelude::*;

verus! {

/// Consecutive failed sweeps that are retried after a short pause.
pub const MAX_RETRIES: u32 = 3;

/// The short pause before retrying a failed sweep.
pub const RETRY_PAUSE_MS: i64 = 10_000;

/// Which pause follows a sweep.
#[derive(PartialEq, Eq, Structural, Clone, Copy, Debug)]
pub enum SweepWait {
    /// The short retry pause.
    Retry,
    /// The configured sweep period.
    Period,
}

/// The loop's memory: how many sweeps in a row have failed.
pub struct SweeperState {
    pub retries: u32,
}

/// Retry count and pause after a sweep: a success, or a failure once the
/// retries are spent, resets the count and waits a full period.
pub open spec fn sweep_transition(retries: u32, succeeded: bool) -> (u32, SweepWait) {
    if succeeded {
        (0, SweepWait::Period)
    } else if retries + 1 < MAX_RETRIES {
        ((retries + 1) as u32, SweepWait::Retry)
    } else {
        (0, SweepWait::Period)
    }
}

impl SweeperState {
    pub fn new() -> (r: SweeperState)
        ensures
            r.retries == 0,
    {
        SweeperState { retries: 0 }
    }

    /// Records the result of a sweep and says which pause follows.
    pub fn after_sweep(&mut self, succeeded: bool) -> (r: SweepWait)
        ensures
            (final(self).retries, r) == sweep_transition(old(self).retries, succeeded),
    {
        if succeeded {
            self.retries = 0;
            SweepWait::Period
        } else if self.retries < MAX_RETRIES - 1 {
            self.retries = self.retries + 1;
            SweepWait::Retry
        } else {
            self.retries = 0;
            SweepWait::Period
        }
    }
}

/// The pause before the first sweep: half the period, so that a fleet
/// restarted at once does not sweep at once.
pub fn initial_delay_ms(period_ms: i64) -> (r: i64)
    requires
        0 <= period_ms,
    ensures
        r == period_ms / 2,
{
    period_ms / 2
}

/// The length of a pause, jittered by up to ten percent either way.
pub fn pause_ms(wait: SweepWait, period_ms: i64) -> (r: i64)
    requires
        0 <= period_ms,
        period_ms + period_ms / 10 <= i64::MAX,
    ensures
        0 <= r,
        wait == SweepWait::Retry ==> RETRY_PAUSE_MS - RETRY_PAUSE_MS / 10 <= r <= RETRY_PAUSE_MS
            + RETRY_PAUSE_MS / 10,
        wait == SweepWait::Period ==> period_ms - period_ms / 10 <= r <= period_ms + period_ms
            / 10,
{
    match wait {
        SweepWait::Retry => add_jitter(RETRY_PAUSE_MS),
        SweepWait::Period => add_jitter(period_ms),
    }
}

/// One sweep at `now` (milliseconds): deletes every record older than the
/// configured lifetime and returns how many went.
pub fn sweep(table: &mut IdempotencyTable, settings: &IdempotencySettings, now: i64) -> (r: usize)
    requires
        old(table).wf(),
        settings.expiration_secs * 1000 <= i64::MAX,
    ensures
        final(table).wf(),
        final(table).view_records() == unexpired(
            old(table).view_records(),
            settings.expiration_secs * 1000,
            now as int,
        ),
        r == old(table).view_records().len() - final(table).view_records().len(),
{
    let ttl = (settings.expiration_secs * 1000) as i64;
    table.remove_expired(ttl, now)
}

} // verus!
