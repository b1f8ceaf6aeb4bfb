//! The memory trimmer's schedule: how often the web view's memory is
//! measured, how often memory is handed back to the system, and when a web
//! view has grown too large to keep.
use vstd::prelude::*;

verus! {

/// Least time between two measurements, in milliseconds.
pub const MEASURE_COOLDOWN_MS: u64 = 5_000;

/// Least time between two trims, in milliseconds.
pub const TRIM_COOLDOWN_MS: u64 = 45_000;

/// Resident memory above which the web view is reloaded, in MiB.
pub const EMERGENCY_RSS_CEILING_MB: usize = 500;

/// What the host must do after a measurement.
#[derive(Debug, PartialEq, Eq, Clone, Copy)]
pub enum TrimAction {
    NoAction,
    EmergencyCrash,
}

/// Which steps of a maintenance cycle are due.
#[derive(Debug, PartialEq, Eq, Clone, Copy)]
pub struct TrimPlan {
    pub measure: bool,
    pub trim: bool,
}

/// When the last measurement and the last trim happened, in milliseconds on
/// the host's monotonic clock.
pub struct OsTrimmer {
    last_measurement: Option<u64>,
    last_trim: Option<u64>,
}

/// Whether a step last done at `last` is due again at `now` after `cooldown`;
/// a clock that went back counts as no time elapsed.
pub open spec fn due(last: Option<u64>, now: u64, cooldown: u64) -> bool {
    match last {
        Some(l) => (if now >= l { now - l } else { 0 }) >= cooldown,
        None => true,
    }
}

impl OsTrimmer {
    /// When the last measurement happened.
    pub closed spec fn last_measurement_ms(&self) -> Option<u64> {
        self.last_measurement
    }

    /// When the last trim happened.
    pub closed spec fn last_trim_ms(&self) -> Option<u64> {
        self.last_trim
    }

    /// A trimmer that has done nothing yet.
    pub fn new() -> (t: Self)
        ensures
            t.last_measurement_ms() is None,
            t.last_trim_ms() is None,
    {
        Self { last_measurement: None, last_trim: None }
    }

    /// Starts a maintenance cycle at `now_ms`: says which steps are due and
    /// records them as done now.
    pub fn begin_cycle(&mut self, now_ms: u64) -> (plan: TrimPlan)
        ensures
            plan.measure == due(old(self).last_measurement_ms(), now_ms, MEASURE_COOLDOWN_MS),
            plan.trim == due(old(self).last_trim_ms(), now_ms, TRIM_COOLDOWN_MS),
            final(self).last_measurement_ms() == (if plan.measure {
                Some(now_ms)
            } else {
                old(self).last_measurement_ms()
            }),
            final(self).last_trim_ms() == (if plan.trim { Some(now_ms) } else { old(self).last_trim_ms() }),
    {
        let should_measure = match self.last_measurement {
            Some(last) => now_ms.saturating_sub(last) >= MEASURE_COOLDOWN_MS,
            None => true,
        };
        if should_measure {
            self.last_measurement = Some(now_ms);
        }
        let should_trim = match self.last_trim {
            Some(last) => now_ms.saturating_sub(last) >= TRIM_COOLDOWN_MS,
            None => true,
        };
        if should_trim {
            self.last_trim = Some(now_ms);
        }
        TrimPlan { measure: should_measure, trim: should_trim }
    }
}

/// What a measured resident size, in bytes, calls for.
pub open spec fn rss_action_spec(rss_bytes: int) -> TrimAction {
    if rss_bytes > EMERGENCY_RSS_CEILING_MB * 1024 * 1024 {
        TrimAction::EmergencyCrash
    } else {
        TrimAction::NoAction
    }
}

/// Whether the measured resident size, in bytes, is past the ceiling.
pub fn rss_action(rss_bytes: usize) -> (a: TrimAction)
    ensures
        a == rss_action_spec(rss_bytes as int),
{
    if rss_bytes > EMERGENCY_RSS_CEILING_MB * 1024 * 1024 {
        TrimAction::EmergencyCrash
    } else {
        TrimAction::NoAction
    }
}

/// After a measurement at `t1`, none is due again before the cooldown has
/// passed (on a clock that does not go back).
pub proof fn lemma_measure_rate_limited(t1: u64, t2: u64)
    requires
        t1 <= t2 < t1 + MEASURE_COOLDOWN_MS,
    ensures
        !due(Some(t1), t2, MEASURE_COOLDOWN_MS),
{
}

/// After a trim at `t1`, none is due again before the cooldown has passed.
pub proof fn lemma_trim_rate_limited(t1: u64, t2: u64)
    requires
        t1 <= t2 < t1 + TRIM_COOLDOWN_MS,
    ensures
        !due(Some(t1), t2, TRIM_COOLDOWN_MS),
{
}

/// Once the cooldown has passed since a step, the step is due again: a
/// measurement after 5 seconds, a trim after 45.
pub proof fn lemma_due_after_cooldown(t1: u64, t2: u64)
    requires
        t1 <= t2,
    ensures
        t2 - t1 >= 5_000 ==> due(Some(t1), t2, MEASURE_COOLDOWN_MS),
        t2 - t1 >= 45_000 ==> due(Some(t1), t2, TRIM_COOLDOWN_MS),
        t2 - t1 < 5_000 ==> !due(Some(t1), t2, MEASURE_COOLDOWN_MS),
        t2 - t1 < 45_000 ==> !due(Some(t1), t2, TRIM_COOLDOWN_MS),
{
}

/// A resident size above 500 MiB, and only that, calls for reloading the
/// web view.
pub proof fn lemma_rss_threshold(rss_bytes: int)
    ensures
        rss_bytes > 524_288_000 ==> rss_action_spec(rss_bytes) == TrimAction::EmergencyCrash,
        rss_bytes <= 524_288_000 ==> rss_action_spec(rss_bytes) == TrimAction::NoAction,
{
}

/// A fresh trimmer measures and trims on its first cycle.
pub proof fn lemma_first_cycle_does_everything(now: u64)
    ensures
        due(None, now, MEASURE_COOLDOWN_MS) && due(None, now, TRIM_COOLDOWN_MS),
{
}

} // verus!
