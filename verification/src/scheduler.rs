//! The precise tick scheduler's timing rule.
//!
//! One tick runs every `tick_duration`. Plain sleeping overshoots by
//! milliseconds on commodity systems, so the tail of each wait is
//! spin-waited: after a tick that took `elapsed`, the runner sleeps for
//! the remaining time minus the spin threshold and spins for the rest.
//! The loop around it performs the sleeping and spinning; this module
//! decides, exactly, how long each part is.

use vstd::prelude::*;

verus! {

/// The last stretch of every tick interval is spin-waited rather than
/// slept, in nanoseconds: about seven milliseconds.
pub const SPIN_THRESHOLD_NANOS: u64 = 7000000;

/// How the runner should wait out the rest of a tick interval.
pub struct WaitPlan {
    /// Sleep this long first.
    pub sleep_nanos: u64,
    /// Then spin until the deadline, this far from the tick's start.
    pub spin_until_nanos: u64,
}

/// The tick runner's configuration: how long one tick lasts.
pub struct PreciseScheduleRunnerPlugin {
    pub tick_duration_nanos: u64,
}

impl PreciseScheduleRunnerPlugin {
    /// A runner from a whole ticks-per-second rate.
    pub fn new(tps: u32) -> (r: PreciseScheduleRunnerPlugin)
        requires
            tps > 0,
        ensures
            r.tick_duration_nanos == 1000000000u64 / tps as u64,
    {
        PreciseScheduleRunnerPlugin { tick_duration_nanos: 1000000000u64 / (tps as u64) }
    }

    /// The wait after a tick that ran for `elapsed_nanos`: nothing when
    /// the tick overran; otherwise sleep whatever of the remainder
    /// exceeds the spin threshold, and spin out the rest, so the total
    /// wait ends exactly at the deadline.
    pub fn plan_wait(&self, elapsed_nanos: u64) -> (r: WaitPlan)
        ensures
            elapsed_nanos >= self.tick_duration_nanos ==> r.sleep_nanos == 0
                && r.spin_until_nanos == elapsed_nanos,
            elapsed_nanos < self.tick_duration_nanos ==> {
                let remaining = self.tick_duration_nanos - elapsed_nanos;
                &&& r.spin_until_nanos == self.tick_duration_nanos
                &&& (remaining > SPIN_THRESHOLD_NANOS ==> r.sleep_nanos == remaining
                    - SPIN_THRESHOLD_NANOS)
                &&& (remaining <= SPIN_THRESHOLD_NANOS ==> r.sleep_nanos == 0)
                &&& elapsed_nanos + r.sleep_nanos + SPIN_THRESHOLD_NANOS
                    >= self.tick_duration_nanos
                &&& elapsed_nanos + r.sleep_nanos <= self.tick_duration_nanos
            },
    {
        if elapsed_nanos >= self.tick_duration_nanos {
            WaitPlan { sleep_nanos: 0, spin_until_nanos: elapsed_nanos }
        } else {
            let remaining = self.tick_duration_nanos - elapsed_nanos;
            let sleep_nanos = if remaining > SPIN_THRESHOLD_NANOS {
                remaining - SPIN_THRESHOLD_NANOS
            } else {
                0
            };
            WaitPlan { sleep_nanos, spin_until_nanos: self.tick_duration_nanos }
        }
    }
}

/// The per-second tick counter behind the `tps` command and the status
/// broadcast.
pub struct TpsCounter {
    pub ticks: u32,
    pub elapsed_nanos: u64,
    pub tps: u32,
    pub tps_updated: bool,
}

impl TpsCounter {
    pub fn new() -> (r: TpsCounter)
        ensures
            r == (TpsCounter { ticks: 0, elapsed_nanos: 0, tps: 0, tps_updated: false }),
    {
        TpsCounter { ticks: 0, elapsed_nanos: 0, tps: 0, tps_updated: false }
    }

    pub fn get_tps(&self) -> (r: u32)
        ensures
            r == self.tps,
    {
        self.tps
    }

    /// Counts one tick. When a full second has accumulated, the counted
    /// ticks become the published rate and the window restarts.
    pub fn on_tick(&mut self, delta_nanos: u64)
        ensures
            ({
                let ticks1 = if old(self).ticks < u32::MAX {
                    old(self).ticks + 1
                } else {
                    old(self).ticks as int
                };
                let elapsed1 = if old(self).elapsed_nanos + delta_nanos <= u64::MAX {
                    old(self).elapsed_nanos + delta_nanos
                } else {
                    u64::MAX as int
                };
                if elapsed1 >= 1000000000 {
                    *final(self) == (TpsCounter {
                        ticks: 0,
                        elapsed_nanos: 0,
                        tps: ticks1 as u32,
                        tps_updated: true,
                    })
                } else {
                    *final(self) == (TpsCounter {
                        ticks: ticks1 as u32,
                        elapsed_nanos: elapsed1 as u64,
                        ..*old(self)
                    })
                }
            }),
    {
        if self.ticks < u32::MAX {
            self.ticks = self.ticks + 1;
        }
        if self.elapsed_nanos <= u64::MAX - delta_nanos {
            self.elapsed_nanos = self.elapsed_nanos + delta_nanos;
        } else {
            self.elapsed_nanos = u64::MAX;
        }
        if self.elapsed_nanos >= 1000000000 {
            self.tps = self.ticks;
            self.ticks = 0;
            self.elapsed_nanos = 0;
            self.tps_updated = true;
        }
    }
}

} // verus!
