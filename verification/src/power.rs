//! Power management bookkeeping: power modes, counters of measurement
//! cycles and the sample interval that suits the temperature trend.
use vstd::prelude::*;

verus! {

/// How fast the CPU runs, trading speed for power.
#[derive(Debug, Clone, Copy, PartialEq, Eq, Structural)]
pub enum PowerMode {
    /// Maximum speed, highest consumption.
    HighPerformance,
    /// Balanced speed and consumption.
    Efficient,
    /// Lowest consumption.
    PowerSaver,
}

impl Default for PowerMode {
    fn default() -> (r: Self)
        ensures
            r == PowerMode::Efficient,
    {
        PowerMode::Efficient
    }
}

/// The text that describes the clock frequency of a mode.
pub open spec fn frequency_text(mode: PowerMode) -> Seq<char> {
    match mode {
        PowerMode::HighPerformance => "Max MHz"@,
        PowerMode::Efficient => "Default MHz"@,
        PowerMode::PowerSaver => "Default MHz (Power Saving)"@,
    }
}

impl PowerMode {
    /// The text that describes the clock frequency of this mode.
    pub fn frequency_description(&self) -> (r: &'static str)
        ensures
            r@ == frequency_text(*self),
    {
        match self {
            PowerMode::HighPerformance => "Max MHz",
            PowerMode::Efficient => "Default MHz",
            PowerMode::PowerSaver => "Default MHz (Power Saving)",
        }
    }
}

/// Counters of measurement cycles, active and sleeping time, and mode
/// changes.
pub struct PowerMetrics {
    cycle_count: u32,
    total_active_time_ms: u32,
    total_sleep_time_ms: u32,
    power_mode_changes: u32,
}

impl PowerMetrics {
    /// The number of recorded cycles.
    pub closed spec fn cycles(&self) -> nat {
        self.cycle_count as nat
    }

    /// The total active time in milliseconds.
    pub closed spec fn active_ms(&self) -> nat {
        self.total_active_time_ms as nat
    }

    /// The total sleeping time in milliseconds.
    pub closed spec fn sleep_ms(&self) -> nat {
        self.total_sleep_time_ms as nat
    }

    /// The number of recorded mode changes.
    pub closed spec fn mode_changes(&self) -> nat {
        self.power_mode_changes as nat
    }

    /// Counters at zero.
    pub fn new() -> (r: Self)
        ensures
            r.cycles() == 0,
            r.active_ms() == 0,
            r.sleep_ms() == 0,
            r.mode_changes() == 0,
    {
        PowerMetrics {
            cycle_count: 0,
            total_active_time_ms: 0,
            total_sleep_time_ms: 0,
            power_mode_changes: 0,
        }
    }

    /// Records a cycle that was active for `active_time_ms` and slept for
    /// `sleep_time_ms`.
    pub fn record_cycle(&mut self, active_time_ms: u32, sleep_time_ms: u32)
        requires
            old(self).cycles() + 1 <= u32::MAX,
            old(self).active_ms() + active_time_ms <= u32::MAX,
            old(self).sleep_ms() + sleep_time_ms <= u32::MAX,
        ensures
            final(self).cycles() == old(self).cycles() + 1,
            final(self).active_ms() == old(self).active_ms() + active_time_ms,
            final(self).sleep_ms() == old(self).sleep_ms() + sleep_time_ms,
            final(self).mode_changes() == old(self).mode_changes(),
    {
        self.cycle_count = self.cycle_count + 1;
        self.total_active_time_ms = self.total_active_time_ms + active_time_ms;
        self.total_sleep_time_ms = self.total_sleep_time_ms + sleep_time_ms;
    }

    /// Records a change of power mode.
    pub fn record_power_mode_change(&mut self)
        requires
            old(self).mode_changes() + 1 <= u32::MAX,
        ensures
            final(self).mode_changes() == old(self).mode_changes() + 1,
            final(self).cycles() == old(self).cycles(),
            final(self).active_ms() == old(self).active_ms(),
            final(self).sleep_ms() == old(self).sleep_ms(),
    {
        self.power_mode_changes = self.power_mode_changes + 1;
    }

    /// The total active time in milliseconds.
    pub fn total_active_time_ms(&self) -> (r: u32)
        ensures
            r == self.active_ms(),
    {
        self.total_active_time_ms
    }

    /// The total sleeping time in milliseconds.
    pub fn total_sleep_time_ms(&self) -> (r: u32)
        ensures
            r == self.sleep_ms(),
    {
        self.total_sleep_time_ms
    }

    /// The whole seconds of active and sleeping time together.
    pub fn total_uptime_seconds(&self) -> (r: u32)
        requires
            self.active_ms() + self.sleep_ms() <= u32::MAX,
        ensures
            r == (self.active_ms() + self.sleep_ms()) / 1000,
    {
        (self.total_active_time_ms + self.total_sleep_time_ms) / 1000
    }

    /// The number of recorded cycles.
    pub fn cycle_count(&self) -> (r: u32)
        ensures
            r == self.cycles(),
    {
        self.cycle_count
    }

    /// The number of recorded mode changes.
    pub fn power_mode_changes(&self) -> (r: u32)
        ensures
            r == self.mode_changes(),
    {
        self.power_mode_changes
    }

    /// The size of the counters in memory, in bytes.
    pub fn memory_usage_bytes(&self) -> (r: u32)
        ensures
            r == vstd::layout::size_of::<Self>() as u32,
    {
        core::mem::size_of::<Self>() as u32
    }
}

/// The sample interval in milliseconds for a temperature trend: one second
/// while overheating; otherwise longer when the temperature is stable, and
/// longer the more the mode saves power.
pub open spec fn interval_for(temperature_stable: bool, is_overheating: bool, mode: PowerMode) -> u32 {
    if is_overheating {
        1000
    } else if temperature_stable {
        match mode {
            PowerMode::HighPerformance => 5000,
            PowerMode::Efficient => 30000,
            PowerMode::PowerSaver => 60000,
        }
    } else {
        match mode {
            PowerMode::HighPerformance => 1000,
            PowerMode::Efficient => 5000,
            PowerMode::PowerSaver => 10000,
        }
    }
}

/// The sample interval in milliseconds for a temperature trend.
pub fn calculate_optimal_interval_ms(
    temperature_stable: bool,
    is_overheating: bool,
    power_mode: PowerMode,
) -> (r: u32)
    ensures
        r == interval_for(temperature_stable, is_overheating, power_mode),
{
    if is_overheating {
        return 1000;
    }
    if temperature_stable {
        match power_mode {
            PowerMode::HighPerformance => 5000,
            PowerMode::Efficient => 30000,
            PowerMode::PowerSaver => 60000,
        }
    } else {
        match power_mode {
            PowerMode::HighPerformance => 1000,
            PowerMode::Efficient => 5000,
            PowerMode::PowerSaver => 10000,
        }
    }
}

/// A stable temperature never gets a shorter interval than an unstable one
/// in the same mode, and overheating always gets the shortest.
pub proof fn law_stable_waits_longer(mode: PowerMode, stable: bool, overheating: bool)
    ensures
        interval_for(true, false, mode) >= interval_for(false, false, mode),
        interval_for(stable, true, mode) == 1000,
        interval_for(stable, overheating, mode) >= 1000,
{
}

} // verus!
