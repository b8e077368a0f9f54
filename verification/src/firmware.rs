//! The decisions of the temperature monitor firmware, apart from the
//! hardware it drives: the counters the main loop keeps, when it reports,
//! how the status LED and the console icon follow the temperature, which
//! alerts it raises, and how the power-optimized loop picks its mode and
//! sampling interval.
use vstd::prelude::*;
use vstd::string::StringExecFns;
use crate::monitor::Temperature;
use crate::power::PowerMode;
use crate::text::{decimal, owned, push_decimal};

verus! {

broadcast use vstd::string::group_string_axioms;

// ---------------------------------------------------------------------------
// The integrated monitor
// ---------------------------------------------------------------------------

/// The time between two samples, in milliseconds.
pub const SAMPLE_RATE_MS: u32 = 1000;

/// Every how many readings the JSON data is printed.
pub const JSON_OUTPUT_INTERVAL: u32 = 5;

/// Every how many readings the health report is printed.
pub const HEALTH_REPORT_INTERVAL: u32 = 20;

/// Every how many readings the integration demonstration runs.
pub const DEMO_INTERVAL: u32 = 50;

/// What the main loop counts: readings, elapsed time, overheating events
/// and sensor errors.
#[derive(Debug, Clone, Copy, PartialEq, Eq, Structural)]
pub struct SystemState {
    pub reading_count: u32,
    pub system_time_ms: u32,
    pub overheating_count: u32,
    pub sensor_error_count: u32,
}

impl SystemState {
    /// Nothing counted yet.
    pub fn new() -> (r: Self)
        ensures
            r.reading_count == 0,
            r.system_time_ms == 0,
            r.overheating_count == 0,
            r.sensor_error_count == 0,
    {
        SystemState { reading_count: 0, system_time_ms: 0, overheating_count: 0, sensor_error_count: 0 }
    }

    /// One more reading, one sample period later.
    pub fn advance_time(&mut self)
        requires
            old(self).reading_count < u32::MAX,
            old(self).system_time_ms + SAMPLE_RATE_MS <= u32::MAX,
        ensures
            *final(self) == (SystemState {
                reading_count: (old(self).reading_count + 1) as u32,
                system_time_ms: (old(self).system_time_ms + SAMPLE_RATE_MS) as u32,
                ..*old(self)
            }),
    {
        self.reading_count = self.reading_count + 1;
        self.system_time_ms = self.system_time_ms + SAMPLE_RATE_MS;
    }

    /// One more overheating event.
    pub fn record_overheating(&mut self)
        requires
            old(self).overheating_count < u32::MAX,
        ensures
            *final(self) == (SystemState {
                overheating_count: (old(self).overheating_count + 1) as u32,
                ..*old(self)
            }),
    {
        self.overheating_count = self.overheating_count + 1;
    }

    /// One more sensor error.
    pub fn record_sensor_error(&mut self)
        requires
            old(self).sensor_error_count < u32::MAX,
        ensures
            *final(self) == (SystemState {
                sensor_error_count: (old(self).sensor_error_count + 1) as u32,
                ..*old(self)
            }),
    {
        self.sensor_error_count = self.sensor_error_count + 1;
    }

    /// The elapsed time in whole seconds.
    pub fn uptime_seconds(&self) -> (r: u32)
        ensures
            r == self.system_time_ms / 1000,
    {
        self.system_time_ms / 1000
    }
}

/// The outputs that are due after the reading numbered `count`.
#[derive(Debug, Clone, Copy, PartialEq, Eq, Structural)]
pub struct DueOutputs {
    pub json: bool,
    pub health_report: bool,
    pub demo: bool,
}

/// Which outputs are due after the reading numbered `count`: each one every
/// so many readings.
pub fn due_outputs(count: u32) -> (r: DueOutputs)
    ensures
        r.json == (count % JSON_OUTPUT_INTERVAL == 0),
        r.health_report == (count % HEALTH_REPORT_INTERVAL == 0),
        r.demo == (count % DEMO_INTERVAL == 0),
{
    DueOutputs {
        json: count % JSON_OUTPUT_INTERVAL == 0,
        health_report: count % HEALTH_REPORT_INTERVAL == 0,
        demo: count % DEMO_INTERVAL == 0,
    }
}

/// What happens to the status LED after a reading.
#[derive(Debug, Clone, Copy, PartialEq, Eq, Structural)]
pub enum LedAction {
    /// Switched on.
    SetHigh,
    /// Switched over.
    Toggle,
    /// Left as it is.
    Keep,
}

/// The LED action for a reading of `temperature`: on while overheating, a
/// fast blink every fourth reading once a sensor error occurred, a slow
/// heartbeat every tenth reading.
pub open spec fn led_action_of(overheating: bool, state: SystemState) -> LedAction {
    if overheating {
        LedAction::SetHigh
    } else if state.sensor_error_count > 0 && state.reading_count % 4 == 0 {
        LedAction::Toggle
    } else if state.reading_count % 10 == 0 {
        LedAction::Toggle
    } else {
        LedAction::Keep
    }
}

/// The LED action for a reading of `temperature` in state `state`.
pub fn led_action(temperature: &Temperature, state: &SystemState) -> (r: LedAction)
    ensures
        r == led_action_of(temperature.celsius_tenths > 500, *state),
{
    if temperature.is_overheating() {
        LedAction::SetHigh
    } else if state.sensor_error_count > 0 && state.reading_count % 4 == 0 {
        LedAction::Toggle
    } else if state.reading_count % 10 == 0 {
        LedAction::Toggle
    } else {
        LedAction::Keep
    }
}

/// The icon that leads a console line: red while overheating, yellow once
/// a sensor error occurred, green in the normal range, blue otherwise.
pub open spec fn icon_of(t: Temperature, state: SystemState) -> Seq<char> {
    if t.celsius_tenths > 500 {
        "🔴"@
    } else if state.sensor_error_count > 0 {
        "🟡"@
    } else if 150 <= t.celsius_tenths <= 350 {
        "🟢"@
    } else {
        "🔵"@
    }
}

/// The icon for a reading of `temperature` in state `state`.
pub fn status_icon(temperature: &Temperature, state: &SystemState) -> (r: &'static str)
    ensures
        r@ == icon_of(*temperature, *state),
{
    if temperature.is_overheating() {
        "🔴"
    } else if state.sensor_error_count > 0 {
        "🟡"
    } else if temperature.is_normal_range() {
        "🟢"
    } else {
        "🔵"
    }
}

/// The warning printed once there were five overheating events or more.
pub open spec fn overheating_warning_text(count: u32) -> Seq<char> {
    "🚨 WARNING: "@ + decimal(count as nat)
        + " overheating events detected! System requires attention."@
}

/// The alert printed once there were three sensor errors or more.
pub open spec fn sensor_alert_text(count: u32) -> Seq<char> {
    "⚠️  ALERT: "@ + decimal(count as nat) + " sensor errors detected. Check sensor connection."@
}

/// The alerts that the state calls for, in order: the overheating warning
/// (from five events on), then the sensor alert (from three errors on).
pub fn error_alerts(state: &SystemState) -> (r: Vec<String>)
    ensures
        r@.len() == (if state.overheating_count >= 5 { 1int } else { 0 }) + (if state.sensor_error_count
            >= 3 { 1int } else { 0 }),
        state.overheating_count >= 5 ==> r@[0]@ == overheating_warning_text(state.overheating_count),
        state.sensor_error_count >= 3 ==> r@[r@.len() - 1]@ == sensor_alert_text(
            state.sensor_error_count,
        ),
{
    let mut r: Vec<String> = Vec::new();
    if state.overheating_count >= 5 {
        let mut s = owned("🚨 WARNING: ");
        push_decimal(&mut s, state.overheating_count as u64);
        s.append(" overheating events detected! System requires attention.");
        r.push(s);
    }
    if state.sensor_error_count >= 3 {
        let mut s = owned("⚠️  ALERT: ");
        push_decimal(&mut s, state.sensor_error_count as u64);
        s.append(" sensor errors detected. Check sensor connection.");
        r.push(s);
    }
    r
}

/// Whether a buffer of `len` readings out of `capacity` is full, so that
/// new readings push out old ones.
pub fn buffer_full(len: usize, capacity: usize) -> (r: bool)
    ensures
        r == (len >= capacity),
{
    len >= capacity
}

// ---------------------------------------------------------------------------
// The power-optimized monitor
// ---------------------------------------------------------------------------

/// The sampling interval while the temperature is watched closely.
pub const SAMPLE_INTERVAL_FAST_MS: u32 = 1000;

/// The sampling interval while saving power.
pub const SAMPLE_INTERVAL_SLOW_MS: u32 = 60000;

/// How many recent temperatures the stability check looks at.
pub const RECENT_TEMPERATURES: usize = 5;

/// The sampling interval that suits a power mode.
pub open spec fn interval_for(mode: PowerMode) -> u32 {
    match mode {
        PowerMode::HighPerformance => SAMPLE_INTERVAL_FAST_MS,
        PowerMode::Efficient => SAMPLE_INTERVAL_FAST_MS,
        PowerMode::PowerSaver => SAMPLE_INTERVAL_SLOW_MS,
    }
}

/// The counters and the mode of the power-optimized loop; the recent
/// temperatures themselves are kept by the caller, in the slot that
/// `temp_index` names.
#[derive(Debug, Clone, Copy, PartialEq, Eq, Structural)]
pub struct PowerOptimizedSystem {
    pub reading_count: u32,
    pub current_mode: PowerMode,
    pub sample_interval_ms: u32,
    pub temp_index: usize,
}

impl PowerOptimizedSystem {
    /// No reading yet, efficient mode, fast sampling.
    pub fn new() -> (r: Self)
        ensures
            r.reading_count == 0,
            r.current_mode == PowerMode::Efficient,
            r.sample_interval_ms == SAMPLE_INTERVAL_FAST_MS,
            r.temp_index == 0,
    {
        PowerOptimizedSystem {
            reading_count: 0,
            current_mode: PowerMode::Efficient,
            sample_interval_ms: SAMPLE_INTERVAL_FAST_MS,
            temp_index: 0,
        }
    }

    /// Counts a reading stored in slot `temp_index` and moves on to the next
    /// slot of the recent temperatures, round the ring.
    pub fn add_temperature(&mut self)
        requires
            old(self).reading_count < u32::MAX,
            old(self).temp_index < usize::MAX,
        ensures
            final(self).temp_index == (old(self).temp_index + 1) % (RECENT_TEMPERATURES as int),
            final(self).reading_count == old(self).reading_count + 1,
            final(self).current_mode == old(self).current_mode,
            final(self).sample_interval_ms == old(self).sample_interval_ms,
    {
        self.temp_index = (self.temp_index + 1) % RECENT_TEMPERATURES;
        self.reading_count = self.reading_count + 1;
    }

    /// The mode that suits the readings: full speed while overheating,
    /// power saving once more than ten readings were taken and the recent
    /// temperatures are stable, efficient otherwise.
    pub fn determine_optimal_mode(&self, is_overheating: bool, is_stable: bool) -> (r: PowerMode)
        ensures
            r == (if is_overheating {
                PowerMode::HighPerformance
            } else if is_stable && self.reading_count > 10 {
                PowerMode::PowerSaver
            } else {
                PowerMode::Efficient
            }),
    {
        if is_overheating {
            PowerMode::HighPerformance
        } else if is_stable && self.reading_count > 10 {
            PowerMode::PowerSaver
        } else {
            PowerMode::Efficient
        }
    }

    /// Sets the sampling interval that suits `power_mode`.
    pub fn update_sample_interval(&mut self, power_mode: PowerMode)
        ensures
            *final(self) == (PowerOptimizedSystem {
                sample_interval_ms: interval_for(power_mode),
                ..*old(self)
            }),
    {
        self.sample_interval_ms = match power_mode {
            PowerMode::HighPerformance => SAMPLE_INTERVAL_FAST_MS,
            PowerMode::Efficient => SAMPLE_INTERVAL_FAST_MS,
            PowerMode::PowerSaver => SAMPLE_INTERVAL_SLOW_MS,
        };
    }

    /// How long to sleep after an active phase of `active_ms`: the rest of
    /// the sampling interval, or nothing.
    pub fn sleep_time_ms(&self, active_ms: u32) -> (r: u32)
        ensures
            r == (if active_ms <= self.sample_interval_ms {
                self.sample_interval_ms - active_ms
            } else {
                0
            }),
    {
        self.sample_interval_ms.saturating_sub(active_ms)
    }
}

// ---------------------------------------------------------------------------
// The communicating monitor
// ---------------------------------------------------------------------------

/// One step of an LED blink: the LED switched on or off, then held for
/// `hold_ms` milliseconds.
#[derive(Debug, Clone, Copy, PartialEq, Eq, Structural)]
pub struct LedStep {
    pub on: bool,
    pub hold_ms: u32,
}

/// The blink that shows a reading: three quick blinks while overheating, a
/// double blink outside the normal range, a single blink otherwise.
pub open spec fn blink_of(t: Temperature) -> Seq<LedStep> {
    if t.celsius_tenths > 500 {
        seq![
            LedStep { on: true, hold_ms: 100 },
            LedStep { on: false, hold_ms: 100 },
            LedStep { on: true, hold_ms: 100 },
            LedStep { on: false, hold_ms: 100 },
            LedStep { on: true, hold_ms: 100 },
            LedStep { on: false, hold_ms: 100 },
        ]
    } else if !(150 <= t.celsius_tenths <= 350) {
        seq![
            LedStep { on: true, hold_ms: 150 },
            LedStep { on: false, hold_ms: 100 },
            LedStep { on: true, hold_ms: 150 },
            LedStep { on: false, hold_ms: 0 },
        ]
    } else {
        seq![LedStep { on: true, hold_ms: 200 }, LedStep { on: false, hold_ms: 0 }]
    }
}

/// The blink that shows a reading of `temperature`.
pub fn blink_pattern(temperature: &Temperature) -> (r: Vec<LedStep>)
    ensures
        r@ == blink_of(*temperature),
{
    let mut r: Vec<LedStep> = Vec::new();
    if temperature.is_overheating() {
        let mut i: usize = 0;
        while i < 3
            invariant
                i <= 3,
                r@.len() == 2 * i,
                forall|k: int| 0 <= k < r@.len() ==> #[trigger] r@[k] == (LedStep {
                    on: k % 2 == 0,
                    hold_ms: 100,
                }),
            decreases 3 - i,
        {
            r.push(LedStep { on: true, hold_ms: 100 });
            r.push(LedStep { on: false, hold_ms: 100 });
            i = i + 1;
        }
        assert(r@ =~= blink_of(*temperature));
    } else if !temperature.is_normal_range() {
        r.push(LedStep { on: true, hold_ms: 150 });
        r.push(LedStep { on: false, hold_ms: 100 });
        r.push(LedStep { on: true, hold_ms: 150 });
        r.push(LedStep { on: false, hold_ms: 0 });
        assert(r@ =~= blink_of(*temperature));
    } else {
        r.push(LedStep { on: true, hold_ms: 200 });
        r.push(LedStep { on: false, hold_ms: 0 });
        assert(r@ =~= blink_of(*temperature));
    }
    r
}

/// The time stamp of the sample after `reading_count` readings, one
/// second apart.
pub fn sample_time_ms(reading_count: u32) -> (r: u32)
    requires
        reading_count * 1000 <= u32::MAX,
    ensures
        r == reading_count * 1000,
{
    reading_count * 1000
}

} // verus!
