//! The temperature monitor of a device that answers commands: temperatures
//! in tenths of a degree Celsius, timestamped readings, a fixed-capacity
//! buffer of readings and the settings that commands change.
use vstd::prelude::*;
use crate::readings::{after_push, div_toward_zero, is_greatest, is_least, sum_tenths, TenthsBuffer};
use crate::sensor::{push_tenths, sums_fit, tenths_text};

verus! {

broadcast use vstd::string::group_string_axioms;

/// A temperature in tenths of a degree Celsius.
#[derive(Debug, Clone, Copy, PartialEq, Eq, Structural)]
pub struct Temperature {
    pub celsius_tenths: i16,
}

impl Temperature {
    /// A temperature of `tenths` tenths of a degree.
    pub fn from_tenths(tenths: i16) -> (r: Self)
        ensures
            r.celsius_tenths == tenths,
    {
        Temperature { celsius_tenths: tenths }
    }

    /// The temperature in tenths of a degree.
    pub fn tenths(&self) -> (r: i16)
        ensures
            r == self.celsius_tenths,
    {
        self.celsius_tenths
    }

    /// Whether the temperature is between 15 and 35 degrees, both included.
    pub fn is_normal_range(&self) -> (r: bool)
        ensures
            r == (150 <= self.celsius_tenths <= 350),
    {
        self.celsius_tenths >= 150 && self.celsius_tenths <= 350
    }

    /// Whether the temperature is above 50 degrees.
    pub fn is_overheating(&self) -> (r: bool)
        ensures
            r == (self.celsius_tenths > 500),
    {
        self.celsius_tenths > 500
    }

    /// The temperature as text with one decimal, such as `23.7°C`.
    pub fn to_text(&self) -> (r: String)
        ensures
            r@ == tenths_text(self.celsius_tenths as int),
    {
        let mut s = String::new();
        push_tenths(&mut s, self.celsius_tenths);
        s
    }
}

/// A temperature with the time it was taken and the sensor that took it.
#[derive(Debug, Clone, Copy, PartialEq, Eq)]
pub struct TemperatureReading {
    pub temperature: Temperature,
    pub timestamp_ms: u32,
    pub sensor_id: u8,
}

impl TemperatureReading {
    /// A reading of `temperature` at `timestamp_ms` by sensor `sensor_id`.
    pub fn new(temperature: Temperature, timestamp_ms: u32, sensor_id: u8) -> (r: Self)
        ensures
            r.temperature == temperature,
            r.timestamp_ms == timestamp_ms,
            r.sensor_id == sensor_id,
    {
        TemperatureReading { temperature, timestamp_ms, sensor_id }
    }
}

/// The error a command is answered with: its code and message.
pub open spec fn comm_error(code: u8) -> Seq<char> {
    if code == 1 {
        "No readings available"@
    } else if code == 2 {
        "No data for statistics"@
    } else if code == 3 {
        "Rate must be 1-10 Hz"@
    } else {
        "Threshold must be 0-100°C"@
    }
}

/// The message of the error with code `code` (1 to 4).
pub fn comm_error_message(code: u8) -> (r: &'static str)
    ensures
        r@ == comm_error(code),
{
    if code == 1 {
        "No readings available"
    } else if code == 2 {
        "No data for statistics"
    } else if code == 3 {
        "Rate must be 1-10 Hz"
    } else {
        "Threshold must be 0-100°C"
    }
}

/// The share of a buffer's capacity in use, in percent rounded down (0 for
/// a buffer without capacity).
pub open spec fn usage_percent(len: nat, capacity: nat) -> nat {
    if capacity > 0 {
        (len * 100) / capacity
    } else {
        0
    }
}

/// The share of `capacity` that `len` readings use, in percent.
pub fn buffer_usage(len: usize, capacity: usize) -> (r: u8)
    requires
        len <= capacity,
        len * 100 <= usize::MAX,
    ensures
        r == usage_percent(len as nat, capacity as nat),
{
    if capacity > 0 {
        let m = len * 100;
        let p = m / capacity;
        assert(p <= 100) by (nonlinear_arith)
            requires
                len <= capacity,
                capacity > 0,
                m == len * 100,
                p == m / capacity,
        ;
        p as u8
    } else {
        0
    }
}

/// The settings of the monitor that commands read and change, apart from
/// the temperature threshold: the sample rate and the start of uptime.
pub struct CommSettings {
    pub sample_rate_hz: u8,
    pub start_time_ms: u32,
}

impl CommSettings {
    /// One sample per second, uptime counted from 0.
    pub fn new() -> (r: Self)
        ensures
            r.sample_rate_hz == 1,
            r.start_time_ms == 0,
    {
        CommSettings { sample_rate_hz: 1, start_time_ms: 0 }
    }

    /// Counts uptime from `start_time_ms`.
    pub fn init(&mut self, start_time_ms: u32)
        ensures
            final(self).start_time_ms == start_time_ms,
            final(self).sample_rate_hz == old(self).sample_rate_hz,
    {
        self.start_time_ms = start_time_ms;
    }

    /// The time since the start, or 0 for a time before it.
    pub fn uptime(&self, now_ms: u32) -> (r: u32)
        ensures
            r == (if now_ms >= self.start_time_ms { now_ms - self.start_time_ms } else { 0 }),
    {
        now_ms.saturating_sub(self.start_time_ms)
    }

    /// Sets the sample rate when it is 1 to 10 Hz; otherwise refuses with
    /// error code 3.
    pub fn set_sample_rate(&mut self, rate_hz: u8) -> (r: Result<u8, u8>)
        ensures
            1 <= rate_hz <= 10 ==> r == Ok::<u8, u8>(rate_hz) && final(self).sample_rate_hz == rate_hz,
            !(1 <= rate_hz <= 10) ==> r == Err::<u8, u8>(3) && final(self).sample_rate_hz
                == old(self).sample_rate_hz,
            final(self).start_time_ms == old(self).start_time_ms,
    {
        if rate_hz > 0 && rate_hz <= 10 {
            self.sample_rate_hz = rate_hz;
            Ok(rate_hz)
        } else {
            Err(3)
        }
    }

    /// Back to one sample per second, uptime counted from `now_ms`.
    pub fn reset(&mut self, now_ms: u32)
        ensures
            final(self).sample_rate_hz == 1,
            final(self).start_time_ms == now_ms,
    {
        self.start_time_ms = now_ms;
        self.sample_rate_hz = 1;
    }
}

/// The temperatures of a list of tenths.
pub open spec fn temps_of(s: Seq<i16>) -> Seq<Temperature> {
    s.map_values(|t: i16| Temperature { celsius_tenths: t })
}

/// A buffer of at most `N` temperatures, with a count of all readings.
pub struct TemperatureBuffer<const N: usize> {
    inner: TenthsBuffer<N>,
}

impl<const N: usize> TemperatureBuffer<N> {
    /// The stored readings in tenths, oldest first.
    pub closed spec fn values(&self) -> Seq<i16> {
        self.inner.values()
    }

    /// The readings taken since the last clear.
    pub closed spec fn total(&self) -> nat {
        self.inner.total()
    }

    /// An empty buffer.
    pub fn new() -> (r: Self)
        ensures
            r.values() == Seq::<i16>::empty(),
            r.total() == 0,
    {
        TemperatureBuffer { inner: TenthsBuffer::new() }
    }

    /// Adds a reading as the newest one; when the buffer is full, the oldest
    /// reading leaves it first.
    pub fn push(&mut self, temperature: Temperature)
        requires
            N > 0,
            old(self).total() < u32::MAX,
        ensures
            final(self).values() == after_push(old(self).values(), temperature.celsius_tenths, N as nat),
            final(self).values().len() <= N,
            final(self).total() == old(self).total() + 1,
    {
        self.inner.push(temperature.celsius_tenths);
    }

    /// The number of stored readings.
    pub fn len(&self) -> (r: usize)
        ensures
            r == self.values().len(),
            r <= N,
    {
        self.inner.len()
    }

    /// Whether no reading is stored.
    pub fn is_empty(&self) -> (r: bool)
        ensures
            r == (self.values().len() == 0),
    {
        self.inner.is_empty()
    }

    /// The capacity `N`.
    pub fn capacity(&self) -> (r: usize)
        ensures
            r == N,
    {
        N
    }

    /// The newest reading, if any.
    pub fn latest(&self) -> (r: Option<Temperature>)
        ensures
            self.values().len() == 0 ==> r is None,
            self.values().len() > 0 ==> r == Some(Temperature { celsius_tenths: self.values().last() }),
    {
        match self.inner.last() {
            Some(t) => Some(Temperature { celsius_tenths: t }),
            None => None,
        }
    }

    /// The average of the readings, rounded toward zero, if any.
    pub fn average(&self) -> (r: Option<Temperature>)
        requires
            sums_fit(self.values()),
        ensures
            self.values().len() == 0 ==> r is None,
            self.values().len() > 0 ==> r == Some(
                Temperature {
                    celsius_tenths: div_toward_zero(
                        sum_tenths(self.values()),
                        self.values().len() as int,
                    ) as i16,
                },
            ),
    {
        match self.inner.average() {
            Some(t) => Some(Temperature { celsius_tenths: t }),
            None => None,
        }
    }

    /// The lowest reading, if any.
    pub fn min(&self) -> (r: Option<Temperature>)
        ensures
            self.values().len() == 0 ==> r is None,
            self.values().len() > 0 ==> (r matches Some(m) && is_least(self.values(), m.celsius_tenths)),
    {
        match self.inner.min() {
            Some(t) => Some(Temperature { celsius_tenths: t }),
            None => None,
        }
    }

    /// The highest reading, if any.
    pub fn max(&self) -> (r: Option<Temperature>)
        ensures
            self.values().len() == 0 ==> r is None,
            self.values().len() > 0 ==> (r matches Some(m) && is_greatest(self.values(), m.celsius_tenths)),
    {
        match self.inner.max() {
            Some(t) => Some(Temperature { celsius_tenths: t }),
            None => None,
        }
    }

    /// The readings taken since the last clear, overwritten ones included.
    pub fn total_readings(&self) -> (r: u32)
        ensures
            r == self.total(),
    {
        self.inner.total_readings()
    }

    /// Forgets every reading and resets the count.
    pub fn clear(&mut self)
        ensures
            final(self).values() == Seq::<i16>::empty(),
            final(self).total() == 0,
    {
        self.inner.clear();
    }

    /// A copy of the stored readings, oldest first.
    pub fn get_readings(&self) -> (r: Vec<Temperature>)
        ensures
            r@ == temps_of(self.values()),
    {
        let v = self.inner.to_vec();
        let mut r: Vec<Temperature> = Vec::new();
        let mut i: usize = 0;
        while i < v.len()
            invariant
                i <= v@.len(),
                r@ == temps_of(v@.take(i as int)),
            decreases v@.len() - i,
        {
            r.push(Temperature { celsius_tenths: v[i] });
            assert(r@ =~= temps_of(v@.take(i + 1)));
            i = i + 1;
        }
        assert(v@.take(v@.len() as int) =~= v@);
        r
    }
}

} // verus!
